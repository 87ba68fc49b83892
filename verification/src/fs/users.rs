//! Users and groups, looked up by monotonically increasing numeric ids.
//!
//! Ids are handed out by an incrementing counter and never reused, so a
//! store can hold its entries in a vector whose index is the id.

use vstd::prelude::*;

use crate::strutil::str_eq;

verus! {

pub type UserId = u32;

pub type GroupId = u32;

/// One user: id, name, and the ids of the groups it belongs to.
pub struct User {
    pub id: UserId,
    pub name: String,
    pub groups: Vec<GroupId>,
}

impl User {
    pub fn new(id: UserId, name: String) -> (r: User)
        ensures
            r.id == id,
            r.name == name,
            r.groups@ == Seq::<GroupId>::empty(),
    {
        User { id, name, groups: Vec::new() }
    }

    pub fn add_group(&mut self, group_id: GroupId)
        ensures
            final(self).id == old(self).id,
            final(self).name == old(self).name,
            final(self).groups@ == old(self).groups@.push(group_id),
    {
        self.groups.push(group_id);
    }

    /// Drops every membership in `group_id`, keeping the others in order.
    pub fn remove_group(&mut self, group_id: GroupId)
        ensures
            final(self).id == old(self).id,
            final(self).name == old(self).name,
            final(self).groups@ == old(self).groups@.filter(|g: GroupId| g != group_id),
    {
        let ghost all = self.groups@;
        let mut kept: Vec<GroupId> = Vec::new();
        let mut i: usize = 0;
        while i < self.groups.len()
            invariant
                i <= all.len(),
                self.groups@ == all,
                kept@ == all.take(i as int).filter(|g: GroupId| g != group_id),
            decreases self.groups.len() - i,
        {
            proof {
                reveal(Seq::filter);
                assert(all.take(i + 1).drop_last() =~= all.take(i as int));
                assert(all.take(i + 1).last() == all[i as int]);
            }
            let g = self.groups[i];
            if g != group_id {
                kept.push(g);
            }
            i = i + 1;
        }
        proof {
            assert(all.take(all.len() as int) =~= all);
        }
        self.groups = kept;
    }
}

/// Allocates user ids and stores the users, indexed by id.
pub struct UserStore {
    pub users: Vec<User>,
    pub next_user_id: UserId,
}

impl UserStore {
    /// Every user sits at the index equal to its id, and the counter is
    /// one past the last id handed out.
    pub open spec fn wf(self) -> bool {
        &&& self.next_user_id == self.users@.len()
        &&& forall|i: int| 0 <= i < self.users@.len() ==> #[trigger] self.users@[i].id == i
    }

    pub fn new() -> (r: UserStore)
        ensures
            r.wf(),
            r.users@ == Seq::<User>::empty(),
    {
        UserStore { users: Vec::new(), next_user_id: 0 }
    }

    /// Registers a user under a fresh id.  Names are not required to be
    /// unique here; uniqueness is the repository's policy.
    pub fn add_user(&mut self, name: String) -> (id: UserId)
        requires
            old(self).wf(),
            old(self).users@.len() < u32::MAX,
        ensures
            final(self).wf(),
            id == old(self).users@.len(),
            final(self).users@.len() == old(self).users@.len() + 1,
            final(self).users@.drop_last() == old(self).users@,
            final(self).users@.last().id == id,
            final(self).users@.last().name == name,
            final(self).users@.last().groups@ == Seq::<GroupId>::empty(),
    {
        let id = self.next_user_id;
        self.next_user_id = self.next_user_id + 1;
        self.users.push(User::new(id, name));
        proof {
            assert(final(self).users@.drop_last() =~= old(self).users@);
        }
        id
    }

    /// The id of some user with this name, or `None` when no user has it.
    pub fn find_by_username(&self, username: &str) -> (r: Option<UserId>)
        requires
            self.wf(),
        ensures
            match r {
                Some(id) => id < self.users@.len() && self.users@[id as int].name@ == username@,
                None => forall|i: int|
                    0 <= i < self.users@.len() ==> #[trigger] self.users@[i].name@ != username@,
            },
    {
        let mut i: usize = 0;
        while i < self.users.len()
            invariant
                self.wf(),
                i <= self.users@.len(),
                forall|j: int| 0 <= j < i ==> #[trigger] self.users@[j].name@ != username@,
            decreases self.users@.len() - i,
        {
            if str_eq(self.users[i].name.as_str(), username) {
                return Some(self.users[i].id);
            }
            i = i + 1;
        }
        None
    }

    pub fn user(&self, id: UserId) -> (r: Option<&User>)
        ensures
            match r {
                Some(u) => id < self.users@.len() && *u == self.users@[id as int],
                None => id >= self.users@.len(),
            },
    {
        if (id as usize) < self.users.len() {
            Some(&self.users[id as usize])
        } else {
            None
        }
    }

    pub fn user_mut(&mut self, id: UserId) -> (r: Option<&mut User>)
        ensures
            match r {
                Some(u) => {
                    &&& id < old(self).users@.len()
                    &&& *u == old(self).users@[id as int]
                    &&& final(self).users@ == old(self).users@.update(id as int, *final(u))
                    &&& final(self).next_user_id == old(self).next_user_id
                },
                None => {
                    &&& id >= old(self).users@.len()
                    &&& *final(self) == *old(self)
                },
            },
    {
        if (id as usize) < self.users.len() {
            let r = &mut self.users[id as usize];
            Some(r)
        } else {
            None
        }
    }
}

/// One group: id and name.
pub struct Group {
    pub id: GroupId,
    pub name: String,
}

/// Allocates group ids and stores the groups, indexed by id.
pub struct GroupStore {
    pub groups: Vec<Group>,
    pub next_group_id: GroupId,
}

impl GroupStore {
    /// Every group sits at the index equal to its id, and the counter is
    /// one past the last id handed out.
    pub open spec fn wf(self) -> bool {
        &&& self.next_group_id == self.groups@.len()
        &&& forall|i: int| 0 <= i < self.groups@.len() ==> #[trigger] self.groups@[i].id == i
    }

    pub fn new() -> (r: GroupStore)
        ensures
            r.wf(),
            r.groups@ == Seq::<Group>::empty(),
    {
        GroupStore { groups: Vec::new(), next_group_id: 0 }
    }

    /// Registers a group under a fresh id.
    pub fn add_group(&mut self, name: String) -> (id: GroupId)
        requires
            old(self).wf(),
            old(self).groups@.len() < u32::MAX,
        ensures
            final(self).wf(),
            id == old(self).groups@.len(),
            final(self).groups@.len() == old(self).groups@.len() + 1,
            final(self).groups@.drop_last() == old(self).groups@,
            final(self).groups@.last().id == id,
            final(self).groups@.last().name == name,
    {
        let id = self.next_group_id;
        self.next_group_id = self.next_group_id + 1;
        self.groups.push(Group { id, name });
        proof {
            assert(final(self).groups@.drop_last() =~= old(self).groups@);
        }
        id
    }

    pub fn group(&self, id: GroupId) -> (r: Option<&Group>)
        ensures
            match r {
                Some(g) => id < self.groups@.len() && *g == self.groups@[id as int],
                None => id >= self.groups@.len(),
            },
    {
        if (id as usize) < self.groups.len() {
            Some(&self.groups[id as usize])
        } else {
            None
        }
    }
}

} // verus!
