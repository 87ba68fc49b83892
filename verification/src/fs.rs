//! The virtual file system: an arena of inodes rooted at `/`, the
//! identity stores, and the path-addressed repository operations.
//!
//! Inodes live in a vector (the arena) and refer to each other by index:
//! a directory lists its children as name/index entries, and every
//! non-root inode points back at its parent.  A parent always sits at a
//! smaller index than its children, which makes the parent chain acyclic
//! and lets upward walks terminate.

use vstd::prelude::*;

use crate::errors::{FileSystemError, ShellError};
use crate::fs::content::{
    contains_name, entry_for, index_of_name, unique_names, DirEntry, Directory, File, InodeContent,
};
use crate::fs::inode::Inode;
use crate::fs::metadata::InodeMetadata;
use crate::fs::permissions::FilePermissions;
use crate::fs::users::{Group, GroupId, GroupStore, User, UserId, UserStore};
use crate::strutil::{find_last_slash, last_slash, substring};

pub mod content;
pub mod inode;
pub mod laws;
pub mod metadata;
pub mod permissions;
pub mod resolver;
pub mod size;
pub mod users;

verus! {

/// A usable component name: non-empty and free of `/`.
pub open spec fn valid_name(s: Seq<char>) -> bool {
    s.len() > 0 && no_slash(s)
}

/// No character of the sequence is `/`.
pub open spec fn no_slash(s: Seq<char>) -> bool {
    forall|k: int| 0 <= k < s.len() ==> (#[trigger] s[k]) != '/'
}

/// Why a walk over the directory prefix of a path failed.
pub enum WalkFail {
    /// A component is missing from its directory.
    Missing(Seq<char>),
    /// An intermediate component exists but is not a directory.
    NotDir(Seq<char>),
    /// The final component exists but is not a directory.
    Exists(Seq<char>),
}

/// The file system: the inode arena (index 0 is the root directory) and
/// the user and group stores.
pub struct FileSystem {
    pub nodes: Vec<Inode>,
    pub users: UserStore,
    pub groups: GroupStore,
}

impl FileSystem {
    /// The number of arena slots.
    pub open spec fn n(self) -> int {
        self.nodes@.len() as int
    }

    /// Whether slot `i` holds a directory.
    pub open spec fn is_dir(self, i: int) -> bool {
        self.nodes@[i].content matches InodeContent::Directory(_)
    }

    /// The child entries of slot `i` (empty for non-directories).
    pub open spec fn children(self, i: int) -> Seq<DirEntry> {
        match self.nodes@[i].content {
            InodeContent::Directory(d) => d.children@,
            _ => Seq::empty(),
        }
    }

    /// The slot the directory at `i` files under `name`, if any.
    pub open spec fn child(self, i: int, name: Seq<char>) -> Option<int> {
        self.nodes@[i].child_id(name)
    }

    /// A non-root inode points at an earlier slot that holds a
    /// directory, and carries a usable name.
    pub open spec fn node_ok(self, i: int) -> bool {
        &&& self.nodes@[i].parent matches Some(p) && 0 <= p < i && self.is_dir(p as int)
        &&& valid_name(self.nodes@[i].name@)
    }

    /// A directory entry of slot `parent` points at a later slot whose
    /// name and parent pointer agree with the entry.
    pub open spec fn entry_ok(self, parent: int, e: DirEntry) -> bool {
        &&& 1 <= e.inode < self.n()
        &&& self.nodes@[e.inode as int].name@ == e.name@
        &&& self.nodes@[e.inode as int].parent matches Some(q) && q == parent
    }

    /// The children of slot `i`, when it is a directory, have distinct
    /// names and point at consistent slots.
    pub open spec fn dir_ok(self, i: int) -> bool {
        match self.nodes@[i].content {
            InodeContent::Directory(d) => {
                &&& unique_names(d.children@)
                &&& forall|j: int|
                    0 <= j < d.children@.len() ==> self.entry_ok(i, #[trigger] d.children@[j])
            },
            _ => true,
        }
    }

    /// Well-formedness of the whole repository: slot 0 is the nameless
    /// root directory, every other slot is linked below an earlier
    /// directory, every directory's entries are consistent, and the
    /// identity stores are sound.
    pub open spec fn wf(self) -> bool {
        &&& self.n() >= 1
        &&& self.nodes@[0].parent is None
        &&& self.nodes@[0].name@.len() == 0
        &&& self.is_dir(0)
        &&& forall|i: int| 1 <= i < self.n() ==> #[trigger] self.node_ok(i)
        &&& forall|i: int| 0 <= i < self.n() ==> #[trigger] self.dir_ok(i)
        &&& self.users.wf()
        &&& self.groups.wf()
    }

    /// The registered user with this id, if any.
    pub fn get_user(&self, user_id: UserId) -> (r: Option<&User>)
        ensures
            match r {
                Some(u) => (user_id as int) < self.users.users@.len() && *u
                    == self.users.users@[user_id as int],
                None => (user_id as int) >= self.users.users@.len(),
            },
    {
        self.users.user(user_id)
    }

    /// The registered group with this id, if any.
    pub fn get_group(&self, group_id: GroupId) -> (r: Option<&Group>)
        ensures
            match r {
                Some(g) => (group_id as int) < self.groups.groups@.len() && *g
                    == self.groups.groups@[group_id as int],
                None => (group_id as int) >= self.groups.groups@.len(),
            },
    {
        self.groups.group(group_id)
    }

    /// The find machine: consumes the path one character at a time,
    /// accumulating the current component in `acc` and descending by
    /// literal child lookup at every `/` and at the end.  Empty
    /// components are skipped; `.` and `..` are *not* special here, which
    /// matches plain relative lookup.
    pub open spec fn find_from(self, node: int, path: Seq<char>, acc: Seq<char>) -> Option<int>
        decreases path.len(),
    {
        if path.len() == 0 {
            if acc.len() == 0 {
                Some(node)
            } else {
                self.child(node, acc)
            }
        } else if path[0] == '/' {
            if acc.len() == 0 {
                self.find_from(node, path.skip(1), acc)
            } else {
                match self.child(node, acc) {
                    Some(c) => self.find_from(c, path.skip(1), Seq::empty()),
                    None => None,
                }
            }
        } else {
            self.find_from(node, path.skip(1), acc.push(path[0]))
        }
    }

    /// Lookup of an absolute path: the find machine started at the root.
    pub open spec fn find_abs(self, path: Seq<char>) -> Option<int> {
        self.find_from(0, path, Seq::empty())
    }

    /// One component step of the prefix walk: empty and `.` stay, `..`
    /// moves to the parent (the root stays put), and a plain name must
    /// resolve to a directory child.
    pub open spec fn step_comp(self, node: int, comp: Seq<char>, has_more: bool) -> Result<
        int,
        WalkFail,
    > {
        if comp.len() == 0 || comp == seq!['.'] {
            Ok(node)
        } else if comp == seq!['.', '.'] {
            match self.nodes@[node].parent {
                Some(p) => Ok(p as int),
                None => Ok(node),
            }
        } else {
            match self.child(node, comp) {
                Some(c) => if self.is_dir(c) {
                    Ok(c)
                } else if has_more {
                    Err(WalkFail::NotDir(comp))
                } else {
                    Err(WalkFail::Exists(comp))
                },
                None => Err(WalkFail::Missing(comp)),
            }
        }
    }

    /// The walk machine used when creating: like the find machine, but
    /// components are interpreted (`.`, `..`) and every intermediate
    /// component must be a directory.
    pub open spec fn walk_from(self, node: int, path: Seq<char>, acc: Seq<char>) -> Result<
        int,
        WalkFail,
    >
        decreases path.len(),
    {
        if path.len() == 0 {
            if acc.len() == 0 {
                Ok(node)
            } else {
                self.step_comp(node, acc, false)
            }
        } else if path[0] == '/' {
            match self.step_comp(node, acc, true) {
                Ok(m) => self.walk_from(m, path.skip(1), Seq::empty()),
                Err(f) => Err(f),
            }
        } else {
            self.walk_from(node, path.skip(1), acc.push(path[0]))
        }
    }

    /// A successful child lookup lands on a consistent non-root slot.
    pub proof fn lemma_child_in_range(self, i: int, name: Seq<char>)
        requires
            self.wf(),
            0 <= i < self.n(),
            self.child(i, name) is Some,
        ensures
            1 <= self.child(i, name).unwrap() < self.n(),
            self.nodes@[self.child(i, name).unwrap()].name@ == name,
            self.nodes@[self.child(i, name).unwrap()].parent matches Some(q) && q == i,
    {
        assert(self.dir_ok(i));
        match self.nodes@[i].content {
            InodeContent::Directory(d) => {
                let j = choose|j: int| 0 <= j < d.children@.len() && #[trigger] d.children@[j].name@
                    == name;
                assert(self.entry_ok(i, d.children@[j]));
            },
            _ => {},
        }
    }

    /// The find machine only returns slots inside the arena.
    pub proof fn lemma_find_in_range(self, node: int, path: Seq<char>, acc: Seq<char>)
        requires
            self.wf(),
            0 <= node < self.n(),
            self.find_from(node, path, acc) is Some,
        ensures
            0 <= self.find_from(node, path, acc).unwrap() < self.n(),
        decreases path.len(),
    {
        if path.len() == 0 {
            if acc.len() == 0 {
            } else {
                self.lemma_child_in_range(node, acc);
            }
        } else if path[0] == '/' {
            if acc.len() == 0 {
                self.lemma_find_in_range(node, path.skip(1), acc);
            } else {
                match self.child(node, acc) {
                    Some(c) => {
                        self.lemma_child_in_range(node, acc);
                        self.lemma_find_in_range(c, path.skip(1), Seq::empty());
                    },
                    None => {},
                }
            }
        } else {
            self.lemma_find_in_range(node, path.skip(1), acc.push(path[0]));
        }
    }

    /// One successful component step, taken from a directory, lands on a
    /// directory inside the arena.
    pub proof fn lemma_step_comp_ok_dir(self, node: int, comp: Seq<char>, has_more: bool)
        requires
            self.wf(),
            0 <= node < self.n(),
            self.is_dir(node),
        ensures
            self.step_comp(node, comp, has_more) matches Ok(m) ==> 0 <= m < self.n()
                && self.is_dir(m),
    {
        if comp.len() == 0 || comp == seq!['.'] {
        } else if comp == seq!['.', '.'] {
            match self.nodes@[node].parent {
                Some(p) => {
                    if node >= 1 {
                        assert(self.node_ok(node));
                    }
                },
                None => {},
            }
        } else {
            if self.child(node, comp) is Some {
                self.lemma_child_in_range(node, comp);
            }
        }
    }

    /// The relation between a repository and its successor after one
    /// child was added: a fresh slot `id` holding the new inode hangs
    /// under `parent`, whose entry list grew by exactly that name, and
    /// everything else is unchanged.
    pub open spec fn tree_extended(
        old_fs: FileSystem,
        new_fs: FileSystem,
        parent: int,
        name: Seq<char>,
        id: int,
    ) -> bool {
        &&& 0 <= parent < old_fs.n()
        &&& old_fs.is_dir(parent)
        &&& !contains_name(old_fs.children(parent), name)
        &&& valid_name(name)
        &&& id == old_fs.n()
        &&& new_fs.n() == old_fs.n() + 1
        &&& new_fs.nodes@[id].name@ == name
        &&& new_fs.nodes@[id].parent matches Some(q) && q == parent
        &&& new_fs.nodes@[id].metadata == old_fs.nodes@[parent].metadata
        &&& new_fs.is_dir(parent)
        &&& new_fs.children(parent).len() == old_fs.children(parent).len() + 1
        &&& new_fs.children(parent).drop_last() == old_fs.children(parent)
        &&& new_fs.children(parent).last().name@ == name
        &&& new_fs.children(parent).last().inode == id
        &&& new_fs.nodes@[parent].name == old_fs.nodes@[parent].name
        &&& new_fs.nodes@[parent].parent == old_fs.nodes@[parent].parent
        &&& new_fs.nodes@[parent].metadata == old_fs.nodes@[parent].metadata
        &&& forall|k: int|
            0 <= k < old_fs.n() && k != parent ==> new_fs.nodes@[k] == #[trigger] old_fs.nodes@[k]
        &&& new_fs.users == old_fs.users
        &&& new_fs.groups == old_fs.groups
    }

    /// Adding one child under a well-formed repository keeps it
    /// well-formed, provided a fresh directory starts empty.
    pub proof fn lemma_tree_extended_wf(
        old_fs: FileSystem,
        new_fs: FileSystem,
        parent: int,
        name: Seq<char>,
        id: int,
    )
        requires
            old_fs.wf(),
            FileSystem::tree_extended(old_fs, new_fs, parent, name, id),
            new_fs.nodes@[id].content matches InodeContent::Directory(d) ==> d.children@.len()
                == 0,
            new_fs.users.wf(),
            new_fs.groups.wf(),
        ensures
            new_fs.wf(),
    {
        assert(new_fs.nodes@[0].parent is None && new_fs.nodes@[0].name@.len() == 0) by {
            if parent == 0 {
            } else {
                assert(new_fs.nodes@[0] == old_fs.nodes@[0]);
            }
        }
        assert(new_fs.is_dir(0)) by {
            if parent == 0 {
            } else {
                assert(new_fs.nodes@[0] == old_fs.nodes@[0]);
            }
        }
        assert forall|i: int| 1 <= i < new_fs.n() implies #[trigger] new_fs.node_ok(i) by {
            if i == id {
                assert(old_fs.is_dir(parent));
                if parent == 0 {
                } else {
                    assert(new_fs.nodes@[parent].content matches InodeContent::Directory(_));
                }
            } else if i == parent {
                assert(old_fs.node_ok(i));
                let p = new_fs.nodes@[i].parent.unwrap() as int;
                assert(old_fs.nodes@[i].parent == new_fs.nodes@[i].parent);
                if p == parent {
                    assert(false);
                } else {
                    assert(new_fs.nodes@[p] == old_fs.nodes@[p]);
                }
            } else {
                assert(new_fs.nodes@[i] == old_fs.nodes@[i]);
                assert(old_fs.node_ok(i));
                let p = new_fs.nodes@[i].parent.unwrap() as int;
                if p == parent {
                    assert(new_fs.is_dir(p));
                } else {
                    assert(new_fs.nodes@[p] == old_fs.nodes@[p]);
                }
            }
        }
        assert forall|i: int| 0 <= i < new_fs.n() implies #[trigger] new_fs.dir_ok(i) by {
            if i == id {
            } else if i == parent {
                assert(old_fs.dir_ok(i));
                let cs_old = old_fs.children(parent);
                let cs_new = new_fs.children(parent);
                assert forall|j: int| 0 <= j < cs_new.len() implies new_fs.entry_ok(
                    i,
                    #[trigger] cs_new[j],
                ) by {
                    if j < cs_old.len() {
                        assert(cs_new[j] == cs_new.drop_last()[j]);
                        assert(cs_new[j] == cs_old[j]);
                        assert(old_fs.entry_ok(i, cs_old[j]));
                        let c = cs_old[j].inode as int;
                        if c == parent {
                            assert(old_fs.node_ok(c));
                            assert(false);
                        } else if c == id {
                            assert(false);
                        } else {
                            assert(new_fs.nodes@[c] == old_fs.nodes@[c]);
                        }
                    } else {
                        assert(cs_new[j] == cs_new.last());
                    }
                }
                assert(unique_names(cs_new)) by {
                    assert forall|a: int, b: int| 0 <= a < b < cs_new.len() implies (
                    #[trigger] cs_new[a].name@) != (#[trigger] cs_new[b].name@) by {
                        if b < cs_old.len() {
                            assert(cs_new[a] == cs_new.drop_last()[a]);
                            assert(cs_new[b] == cs_new.drop_last()[b]);
                        } else {
                            assert(cs_new[a] == cs_new.drop_last()[a]);
                            assert(cs_new[a] == cs_old[a]);
                            assert(cs_new[b] == cs_new.last());
                            if cs_old[a].name@ == name {
                                assert(contains_name(cs_old, name));
                            }
                        }
                    }
                }
            } else if i < old_fs.n() {
                assert(new_fs.nodes@[i] == old_fs.nodes@[i]);
                assert(old_fs.dir_ok(i));
                match new_fs.nodes@[i].content {
                    InodeContent::Directory(d) => {
                        assert forall|j: int| 0 <= j < d.children@.len() implies new_fs.entry_ok(
                            i,
                            #[trigger] d.children@[j],
                        ) by {
                            assert(old_fs.entry_ok(i, d.children@[j]));
                            let c = d.children@[j].inode as int;
                            if c == parent {
                                assert(new_fs.nodes@[c].name == old_fs.nodes@[c].name);
                            } else {
                                assert(new_fs.nodes@[c] == old_fs.nodes@[c]);
                            }
                        }
                    },
                    _ => {},
                }
            }
        }
    }

    /// The slot the directory at `node` files under `name`, as an
    /// executable lookup.
    pub fn find_child_of(&self, node: usize, name: &str) -> (r: Option<usize>)
        requires
            self.wf(),
            node < self.nodes@.len(),
        ensures
            match r {
                Some(c) => {
                    &&& self.child(node as int, name@) == Some(c as int)
                    &&& 1 <= c < self.nodes@.len()
                },
                None => self.child(node as int, name@) is None,
            },
    {
        proof {
            assert(self.dir_ok(node as int));
        }
        let r = self.nodes[node].find_child(name);
        proof {
            if r is Some {
                self.lemma_child_in_range(node as int, name@);
            }
        }
        r
    }

    /// Appends a fresh inode under the directory at `parent`.  Fails
    /// with an internal error when `parent` is not a directory or the
    /// name is empty, and with `EntryAlreadyExists` when the name is
    /// taken; the repository is then unchanged.
    pub fn add_child(&mut self, parent: usize, child_name: &str, inode_content: InodeContent) -> (r:
        Result<usize, ShellError>)
        requires
            old(self).wf(),
            parent < old(self).nodes@.len(),
            no_slash(child_name@),
            inode_content matches InodeContent::Directory(d) ==> d.children@.len() == 0,
        ensures
            final(self).wf(),
            match r {
                Ok(id) => {
                    &&& FileSystem::tree_extended(
                        *old(self),
                        *final(self),
                        parent as int,
                        child_name@,
                        id as int,
                    )
                    &&& final(self).nodes@[id as int].content == inode_content
                },
                Err(e) => {
                    &&& *final(self) == *old(self)
                    &&& (e matches ShellError::Internal(_) && (!old(self).is_dir(parent as int)
                        || child_name@.len() == 0)) || (e matches ShellError::FileSystem(
                        FileSystemError::EntryAlreadyExists(nm),
                    ) && nm@ == child_name@ && old(self).is_dir(parent as int)
                        && child_name@.len() > 0 && contains_name(
                        old(self).children(parent as int),
                        child_name@,
                    ))
                },
            },
    {
        let id = self.nodes.len();
        let is_directory = match &self.nodes[parent].content {
            InodeContent::Directory(_) => true,
            _ => false,
        };
        if !is_directory {
            return Err(
                ShellError::Internal(
                    "Tried to add a child to an inode that is not a directory".to_owned(),
                ),
            );
        }
        if child_name.unicode_len() == 0 {
            return Err(
                ShellError::Internal(
                    "Cannot create an inode with an empty name and a parent".to_owned(),
                ),
            );
        }
        if let Some(_) = self.find_child_of(parent, child_name) {
            return Err(
                ShellError::FileSystem(FileSystemError::EntryAlreadyExists(child_name.to_owned())),
            );
        }
        let metadata = self.nodes[parent].metadata.clone();
        let inode = Inode {
            name: child_name.to_owned(),
            content: inode_content,
            metadata,
            parent: Some(parent),
        };
        self.nodes.push(inode);
        proof {
            assert(self.nodes@[parent as int] == old(self).nodes@[parent as int]);
        }
        let node = &mut self.nodes[parent];
        match &mut node.content {
            InodeContent::Directory(dir) => {
                dir.children.push(DirEntry { name: child_name.to_owned(), inode: id });
            },
            _ => {
                proof {
                    assert(false);
                }
            },
        }
        proof {
            let oldf = *old(self);
            let newf = *self;
            assert(newf.children(parent as int).drop_last() =~= oldf.children(parent as int));
            assert forall|k: int|
                0 <= k < oldf.n() && k != parent implies newf.nodes@[k] == #[trigger] oldf.nodes@[k]
            by {}
            assert(FileSystem::tree_extended(oldf, newf, parent as int, child_name@, id as int));
            FileSystem::lemma_tree_extended_wf(oldf, newf, parent as int, child_name@, id as int);
        }
        Ok(id)
    }
}

/// Whether the shell error is the surface form of the walk failure.
pub open spec fn walk_err_matches(e: ShellError, f: WalkFail) -> bool {
    match f {
        WalkFail::Missing(nm) => e matches ShellError::FileSystem(FileSystemError::EntryNotFound(
            s,
        )) && s@ == nm,
        WalkFail::NotDir(nm) => e matches ShellError::FileSystem(FileSystemError::NotADirectory(s))
            && s@ == nm,
        WalkFail::Exists(nm) => e matches ShellError::FileSystem(
            FileSystemError::EntryAlreadyExists(s),
        ) && s@ == nm,
    }
}

impl FileSystem {
    /// What creating an entry at `path` does: on success, a fresh inode
    /// hangs under the directory the prefix walk reached, and on failure
    /// the repository is unchanged and the error names the offending
    /// component.
    pub open spec fn create_outcome(
        old_fs: FileSystem,
        new_fs: FileSystem,
        path: Seq<char>,
        r: Result<usize, ShellError>,
        make_dir: bool,
    ) -> bool {
        let cut = last_slash(path) + 1;
        let prefix = path.subrange(0, cut);
        let leaf = path.subrange(cut, path.len() as int);
        match r {
            Ok(id) => {
                &&& old_fs.walk_from(0, prefix, Seq::empty()) matches Ok(p)
                    && FileSystem::tree_extended(old_fs, new_fs, p, leaf, id as int)
                &&& if make_dir {
                    new_fs.nodes@[id as int].content matches InodeContent::Directory(d)
                        && d.children@.len() == 0
                } else {
                    new_fs.nodes@[id as int].content matches InodeContent::File(f)
                        && f.content@.len() == 0
                }
            },
            Err(e) => {
                &&& new_fs == old_fs
                &&& match old_fs.walk_from(0, prefix, Seq::empty()) {
                    Err(f) => walk_err_matches(e, f),
                    Ok(p) => {
                        if leaf.len() == 0 {
                            e matches ShellError::Internal(_)
                        } else {
                            &&& contains_name(old_fs.children(p), leaf)
                            &&& e matches ShellError::FileSystem(
                                FileSystemError::EntryAlreadyExists(s),
                            ) && s@ == leaf
                        }
                    },
                }
            },
        }
    }

    /// What removing the entry at `path` does: the parent prefix is
    /// located by plain lookup, and on success exactly the named entry
    /// disappears from it.
    pub open spec fn remove_outcome(
        old_fs: FileSystem,
        new_fs: FileSystem,
        path: Seq<char>,
        r: Result<(), ShellError>,
    ) -> bool {
        let cut = last_slash(path) + 1;
        let prefix = path.subrange(0, cut);
        let leaf = path.subrange(cut, path.len() as int);
        match r {
            Ok(_) => old_fs.find_abs(prefix) matches Some(d) && {
                &&& old_fs.is_dir(d)
                &&& contains_name(old_fs.children(d), leaf)
                &&& FileSystem::child_detached(old_fs, new_fs, d, leaf)
            },
            Err(e) => {
                &&& new_fs == old_fs
                &&& match old_fs.find_abs(prefix) {
                    None => e matches ShellError::FileSystem(FileSystemError::DirectoryNotFound(
                        _,
                    )),
                    Some(d) => {
                        &&& !old_fs.is_dir(d) || !contains_name(old_fs.children(d), leaf)
                        &&& e matches ShellError::FileSystem(FileSystemError::EntryNotFound(s))
                            && s@ == leaf
                    },
                }
            },
        }
    }

    /// The relation between a repository and its successor after the
    /// entry `name` of directory `d` was detached: that entry is gone,
    /// the arena itself and everything else is unchanged (the detached
    /// subtree's slots merely become unreachable).
    pub open spec fn child_detached(
        old_fs: FileSystem,
        new_fs: FileSystem,
        d: int,
        name: Seq<char>,
    ) -> bool {
        &&& 0 <= d < old_fs.n()
        &&& new_fs.n() == old_fs.n()
        &&& forall|k: int|
            0 <= k < old_fs.n() && k != d ==> new_fs.nodes@[k] == #[trigger] old_fs.nodes@[k]
        &&& new_fs.nodes@[d].name == old_fs.nodes@[d].name
        &&& new_fs.nodes@[d].parent == old_fs.nodes@[d].parent
        &&& new_fs.nodes@[d].metadata == old_fs.nodes@[d].metadata
        &&& new_fs.is_dir(d)
        &&& contains_name(old_fs.children(d), name)
        &&& 0 <= index_of_name(old_fs.children(d), name) < old_fs.children(d).len()
        &&& new_fs.children(d) == old_fs.children(d).remove(
            index_of_name(old_fs.children(d), name),
        )
        &&& !contains_name(new_fs.children(d), name)
        &&& new_fs.users == old_fs.users
        &&& new_fs.groups == old_fs.groups
    }

    /// One component step of the executable walk, with the walk failure
    /// mapped to its shell error.
    fn walk_step(&self, node: usize, name: &str, has_more: bool) -> (r: Result<usize, ShellError>)
        requires
            self.wf(),
            node < self.nodes@.len(),
            self.is_dir(node as int),
        ensures
            match r {
                Ok(m) => {
                    &&& self.step_comp(node as int, name@, has_more) == Ok::<int, WalkFail>(
                        m as int,
                    )
                    &&& m < self.nodes@.len()
                    &&& self.is_dir(m as int)
                },
                Err(e) => self.step_comp(node as int, name@, has_more) matches Err(f)
                    && walk_err_matches(e, f),
            },
    {
        let n = name.unicode_len();
        if n == 0 {
            return Ok(node);
        }
        if n == 1 && name.get_char(0) == '.' {
            proof {
                assert(name@ =~= seq!['.']);
            }
            return Ok(node);
        }
        if n == 2 && name.get_char(0) == '.' && name.get_char(1) == '.' {
            proof {
                assert(name@ =~= seq!['.', '.']);
            }
            match self.nodes[node].parent {
                Some(p) => {
                    proof {
                        assert(node >= 1);
                        assert(self.node_ok(node as int));
                    }
                    return Ok(p);
                },
                None => {
                    return Ok(node);
                },
            }
        }
        proof {
            assert(name@ != seq!['.']) by {
                if name@ == seq!['.'] {
                    assert(name@.len() == 1 && name@[0] == '.');
                }
            }
            assert(name@ != seq!['.', '.']) by {
                if name@ == seq!['.', '.'] {
                    assert(name@.len() == 2 && name@[0] == '.' && name@[1] == '.');
                }
            }
        }
        match self.find_child_of(node, name) {
            Some(c) => {
                let is_directory = match &self.nodes[c].content {
                    InodeContent::Directory(_) => true,
                    _ => false,
                };
                if is_directory {
                    Ok(c)
                } else if has_more {
                    Err(ShellError::FileSystem(FileSystemError::NotADirectory(name.to_owned())))
                } else {
                    Err(ShellError::FileSystem(FileSystemError::EntryAlreadyExists(name.to_owned())))
                }
            },
            None => Err(ShellError::FileSystem(FileSystemError::EntryNotFound(name.to_owned()))),
        }
    }

    /// The executable walk over a directory prefix, starting at the
    /// root, with components interpreted as [`Self::walk_from`] says.
    fn walk_prefix(&self, prefix: &str) -> (r: Result<usize, ShellError>)
        requires
            self.wf(),
        ensures
            match r {
                Ok(d) => {
                    &&& self.walk_from(0, prefix@, Seq::empty()) == Ok::<int, WalkFail>(d as int)
                    &&& d < self.nodes@.len()
                    &&& self.is_dir(d as int)
                },
                Err(e) => self.walk_from(0, prefix@, Seq::empty()) matches Err(f)
                    && walk_err_matches(e, f),
            },
    {
        let len = prefix.unicode_len();
        let mut node: usize = 0;
        let mut pos: usize = 0;
        let mut start: usize = 0;
        proof {
            assert(prefix@.skip(0) =~= prefix@);
            assert(prefix@.subrange(0, 0) =~= Seq::<char>::empty());
        }
        while pos < len
            invariant
                self.wf(),
                len == prefix@.len(),
                start <= pos <= len,
                node < self.nodes@.len(),
                self.is_dir(node as int),
                self.walk_from(0, prefix@, Seq::empty()) == self.walk_from(
                    node as int,
                    prefix@.skip(pos as int),
                    prefix@.subrange(start as int, pos as int),
                ),
            decreases len - pos,
        {
            let ghost rest = prefix@.skip(pos as int);
            let ghost acc = prefix@.subrange(start as int, pos as int);
            proof {
                assert(rest[0] == prefix@[pos as int]);
                assert(rest.skip(1) =~= prefix@.skip(pos + 1));
            }
            let c = prefix.get_char(pos);
            if c == '/' {
                proof {
                    assert(prefix@.subrange(pos + 1, pos + 1) =~= Seq::<char>::empty());
                }
                let name = substring(prefix, start, pos);
                match self.walk_step(node, name.as_str(), true) {
                    Ok(m) => {
                        node = m;
                    },
                    Err(e) => {
                        return Err(e);
                    },
                }
                start = pos + 1;
            } else {
                proof {
                    assert(acc.push(rest[0]) =~= prefix@.subrange(start as int, pos + 1));
                }
            }
            pos = pos + 1;
        }
        proof {
            assert(prefix@.skip(len as int) =~= Seq::<char>::empty());
        }
        if start == len {
            return Ok(node);
        }
        let name = substring(prefix, start, len);
        match self.walk_step(node, name.as_str(), false) {
            Ok(m) => Ok(m),
            Err(e) => Err(e),
        }
    }

    /// Splits an absolute path at its last `/` into the directory prefix
    /// (slash included) and the leaf name.
    fn split_leaf(path: &str) -> (r: (String, String))
        requires
            path@.len() > 0,
            path@[0] == '/',
        ensures
            r.0@ == path@.subrange(0, last_slash(path@) + 1),
            r.1@ == path@.subrange(last_slash(path@) + 1, path@.len() as int),
            no_slash(r.1@),
    {
        let len = path.unicode_len();
        match find_last_slash(path) {
            Some(i) => {
                let prefix = substring(path, 0, i + 1);
                let leaf = substring(path, i + 1, len);
                (prefix, leaf)
            },
            None => {
                proof {
                    assert(false);
                }
                vstd::pervasive::unreached()
            },
        }
    }

    /// Creates a regular, empty file at an absolute path.
    pub fn create_file(&mut self, path: &str) -> (r: Result<usize, ShellError>)
        requires
            old(self).wf(),
            path@.len() > 0,
            path@[0] == '/',
        ensures
            final(self).wf(),
            FileSystem::create_outcome(*old(self), *final(self), path@, r, false),
    {
        let (prefix, leaf) = Self::split_leaf(path);
        let d = match self.walk_prefix(prefix.as_str()) {
            Ok(d) => d,
            Err(e) => {
                return Err(e);
            },
        };
        match self.add_child(d, leaf.as_str(), InodeContent::File(File::new())) {
            Ok(id) => Ok(id),
            Err(e) => Err(e),
        }
    }

    /// Creates an empty directory at an absolute path.
    pub fn create_directory(&mut self, path: &str) -> (r: Result<usize, ShellError>)
        requires
            old(self).wf(),
            path@.len() > 0,
            path@[0] == '/',
        ensures
            final(self).wf(),
            FileSystem::create_outcome(*old(self), *final(self), path@, r, true),
    {
        let (prefix, leaf) = Self::split_leaf(path);
        let d = match self.walk_prefix(prefix.as_str()) {
            Ok(d) => d,
            Err(e) => {
                return Err(e);
            },
        };
        match self.add_child(d, leaf.as_str(), InodeContent::Directory(Directory::new())) {
            Ok(id) => Ok(id),
            Err(e) => Err(e),
        }
    }

    /// Looks up an absolute path from the root by literal components.
    pub fn find_absolute_inode(&self, path: &str) -> (r: Option<usize>)
        requires
            self.wf(),
        ensures
            match r {
                Some(c) => self.find_abs(path@) == Some(c as int) && c < self.nodes@.len(),
                None => self.find_abs(path@) is None,
            },
    {
        find_relative_inode(self, 0, path)
    }

    /// Detaches the leaf entry of an absolute path from its parent
    /// directory.  The detached subtree's slots stay in the arena but
    /// become unreachable.
    pub fn remove_inode(&mut self, path: &str) -> (r: Result<(), ShellError>)
        requires
            old(self).wf(),
            path@.len() > 0,
            path@[0] == '/',
        ensures
            final(self).wf(),
            FileSystem::remove_outcome(*old(self), *final(self), path@, r),
    {
        let (prefix, leaf) = Self::split_leaf(path);
        let d = match self.find_absolute_inode(prefix.as_str()) {
            Some(d) => d,
            None => {
                return Err(
                    ShellError::FileSystem(
                        FileSystemError::DirectoryNotFound(
                            "Parent directory does not exist".to_owned(),
                        ),
                    ),
                );
            },
        };
        let is_directory = match &self.nodes[d].content {
            InodeContent::Directory(_) => true,
            _ => false,
        };
        if !is_directory {
            return Err(
                ShellError::FileSystem(FileSystemError::EntryNotFound(leaf.as_str().to_owned())),
            );
        }
        if self.find_child_of(d, leaf.as_str()).is_none() {
            return Err(
                ShellError::FileSystem(FileSystemError::EntryNotFound(leaf.as_str().to_owned())),
            );
        }
        proof {
            assert(self.dir_ok(d as int));
        }
        let node = &mut self.nodes[d];
        match &mut node.content {
            InodeContent::Directory(dir) => {
                dir.remove_child(leaf.as_str());
            },
            _ => {
                proof {
                    assert(false);
                }
            },
        }
        proof {
            let oldf = *old(self);
            let newf = *self;
            assert forall|k: int|
                0 <= k < oldf.n() && k != d implies newf.nodes@[k] == #[trigger] oldf.nodes@[k]
            by {}
            assert(newf.n() == oldf.n());
            assert(newf.nodes@[d as int].name == oldf.nodes@[d as int].name);
            assert(newf.nodes@[d as int].parent == oldf.nodes@[d as int].parent);
            assert(newf.nodes@[d as int].metadata == oldf.nodes@[d as int].metadata);
            assert(newf.is_dir(d as int));
            assert(!contains_name(newf.children(d as int), leaf@));
            assert(newf.users == oldf.users);
            assert(newf.groups == oldf.groups);
            assert(FileSystem::child_detached(oldf, newf, d as int, leaf@));
            FileSystem::lemma_child_detached_wf(oldf, newf, d as int, leaf@);
        }
        Ok(())
    }

    /// Detaching one directory entry keeps the repository well-formed.
    pub proof fn lemma_child_detached_wf(
        old_fs: FileSystem,
        new_fs: FileSystem,
        d: int,
        name: Seq<char>,
    )
        requires
            old_fs.wf(),
            FileSystem::child_detached(old_fs, new_fs, d, name),
        ensures
            new_fs.wf(),
    {
        let j = index_of_name(old_fs.children(d), name);
        assert(old_fs.children(d)[j].name@ == name);
        old_fs.children(d).remove_ensures(j);
        assert(new_fs.nodes@[0].parent is None && new_fs.nodes@[0].name@.len() == 0 && new_fs.is_dir(
            0,
        )) by {
            if d == 0 {
            } else {
                assert(new_fs.nodes@[0] == old_fs.nodes@[0]);
            }
        }
        assert forall|i: int| 1 <= i < new_fs.n() implies #[trigger] new_fs.node_ok(i) by {
            assert(old_fs.node_ok(i));
            if i == d {
            } else {
                assert(new_fs.nodes@[i] == old_fs.nodes@[i]);
            }
            let p = new_fs.nodes@[i].parent.unwrap() as int;
            if p == d {
            } else {
                assert(new_fs.nodes@[p] == old_fs.nodes@[p]);
            }
        }
        assert forall|i: int| 0 <= i < new_fs.n() implies #[trigger] new_fs.dir_ok(i) by {
            assert(old_fs.dir_ok(i));
            if i == d {
                let cs_old = old_fs.children(d);
                let cs_new = new_fs.children(d);
                assert(unique_names(cs_new)) by {
                    assert forall|a: int, b: int| 0 <= a < b < cs_new.len() implies (
                    #[trigger] cs_new[a].name@) != (#[trigger] cs_new[b].name@) by {
                        let a0 = if a < j {
                            a
                        } else {
                            a + 1
                        };
                        let b0 = if b < j {
                            b
                        } else {
                            b + 1
                        };
                        assert(cs_new[a] == cs_old[a0]);
                        assert(cs_new[b] == cs_old[b0]);
                        assert(cs_old[a0].name@ != cs_old[b0].name@);
                    }
                }
                assert forall|k: int| 0 <= k < cs_new.len() implies new_fs.entry_ok(
                    i,
                    #[trigger] cs_new[k],
                ) by {
                    let k0 = if k < j {
                        k
                    } else {
                        k + 1
                    };
                    assert(cs_new[k] == cs_old[k0]);
                    assert(old_fs.entry_ok(i, cs_old[k0]));
                    let c = cs_old[k0].inode as int;
                    assert(old_fs.node_ok(c));
                    if c == d {
                        assert(false);
                    } else {
                        assert(new_fs.nodes@[c] == old_fs.nodes@[c]);
                    }
                }
            } else {
                assert(new_fs.nodes@[i] == old_fs.nodes@[i]);
                match new_fs.nodes@[i].content {
                    InodeContent::Directory(dd) => {
                        assert forall|k: int| 0 <= k < dd.children@.len() implies new_fs.entry_ok(
                            i,
                            #[trigger] dd.children@[k],
                        ) by {
                            assert(old_fs.entry_ok(i, dd.children@[k]));
                            let c = dd.children@[k].inode as int;
                            if c == d {
                                assert(new_fs.nodes@[c].name == old_fs.nodes@[c].name);
                            } else {
                                assert(new_fs.nodes@[c] == old_fs.nodes@[c]);
                            }
                        }
                    },
                    _ => {},
                }
            }
        }
    }

    /// The absolute path of the inode in slot `i`, read off the parent
    /// chain: `/` for the root, and the parent's path joined with the
    /// inode's own name otherwise.
    pub open spec fn path_of(self, i: int) -> Seq<char>
        decreases i,
    {
        match self.nodes@[i].parent {
            None => seq!['/'],
            Some(p) => if 0 <= p < i {
                let pp = self.path_of(p as int);
                if pp == seq!['/'] {
                    pp + self.nodes@[i].name@
                } else {
                    pp + seq!['/'] + self.nodes@[i].name@
                }
            } else {
                Seq::empty()
            },
        }
    }

    /// The absolute path of an inode, reconstructed through the parent
    /// chain.  The result type keeps an error slot for a broken parent
    /// back-reference, but with an arena a parent can never be missing,
    /// so this always succeeds.
    pub fn path(&self, node: usize) -> (r: Result<String, ShellError>)
        requires
            self.wf(),
            node < self.nodes@.len(),
        ensures
            r matches Ok(s) && s@ == self.path_of(node as int),
        decreases node,
    {
        proof {
            reveal_strlit("/");
            assert("/"@ =~= seq!['/']);
        }
        match self.nodes[node].parent {
            None => Ok("/".to_owned()),
            Some(p) => {
                proof {
                    assert(node >= 1);
                    assert(self.node_ok(node as int));
                }
                let parent_path = match self.path(p) {
                    Ok(s) => s,
                    Err(e) => {
                        return Err(e);
                    },
                };
                let name = self.nodes[node].name.as_str();
                if crate::strutil::str_eq(parent_path.as_str(), "/") {
                    Ok(crate::strutil::concat_str(parent_path.as_str(), name))
                } else {
                    let head = crate::strutil::concat_str(parent_path.as_str(), "/");
                    Ok(crate::strutil::concat_str(head.as_str(), name))
                }
            },
        }
    }

    /// A fresh repository: the root user and group (both id 0), and a
    /// root directory owned by them with mode `0o755`.
    pub fn new() -> (r: FileSystem)
        ensures
            r.wf(),
            r.nodes@.len() == 1,
            r.children(0).len() == 0,
            r.nodes@[0].metadata.permissions.mode == 0o755,
            r.nodes@[0].metadata.owner == 0,
            r.nodes@[0].metadata.group == 0,
            r.users.users@.len() == 1,
            r.users.users@[0].name@ == "root"@,
            r.users.users@[0].groups@ == Seq::<GroupId>::empty().push(0),
            r.groups.groups@.len() == 1,
            r.groups.groups@[0].name@ == "root"@,
    {
        let mut groups = GroupStore::new();
        let mut users = UserStore::new();
        let root_group_id = groups.add_group("root".to_owned());
        let root_user_id = users.add_user("root".to_owned());
        match users.user_mut(root_user_id) {
            Some(user) => {
                user.add_group(root_group_id);
            },
            None => {
                proof {
                    assert(false);
                }
            },
        }
        let root = Inode {
            name: String::new(),
            content: InodeContent::Directory(Directory::new()),
            metadata: InodeMetadata::new(
                FilePermissions::from_mode(0o755),
                root_user_id,
                root_group_id,
            ),
            parent: None,
        };
        let mut nodes: Vec<Inode> = Vec::new();
        nodes.push(root);
        let r = FileSystem { nodes, users, groups };
        proof {
            assert(r.users.wf()) by {
                assert(r.users.users@.len() == 1);
                assert(r.users.users@[0].id == 0);
            }
            assert(r.users.users@[0].groups@ =~= Seq::<GroupId>::empty().push(0));
        }
        r
    }
}

impl FileSystem {
    /// Whether some registered user carries this name.
    pub open spec fn username_taken(self, username: Seq<char>) -> bool {
        exists|i: int|
            0 <= i < self.users.users@.len() && (#[trigger] self.users.users@[i].name@) == username
    }

    /// The conditions under which [`Self::add_user`] is owed success: the
    /// name is a usable component, no user has it yet, and `/home` (when
    /// it exists) is a directory with no entry of that name.
    pub open spec fn can_add_user(self, username: Seq<char>) -> bool {
        &&& valid_name(username)
        &&& username != seq!['.']
        &&& username != seq!['.', '.']
        &&& !self.username_taken(username)
        &&& match self.find_abs("/home"@) {
            Some(h) => self.is_dir(h) && self.child(h, username) is None,
            None => true,
        }
    }

    /// The root prefix `/` walks to the root.
    proof fn lemma_walk_root_prefix(self)
        ensures
            self.walk_from(0, seq!['/'], Seq::empty()) == Ok::<int, WalkFail>(0),
    {
        let e = Seq::<char>::empty();
        assert(seq!['/'].skip(1) =~= e);
        assert(self.walk_from(0, e, e) == Ok::<int, WalkFail>(0));
        assert(self.walk_from(0, seq!['/'], e) == self.walk_from(0, e, e));
    }

    /// Two repositories with the same inode arena agree on everything
    /// the tree invariants and lookups read.
    pub proof fn lemma_wf_same_tree(a: FileSystem, b: FileSystem)
        requires
            a.wf(),
            b.nodes@ == a.nodes@,
            b.users.wf(),
            b.groups.wf(),
        ensures
            b.wf(),
    {
        assert(b.nodes@[0] == a.nodes@[0]);
        assert forall|i: int| 1 <= i < b.n() implies #[trigger] b.node_ok(i) by {
            assert(a.node_ok(i));
            assert(b.nodes@[i] == a.nodes@[i]);
            let p = b.nodes@[i].parent.unwrap() as int;
            assert(b.nodes@[p] == a.nodes@[p]);
        }
        assert forall|i: int| 0 <= i < b.n() implies #[trigger] b.dir_ok(i) by {
            assert(a.dir_ok(i));
            assert(b.nodes@[i] == a.nodes@[i]);
            match b.nodes@[i].content {
                InodeContent::Directory(d) => {
                    assert forall|j: int| 0 <= j < d.children@.len() implies b.entry_ok(
                        i,
                        #[trigger] d.children@[j],
                    ) by {
                        assert(a.entry_ok(i, d.children@[j]));
                        let c = d.children@[j].inode as int;
                        assert(b.nodes@[c] == a.nodes@[c]);
                    }
                },
                _ => {},
            }
        }
    }

    /// Walking the prefix `/home/` is exactly one interpreted step on
    /// the component `home`, taken from the root.
    proof fn lemma_walk_home_prefix(self)
        ensures
            self.walk_from(0, "/home/"@, Seq::empty()) == (match self.step_comp(
                0,
                "home"@,
                true,
            ) {
                Ok(m) => Ok::<int, WalkFail>(m),
                Err(f) => Err::<int, WalkFail>(f),
            }),
    {
        reveal_strlit("/home/");
        reveal_strlit("home");
        let s0 = "/home/"@;
        let s1 = seq!['h', 'o', 'm', 'e', '/'];
        let s2 = seq!['o', 'm', 'e', '/'];
        let s3 = seq!['m', 'e', '/'];
        let s4 = seq!['e', '/'];
        let s5 = seq!['/'];
        let e = Seq::<char>::empty();
        assert(s0.skip(1) =~= s1);
        assert(s1.skip(1) =~= s2);
        assert(s2.skip(1) =~= s3);
        assert(s3.skip(1) =~= s4);
        assert(s4.skip(1) =~= s5);
        assert(s5.skip(1) =~= e);
        let a1 = e.push('h');
        let a2 = a1.push('o');
        let a3 = a2.push('m');
        let a4 = a3.push('e');
        assert(a4 =~= "home"@);
        assert(a4.len() == 4);
        assert(self.walk_from(0, s0, e) == self.walk_from(0, s1, e));
        assert(self.walk_from(0, s1, e) == self.walk_from(0, s2, a1));
        assert(self.walk_from(0, s2, a1) == self.walk_from(0, s3, a2));
        assert(self.walk_from(0, s3, a2) == self.walk_from(0, s4, a3));
        assert(self.walk_from(0, s4, a3) == self.walk_from(0, s5, a4));
        match self.step_comp(0, a4, true) {
            Ok(m) => {
                assert(self.walk_from(0, s5, a4) == self.walk_from(m, e, e));
            },
            Err(_) => {},
        }
    }

    /// Looking up the absolute path `/home` is exactly the root's child
    /// lookup of the name `home`.
    proof fn lemma_find_home(self)
        ensures
            self.find_from(0, "/home"@, Seq::empty()) == self.child(0, "home"@),
    {
        reveal_strlit("/home");
        reveal_strlit("home");
        let s0 = "/home"@;
        let s1 = seq!['h', 'o', 'm', 'e'];
        let s2 = seq!['o', 'm', 'e'];
        let s3 = seq!['m', 'e'];
        let s4 = seq!['e'];
        let e = Seq::<char>::empty();
        assert(s0.skip(1) =~= s1);
        assert(s1.skip(1) =~= s2);
        assert(s2.skip(1) =~= s3);
        assert(s3.skip(1) =~= s4);
        assert(s4.skip(1) =~= e);
        let a1 = e.push('h');
        let a2 = a1.push('o');
        let a3 = a2.push('m');
        let a4 = a3.push('e');
        assert(a4 =~= "home"@);
        assert(self.find_from(0, s0, e) == self.find_from(0, s1, e));
        assert(self.find_from(0, s1, e) == self.find_from(0, s2, a1));
        assert(self.find_from(0, s2, a1) == self.find_from(0, s3, a2));
        assert(self.find_from(0, s3, a2) == self.find_from(0, s4, a3));
        assert(self.find_from(0, s4, a3) == self.find_from(0, e, a4));
    }

    /// Registers a user: lazily creates `/home`, rejects a taken name,
    /// allocates a fresh user id and an identically named fresh group,
    /// and creates `/home/<name>` owned by both.
    ///
    /// As in a real shell the identities are registered before the home
    /// directory is created, so a failure to create it leaves the new
    /// user and group behind.
    pub fn add_user(&mut self, username: &str) -> (r: Result<UserId, ShellError>)
        requires
            old(self).wf(),
            old(self).users.users@.len() < u32::MAX,
            old(self).groups.groups@.len() < u32::MAX,
        ensures
            final(self).wf(),
            old(self).can_add_user(username@) ==> r is Ok,
            old(self).username_taken(username@) ==> {
                &&& r matches Err(e) && e matches ShellError::FileSystem(
                    FileSystemError::EntryAlreadyExists(s),
                ) && s@ == username@
                &&& final(self).users == old(self).users
                &&& final(self).groups == old(self).groups
                // only the lazy creation of a missing /home can touch the
                // tree before the duplicate name is rejected
                &&& old(self).find_abs("/home"@) is Some ==> final(self).nodes == old(self).nodes
            },
            match r {
                Ok(uid) => {
                    &&& !old(self).username_taken(username@)
                    &&& uid == old(self).users.users@.len()
                    &&& final(self).users.users@.len() == old(self).users.users@.len() + 1
                    &&& forall|i: int|
                        0 <= i < old(self).users.users@.len() ==> final(self).users.users@[i] == #[trigger] old(
                            self,
                        ).users.users@[i]
                    &&& final(self).users.users@[uid as int].name@ == username@
                    &&& final(self).users.users@[uid as int].groups@ == Seq::<
                        GroupId,
                    >::empty().push(old(self).groups.groups@.len() as GroupId)
                    &&& final(self).groups.groups@.len() == old(self).groups.groups@.len() + 1
                    &&& forall|i: int|
                        0 <= i < old(self).groups.groups@.len() ==> final(self).groups.groups@[i]
                            == #[trigger] old(self).groups.groups@[i]
                    &&& final(self).groups.groups@[old(self).groups.groups@.len() as int].name@
                        == username@
                    &&& (valid_name(username@) && username@ != seq!['.'] && username@ != seq![
                        '.',
                        '.',
                    ]) ==> exists|h: int|
                        {
                            &&& 1 <= h < final(self).n()
                            &&& #[trigger] final(self).is_dir(h)
                            &&& final(self).nodes@[h].name@ == username@
                            &&& final(self).nodes@[h].metadata.owner == uid
                            &&& final(self).nodes@[h].metadata.group == old(
                                self,
                            ).groups.groups@.len()
                            &&& final(self).children(h).len() == 0
                            &&& final(self).nodes@[h].parent matches Some(hp) && ((hp as int)
                                < final(self).n() && final(self).nodes@[hp as int].name@ == "home"@
                                && (final(self).nodes@[hp as int].parent matches Some(r0) && r0
                                == 0))
                        }
                },
                Err(_) => true,
            },
    {
        proof {
            reveal_strlit("/home");
            reveal_strlit("/home/");
            reveal_strlit("home");
            reveal_strlit("/");
        }
        if self.find_absolute_inode("/home").is_none() {
            match self.create_directory("/home") {
                Ok(hid) => {
                    proof {
                        assert(FileSystem::create_outcome(
                            *old(self),
                            *self,
                            "/home"@,
                            Ok(hid),
                            true,
                        ));
                        assert(exists|x: usize|
                            #![auto]
                            FileSystem::create_outcome(*old(self), *self, "/home"@, Ok(x), true));
                    }
                },
                Err(e) => {
                    proof {
                        let oldf = *old(self);
                        crate::strutil::lemma_last_slash("/home"@);
                        assert(forall|j: int|
                            0 < j < "/home"@.len() ==> (#[trigger] "/home"@[j]) != '/');
                        assert(last_slash("/home"@) == 0);
                        assert("/home"@.subrange(0, 1) =~= seq!['/']);
                        oldf.lemma_walk_root_prefix();
                        assert("/home"@.subrange(1, 5) =~= "home"@);
                        oldf.lemma_find_home();
                        assert(oldf.child(0, "home"@) is None);
                        assert("home"@.len() == 4);
                        assert(!contains_name(oldf.children(0), "home"@));
                        assert(false);
                    }
                    return Err(e);
                },
            }
        }
        let ghost mid = *self;
        proof {
            assert(mid.users == old(self).users && mid.groups == old(self).groups);
        }
        if let Some(taken_id) = self.users.find_by_username(username) {
            proof {
                if old(self).can_add_user(username@) {
                    assert(old(self).users.users@[taken_id as int].name@ == username@);
                    assert(old(self).username_taken(username@));
                    assert(false);
                }
            }
            return Err(
                ShellError::FileSystem(FileSystemError::EntryAlreadyExists(username.to_owned())),
            );
        }
        proof {
            if old(self).username_taken(username@) {
                let i = choose|i: int|
                    0 <= i < old(self).users.users@.len() && (#[trigger] old(
                        self,
                    ).users.users@[i].name@) == username@;
                assert(mid.users.users@[i].name@ == username@);
                assert(false);
            }
        }
        let user_id = self.users.add_user(username.to_owned());
        let user_group_id = self.groups.add_group(username.to_owned());
        match self.users.user_mut(user_id) {
            Some(user) => {
                user.add_group(user_group_id);
            },
            None => {
                proof {
                    assert(false);
                }
            },
        }
        proof {
            assert(self.users.wf()) by {
                assert(forall|i: int|
                    0 <= i < self.users.users@.len() ==> #[trigger] self.users.users@[i].id == i);
            }
            FileSystem::lemma_wf_same_tree(mid, *self);
            assert(self.wf());
            assert(self.users.users@[user_id as int].groups@ =~= Seq::<GroupId>::empty().push(
                user_group_id,
            ));
            assert(forall|i: int|
                0 <= i < old(self).users.users@.len() ==> self.users.users@[i] == #[trigger] old(
                    self,
                ).users.users@[i]);
            assert(forall|i: int|
                0 <= i < old(self).groups.groups@.len() ==> self.groups.groups@[i] == #[trigger] old(
                    self,
                ).groups.groups@[i]);
        }
        let ghost mid2 = *self;
        proof {
            assert(mid2.nodes == mid.nodes);
        }
        let home_path = crate::strutil::concat_str("/home/", username);
        let created = match self.create_directory(home_path.as_str()) {
            Ok(id) => id,
            Err(e) => {
                proof {
                    if old(self).can_add_user(username@) {
                        Self::lemma_add_user_create_succeeds(
                            *old(self),
                            mid,
                            mid2,
                            username@,
                            home_path@,
                        );
                        assert(username@.len() > 0);
                        assert(false);
                    }
                }
                return Err(e);
            },
        };
        let ghost mid3 = *self;
        let node = &mut self.nodes[created];
        node.metadata.owner = user_id;
        node.metadata.group = user_group_id;
        proof {
            let f = *self;
            assert(f.n() == mid3.n());
            assert(forall|k: int|
                0 <= k < mid3.n() && k != created ==> f.nodes@[k] == #[trigger] mid3.nodes@[k]);
            assert(f.nodes@[created as int].name == mid3.nodes@[created as int].name);
            assert(f.nodes@[created as int].parent == mid3.nodes@[created as int].parent);
            assert(f.nodes@[created as int].content == mid3.nodes@[created as int].content);
            assert(f.wf()) by {
                assert forall|i: int| 1 <= i < f.n() implies #[trigger] f.node_ok(i) by {
                    assert(mid3.node_ok(i));
                    if i != created {
                        assert(f.nodes@[i] == mid3.nodes@[i]);
                    }
                    let p = f.nodes@[i].parent.unwrap() as int;
                    if p != created {
                        assert(f.nodes@[p] == mid3.nodes@[p]);
                    }
                }
                assert forall|i: int| 0 <= i < f.n() implies #[trigger] f.dir_ok(i) by {
                    assert(mid3.dir_ok(i));
                    if i != created {
                        assert(f.nodes@[i] == mid3.nodes@[i]);
                    }
                    match f.nodes@[i].content {
                        InodeContent::Directory(dd) => {
                            assert forall|k: int|
                                0 <= k < dd.children@.len() implies f.entry_ok(
                                i,
                                #[trigger] dd.children@[k],
                            ) by {
                                assert(mid3.entry_ok(i, dd.children@[k]));
                                let c = dd.children@[k].inode as int;
                                if c != created {
                                    assert(f.nodes@[c] == mid3.nodes@[c]);
                                }
                            }
                        },
                        _ => {},
                    }
                }
                if created != 0 {
                    assert(f.nodes@[0] == mid3.nodes@[0]);
                }
            }
            if valid_name(username@) && username@ != seq!['.'] && username@ != seq!['.', '.'] {
                Self::lemma_add_user_home_facts(
                    mid2,
                    mid3,
                    f,
                    username@,
                    home_path@,
                    created,
                    user_id,
                    user_group_id,
                );
            }
        }
        Ok(user_id)
    }

    /// Under [`Self::can_add_user`], the ground is prepared for creating
    /// `/home/<name>`: the walk of the prefix `/home/` succeeds and the
    /// leaf name is still free there.
    proof fn lemma_add_user_create_succeeds(
        old_fs: FileSystem,
        mid: FileSystem,
        mid2: FileSystem,
        username: Seq<char>,
        home_path: Seq<char>,
    )
        requires
            old_fs.wf(),
            old_fs.can_add_user(username),
            home_path == "/home/"@ + username,
            // the lazy `/home` step
            (old_fs.find_abs("/home"@) is Some && mid == old_fs) || (old_fs.find_abs("/home"@)
                is None && exists|hid: usize|
                #![auto]
                FileSystem::create_outcome(old_fs, mid, "/home"@, Ok(hid), true)),
            // the identity step changes no inode
            mid2.nodes == mid.nodes,
            mid2.wf(),
        ensures
            last_slash(home_path) == 5,
            home_path.subrange(6, home_path.len() as int) == username,
            mid2.walk_from(0, home_path.subrange(0, 6), Seq::empty()) matches Ok(p)
                && !contains_name(mid2.children(p), username),
    {
        reveal_strlit("/home");
        reveal_strlit("/home/");
        reveal_strlit("home");
        // the leaf of home_path is exactly the username
        assert(home_path.len() == 6 + username.len());
        assert(home_path[5] == '/');
        assert(forall|j: int| 5 < j < home_path.len() ==> (#[trigger] home_path[j]) != '/');
        crate::strutil::lemma_last_slash(home_path);
        let l = last_slash(home_path);
        if l < 5 {
            assert(home_path[5] != '/');
        } else if l > 5 {
            assert(home_path[l] != '/');
        }
        assert(last_slash(home_path) == 5);
        assert(home_path.subrange(0, 6) =~= "/home/"@);
        assert(home_path.subrange(6, home_path.len() as int) =~= username);
        // the walk of the prefix succeeds on mid2
        mid2.lemma_walk_home_prefix();
        assert(mid2.nodes@ == mid.nodes@);
        assert("home"@.len() == 4);
        if old_fs.find_abs("/home"@) is Some {
            let h = old_fs.find_abs("/home"@).unwrap();
            old_fs.lemma_find_in_range(0, "/home"@, Seq::empty());
            old_fs.lemma_find_home();
            assert(old_fs.child(0, "home"@) == Some(h));
            assert(mid2.nodes@[0] == old_fs.nodes@[0]);
            assert(mid2.child(0, "home"@) == Some(h));
            assert(mid2.nodes@[h] == old_fs.nodes@[h]);
            assert(mid2.is_dir(h));
            assert(mid2.step_comp(0, "home"@, true) == Ok::<int, WalkFail>(h));
            assert(mid2.walk_from(0, "/home/"@, Seq::empty()) == Ok::<int, WalkFail>(h));
            // the leaf is fresh under /home
            assert(old_fs.child(h, username) is None);
            assert(mid2.child(h, username) is None);
            assert(!contains_name(mid2.children(h), username)) by {
                if contains_name(mid2.children(h), username) {
                    assert(mid2.child(h, username) is Some);
                }
            }
        } else {
            let hid = choose|hid: usize|
                #![auto]
                FileSystem::create_outcome(old_fs, mid, "/home"@, Ok(hid), true);
            crate::strutil::lemma_last_slash("/home"@);
            assert(forall|j: int| 0 < j < "/home"@.len() ==> (#[trigger] "/home"@[j]) != '/');
            assert(last_slash("/home"@) == 0);
            assert("/home"@.subrange(0, 1) =~= seq!['/']);
            assert("/home"@.subrange(1, 5) =~= "home"@);
            old_fs.lemma_walk_root_prefix();
            // the fresh /home entry is the last child of the root
            assert(FileSystem::tree_extended(old_fs, mid, 0, "home"@, hid as int));
            assert(mid2.nodes@[0] == mid.nodes@[0]);
            let cs = mid2.children(0);
            assert(cs == mid.children(0));
            assert(cs.last().name@ == "home"@);
            assert(contains_name(cs, "home"@)) by {
                assert(cs[cs.len() - 1].name@ == "home"@);
            }
            assert(mid2.child(0, "home"@) == Some(hid as int)) by {
                assert(mid2.dir_ok(0));
                let j = index_of_name(cs, "home"@);
                assert(0 <= j < cs.len() && cs[j].name@ == "home"@);
                if j < cs.len() - 1 {
                    assert(cs[j].name@ != cs[cs.len() - 1].name@);
                }
                assert(entry_for(cs, "home"@) == cs.last());
                assert(cs.last().inode == hid);
            }
            assert(mid.is_dir(hid as int));
            assert(mid2.nodes@[hid as int] == mid.nodes@[hid as int]);
            assert(mid2.is_dir(hid as int));
            assert(mid2.step_comp(0, "home"@, true) == Ok::<int, WalkFail>(hid as int));
            assert(mid2.walk_from(0, "/home/"@, Seq::empty()) == Ok::<int, WalkFail>(hid as int));
            // the fresh /home directory is empty
            assert(mid.children(hid as int).len() == 0);
            assert(mid2.children(hid as int) == mid.children(hid as int));
            assert(!contains_name(mid2.children(hid as int), username));
        }
    }

    /// After `/home/<name>` was created and its ownership set, the
    /// repository holds an empty directory named `<name>` with the new
    /// owner and group, hanging under a directory named `home` that
    /// hangs under the root.
    proof fn lemma_add_user_home_facts(
        mid2: FileSystem,
        mid3: FileSystem,
        f: FileSystem,
        username: Seq<char>,
        home_path: Seq<char>,
        created: usize,
        user_id: UserId,
        user_group_id: GroupId,
    )
        requires
            mid2.wf(),
            mid3.wf(),
            valid_name(username),
            username != seq!['.'],
            username != seq!['.', '.'],
            home_path == "/home/"@ + username,
            FileSystem::create_outcome(mid2, mid3, home_path, Ok(created), true),
            // the ownership touch-up
            f.n() == mid3.n(),
            forall|k: int|
                0 <= k < mid3.n() && k != created ==> f.nodes@[k] == #[trigger] mid3.nodes@[k],
            f.nodes@[created as int].name == mid3.nodes@[created as int].name,
            f.nodes@[created as int].parent == mid3.nodes@[created as int].parent,
            f.nodes@[created as int].content == mid3.nodes@[created as int].content,
            f.nodes@[created as int].metadata.owner == user_id,
            f.nodes@[created as int].metadata.group == user_group_id,
        ensures
            exists|h: int|
                {
                    &&& 1 <= h < f.n()
                    &&& #[trigger] f.is_dir(h)
                    &&& f.nodes@[h].name@ == username
                    &&& f.nodes@[h].metadata.owner == user_id
                    &&& f.nodes@[h].metadata.group == user_group_id
                    &&& f.children(h).len() == 0
                    &&& f.nodes@[h].parent matches Some(hp) && ((hp as int) < f.n()
                        && f.nodes@[hp as int].name@ == "home"@ && (f.nodes@[hp as int].parent
                        matches Some(r0) && r0 == 0))
                },
    {
        reveal_strlit("/home/");
        reveal_strlit("home");
        assert(home_path.len() == 6 + username.len());
        assert(home_path[5] == '/');
        assert(forall|j: int| 5 < j < home_path.len() ==> (#[trigger] home_path[j]) != '/');
        crate::strutil::lemma_last_slash(home_path);
        let l = last_slash(home_path);
        if l < 5 {
            assert(home_path[5] != '/');
        } else if l > 5 {
            assert(home_path[l] != '/');
        }
        assert(last_slash(home_path) == 5);
        assert(home_path.subrange(0, 6) =~= "/home/"@);
        assert(home_path.subrange(6, home_path.len() as int) =~= username);
        assert(mid2.walk_from(0, "/home/"@, Seq::empty()) is Ok);
        let p = match mid2.walk_from(0, "/home/"@, Seq::empty()) {
            Ok(m) => m,
            Err(_) => 0,
        };
        assert(FileSystem::tree_extended(mid2, mid3, p, username, created as int));
        mid2.lemma_walk_home_prefix();
        assert("home"@.len() == 4);
        assert(mid2.step_comp(0, "home"@, true) == Ok::<int, WalkFail>(p));
        assert(mid2.child(0, "home"@) == Some(p));
        mid2.lemma_child_in_range(0, "home"@);
        assert(mid2.nodes@[p].name@ == "home"@);
        assert(mid2.nodes@[p].parent matches Some(q) && q == 0);
        // the slot keeps those facts through the creation and the
        // ownership touch-up
        assert(p != created);
        assert(mid3.nodes@[p].name == mid2.nodes@[p].name);
        assert(mid3.nodes@[p].parent == mid2.nodes@[p].parent);
        assert(f.nodes@[p] == mid3.nodes@[p]);
        let h = created as int;
        assert(1 <= h < f.n());
        assert(f.is_dir(h)) by {
            assert(mid3.nodes@[h].content matches InodeContent::Directory(_));
        }
        assert(f.nodes@[h].name@ == username);
        assert(f.children(h).len() == 0) by {
            assert(mid3.nodes@[h].content matches InodeContent::Directory(d) && d.children@.len()
                == 0);
        }
        assert(f.nodes@[h].parent matches Some(hp) && hp == p);
    }
}

/// Walks a relative path from `base` by literal child lookup, skipping
/// empty components; the first missing component gives `None`.
pub fn find_relative_inode(fs: &FileSystem, base: usize, relative_path: &str) -> (r: Option<usize>)
    requires
        fs.wf(),
        base < fs.nodes@.len(),
    ensures
        match r {
            Some(c) => fs.find_from(base as int, relative_path@, Seq::empty()) == Some(c as int)
                && c < fs.nodes@.len(),
            None => fs.find_from(base as int, relative_path@, Seq::empty()) is None,
        },
{
    let len = relative_path.unicode_len();
    let mut node = base;
    let mut pos: usize = 0;
    let mut start: usize = 0;
    proof {
        assert(relative_path@.skip(0) =~= relative_path@);
        assert(relative_path@.subrange(0, 0) =~= Seq::<char>::empty());
    }
    while pos < len
        invariant
            fs.wf(),
            len == relative_path@.len(),
            start <= pos <= len,
            node < fs.nodes@.len(),
            fs.find_from(base as int, relative_path@, Seq::empty()) == fs.find_from(
                node as int,
                relative_path@.skip(pos as int),
                relative_path@.subrange(start as int, pos as int),
            ),
        decreases len - pos,
    {
        let ghost rest = relative_path@.skip(pos as int);
        let ghost acc = relative_path@.subrange(start as int, pos as int);
        proof {
            assert(rest[0] == relative_path@[pos as int]);
            assert(rest.skip(1) =~= relative_path@.skip(pos + 1));
        }
        let c = relative_path.get_char(pos);
        if c == '/' {
            proof {
                assert(relative_path@.subrange(pos + 1, pos + 1) =~= Seq::<char>::empty());
                if start == pos {
                    assert(acc =~= Seq::<char>::empty());
                }
            }
            if start < pos {
                let name = substring(relative_path, start, pos);
                match fs.find_child_of(node, name.as_str()) {
                    Some(ch) => {
                        node = ch;
                    },
                    None => {
                        return None;
                    },
                }
            }
            start = pos + 1;
        } else {
            proof {
                assert(acc.push(rest[0]) =~= relative_path@.subrange(start as int, pos + 1));
            }
        }
        pos = pos + 1;
    }
    proof {
        assert(relative_path@.skip(len as int) =~= Seq::<char>::empty());
    }
    if start == len {
        Some(node)
    } else {
        let name = substring(relative_path, start, len);
        fs.find_child_of(node, name.as_str())
    }
}

} // verus!
