//! The laws of the repository: how the find machine, the walk machine,
//! creation and removal relate.
//!
//! The central results: a canonical path that `create_directory` (or
//! `create_file`) just created is found again and its inode's path reads
//! back exactly (the round trip); creating the same path twice must
//! report `EntryAlreadyExists`; and a removed path is no longer found.

use vstd::prelude::*;

use crate::fs::content::{contains_name, entry_for, index_of_name};
use crate::fs::{no_slash, valid_name, FileSystem, WalkFail};
use crate::strutil::{last_slash, lemma_last_slash};

verus! {

/// A component acceptable in a canonical path: usable as a name and not
/// one of the dot tokens.
pub open spec fn plain_name(s: Seq<char>) -> bool {
    valid_name(s) && s != seq!['.'] && s != seq!['.', '.']
}

/// A canonical absolute path: `/` followed by one or more plain
/// components separated by single slashes, with no trailing slash.
pub open spec fn canonical_abs_path(p: Seq<char>) -> bool
    decreases p.len(),
{
    if p.len() < 2 || p[0] != '/' {
        false
    } else {
        let i = last_slash(p);
        &&& plain_name(p.subrange(i + 1, p.len() as int))
        &&& (i == 0 || (0 < i < p.len() && canonical_abs_path(p.subrange(0, i))))
    }
}

/// No component of the path (with `acc` already read) is `.` or `..`.
pub open spec fn no_dot_comps(path: Seq<char>, acc: Seq<char>) -> bool
    decreases path.len(),
{
    if path.len() == 0 {
        acc != seq!['.'] && acc != seq!['.', '.']
    } else if path[0] == '/' {
        acc != seq!['.'] && acc != seq!['.', '.'] && no_dot_comps(path.skip(1), Seq::empty())
    } else {
        no_dot_comps(path.skip(1), acc.push(path[0]))
    }
}

/// Running the find machine over `a + b` is running it over `a` and
/// continuing over `b`, provided `a` ends with a slash.
pub proof fn lemma_find_append(fs: FileSystem, node: int, a: Seq<char>, b: Seq<char>, acc: Seq<char>)
    requires
        a.len() > 0,
        a.last() == '/',
    ensures
        fs.find_from(node, a + b, acc) == (match fs.find_from(node, a, acc) {
            Some(m) => fs.find_from(m, b, Seq::empty()),
            None => None,
        }),
    decreases a.len(),
{
    reveal_with_fuel(FileSystem::find_from, 4);
    let ab = a + b;
    assert(ab[0] == a[0]);
    if a.len() == 1 {
        assert(a[0] == '/');
        assert(ab.skip(1) =~= b);
        assert(a.skip(1) =~= Seq::<char>::empty());
        if acc.len() == 0 {
            assert(acc =~= Seq::<char>::empty());
        }
    } else {
        assert(ab.skip(1) =~= a.skip(1) + b);
        assert(a.skip(1).len() > 0);
        assert(a.skip(1).last() == a.last());
        if a[0] == '/' {
            if acc.len() == 0 {
                lemma_find_append(fs, node, a.skip(1), b, acc);
            } else {
                match fs.child(node, acc) {
                    Some(c) => {
                        lemma_find_append(fs, c, a.skip(1), b, Seq::empty());
                    },
                    None => {},
                }
            }
        } else {
            lemma_find_append(fs, node, a.skip(1), b, acc.push(a[0]));
        }
    }
}

/// A trailing slash changes nothing about a find.
pub proof fn lemma_find_trailing_slash(fs: FileSystem, node: int, q: Seq<char>, acc: Seq<char>)
    ensures
        fs.find_from(node, q + seq!['/'], acc) == fs.find_from(node, q, acc),
    decreases q.len(),
{
    reveal_with_fuel(FileSystem::find_from, 4);
    let qs = q + seq!['/'];
    if q.len() == 0 {
        assert(qs =~= seq!['/']);
        assert(qs[0] == '/');
        assert(qs.skip(1) =~= Seq::<char>::empty());
        if acc.len() == 0 {
        } else {
            match fs.child(node, acc) {
                Some(c) => {},
                None => {},
            }
        }
    } else {
        assert(qs[0] == q[0]);
        assert(qs.skip(1) =~= q.skip(1) + seq!['/']);
        if q[0] == '/' {
            if acc.len() == 0 {
                lemma_find_trailing_slash(fs, node, q.skip(1), acc);
            } else {
                match fs.child(node, acc) {
                    Some(c) => {
                        lemma_find_trailing_slash(fs, c, q.skip(1), Seq::empty());
                    },
                    None => {},
                }
            }
        } else {
            lemma_find_trailing_slash(fs, node, q.skip(1), acc.push(q[0]));
        }
    }
}

/// Over a slash-free remainder the find machine just finishes the
/// current component and looks it up.
pub proof fn lemma_find_plain(fs: FileSystem, node: int, path: Seq<char>, acc: Seq<char>)
    requires
        no_slash(path),
        acc.len() + path.len() > 0,
    ensures
        fs.find_from(node, path, acc) == fs.child(node, acc + path),
    decreases path.len(),
{
    if path.len() == 0 {
        assert(acc + path =~= acc);
    } else {
        assert(path[0] != '/');
        lemma_find_plain(fs, node, path.skip(1), acc.push(path[0]));
        assert(acc.push(path[0]) + path.skip(1) =~= acc + path);
    }
}

/// Where the walk machine succeeds on a dot-free path, the find machine
/// reaches the same slot.
pub proof fn lemma_walk_implies_find(fs: FileSystem, node: int, path: Seq<char>, acc: Seq<char>)
    requires
        fs.wf(),
        0 <= node < fs.n(),
        fs.is_dir(node),
        no_dot_comps(path, acc),
        fs.walk_from(node, path, acc) is Ok,
    ensures
        fs.walk_from(node, path, acc) matches Ok(d) && fs.find_from(node, path, acc) == Some(d),
    decreases path.len(),
{
    if path.len() == 0 {
        if acc.len() == 0 {
        } else {
            // the terminal component is a plain name, so the walk step is
            // a child lookup that must have found a directory
            match fs.child(node, acc) {
                Some(c) => {},
                None => {},
            }
        }
    } else if path[0] == '/' {
        if acc.len() == 0 {
            assert(fs.step_comp(node, acc, true) == Ok::<int, WalkFail>(node));
            lemma_walk_implies_find(fs, node, path.skip(1), Seq::empty());
            assert(acc =~= Seq::<char>::empty());
        } else {
            match fs.child(node, acc) {
                Some(c) => {
                    assert(fs.step_comp(node, acc, true) is Ok);
                    fs.lemma_child_in_range(node, acc);
                    assert(fs.is_dir(c)) by {
                        if !fs.is_dir(c) {
                            assert(fs.step_comp(node, acc, true) is Err);
                        }
                    }
                    lemma_walk_implies_find(fs, c, path.skip(1), Seq::empty());
                },
                None => {
                    assert(fs.step_comp(node, acc, true) is Err);
                },
            }
        }
    } else {
        lemma_walk_implies_find(fs, node, path.skip(1), acc.push(path[0]));
    }
}

/// A child lookup that succeeded before a fresh entry was added under
/// some directory still gives the same slot afterwards.
pub proof fn lemma_child_stable_extend(
    old_fs: FileSystem,
    new_fs: FileSystem,
    parent: int,
    name: Seq<char>,
    id: int,
    i: int,
    nm: Seq<char>,
)
    requires
        old_fs.wf(),
        new_fs.wf(),
        FileSystem::tree_extended(old_fs, new_fs, parent, name, id),
        0 <= i < old_fs.n(),
        old_fs.child(i, nm) is Some,
    ensures
        new_fs.child(i, nm) == old_fs.child(i, nm),
{
    if i != parent {
        assert(new_fs.nodes@[i] == old_fs.nodes@[i]);
    } else {
        let cs_old = old_fs.children(parent);
        let cs_new = new_fs.children(parent);
        let j = index_of_name(cs_old, nm);
        assert(0 <= j < cs_old.len() && cs_old[j].name@ == nm);
        assert(cs_new[j] == cs_new.drop_last()[j]);
        assert(cs_new[j] == cs_old[j]);
        assert(contains_name(cs_new, nm));
        let j2 = index_of_name(cs_new, nm);
        assert(0 <= j2 < cs_new.len() && cs_new[j2].name@ == nm);
        assert(new_fs.dir_ok(parent));
        assert(j2 == j) by {
            if j2 < j {
                assert(cs_new[j2].name@ != cs_new[j].name@);
            } else if j2 > j {
                assert(cs_new[j].name@ != cs_new[j2].name@);
            }
        }
        assert(entry_for(cs_new, nm) == cs_old[j]);
        assert(entry_for(cs_old, nm) == cs_old[j]);
    }
}

/// A find that succeeded before a fresh entry was added still reaches
/// the same slot afterwards.
pub proof fn lemma_find_stable_extend(
    old_fs: FileSystem,
    new_fs: FileSystem,
    parent: int,
    name: Seq<char>,
    id: int,
    node: int,
    q: Seq<char>,
    acc: Seq<char>,
)
    requires
        old_fs.wf(),
        new_fs.wf(),
        FileSystem::tree_extended(old_fs, new_fs, parent, name, id),
        0 <= node < old_fs.n(),
        old_fs.find_from(node, q, acc) is Some,
    ensures
        new_fs.find_from(node, q, acc) == old_fs.find_from(node, q, acc),
    decreases q.len(),
{
    if q.len() == 0 {
        if acc.len() == 0 {
        } else {
            lemma_child_stable_extend(old_fs, new_fs, parent, name, id, node, acc);
        }
    } else if q[0] == '/' {
        if acc.len() == 0 {
            lemma_find_stable_extend(old_fs, new_fs, parent, name, id, node, q.skip(1), acc);
        } else {
            match old_fs.child(node, acc) {
                Some(c) => {
                    lemma_child_stable_extend(old_fs, new_fs, parent, name, id, node, acc);
                    old_fs.lemma_child_in_range(node, acc);
                    lemma_find_stable_extend(
                        old_fs,
                        new_fs,
                        parent,
                        name,
                        id,
                        c,
                        q.skip(1),
                        Seq::empty(),
                    );
                },
                None => {},
            }
        }
    } else {
        lemma_find_stable_extend(old_fs, new_fs, parent, name, id, node, q.skip(1), acc.push(q[0]));
    }
}

/// The round trip: a canonical absolute path that is found leads to an
/// inode whose reconstructed path is that very path.
pub proof fn lemma_find_path_round_trip(fs: FileSystem, p: Seq<char>)
    requires
        fs.wf(),
        canonical_abs_path(p),
        fs.find_abs(p) is Some,
    ensures
        fs.find_abs(p) matches Some(m) && 1 <= m < fs.n() && fs.path_of(m) == p,
    decreases p.len(),
{
    reveal_with_fuel(FileSystem::find_from, 4);
    reveal_with_fuel(canonical_abs_path, 3);
    lemma_last_slash(p);
    let i = last_slash(p);
    assert(i >= 0) by {
        if i == -1 {
            assert(p[0] != '/');
        }
    }
    let name = p.subrange(i + 1, p.len() as int);
    assert(no_slash(name)) by {
        assert(forall|k: int|
            0 <= k < name.len() ==> (#[trigger] name[k]) == p[i + 1 + k] && p[i + 1 + k] != '/');
    }
    if i == 0 {
        assert(p =~= seq!['/'] + name);
        lemma_find_append(fs, 0, seq!['/'], name, Seq::empty());
        assert(seq!['/'].skip(1) =~= Seq::<char>::empty());
        assert(fs.find_from(0, seq!['/'], Seq::empty()) == Some(0int));
        lemma_find_plain(fs, 0, name, Seq::empty());
        assert(Seq::<char>::empty() + name =~= name);
        assert(fs.find_abs(p) == fs.child(0, name));
        let m = fs.child(0, name).unwrap();
        fs.lemma_child_in_range(0, name);
        assert(fs.nodes@[m].name@ == name);
        assert(fs.nodes@[m].parent matches Some(q0) && q0 == 0);
        assert(fs.path_of(0) == seq!['/']);
        assert(fs.path_of(m) == seq!['/'] + name);
        assert(fs.path_of(m) =~= p);
    } else {
        let q = p.subrange(0, i);
        let a = p.subrange(0, i + 1);
        assert(a =~= q + seq!['/']);
        assert(a.last() == '/');
        assert(p =~= a + name);
        lemma_find_append(fs, 0, a, name, Seq::empty());
        lemma_find_trailing_slash(fs, 0, q, Seq::empty());
        assert(fs.find_from(0, a, Seq::empty()) == fs.find_abs(q));
        match fs.find_abs(q) {
            Some(d) => {
                lemma_find_path_round_trip(fs, q);
                assert(fs.path_of(d) == q);
                lemma_find_plain(fs, d, name, Seq::empty());
                assert(Seq::<char>::empty() + name =~= name);
                assert(fs.find_abs(p) == fs.child(d, name));
                let m = fs.child(d, name).unwrap();
                fs.lemma_child_in_range(d, name);
                assert(fs.nodes@[m].name@ == name);
                assert(fs.nodes@[m].parent matches Some(q0) && q0 == d);
                assert(1 <= m < fs.n());
                assert(fs.node_ok(m));
                assert(0 <= d < m);
                assert(q != seq!['/']) by {
                    assert(q.len() >= 2);
                }
                assert(fs.path_of(m) == q + seq!['/'] + name);
                assert(fs.path_of(m) =~= p);
            },
            None => {
                assert(fs.find_abs(p) is None);
            },
        }
    }
}

/// Splitting the no-dot machine at a slash boundary.
pub proof fn lemma_no_dot_append(a: Seq<char>, b: Seq<char>, acc: Seq<char>)
    requires
        a.len() > 0,
        a.last() == '/',
    ensures
        no_dot_comps(a + b, acc) == (no_dot_comps(a, acc) && no_dot_comps(b, Seq::empty())),
    decreases a.len(),
{
    reveal_with_fuel(no_dot_comps, 4);
    let ab = a + b;
    assert(ab[0] == a[0]);
    if a.len() == 1 {
        assert(a[0] == '/');
        assert(ab.skip(1) =~= b);
        assert(a.skip(1) =~= Seq::<char>::empty());
    } else {
        assert(ab.skip(1) =~= a.skip(1) + b);
        assert(a.skip(1).len() > 0);
        assert(a.skip(1).last() == a.last());
        if a[0] == '/' {
            lemma_no_dot_append(a.skip(1), b, Seq::empty());
        } else {
            lemma_no_dot_append(a.skip(1), b, acc.push(a[0]));
        }
    }
}

/// Over a slash-free name followed by a slash, the no-dot machine only
/// checks that the finished component is not a dot token.
pub proof fn lemma_no_dot_name_slash(name: Seq<char>, acc: Seq<char>)
    requires
        no_slash(name),
    ensures
        no_dot_comps(name + seq!['/'], acc) == (acc + name != seq!['.'] && acc + name != seq![
            '.',
            '.',
        ]),
    decreases name.len(),
{
    reveal_with_fuel(no_dot_comps, 4);
    let ns = name + seq!['/'];
    if name.len() == 0 {
        assert(ns =~= seq!['/']);
        assert(ns[0] == '/');
        assert(ns.skip(1) =~= Seq::<char>::empty());
        assert(acc + name =~= acc);
    } else {
        assert(ns[0] == name[0]);
        assert(name[0] != '/');
        assert(ns.skip(1) =~= name.skip(1) + seq!['/']);
        lemma_no_dot_name_slash(name.skip(1), acc.push(name[0]));
        assert(acc.push(name[0]) + name.skip(1) =~= acc + name);
    }
}

/// The lone root prefix `/` has no dot components.
pub proof fn lemma_no_dot_root()
    ensures
        no_dot_comps(seq!['/'], Seq::empty()),
{
    reveal_with_fuel(no_dot_comps, 3);
    assert(seq!['/'].skip(1) =~= Seq::<char>::empty());
    assert(no_dot_comps(Seq::<char>::empty(), Seq::<char>::empty()));
}

/// A canonical path followed by a slash has no dot components.
pub proof fn lemma_canonical_slash_no_dots(q: Seq<char>)
    requires
        canonical_abs_path(q),
    ensures
        no_dot_comps(q + seq!['/'], Seq::empty()),
    decreases q.len(),
{
    lemma_last_slash(q);
    let i = last_slash(q);
    assert(i >= 0) by {
        if i == -1 {
            assert(q[0] != '/');
        }
    }
    let name = q.subrange(i + 1, q.len() as int);
    assert(no_slash(name)) by {
        assert(forall|k: int|
            0 <= k < name.len() ==> (#[trigger] name[k]) == q[i + 1 + k] && q[i + 1 + k] != '/');
    }
    let a = q.subrange(0, i + 1);
    assert(a.len() > 0 && a.last() == '/');
    assert(q + seq!['/'] =~= a + (name + seq!['/']));
    lemma_no_dot_append(a, name + seq!['/'], Seq::empty());
    lemma_no_dot_name_slash(name, Seq::empty());
    assert(Seq::<char>::empty() + name =~= name);
    if i == 0 {
        assert(a =~= seq!['/']);
        lemma_no_dot_root();
    } else {
        lemma_canonical_slash_no_dots(q.subrange(0, i));
        assert(q.subrange(0, i) + seq!['/'] =~= a);
    }
}

/// One interpreted step that succeeded before a fresh entry was added
/// takes the same step afterwards.
pub proof fn lemma_step_stable_extend(
    old_fs: FileSystem,
    new_fs: FileSystem,
    parent: int,
    name: Seq<char>,
    id: int,
    node: int,
    comp: Seq<char>,
    has_more: bool,
)
    requires
        old_fs.wf(),
        new_fs.wf(),
        FileSystem::tree_extended(old_fs, new_fs, parent, name, id),
        0 <= node < old_fs.n(),
        old_fs.step_comp(node, comp, has_more) is Ok,
    ensures
        new_fs.step_comp(node, comp, has_more) == old_fs.step_comp(node, comp, has_more),
{
    if comp.len() == 0 || comp == seq!['.'] {
    } else if comp == seq!['.', '.'] {
        if node == parent {
        } else {
            assert(new_fs.nodes@[node] == old_fs.nodes@[node]);
        }
    } else {
        match old_fs.child(node, comp) {
            Some(c) => {
                lemma_child_stable_extend(old_fs, new_fs, parent, name, id, node, comp);
                old_fs.lemma_child_in_range(node, comp);
                assert(old_fs.is_dir(c));
                assert(new_fs.is_dir(c)) by {
                    if c == parent {
                    } else {
                        assert(new_fs.nodes@[c] == old_fs.nodes@[c]);
                    }
                }
            },
            None => {},
        }
    }
}

/// A walk that succeeded before a fresh entry was added still reaches
/// the same slot afterwards.
pub proof fn lemma_walk_stable_extend(
    old_fs: FileSystem,
    new_fs: FileSystem,
    parent: int,
    name: Seq<char>,
    id: int,
    node: int,
    q: Seq<char>,
    acc: Seq<char>,
)
    requires
        old_fs.wf(),
        new_fs.wf(),
        FileSystem::tree_extended(old_fs, new_fs, parent, name, id),
        0 <= node < old_fs.n(),
        old_fs.is_dir(node),
        old_fs.walk_from(node, q, acc) is Ok,
    ensures
        new_fs.walk_from(node, q, acc) == old_fs.walk_from(node, q, acc),
    decreases q.len(),
{
    old_fs.lemma_step_comp_ok_dir(node, acc, q.len() > 0);
    if q.len() == 0 {
        if acc.len() == 0 {
        } else {
            lemma_step_stable_extend(old_fs, new_fs, parent, name, id, node, acc, false);
        }
    } else if q[0] == '/' {
        match old_fs.step_comp(node, acc, true) {
            Ok(m) => {
                lemma_step_stable_extend(old_fs, new_fs, parent, name, id, node, acc, true);
                lemma_walk_stable_extend(
                    old_fs,
                    new_fs,
                    parent,
                    name,
                    id,
                    m,
                    q.skip(1),
                    Seq::empty(),
                );
            },
            Err(_) => {},
        }
    } else {
        lemma_walk_stable_extend(old_fs, new_fs, parent, name, id, node, q.skip(1), acc.push(q[0]));
    }
}

/// After a successful creation at a canonical absolute path, looking
/// that path up finds exactly the created inode, and the inode's
/// reconstructed path is the path that was created (the round trip).
pub proof fn lemma_create_then_find(
    old_fs: FileSystem,
    new_fs: FileSystem,
    path: Seq<char>,
    id: usize,
    make_dir: bool,
)
    requires
        old_fs.wf(),
        new_fs.wf(),
        canonical_abs_path(path),
        FileSystem::create_outcome(old_fs, new_fs, path, Ok(id), make_dir),
    ensures
        new_fs.find_abs(path) == Some(id as int),
        new_fs.path_of(id as int) == path,
{
    lemma_last_slash(path);
    let i = last_slash(path);
    assert(i >= 0) by {
        if i == -1 {
            assert(path[0] != '/');
        }
    }
    let cut = i + 1;
    let prefix = path.subrange(0, cut);
    let leaf = path.subrange(cut, path.len() as int);
    assert(old_fs.walk_from(0, prefix, Seq::empty()) is Ok);
    let p = match old_fs.walk_from(0, prefix, Seq::empty()) {
        Ok(m) => m,
        Err(_) => 0,
    };
    assert(FileSystem::tree_extended(old_fs, new_fs, p, leaf, id as int));
    // the prefix has no dot components
    assert(no_dot_comps(prefix, Seq::empty())) by {
        if i == 0 {
            assert(prefix =~= seq!['/']);
            lemma_no_dot_root();
        } else {
            lemma_canonical_slash_no_dots(path.subrange(0, i));
            assert(path.subrange(0, i) + seq!['/'] =~= prefix);
        }
    }
    // the find machine follows the walk on the old tree, and is stable
    // under the extension
    lemma_walk_implies_find(old_fs, 0, prefix, Seq::empty());
    assert(old_fs.find_from(0, prefix, Seq::empty()) == Some(p));
    lemma_find_stable_extend(old_fs, new_fs, p, leaf, id as int, 0, prefix, Seq::empty());
    assert(new_fs.find_from(0, prefix, Seq::empty()) == Some(p));
    // attach the leaf
    assert(prefix.len() > 0 && prefix.last() == '/');
    assert(path =~= prefix + leaf);
    lemma_find_append(new_fs, 0, prefix, leaf, Seq::empty());
    assert(no_slash(leaf)) by {
        assert(forall|k: int|
            0 <= k < leaf.len() ==> (#[trigger] leaf[k]) == path[cut + k] && path[cut + k] != '/');
    }
    lemma_find_plain(new_fs, p, leaf, Seq::empty());
    assert(Seq::<char>::empty() + leaf =~= leaf);
    // the fresh entry is the one the lookup finds
    let cs_old = old_fs.children(p);
    let cs_new = new_fs.children(p);
    assert(cs_new.last().name@ == leaf && cs_new.last().inode == id);
    assert(contains_name(cs_new, leaf)) by {
        assert(cs_new[cs_new.len() - 1].name@ == leaf);
    }
    assert(new_fs.child(p, leaf) == Some(id as int)) by {
        assert(new_fs.dir_ok(p));
        let j = index_of_name(cs_new, leaf);
        assert(0 <= j < cs_new.len() && cs_new[j].name@ == leaf);
        if j < cs_new.len() - 1 {
            assert(cs_new[j].name@ != cs_new[cs_new.len() - 1].name@);
        }
        assert(entry_for(cs_new, leaf) == cs_new.last());
    }
    assert(new_fs.find_abs(path) == Some(id as int));
    lemma_find_path_round_trip(new_fs, path);
}

/// After a successful creation, the same walk still reaches the same
/// parent and the leaf name is now present there: by the contract of
/// the create operations, creating the same path again must fail with
/// `EntryAlreadyExists` and leave the repository unchanged.
pub proof fn lemma_create_then_create_exists(
    old_fs: FileSystem,
    new_fs: FileSystem,
    path: Seq<char>,
    id: usize,
    make_dir: bool,
)
    requires
        old_fs.wf(),
        new_fs.wf(),
        FileSystem::create_outcome(old_fs, new_fs, path, Ok(id), make_dir),
    ensures
        ({
            let cut = last_slash(path) + 1;
            let prefix = path.subrange(0, cut);
            let leaf = path.subrange(cut, path.len() as int);
            &&& new_fs.walk_from(0, prefix, Seq::empty()) == old_fs.walk_from(
                0,
                prefix,
                Seq::empty(),
            )
            &&& new_fs.walk_from(0, prefix, Seq::empty()) matches Ok(p) && contains_name(
                new_fs.children(p),
                leaf,
            )
            &&& leaf.len() > 0
        }),
{
    let cut = last_slash(path) + 1;
    let prefix = path.subrange(0, cut);
    let leaf = path.subrange(cut, path.len() as int);
    let p = match old_fs.walk_from(0, prefix, Seq::empty()) {
        Ok(m) => m,
        Err(_) => 0,
    };
    assert(FileSystem::tree_extended(old_fs, new_fs, p, leaf, id as int));
    lemma_walk_stable_extend(old_fs, new_fs, p, leaf, id as int, 0, prefix, Seq::empty());
    let cs_new = new_fs.children(p);
    assert(contains_name(cs_new, leaf)) by {
        assert(cs_new[cs_new.len() - 1].name@ == leaf);
    }
}

/// A child lookup that succeeds after a detachment also succeeded, with
/// the same slot, before it.
pub proof fn lemma_child_stable_detach(
    old_fs: FileSystem,
    new_fs: FileSystem,
    d: int,
    name: Seq<char>,
    i: int,
    nm: Seq<char>,
)
    requires
        old_fs.wf(),
        new_fs.wf(),
        FileSystem::child_detached(old_fs, new_fs, d, name),
        0 <= i < new_fs.n(),
        new_fs.child(i, nm) is Some,
    ensures
        old_fs.child(i, nm) == new_fs.child(i, nm),
{
    if i != d {
        assert(new_fs.nodes@[i] == old_fs.nodes@[i]);
    } else {
        let cs_old = old_fs.children(d);
        let cs_new = new_fs.children(d);
        let j = index_of_name(cs_old, name);
        cs_old.remove_ensures(j);
        let j2 = index_of_name(cs_new, nm);
        assert(0 <= j2 < cs_new.len() && cs_new[j2].name@ == nm);
        let j2o = if j2 < j {
            j2
        } else {
            j2 + 1
        };
        assert(cs_new[j2] == cs_old[j2o]);
        assert(contains_name(cs_old, nm)) by {
            assert(cs_old[j2o].name@ == nm);
        }
        let jo = index_of_name(cs_old, nm);
        assert(0 <= jo < cs_old.len() && cs_old[jo].name@ == nm);
        assert(old_fs.dir_ok(d));
        assert(jo == j2o) by {
            if jo < j2o {
                assert(cs_old[jo].name@ != cs_old[j2o].name@);
            } else if jo > j2o {
                assert(cs_old[j2o].name@ != cs_old[jo].name@);
            }
        }
        assert(entry_for(cs_old, nm) == cs_new[j2]);
        assert(entry_for(cs_new, nm) == cs_new[j2]);
    }
}

/// A find that succeeds after a detachment also succeeded, with the
/// same slot, before it.
pub proof fn lemma_find_stable_detach(
    old_fs: FileSystem,
    new_fs: FileSystem,
    d: int,
    name: Seq<char>,
    node: int,
    q: Seq<char>,
    acc: Seq<char>,
)
    requires
        old_fs.wf(),
        new_fs.wf(),
        FileSystem::child_detached(old_fs, new_fs, d, name),
        0 <= node < new_fs.n(),
        new_fs.find_from(node, q, acc) is Some,
    ensures
        old_fs.find_from(node, q, acc) == new_fs.find_from(node, q, acc),
    decreases q.len(),
{
    if q.len() == 0 {
        if acc.len() == 0 {
        } else {
            lemma_child_stable_detach(old_fs, new_fs, d, name, node, acc);
        }
    } else if q[0] == '/' {
        if acc.len() == 0 {
            lemma_find_stable_detach(old_fs, new_fs, d, name, node, q.skip(1), acc);
        } else {
            match new_fs.child(node, acc) {
                Some(c) => {
                    lemma_child_stable_detach(old_fs, new_fs, d, name, node, acc);
                    new_fs.lemma_child_in_range(node, acc);
                    lemma_find_stable_detach(
                        old_fs,
                        new_fs,
                        d,
                        name,
                        c,
                        q.skip(1),
                        Seq::empty(),
                    );
                },
                None => {},
            }
        }
    } else {
        lemma_find_stable_detach(old_fs, new_fs, d, name, node, q.skip(1), acc.push(q[0]));
    }
}

/// After a successful removal, the removed path is no longer found, and
/// the parent directory no longer files the leaf name.
pub proof fn lemma_remove_then_not_found(old_fs: FileSystem, new_fs: FileSystem, path: Seq<char>)
    requires
        old_fs.wf(),
        new_fs.wf(),
        path.len() > 0,
        path[0] == '/',
        FileSystem::remove_outcome(old_fs, new_fs, path, Ok(())),
    ensures
        new_fs.find_abs(path) is None,
        ({
            let cut = last_slash(path) + 1;
            let leaf = path.subrange(cut, path.len() as int);
            old_fs.find_abs(path.subrange(0, cut)) matches Some(d) && new_fs.child(d, leaf)
                is None
        }),
{
    lemma_last_slash(path);
    let i = last_slash(path);
    assert(i >= 0) by {
        if i == -1 {
            assert(path[0] != '/');
        }
    }
    let cut = i + 1;
    let prefix = path.subrange(0, cut);
    let leaf = path.subrange(cut, path.len() as int);
    assert(old_fs.find_abs(prefix) is Some);
    let d = old_fs.find_abs(prefix).unwrap();
    assert(FileSystem::child_detached(old_fs, new_fs, d, leaf));
    // the leaf is a valid name, hence non-empty
    assert(leaf.len() > 0) by {
        let j = index_of_name(old_fs.children(d), leaf);
        assert(old_fs.children(d)[j].name@ == leaf);
        assert(old_fs.dir_ok(d));
        assert(old_fs.entry_ok(d, old_fs.children(d)[j]));
        let c = old_fs.children(d)[j].inode as int;
        assert(old_fs.node_ok(c));
        assert(old_fs.nodes@[c].name@ == leaf);
    }
    // the parent no longer files the leaf
    assert(new_fs.child(d, leaf) is None) by {
        if new_fs.child(d, leaf) is Some {
            assert(contains_name(new_fs.children(d), leaf));
        }
    }
    // and the whole path is no longer found
    assert(prefix.len() > 0 && prefix.last() == '/');
    assert(path =~= prefix + leaf);
    lemma_find_append(new_fs, 0, prefix, leaf, Seq::empty());
    match new_fs.find_from(0, prefix, Seq::empty()) {
        Some(d2) => {
            lemma_find_stable_detach(old_fs, new_fs, d, leaf, 0, prefix, Seq::empty());
            assert(old_fs.find_from(0, prefix, Seq::empty()) == Some(d2));
            assert(d2 == d);
            assert(no_slash(leaf)) by {
                assert(forall|k: int|
                    0 <= k < leaf.len() ==> (#[trigger] leaf[k]) == path[cut + k] && path[cut + k]
                        != '/');
            }
            lemma_find_plain(new_fs, d, leaf, Seq::empty());
            assert(Seq::<char>::empty() + leaf =~= leaf);
            assert(new_fs.find_abs(path) is None);
        },
        None => {
            assert(new_fs.find_abs(path) is None);
        },
    }
}

} // verus!
