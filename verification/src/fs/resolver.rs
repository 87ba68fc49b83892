//! Pure path resolution: a raw shell token plus a home directory and a
//! current working directory give an absolute path.
//!
//! The precedence, checked in order: an absolute path is returned
//! unchanged; `~` and `~/…` resolve against the home directory; `..`
//! (optionally with a trailing `/`) goes to the parent of the working
//! directory, staying at `/` when already there; `.` stays put; anything
//! else is joined onto the working directory.  The token `-` is not
//! handled here: the session recognises it before resolving.

use vstd::prelude::*;

use crate::strutil::{
    concat_str, last_slash, lemma_last_slash, str_eq, strip_trailing_slashes,
    strip_trailing_slashes_end, substring,
};

verus! {

/// `base` and `rel` joined with exactly one `/` between them.
pub open spec fn join_spec(base: Seq<char>, rel: Seq<char>) -> Seq<char> {
    if base.len() > 0 && base[base.len() - 1] == '/' {
        base + rel
    } else {
        base + seq!['/'] + rel
    }
}

/// The parent directory of a path: trailing slashes are ignored, the
/// last component is dropped, and any spelling of the root (one or more
/// slashes) keeps itself.  A path with no `/` at all has the empty
/// parent.
pub open spec fn parent_spec(s: Seq<char>) -> Seq<char> {
    let t = strip_trailing_slashes(s);
    let i = last_slash(t);
    if t.len() == 0 {
        seq!['/']
    } else if i < 0 {
        Seq::empty()
    } else {
        let p = strip_trailing_slashes(t.subrange(0, i));
        if p.len() == 0 {
            seq!['/']
        } else {
            p
        }
    }
}

/// What [`resolve_path`] returns, by the precedence listed above.
pub open spec fn resolve_spec(path: Seq<char>, home: Seq<char>, cwd: Seq<char>) -> Seq<char> {
    if path.len() > 0 && path[0] == '/' {
        path
    } else if path == seq!['~'] {
        home
    } else if path.len() >= 2 && path[0] == '~' && path[1] == '/' {
        join_spec(home, path.skip(2))
    } else if path == seq!['.', '.'] || path == seq!['.', '.', '/'] {
        if cwd == seq!['/'] {
            seq!['/']
        } else {
            parent_spec(cwd)
        }
    } else if path == seq!['.'] || path == seq!['.', '/'] {
        cwd
    } else {
        join_spec(cwd, path)
    }
}

/// `base` and `rel` joined with exactly one `/` between them.
pub fn join_path(base: &str, rel: &str) -> (r: String)
    ensures
        r@ == join_spec(base@, rel@),
{
    proof {
        reveal_strlit("/");
    }
    let n = base.unicode_len();
    if n > 0 && base.get_char(n - 1) == '/' {
        concat_str(base, rel)
    } else {
        let head = concat_str(base, "/");
        concat_str(head.as_str(), rel)
    }
}

/// The parent directory of a path, as [`parent_spec`] describes it.
pub fn parent_path(s: &str) -> (r: String)
    ensures
        r@ == parent_spec(s@),
{
    let len = s.unicode_len();
    let end = strip_trailing_slashes_end(s, len);
    proof {
        assert(s@.subrange(0, len as int) =~= s@);
        lemma_last_slash(s@.subrange(0, end as int));
    }
    if end == 0 {
        proof {
            reveal_strlit("/");
            assert("/"@ =~= seq!['/']);
            assert(strip_trailing_slashes(s@).len() == 0);
        }
        return "/".to_owned();
    }
    let mut i = end;
    while i > 0
        invariant
            end <= len == s@.len(),
            i <= end,
            s@.subrange(0, end as int) == strip_trailing_slashes(s@),
            forall|j: int| i <= j < end ==> s@[j] != '/',
        decreases i,
    {
        i = i - 1;
        if s.get_char(i) == '/' {
            proof {
                let t = s@.subrange(0, end as int);
                lemma_last_slash(t);
                assert(t[i as int] == s@[i as int]);
                assert(forall|j: int| i < j < end ==> t[j] == s@[j]);
                let l = last_slash(t);
                if l < i {
                    assert(t[i as int] != '/');
                } else if l > i {
                    assert(t[l] == s@[l]);
                    assert(s@[l] != '/');
                }
                assert(last_slash(t) == i);
            }
            let end2 = strip_trailing_slashes_end(s, i);
            proof {
                let t = s@.subrange(0, end as int);
                assert(t.subrange(0, i as int) =~= s@.subrange(0, i as int));
            }
            if end2 == 0 {
                proof {
                    reveal_strlit("/");
                    assert("/"@ =~= seq!['/']);
                    assert(strip_trailing_slashes(s@.subrange(0, i as int)).len() == 0);
                }
                return "/".to_owned();
            }
            return substring(s, 0, end2);
        }
    }
    proof {
        let t = s@.subrange(0, end as int);
        lemma_last_slash(t);
        assert(t.len() == end);
        assert(forall|j: int| 0 <= j < end ==> t[j] == s@[j]);
        if last_slash(t) >= 0 {
            assert(t[last_slash(t)] == '/');
            assert(false);
        }
    }
    String::new()
}

/// Resolves a raw path token against the home directory and the current
/// working directory.
pub fn resolve_path(path: &str, home_directory: &str, current_working_directory: &str) -> (r:
    String)
    ensures
        r@ == resolve_spec(path@, home_directory@, current_working_directory@),
{
    let n = path.unicode_len();
    if n > 0 && path.get_char(0) == '/' {
        return path.to_owned();
    }
    if n == 1 && path.get_char(0) == '~' {
        proof {
            assert(path@ =~= seq!['~']);
        }
        return home_directory.to_owned();
    }
    if n >= 2 && path.get_char(0) == '~' && path.get_char(1) == '/' {
        let rest = substring(path, 2, n);
        return join_path(home_directory, rest.as_str());
    }
    proof {
        assert(path@ != seq!['~']) by {
            if path@ == seq!['~'] {
                assert(path@.len() == 1 && path@[0] == '~');
            }
        }
    }
    let is_parent = (n == 2 && path.get_char(0) == '.' && path.get_char(1) == '.') || (n == 3
        && path.get_char(0) == '.' && path.get_char(1) == '.' && path.get_char(2) == '/');
    if is_parent {
        proof {
            assert(path@ =~= seq!['.', '.'] || path@ =~= seq!['.', '.', '/']);
        }
        if str_eq(current_working_directory, "/") {
            proof {
                reveal_strlit("/");
                assert("/"@ =~= seq!['/']);
            }
            return "/".to_owned();
        }
        proof {
            reveal_strlit("/");
            assert("/"@ =~= seq!['/']);
            assert(current_working_directory@ != seq!['/']);
        }
        return parent_path(current_working_directory);
    }
    proof {
        assert(path@ != seq!['.', '.'] && path@ != seq!['.', '.', '/']) by {
            if path@ == seq!['.', '.'] {
                assert(path@.len() == 2 && path@[0] == '.' && path@[1] == '.');
            }
            if path@ == seq!['.', '.', '/'] {
                assert(path@.len() == 3 && path@[0] == '.' && path@[1] == '.' && path@[2] == '/');
            }
        }
    }
    let is_current = (n == 1 && path.get_char(0) == '.') || (n == 2 && path.get_char(0) == '.'
        && path.get_char(1) == '/');
    if is_current {
        proof {
            assert(path@ =~= seq!['.'] || path@ =~= seq!['.', '/']);
        }
        return current_working_directory.to_owned();
    }
    proof {
        assert(path@ != seq!['.'] && path@ != seq!['.', '/']) by {
            if path@ == seq!['.'] {
                assert(path@.len() == 1 && path@[0] == '.');
            }
            if path@ == seq!['.', '/'] {
                assert(path@.len() == 2 && path@[0] == '.' && path@[1] == '/');
            }
        }
    }
    join_path(current_working_directory, path)
}

/// Resolving `..` away from the root moves to the parent of the working
/// directory.
pub proof fn lemma_resolve_parent(home: Seq<char>, cwd: Seq<char>)
    requires
        cwd != seq!['/'],
    ensures
        resolve_spec(seq!['.', '.'], home, cwd) == parent_spec(cwd),
        resolve_spec(seq!['.', '.', '/'], home, cwd) == parent_spec(cwd),
{
    assert(seq!['.', '.'][0] == '.');
    assert(seq!['.', '.', '/'][0] == '.');
    assert(seq!['.', '.'] != seq!['~']) by {
        assert(seq!['.', '.'].len() == 2);
    }
    assert(seq!['.', '.', '/'] != seq!['~']) by {
        assert(seq!['.', '.', '/'].len() == 3);
    }
}

/// Resolving `..` at the root is a no-op: the result is the root again.
pub proof fn lemma_resolve_parent_of_root(home: Seq<char>)
    ensures
        resolve_spec(seq!['.', '.'], home, seq!['/']) == seq!['/'],
        resolve_spec(seq!['.', '.', '/'], home, seq!['/']) == seq!['/'],
{
    assert(seq!['.', '.'][0] == '.');
    assert(seq!['.', '.', '/'][0] == '.');
    assert(seq!['.', '.'] != seq!['~']) by {
        assert(seq!['.', '.'].len() == 2);
    }
    assert(seq!['.', '.', '/'] != seq!['~']) by {
        assert(seq!['.', '.', '/'].len() == 3);
    }
}

/// The parent of an absolute path is absolute: dropping the last
/// component of a path that starts at the root cannot leave the root.
pub proof fn lemma_parent_abs(s: Seq<char>)
    requires
        s.len() > 0,
        s[0] == '/',
    ensures
        parent_spec(s).len() > 0,
        parent_spec(s)[0] == '/',
{
    crate::strutil::lemma_strip_prefix(s);
    let t = strip_trailing_slashes(s);
    if t.len() == 0 {
    } else {
        assert(t[0] == s[0]);
        lemma_last_slash(t);
        let i = last_slash(t);
        assert(i >= 0) by {
            if i == -1 {
                assert(t[0] != '/');
            }
        }
        if i == 0 {
            assert(t.subrange(0, 0) =~= Seq::<char>::empty());
            assert(strip_trailing_slashes(Seq::<char>::empty()).len() == 0);
        } else {
            let u = t.subrange(0, i);
            crate::strutil::lemma_strip_prefix(u);
            let p = strip_trailing_slashes(u);
            if p.len() > 0 {
                assert(p[0] == u[0]);
                assert(u[0] == t[0]);
            }
        }
    }
}

/// For an absolute home directory and an absolute working directory the
/// resolver always yields an absolute path, whatever the raw token.
pub proof fn lemma_resolve_absolute(path: Seq<char>, home: Seq<char>, cwd: Seq<char>)
    requires
        home.len() > 0,
        home[0] == '/',
        cwd.len() > 0,
        cwd[0] == '/',
    ensures
        resolve_spec(path, home, cwd).len() > 0,
        resolve_spec(path, home, cwd)[0] == '/',
{
    if path.len() > 0 && path[0] == '/' {
    } else if path == seq!['~'] {
    } else if path.len() >= 2 && path[0] == '~' && path[1] == '/' {
        assert(join_spec(home, path.skip(2))[0] == home[0]);
    } else if path == seq!['.', '.'] || path == seq!['.', '.', '/'] {
        if cwd == seq!['/'] {
        } else {
            lemma_parent_abs(cwd);
        }
    } else if path == seq!['.'] || path == seq!['.', '/'] {
    } else {
        assert(join_spec(cwd, path)[0] == cwd[0]);
    }
}

/// Resolving `~` gives the home directory whatever the working directory
/// is, and `~/rest` gives the home directory joined with the rest.
pub proof fn lemma_resolve_home(home: Seq<char>, cwd: Seq<char>, rest: Seq<char>)
    ensures
        resolve_spec(seq!['~'], home, cwd) == home,
        resolve_spec(seq!['~', '/'] + rest, home, cwd) == join_spec(home, rest),
{
    assert(seq!['~'][0] == '~');
    let p = seq!['~', '/'] + rest;
    assert(p[0] == '~' && p[1] == '/');
    assert(p.skip(2) =~= rest);
}

} // verus!
