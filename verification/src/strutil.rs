//! Small verified helpers on strings, shared by the path resolver and
//! the repository: character-wise equality and slash handling.

use vstd::prelude::*;

verus! {

/// Character-wise string equality.
pub fn str_eq(a: &str, b: &str) -> (r: bool)
    ensures
        r == (a@ == b@),
{
    let a_len = a.unicode_len();
    let b_len = b.unicode_len();
    if a_len != b_len {
        assert(a@ != b@) by {
            assert(a@.len() != b@.len());
        }
        return false;
    }
    let mut i: usize = 0;
    while i < a_len
        invariant
            a_len == a@.len(),
            b_len == b@.len(),
            a_len == b_len,
            i <= a_len,
            forall|j: int| 0 <= j < i ==> a@[j] == b@[j],
        decreases a_len - i,
    {
        if a.get_char(i) != b.get_char(i) {
            return false;
        }
        i = i + 1;
    }
    proof {
        assert(a@ =~= b@);
    }
    true
}

/// Whether the string begins with the given character.
pub fn starts_with_char(s: &str, c: char) -> (r: bool)
    ensures
        r == (s@.len() > 0 && s@[0] == c),
{
    if s.unicode_len() == 0 {
        false
    } else {
        s.get_char(0) == c
    }
}

/// The position of the last `/` in the sequence, or `-1` when there is
/// none.
pub open spec fn last_slash(s: Seq<char>) -> int
    decreases s.len(),
{
    if s.len() == 0 {
        -1
    } else if s[s.len() - 1] == '/' {
        s.len() - 1
    } else {
        last_slash(s.drop_last())
    }
}

/// What [`last_slash`] returns: the position of a `/` with none after
/// it, or `-1` when the sequence holds no `/` at all.
pub proof fn lemma_last_slash(s: Seq<char>)
    ensures
        last_slash(s) >= -1,
        last_slash(s) == -1 ==> forall|j: int| 0 <= j < s.len() ==> (#[trigger] s[j]) != '/',
        last_slash(s) >= 0 ==> {
            &&& 0 <= last_slash(s) < s.len()
            &&& s[last_slash(s)] == '/'
            &&& forall|j: int| last_slash(s) < j < s.len() ==> (#[trigger] s[j]) != '/'
        },
    decreases s.len(),
{
    if s.len() == 0 {
    } else if s[s.len() - 1] == '/' {
    } else {
        lemma_last_slash(s.drop_last());
        assert(forall|j: int| 0 <= j < s.len() - 1 ==> (#[trigger] s[j]) == s.drop_last()[j]);
    }
}

/// The position of the last `/`, if the string holds one.
pub fn find_last_slash(s: &str) -> (r: Option<usize>)
    ensures
        match r {
            Some(i) => {
                &&& i < s@.len()
                &&& s@[i as int] == '/'
                &&& forall|j: int| i < j < s@.len() ==> s@[j] != '/'
                &&& last_slash(s@) == i
            },
            None => (forall|j: int| 0 <= j < s@.len() ==> s@[j] != '/') && last_slash(s@) == -1,
        },
{
    let len = s.unicode_len();
    let mut i: usize = len;
    while i > 0
        invariant
            len == s@.len(),
            i <= len,
            forall|j: int| i <= j < len ==> s@[j] != '/',
        decreases i,
    {
        i = i - 1;
        if s.get_char(i) == '/' {
            proof {
                lemma_last_slash(s@);
                let l = last_slash(s@);
                if l < i {
                    assert(s@[i as int] != '/');
                } else if l > i {
                    assert(s@[l] != '/');
                }
            }
            return Some(i);
        }
    }
    proof {
        lemma_last_slash(s@);
        let l = last_slash(s@);
        if l >= 0 {
            assert(s@[l] != '/');
        }
    }
    None
}

/// The sequence with every trailing `/` removed.
pub open spec fn strip_trailing_slashes(s: Seq<char>) -> Seq<char>
    decreases s.len(),
{
    if s.len() > 0 && s[s.len() - 1] == '/' {
        strip_trailing_slashes(s.drop_last())
    } else {
        s
    }
}

/// Stripping trailing slashes leaves a prefix of the sequence.
pub proof fn lemma_strip_prefix(s: Seq<char>)
    ensures
        strip_trailing_slashes(s).len() <= s.len(),
        forall|k: int|
            0 <= k < strip_trailing_slashes(s).len() ==> #[trigger] strip_trailing_slashes(s)[k]
                == s[k],
    decreases s.len(),
{
    if s.len() > 0 && s[s.len() - 1] == '/' {
        lemma_strip_prefix(s.drop_last());
        assert(forall|k: int| 0 <= k < s.len() - 1 ==> #[trigger] s.drop_last()[k] == s[k]);
    }
}

/// Scans down from `from` past any trailing `/` characters, so that the
/// prefix of length `end` is the stripped form of the prefix of length
/// `from`.
pub fn strip_trailing_slashes_end(s: &str, from: usize) -> (end: usize)
    requires
        from <= s@.len(),
    ensures
        end <= from,
        s@.subrange(0, end as int) == strip_trailing_slashes(s@.subrange(0, from as int)),
        end == 0 || s@[end - 1] != '/',
{
    let mut end = from;
    while end > 0 && s.get_char(end - 1) == '/'
        invariant
            from <= s@.len(),
            end <= from,
            strip_trailing_slashes(s@.subrange(0, from as int)) == strip_trailing_slashes(
                s@.subrange(0, end as int),
            ),
        decreases end,
    {
        proof {
            let t = s@.subrange(0, end as int);
            assert(t.len() == end);
            assert(t[end - 1] == s@[end - 1]);
            assert(t.drop_last() =~= s@.subrange(0, end - 1));
        }
        end = end - 1;
    }
    proof {
        let t = s@.subrange(0, end as int);
        if end > 0 {
            assert(t[end - 1] == s@[end - 1]);
        }
        assert(strip_trailing_slashes(t) == t);
    }
    end
}

/// The characters of `s` from `from` (inclusive) to `to` (exclusive),
/// as an owned string.
pub fn substring(s: &str, from: usize, to: usize) -> (r: String)
    requires
        from <= to <= s@.len(),
    ensures
        r@ == s@.subrange(from as int, to as int),
{
    let piece = s.substring_char(from, to);
    piece.to_owned()
}

/// `a` followed by `b`.
pub fn concat_str(a: &str, b: &str) -> (r: String)
    ensures
        r@ == a@ + b@,
{
    let mut r = a.to_owned();
    r.append(b);
    r
}

} // verus!
