//! Flag definitions of a command, and the parsed flag values.
//!
//! Both stores keep their entries in vectors: the parsed flags as an
//! association list with unique names (one value per flag name), the
//! definitions as a plain set-like list deduplicated on insertion.

use vstd::prelude::*;

use crate::commands::args::{Argument, ArgumentKind, BasicArgumentKind};
use crate::strutil::str_eq;

verus! {

/// The value filed under a name, read off an association list (the
/// first entry wins; under unique names it is the only one).
pub open spec fn assoc_find(s: Seq<(String, Argument)>, name: Seq<char>) -> Option<int>
    decreases s.len(),
{
    if s.len() == 0 {
        None
    } else if s[0].0@ == name {
        Some(0)
    } else {
        match assoc_find(s.skip(1), name) {
            Some(i) => Some(i + 1),
            None => None,
        }
    }
}

/// The parsed flags of one command call: flag name to argument value.
pub struct Flags {
    pub flags: Vec<(String, Argument)>,
}

impl Flags {
    /// No two entries share a name.
    pub open spec fn wf(self) -> bool {
        forall|i: int, j: int|
            0 <= i < j < self.flags@.len() ==> (#[trigger] self.flags@[i].0@) != (
            #[trigger] self.flags@[j].0@)
    }

    pub fn new() -> (r: Flags)
        ensures
            r.wf(),
            r.flags@ == Seq::<(String, Argument)>::empty(),
    {
        Flags { flags: Vec::new() }
    }

    /// Files `arg` under `name`, replacing any earlier value.
    pub fn insert(&mut self, name: &str, arg: Argument)
        requires
            old(self).wf(),
        ensures
            final(self).wf(),
            final(self).flags@.len() <= old(self).flags@.len() + 1,
            assoc_find(final(self).flags@, name@) matches Some(i) && final(self).flags@[i].1
                == arg,
            forall|other: Seq<char>|
                other != name@ ==> #[trigger] found_value(final(self).flags@, other) == found_value(
                    old(self).flags@,
                    other,
                ),
    {
        let mut i: usize = 0;
        while i < self.flags.len()
            invariant
                old(self).wf(),
                *self == *old(self),
                i <= self.flags@.len(),
                forall|j: int| 0 <= j < i ==> (#[trigger] self.flags@[j].0@) != name@,
            decreases self.flags@.len() - i,
        {
            if str_eq(self.flags[i].0.as_str(), name) {
                let ghost olds = self.flags@;
                let entry = (name.to_owned(), arg);
                self.flags.set(i, entry);
                proof {
                    lemma_assoc_unique(olds, i as int);
                    lemma_assoc_unique(self.flags@, i as int);
                    assert forall|other: Seq<char>| other != name@ implies #[trigger] found_value(
                        self.flags@,
                        other,
                    ) == found_value(olds, other) by {
                        lemma_assoc_update(olds, self.flags@, i as int, other);
                    }
                }
                return ;
            }
            i = i + 1;
        }
        let ghost olds = self.flags@;
        self.flags.push((name.to_owned(), arg));
        proof {
            assert(self.flags@.drop_last() =~= olds);
            lemma_assoc_unique(self.flags@, olds.len() as int);
            assert forall|other: Seq<char>| other != name@ implies #[trigger] found_value(
                self.flags@,
                other,
            ) == found_value(olds, other) by {
                lemma_assoc_push(olds, self.flags@, other);
            }
        }
    }

    /// The argument filed under this flag name, if any.
    pub fn flag(&self, name: &str) -> (r: Option<&Argument>)
        ensures
            match r {
                Some(a) => assoc_find(self.flags@, name@) matches Some(i) && *a
                    == self.flags@[i].1,
                None => assoc_find(self.flags@, name@) is None,
            },
    {
        proof {
            assert(self.flags@.skip(0) =~= self.flags@);
        }
        let mut i: usize = 0;
        while i < self.flags.len()
            invariant
                i <= self.flags@.len(),
                assoc_find(self.flags@, name@) == match assoc_find(
                    self.flags@.skip(i as int),
                    name@,
                ) {
                    Some(k) => Some(k + i),
                    None => None::<int>,
                },
            decreases self.flags@.len() - i,
        {
            proof {
                assert(self.flags@.skip(i as int)[0] == self.flags@[i as int]);
                assert(self.flags@.skip(i as int).skip(1) =~= self.flags@.skip(i + 1));
            }
            if str_eq(self.flags[i].0.as_str(), name) {
                return Some(&self.flags[i].1);
            }
            i = i + 1;
        }
        proof {
            assert(self.flags@.skip(self.flags@.len() as int) =~= Seq::<(String, Argument)>::empty());
        }
        None
    }

    /// All parsed flags, as name/value pairs.
    pub fn flags(&self) -> (r: &Vec<(String, Argument)>)
        ensures
            r == &self.flags,
    {
        &self.flags
    }
}

/// The value (not the index) an association lookup finds.
pub open spec fn found_value(s: Seq<(String, Argument)>, name: Seq<char>) -> Option<Argument> {
    match assoc_find(s, name) {
        Some(i) => Some(s[i].1),
        None => None,
    }
}

/// A successful association lookup is in range and hits the name.
proof fn lemma_assoc_find_range(s: Seq<(String, Argument)>, name: Seq<char>)
    ensures
        assoc_find(s, name) matches Some(i) ==> 0 <= i < s.len() && s[i].0@ == name,
    decreases s.len(),
{
    if s.len() == 0 {
    } else if s[0].0@ == name {
    } else {
        lemma_assoc_find_range(s.skip(1), name);
        match assoc_find(s.skip(1), name) {
            Some(k) => {
                assert(s.skip(1)[k] == s[k + 1]);
            },
            None => {},
        }
    }
}

/// An association lookup lands on the first entry with the name.
proof fn lemma_assoc_unique(s: Seq<(String, Argument)>, i: int)
    requires
        0 <= i < s.len(),
        forall|j: int| 0 <= j < i ==> (#[trigger] s[j].0@) != s[i].0@,
    ensures
        assoc_find(s, s[i].0@) == Some(i),
    decreases s.len(),
{
    if i == 0 {
    } else {
        assert(s[0].0@ != s[i].0@);
        assert(s.skip(1)[i - 1] == s[i]);
        assert(forall|j: int| 0 <= j < i - 1 ==> (#[trigger] s.skip(1)[j].0@) == s[j + 1].0@);
        lemma_assoc_unique(s.skip(1), i - 1);
    }
}

/// Replacing one entry changes no lookup of another name.
proof fn lemma_assoc_update(
    olds: Seq<(String, Argument)>,
    news: Seq<(String, Argument)>,
    i: int,
    other: Seq<char>,
)
    requires
        0 <= i < olds.len(),
        news.len() == olds.len(),
        forall|j: int| 0 <= j < olds.len() && j != i ==> #[trigger] news[j] == olds[j],
        news[i].0@ == olds[i].0@,
        other != olds[i].0@,
    ensures
        found_value(news, other) == found_value(olds, other),
    decreases olds.len(),
{
    if olds.len() == 0 {
    } else if i == 0 {
        assert(news.skip(1) =~= olds.skip(1));
        lemma_assoc_find_range(olds.skip(1), other);
        match assoc_find(olds.skip(1), other) {
            Some(k) => {
                assert(news.skip(1)[k] == olds.skip(1)[k]);
                assert(news[k + 1] == olds[k + 1]);
            },
            None => {},
        }
    } else {
        assert(news[0] == olds[0]);
        assert(news.skip(1).len() == olds.skip(1).len());
        assert(forall|j: int|
            0 <= j < olds.skip(1).len() && j != i - 1 ==> #[trigger] news.skip(1)[j] == olds.skip(
                1,
            )[j]);
        assert(news.skip(1)[i - 1].0@ == olds.skip(1)[i - 1].0@);
        lemma_assoc_update(olds.skip(1), news.skip(1), i - 1, other);
        lemma_assoc_find_range(olds.skip(1), other);
        lemma_assoc_find_range(news.skip(1), other);
        match assoc_find(olds.skip(1), other) {
            Some(k) => {
                assert(olds.skip(1)[k] == olds[k + 1]);
                assert(news.skip(1)[k] == news[k + 1]);
            },
            None => {},
        }
    }
}

/// Appending an entry changes no lookup of another name.
proof fn lemma_assoc_push(
    olds: Seq<(String, Argument)>,
    news: Seq<(String, Argument)>,
    other: Seq<char>,
)
    requires
        news.len() == olds.len() + 1,
        forall|j: int| 0 <= j < olds.len() ==> #[trigger] news[j] == olds[j],
        other != news[olds.len() as int].0@,
    ensures
        found_value(news, other) == found_value(olds, other),
    decreases olds.len(),
{
    if olds.len() == 0 {
    } else {
        assert(news[0] == olds[0]);
        assert(forall|j: int|
            0 <= j < olds.skip(1).len() ==> #[trigger] news.skip(1)[j] == olds.skip(1)[j]);
        assert(news.skip(1)[olds.skip(1).len() as int] == news[olds.len() as int]);
        lemma_assoc_push(olds.skip(1), news.skip(1), other);
        lemma_assoc_find_range(olds.skip(1), other);
        lemma_assoc_find_range(news.skip(1), other);
        match assoc_find(olds.skip(1), other) {
            Some(k) => {
                assert(olds.skip(1)[k] == olds[k + 1]);
                assert(news.skip(1)[k] == news[k + 1]);
            },
            None => {},
        }
    }
}

/// One flag a command accepts: its long name, optional one-letter form,
/// whether it must be given, and the argument it takes.
pub struct FlagSpecification {
    pub name: &'static str,
    pub short_hand: Option<char>,
    pub required: bool,
    pub arg_type: ArgumentKind,
}

impl FlagSpecification {
    pub fn new(
        name: &'static str,
        short_hand: Option<char>,
        required: bool,
        arg_type: ArgumentKind,
    ) -> (r: FlagSpecification)
        ensures
            r.name == name,
            r.short_hand == short_hand,
            r.required == required,
            r.arg_type == arg_type,
    {
        FlagSpecification { name, short_hand, required, arg_type }
    }
}

/// Whether two argument kinds describe the same shape.
pub open spec fn kind_eqv(a: ArgumentKind, b: ArgumentKind) -> bool {
    match (a, b) {
        (ArgumentKind::Basic(x), ArgumentKind::Basic(y)) => x == y,
        (ArgumentKind::List(u), ArgumentKind::List(v)) => u@ == v@,
        (ArgumentKind::Enumeration(x), ArgumentKind::Enumeration(y)) => x == y,
        (ArgumentKind::Flag, ArgumentKind::Flag) => true,
        _ => false,
    }
}

/// Whether two flag specifications say the same thing.
pub open spec fn spec_eqv(a: FlagSpecification, b: FlagSpecification) -> bool {
    &&& a.name@ == b.name@
    &&& a.short_hand == b.short_hand
    &&& a.required == b.required
    &&& kind_eqv(a.arg_type, b.arg_type)
}

fn basic_kind_eq(a: &BasicArgumentKind, b: &BasicArgumentKind) -> (r: bool)
    ensures
        r == (*a == *b),
{
    match (a, b) {
        (BasicArgumentKind::String, BasicArgumentKind::String) => true,
        (BasicArgumentKind::Integer, BasicArgumentKind::Integer) => true,
        _ => false,
    }
}

fn kind_eq(a: &ArgumentKind, b: &ArgumentKind) -> (r: bool)
    ensures
        r == kind_eqv(*a, *b),
{
    match a {
        ArgumentKind::Basic(x) => match b {
            ArgumentKind::Basic(y) => basic_kind_eq(x, y),
            _ => false,
        },
        ArgumentKind::List(u) => match b {
            ArgumentKind::List(v) => {
                if u.len() != v.len() {
                    proof {
                        assert(u@.len() != v@.len());
                        assert(u@ != v@);
                        assert(!kind_eqv(*a, *b));
                    }
                    return false;
                }
                proof {
                    assert(kind_eqv(*a, *b) == (u@ == v@));
                }
                let mut i: usize = 0;
                while i < u.len()
                    invariant
                        kind_eqv(*a, *b) == (u@ == v@),
                        u@.len() == v@.len(),
                        i <= u@.len(),
                        forall|j: int| 0 <= j < i ==> u@[j] == v@[j],
                    decreases u@.len() - i,
                {
                    if !basic_kind_eq(&u[i], &v[i]) {
                        proof {
                            assert(u@[i as int] != v@[i as int]);
                            assert(u@ != v@);
                        }
                        return false;
                    }
                    i = i + 1;
                }
                proof {
                    assert(u@ =~= v@);
                }
                true
            },
            _ => false,
        },
        ArgumentKind::Enumeration(x) => match b {
            ArgumentKind::Enumeration(y) => basic_kind_eq(x, y),
            _ => false,
        },
        ArgumentKind::Flag => match b {
            ArgumentKind::Flag => true,
            _ => false,
        },
    }
}

fn flag_spec_eq(a: &FlagSpecification, b: &FlagSpecification) -> (r: bool)
    ensures
        r == spec_eqv(*a, *b),
{
    if !str_eq(a.name, b.name) {
        return false;
    }
    let short_same = match (a.short_hand, b.short_hand) {
        (Some(x), Some(y)) => x == y,
        (None, None) => true,
        _ => false,
    };
    if !short_same {
        return false;
    }
    if a.required != b.required {
        return false;
    }
    kind_eq(&a.arg_type, &b.arg_type)
}

/// The flags one command accepts.
pub struct FlagDefinition {
    pub flags: Vec<FlagSpecification>,
}

impl FlagDefinition {
    pub fn new(flags: Vec<FlagSpecification>) -> (r: FlagDefinition)
        ensures
            r.flags == flags,
    {
        FlagDefinition { flags }
    }

    /// The specification whose long name is `name`, if one is defined.
    pub fn get_flag_longhand(&self, name: &str) -> (r: Option<&FlagSpecification>)
        ensures
            match r {
                Some(f) => exists|i: int|
                    0 <= i < self.flags@.len() && #[trigger] self.flags@[i] == *f && f.name@
                        == name@,
                None => forall|i: int|
                    0 <= i < self.flags@.len() ==> (#[trigger] self.flags@[i].name@) != name@,
            },
    {
        let mut i: usize = 0;
        while i < self.flags.len()
            invariant
                i <= self.flags@.len(),
                forall|j: int| 0 <= j < i ==> (#[trigger] self.flags@[j].name@) != name@,
            decreases self.flags@.len() - i,
        {
            if str_eq(self.flags[i].name, name) {
                return Some(&self.flags[i]);
            }
            i = i + 1;
        }
        None
    }

    /// The specification whose one-letter form is `name`, if one is
    /// defined.
    pub fn get_flag_shorthand(&self, name: char) -> (r: Option<&FlagSpecification>)
        ensures
            match r {
                Some(f) => exists|i: int|
                    0 <= i < self.flags@.len() && #[trigger] self.flags@[i] == *f && f.short_hand
                        == Some(name),
                None => forall|i: int|
                    0 <= i < self.flags@.len() ==> (#[trigger] self.flags@[i].short_hand) != Some(
                        name,
                    ),
            },
    {
        let mut i: usize = 0;
        while i < self.flags.len()
            invariant
                i <= self.flags@.len(),
                forall|j: int| 0 <= j < i ==> (#[trigger] self.flags@[j].short_hand) != Some(name),
            decreases self.flags@.len() - i,
        {
            let hit = match self.flags[i].short_hand {
                Some(c) => c == name,
                None => false,
            };
            if hit {
                return Some(&self.flags[i]);
            }
            i = i + 1;
        }
        None
    }

    /// Hands the defined flags out.
    pub fn into_flags(self) -> (r: Vec<FlagSpecification>)
        ensures
            r == self.flags,
    {
        self.flags
    }
}

/// Accumulates flag specifications, ignoring a duplicate of one already
/// given.
pub struct FlagDefinitionBuilder {
    pub flags: Vec<FlagSpecification>,
}

impl FlagDefinitionBuilder {
    pub fn new() -> (r: FlagDefinitionBuilder)
        ensures
            r.flags@ == Seq::<FlagSpecification>::empty(),
    {
        FlagDefinitionBuilder { flags: Vec::new() }
    }

    /// Adds one flag specification; one saying the same thing as an
    /// earlier one is dropped.
    pub fn with_flag(self, flag: FlagSpecification) -> (r: FlagDefinitionBuilder)
        ensures
            if exists|i: int|
                0 <= i < self.flags@.len() && spec_eqv(#[trigger] self.flags@[i], flag) {
                r.flags@ == self.flags@
            } else {
                r.flags@ == self.flags@.push(flag)
            },
    {
        let mut this = self;
        let mut i: usize = 0;
        while i < this.flags.len()
            invariant
                this == self,
                i <= this.flags@.len(),
                forall|j: int| 0 <= j < i ==> !spec_eqv(#[trigger] this.flags@[j], flag),
            decreases this.flags@.len() - i,
        {
            if flag_spec_eq(&this.flags[i], &flag) {
                proof {
                    assert(spec_eqv(self.flags@[i as int], flag));
                }
                return this;
            }
            i = i + 1;
        }
        this.flags.push(flag);
        proof {
            assert(this.flags@.drop_last() =~= self.flags@);
            assert(this.flags@ =~= self.flags@.push(flag));
        }
        this
    }

    /// Seals the builder into a definition.
    pub fn into_flag_definition(self) -> (r: FlagDefinition)
        ensures
            r.flags == self.flags,
    {
        FlagDefinition::new(self.flags)
    }
}

} // verus!
