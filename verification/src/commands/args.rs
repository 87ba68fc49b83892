//! The supported argument types of a command, and string-to-argument
//! parsing.

use vstd::prelude::*;

use crate::strutil::concat_str;

verus! {

/// Possible arguments of a command or flag, with their values.
#[derive(Debug, PartialEq)]
pub enum Argument {
    Basic(BasicArgument),
    List(Vec<BasicArgument>),
    Flag,
}

/// The value of a basic single argument.
#[derive(Debug, PartialEq)]
pub enum BasicArgument {
    String(String),
    Integer(i64),
}

/// The type of an argument, used for definitions and parsing.
pub enum ArgumentKind {
    /// A simple string argument, also used for paths.
    Basic(BasicArgumentKind),
    /// A fixed list of arguments of given types.
    List(Vec<BasicArgumentKind>),
    /// Arbitrarily many arguments of one type.
    Enumeration(BasicArgumentKind),
    /// A bare flag with no argument.
    Flag,
}

/// The type of a basic single argument.
#[derive(Debug, PartialEq, Eq, Structural, Clone, Copy)]
pub enum BasicArgumentKind {
    String,
    Integer,
}

impl ArgumentKind {
    /// The display name of this kind.
    pub open spec fn name_spec(&self) -> Seq<char> {
        match self {
            ArgumentKind::Basic(_) => "Basic"@,
            ArgumentKind::List(_) => "List"@,
            ArgumentKind::Enumeration(_) => "Enumeration"@,
            ArgumentKind::Flag => "Flag"@,
        }
    }

    /// The display name of this kind.
    pub fn name(&self) -> (r: &'static str)
        ensures
            r@ == self.name_spec(),
    {
        match self {
            ArgumentKind::Basic(_) => "Basic",
            ArgumentKind::List(_) => "List",
            ArgumentKind::Enumeration(_) => "Enumeration",
            ArgumentKind::Flag => "Flag",
        }
    }
}

/// How one raw token is classified before parsing.
#[derive(Debug, PartialEq, Eq, Structural)]
pub enum ArgKind {
    ShorthandFlag,
    LonghandFlag,
    Argument,
}

/// What [`arg_kind`] returns: `--x` is a long flag, `-x` a bundle of
/// one-letter flags, and everything else (including a lone `-`) a plain
/// argument.
pub open spec fn arg_kind_spec(s: Seq<char>) -> ArgKind {
    if s.len() >= 2 && s[0] == '-' && s[1] == '-' {
        ArgKind::LonghandFlag
    } else if s.len() >= 2 && s[0] == '-' {
        ArgKind::ShorthandFlag
    } else {
        ArgKind::Argument
    }
}

/// Classifies one raw token.
pub fn arg_kind(arg: &str) -> (r: ArgKind)
    ensures
        r == arg_kind_spec(arg@),
{
    let n = arg.unicode_len();
    if n >= 2 && arg.get_char(0) == '-' && arg.get_char(1) == '-' {
        ArgKind::LonghandFlag
    } else if n >= 2 && arg.get_char(0) == '-' {
        ArgKind::ShorthandFlag
    } else {
        ArgKind::Argument
    }
}

/// An ASCII decimal digit.
pub open spec fn is_ascii_digit(c: char) -> bool {
    '0' <= c && c <= '9'
}

/// A non-empty run of ASCII decimal digits.
pub open spec fn all_digits(s: Seq<char>) -> bool {
    s.len() > 0 && forall|i: int| 0 <= i < s.len() ==> is_ascii_digit(#[trigger] s[i])
}

/// The value of a digit run read in base ten.
pub open spec fn dec_value(s: Seq<char>) -> int
    decreases s.len(),
{
    if s.len() == 0 {
        0
    } else {
        dec_value(s.drop_last()) * 10 + (s.last() as int - '0' as int)
    }
}

/// The digit run of a decimal literal, the optional leading sign
/// removed.
pub open spec fn sign_split(s: Seq<char>) -> Seq<char> {
    if s.len() > 0 && (s[0] == '+' || s[0] == '-') {
        s.skip(1)
    } else {
        s
    }
}

/// The signed value of a decimal literal.
pub open spec fn literal_value(s: Seq<char>) -> int {
    if s.len() > 0 && s[0] == '-' {
        -dec_value(sign_split(s))
    } else {
        dec_value(sign_split(s))
    }
}

/// A decimal literal that fits in an `i64`: an optional ASCII sign, a
/// non-empty digit run, and a value within range.
pub open spec fn is_i64_literal(s: Seq<char>) -> bool {
    &&& all_digits(sign_split(s))
    &&& i64::MIN <= literal_value(s) <= i64::MAX
}

/// Relies on `str::parse::<i64>`: it accepts exactly an optional ASCII
/// sign followed by one or more ASCII digits whose value fits in an
/// `i64`, and returns that value; everything else is an error.  The
/// error's message text is left open.
#[verifier::external_body]
fn parse_i64(arg: &str) -> (r: Result<i64, String>)
    ensures
        match r {
            Ok(v) => is_i64_literal(arg@) && v as int == literal_value(arg@),
            Err(_) => !is_i64_literal(arg@),
        },
{
    arg.parse::<i64>().map_err(|e| e.to_string())
}

/// Parses one token against a basic kind: a string is taken as it is,
/// an integer must be a decimal `i64` literal.  A non-basic kind is
/// itself rejected.
pub fn parse_string_argument(arg: &str, kind: &ArgumentKind) -> (r: Result<BasicArgument, String>)
    ensures
        match kind {
            ArgumentKind::Basic(BasicArgumentKind::String) => r matches Ok(
                BasicArgument::String(v),
            ) && v@ == arg@,
            ArgumentKind::Basic(BasicArgumentKind::Integer) => if is_i64_literal(arg@) {
                r matches Ok(BasicArgument::Integer(v)) && v as int == literal_value(arg@)
            } else {
                r matches Err(_)
            },
            _ => r matches Err(m) && m@ == "Invalid argument kind: "@ + kind.name_spec(),
        },
{
    match kind {
        ArgumentKind::Basic(BasicArgumentKind::String) => {
            Ok(BasicArgument::String(arg.to_owned()))
        },
        ArgumentKind::Basic(BasicArgumentKind::Integer) => {
            match parse_i64(arg) {
                Ok(v) => Ok(BasicArgument::Integer(v)),
                Err(e) => Err(e),
            }
        },
        argument => Err(concat_str("Invalid argument kind: ", argument.name())),
    }
}

} // verus!
