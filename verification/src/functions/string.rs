//! String-manipulation functions: `trim`, `upper`, `lower`.

use super::{spec_lower, spec_trim, spec_type_name, spec_upper, FunctionArg, FunctionError};
use crate::strutil::{str_to_chars, string_of_chars, vec_subrange};
use crate::{ValModel, Value};
use vstd::prelude::*;

verus! {

/// Whether a character counts as whitespace for `trim`.
pub uninterp spec fn is_space_char(c: char) -> bool;

/// Relies on char::is_whitespace: a property of the character alone.
#[verifier::external_body]
fn char_is_space(c: char) -> (r: bool)
    ensures
        r == is_space_char(c),
{
    c.is_whitespace()
}

/// The locale-independent uppercase form of a character sequence.
pub uninterp spec fn upper_of(s: Seq<char>) -> Seq<char>;

/// Relies on str::to_uppercase: locale-independent and a function of the
/// characters alone.
#[verifier::external_body]
pub(crate) fn to_upper(s: &str) -> (r: String)
    ensures
        r@ == upper_of(s@),
{
    s.to_uppercase()
}

/// The locale-independent lowercase form of a character sequence.
pub uninterp spec fn lower_of(s: Seq<char>) -> Seq<char>;

/// Relies on str::to_lowercase: locale-independent and a function of the
/// characters alone.
#[verifier::external_body]
fn to_lower(s: &str) -> (r: String)
    ensures
        r@ == lower_of(s@),
{
    s.to_lowercase()
}

/// The sequence with leading whitespace removed.
pub open spec fn trim_front(s: Seq<char>) -> Seq<char>
    decreases s.len(),
{
    if s.len() > 0 && is_space_char(s[0]) {
        trim_front(s.skip(1))
    } else {
        s
    }
}

/// The sequence with trailing whitespace removed.
pub open spec fn trim_back(s: Seq<char>) -> Seq<char>
    decreases s.len(),
{
    if s.len() > 0 && is_space_char(s.last()) {
        trim_back(s.drop_last())
    } else {
        s
    }
}

/// The sequence with whitespace removed at both ends.
pub open spec fn trim_chars(s: Seq<char>) -> Seq<char> {
    trim_back(trim_front(s))
}

/// Skipping exactly the leading whitespace is `trim_front`.
proof fn lemma_trim_front(s: Seq<char>, i: int)
    requires
        0 <= i <= s.len(),
        forall|j: int| 0 <= j < i ==> is_space_char(s[j]),
        i < s.len() ==> !is_space_char(s[i]),
    ensures
        trim_front(s) == s.skip(i),
    decreases i,
{
    if i == 0 {
        assert(s.skip(0) =~= s);
    } else {
        assert(is_space_char(s[0]));
        lemma_trim_front(s.skip(1), i - 1);
        assert(s.skip(1).skip(i - 1) =~= s.skip(i));
    }
}

/// Taking everything up to the trailing whitespace is `trim_back`.
proof fn lemma_trim_back(s: Seq<char>, e: int)
    requires
        0 <= e <= s.len(),
        forall|j: int| e <= j < s.len() ==> is_space_char(s[j]),
        e > 0 ==> !is_space_char(s[e - 1]),
    ensures
        trim_back(s) == s.take(e),
    decreases s.len() - e,
{
    if e == s.len() {
        if e > 0 {
            assert(trim_back(s) == s);
        }
        assert(s.take(e) =~= s);
    } else {
        assert(is_space_char(s.last()));
        lemma_trim_back(s.drop_last(), e);
        assert(s.drop_last().take(e) =~= s.take(e));
    }
}

/// Strips whitespace from both ends of a string.
fn trim_str(s: &str) -> (r: String)
    ensures
        r@ == trim_chars(s@),
{
    let chars = str_to_chars(s);
    let piece = trim_vec(&chars);
    string_of_chars(piece)
}

/// Strips whitespace from both ends of a character vector.
pub fn trim_vec(chars: &Vec<char>) -> (r: Vec<char>)
    ensures
        r@ == trim_chars(chars@),
{
    let ghost s = chars@;
    let n = chars.len();
    let mut i: usize = 0;
    while i < n && char_is_space(chars[i])
        invariant
            0 <= i <= n,
            n == s.len(),
            chars@ == s,
            forall|j: int| 0 <= j < i ==> is_space_char(s[j]),
        decreases n - i,
    {
        i += 1;
    }
    proof {
        lemma_trim_front(s, i as int);
    }
    let mut e: usize = n;
    while e > i && char_is_space(chars[e - 1])
        invariant
            i <= e <= n,
            n == s.len(),
            chars@ == s,
            forall|j: int| e <= j < n ==> is_space_char(s[j]),
            forall|j: int| 0 <= j < i ==> is_space_char(s[j]),
            i < n ==> !is_space_char(s[i as int]),
        decreases e,
    {
        e -= 1;
    }
    let piece = vec_subrange(chars, i, e);
    proof {
        let front = s.skip(i as int);
        assert(forall|j: int| 0 <= j < front.len() ==> front[j] == s[j + i]);
        if e == i {
            // Everything from `i` on is whitespace, or the string ends at `i`.
            lemma_trim_back(front, 0);
        } else {
            assert(!is_space_char(s[e - 1]));
            lemma_trim_back(front, e - i as int);
        }
        assert(front.take(e - i as int) =~= s.subrange(i as int, e as int));
        assert(piece@ == trim_chars(s));
    }
    piece
}

/// Trims whitespace from both ends of a string value.
pub struct Trim {}

impl Trim {
    /// The name under which the function is called.
    pub fn name(&self) -> (r: &'static str)
        ensures
            r@ == "trim"@,
    {
        "trim"
    }

    /// `trim` itself: defined exactly on strings, a type error otherwise.
    pub fn execute(&self, value: Value, args: &[FunctionArg]) -> (r: Result<Value, FunctionError>)
        ensures
            r matches Ok(v) ==> spec_trim(value@) == Some(v@),
            r is Err ==> spec_trim(value@) is None,
            r matches Err(e) ==> e matches FunctionError::UnsupportedType { function, got }
                && function@ == "trim"@ && got@ == spec_type_name(value@),
    {
        match value {
            Value::String(s) => Ok(Value::String(trim_str(s.as_str()))),
            other => Err(
                FunctionError::UnsupportedType {
                    function: self.name().to_owned(),
                    got: super::value_type_name(&other),
                },
            ),
        }
    }
}

/// Uppercases a string value.
pub struct Upper {}

impl Upper {
    /// The name under which the function is called.
    pub fn name(&self) -> (r: &'static str)
        ensures
            r@ == "upper"@,
    {
        "upper"
    }

    /// `upper` itself: defined exactly on strings, a type error otherwise.
    pub fn execute(&self, value: Value, args: &[FunctionArg]) -> (r: Result<Value, FunctionError>)
        ensures
            r matches Ok(v) ==> spec_upper(value@) == Some(v@),
            r is Err ==> spec_upper(value@) is None,
            r matches Err(e) ==> e matches FunctionError::UnsupportedType { function, got }
                && function@ == "upper"@ && got@ == spec_type_name(value@),
    {
        match value {
            Value::String(s) => Ok(Value::String(to_upper(s.as_str()))),
            other => Err(
                FunctionError::UnsupportedType {
                    function: self.name().to_owned(),
                    got: super::value_type_name(&other),
                },
            ),
        }
    }
}

/// Lowercases a string value.
pub struct Lower {}

impl Lower {
    /// The name under which the function is called.
    pub fn name(&self) -> (r: &'static str)
        ensures
            r@ == "lower"@,
    {
        "lower"
    }

    /// `lower` itself: defined exactly on strings, a type error otherwise.
    pub fn execute(&self, value: Value, args: &[FunctionArg]) -> (r: Result<Value, FunctionError>)
        ensures
            r matches Ok(v) ==> spec_lower(value@) == Some(v@),
            r is Err ==> spec_lower(value@) is None,
            r matches Err(e) ==> e matches FunctionError::UnsupportedType { function, got }
                && function@ == "lower"@ && got@ == spec_type_name(value@),
    {
        match value {
            Value::String(s) => Ok(Value::String(to_lower(s.as_str()))),
            other => Err(
                FunctionError::UnsupportedType {
                    function: self.name().to_owned(),
                    got: super::value_type_name(&other),
                },
            ),
        }
    }
}

} // verus!
