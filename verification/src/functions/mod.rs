//! Template functions: the pure transforms applied in placeholder pipelines
//! such as `${path | trim | default:"x"}`.

pub mod default;
pub mod encoding;
pub mod string;

use crate::{ValModel, Value};
use vstd::prelude::*;

verus! {

/// A literal argument of a function call in a pipeline.  A `Float` carries
/// the literal's text, as everywhere in this crate.
#[derive(Debug, PartialEq)]
pub enum FunctionArg {
    String(String),
    Int(i64),
    Float(String),
    Boolean(bool),
}

/// The value a literal argument stands for.
pub open spec fn arg_value(a: FunctionArg) -> ValModel {
    match a {
        FunctionArg::String(s) => ValModel::Str(s@),
        FunctionArg::Int(i) => ValModel::Int(i as int),
        FunctionArg::Float(t) => ValModel::Float(t@),
        FunctionArg::Boolean(b) => ValModel::Bool(b),
    }
}

impl Clone for FunctionArg {
    /// A copy standing for the same value.
    fn clone(&self) -> (r: FunctionArg)
        ensures
            arg_value(r) == arg_value(*self),
    {
        match self {
            FunctionArg::String(s) => FunctionArg::String(s.clone()),
            FunctionArg::Int(i) => FunctionArg::Int(*i),
            FunctionArg::Float(t) => FunctionArg::Float(t.clone()),
            FunctionArg::Boolean(b) => FunctionArg::Boolean(*b),
        }
    }
}

/// An error from executing a template function.
#[derive(Debug)]
pub enum FunctionError {
    /// No function of this name is registered.
    UnknownFunction(String),
    /// The function was called with a missing or unusable argument.
    InvalidArgument { function: String, expected: &'static str, got: String },
    /// The function does not apply to this value's type.
    UnsupportedType { function: String, got: &'static str },
    /// The function ran and failed (bad base64, bad UTF-8).
    ExecutionError { function: String, message: String },
}

/// The name of a value's type, as used in error reports.
pub open spec fn spec_type_name(m: ValModel) -> Seq<char> {
    match m {
        ValModel::Str(_) => "string"@,
        ValModel::Int(_) => "int"@,
        ValModel::Float(_) => "float"@,
        ValModel::Bool(_) => "boolean"@,
        ValModel::Null => "null"@,
        ValModel::Arr(_) => "sequence"@,
        ValModel::Obj(_) => "mapping"@,
    }
}

/// The name of a value's type, for error messages.
pub fn value_type_name(value: &Value) -> (r: &'static str)
    ensures
        r@ == spec_type_name(value@),
{
    match value {
        Value::String(_) => "string",
        Value::Int(_) => "int",
        Value::Float(_) => "float",
        Value::Boolean(_) => "boolean",
        Value::Null => "null",
        Value::Sequence(_) => "sequence",
        Value::Mapping(_) => "mapping",
    }
}

/// What `trim` returns: the string with surrounding whitespace removed;
/// `None` on any other type.
pub open spec fn spec_trim(v: ValModel) -> Option<ValModel> {
    match v {
        ValModel::Str(s) => Some(ValModel::Str(string::trim_chars(s))),
        _ => None,
    }
}

/// What `upper` returns.
pub open spec fn spec_upper(v: ValModel) -> Option<ValModel> {
    match v {
        ValModel::Str(s) => Some(ValModel::Str(string::upper_of(s))),
        _ => None,
    }
}

/// What `lower` returns.
pub open spec fn spec_lower(v: ValModel) -> Option<ValModel> {
    match v {
        ValModel::Str(s) => Some(ValModel::Str(string::lower_of(s))),
        _ => None,
    }
}

/// What `base64` returns: the encoding of the string's UTF-8 bytes.
pub open spec fn spec_base64(v: ValModel) -> Option<ValModel> {
    match v {
        ValModel::Str(s) => Some(
            ValModel::Str(encoding::base64_of(vstd::utf8::encode_utf8(s))),
        ),
        _ => None,
    }
}

/// What `base64_decode` returns: the decoded text where the input is valid
/// base64 holding valid UTF-8; `None` otherwise.
pub open spec fn spec_base64_decode(v: ValModel) -> Option<ValModel> {
    match v {
        ValModel::Str(s) => match encoding::base64_decoded(s) {
            Some(bytes) => if vstd::utf8::valid_utf8(bytes) {
                Some(ValModel::Str(vstd::utf8::decode_utf8(bytes)))
            } else {
                None
            },
            None => None,
        },
        _ => None,
    }
}

/// What `url_escape` returns.
pub open spec fn spec_url_escape(v: ValModel) -> Option<ValModel> {
    match v {
        ValModel::Str(s) => Some(ValModel::Str(encoding::url_escaped(s))),
        _ => None,
    }
}

/// The values a list of literal arguments stands for.
pub open spec fn arg_values(s: Seq<FunctionArg>) -> Seq<ValModel> {
    Seq::new(s.len(), |i: int| arg_value(s[i]))
}

/// What `default` returns: the value itself unless it is null, in which case
/// the first argument's value; `None` where null meets no argument.
pub open spec fn spec_default(v: ValModel, args: Seq<ValModel>) -> Option<ValModel> {
    if !(v is Null) {
        Some(v)
    } else if args.len() > 0 {
        Some(args[0])
    } else {
        None
    }
}

/// What a named function returns on a value and arguments: the built-in
/// suite's answer, `None` for an unknown name or any error.
pub open spec fn spec_apply(name: Seq<char>, v: ValModel, args: Seq<ValModel>) -> Option<
    ValModel,
> {
    if name == "trim"@ {
        spec_trim(v)
    } else if name == "upper"@ {
        spec_upper(v)
    } else if name == "lower"@ {
        spec_lower(v)
    } else if name == "base64"@ {
        spec_base64(v)
    } else if name == "base64_decode"@ {
        spec_base64_decode(v)
    } else if name == "url_escape"@ {
        spec_url_escape(v)
    } else if name == "default"@ {
        spec_default(v, args)
    } else {
        None
    }
}

/// The table of template functions.  It holds the built-in suite: `trim`,
/// `upper`, `lower`, `base64`, `base64_decode`, `url_escape` and `default`.
///
/// The surface this stands in for kept the table additive behind trait
/// objects, letting a host register further functions at startup.  Verus
/// takes no such table of callable objects, so this registry is the closed
/// built-in suite; a host extends the pipeline by wrapping `execute`.
pub struct FunctionRegistry {}

impl FunctionRegistry {
    /// A registry holding the built-in suite.
    pub fn new() -> (r: FunctionRegistry) {
        FunctionRegistry {  }
    }

    /// Looks a function name up: `Some` exactly for the built-in suite,
    /// handing back the registered name.
    pub fn get(&self, name: &str) -> (r: Option<&'static str>)
        ensures
            r is Some <==> known_function(name@),
            r matches Some(n) ==> n@ == name@,
    {
        if crate::strutil::str_eq(name, "trim") {
            Some("trim")
        } else if crate::strutil::str_eq(name, "upper") {
            Some("upper")
        } else if crate::strutil::str_eq(name, "lower") {
            Some("lower")
        } else if crate::strutil::str_eq(name, "base64") {
            Some("base64")
        } else if crate::strutil::str_eq(name, "base64_decode") {
            Some("base64_decode")
        } else if crate::strutil::str_eq(name, "url_escape") {
            Some("url_escape")
        } else if crate::strutil::str_eq(name, "default") {
            Some("default")
        } else {
            None
        }
    }

    /// Runs the function called `name` on `value`; `Ok` exactly where
    /// `spec_apply` is defined, the unknown-name error where no function of
    /// that name exists.
    pub fn execute(&self, name: &str, value: Value, args: &[FunctionArg]) -> (r: Result<
        Value,
        FunctionError,
    >)
        ensures
            r matches Ok(v) ==> spec_apply(name@, value@, arg_values(args@)) == Some(v@),
            r is Err ==> spec_apply(name@, value@, arg_values(args@)) is None,
            r matches Err(e) ==> (match e {
                FunctionError::UnknownFunction(n) => n@ == name@ && !known_function(name@),
                _ => known_function(name@),
            }),
            !known_function(name@) ==> r is Err,
    {
        if crate::strutil::str_eq(name, "trim") {
            proof {
                reveal_strlit("trim");
            }
            string::Trim {  }.execute(value, args)
        } else if crate::strutil::str_eq(name, "upper") {
            proof {
                reveal_strlit("upper");
            }
            string::Upper {  }.execute(value, args)
        } else if crate::strutil::str_eq(name, "lower") {
            proof {
                reveal_strlit("lower");
            }
            string::Lower {  }.execute(value, args)
        } else if crate::strutil::str_eq(name, "base64") {
            proof {
                reveal_strlit("base64");
            }
            encoding::Base64Encode {  }.execute(value, args)
        } else if crate::strutil::str_eq(name, "base64_decode") {
            proof {
                reveal_strlit("base64_decode");
            }
            encoding::Base64Decode {  }.execute(value, args)
        } else if crate::strutil::str_eq(name, "url_escape") {
            proof {
                reveal_strlit("url_escape");
            }
            encoding::UrlEscape {  }.execute(value, args)
        } else if crate::strutil::str_eq(name, "default") {
            proof {
                reveal_strlit("default");
            }
            default::DefaultFn {  }.execute(value, args)
        } else {
            proof {
                lemma_unknown_function(name@);
            }
            Err(FunctionError::UnknownFunction(name.to_owned()))
        }
    }
}

/// Whether a name belongs to the built-in suite.
pub open spec fn known_function(name: Seq<char>) -> bool {
    ||| name == "trim"@
    ||| name == "upper"@
    ||| name == "lower"@
    ||| name == "base64"@
    ||| name == "base64_decode"@
    ||| name == "url_escape"@
    ||| name == "default"@
}

/// An unknown name yields no result.
proof fn lemma_unknown_function(name: Seq<char>)
    requires
        !known_function(name),
    ensures
        forall|v: ValModel, args: Seq<ValModel>| spec_apply(name, v, args) is None,
{
}

} // verus!
