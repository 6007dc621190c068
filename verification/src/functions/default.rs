//! The `default` function: a fallback for null values.

use super::{arg_value, arg_values, spec_default, FunctionArg, FunctionError};
use crate::Value;
use vstd::prelude::*;

verus! {

/// Replaces a null value with the given literal; leaves any other value as it is.
pub struct DefaultFn {}

impl DefaultFn {
    /// The name under which the function is called.
    pub fn name(&self) -> (r: &'static str)
        ensures
            r@ == "default"@,
    {
        "default"
    }

    /// `default` itself: the value where it is not null, else the first
    /// argument; an argument error where null meets no argument.
    pub fn execute(&self, value: Value, args: &[FunctionArg]) -> (r: Result<Value, FunctionError>)
        ensures
            r matches Ok(v) ==> spec_default(value@, arg_values(args@)) == Some(v@),
            r is Err ==> spec_default(value@, arg_values(args@)) is None,
            r matches Err(e) ==> e matches FunctionError::InvalidArgument { function, .. }
                && function@ == "default"@,
    {
        match value {
            Value::Null => {
                match args.get(0) {
                    Some(arg) => {
                        let v = match arg {
                            FunctionArg::String(s) => Value::String(s.clone()),
                            FunctionArg::Int(n) => Value::Int(*n),
                            FunctionArg::Float(t) => Value::Float(t.clone()),
                            FunctionArg::Boolean(b) => Value::Boolean(*b),
                        };
                        proof {
                            assert(arg_values(args@)[0] == arg_value(args@[0]));
                            assert(v@ == arg_value(args@[0]));
                        }
                        Ok(v)
                    },
                    None => Err(
                        FunctionError::InvalidArgument {
                            function: self.name().to_owned(),
                            expected: "a default value argument",
                            got: String::from_str("no argument"),
                        },
                    ),
                }
            },
            other => Ok(other),
        }
    }
}

} // verus!
