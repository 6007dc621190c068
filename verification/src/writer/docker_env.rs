//! The `docker-env` writer: the `env` layout with unquoted values.

use crate::writer::env::{env_lines, flatten};
use crate::writer::WriterError;
use crate::{ValModel, Value};
use crate::strutil::{join_with, vec_join_with};
use vstd::prelude::*;

verus! {

/// The whole `docker-env` output of a value: the `env` flatten, values bare.
pub open spec fn docker_env_text(m: ValModel) -> Seq<char> {
    join_with(env_lines(Seq::empty(), m, false), '\n')
}

/// The `docker-env` writer: unquoted values, uppercased underscore-joined keys.
#[derive(Debug)]
pub struct DockerEnvVarWriter {}

impl DockerEnvVarWriter {
    /// The format tag this writer serves.
    pub fn ext(&self) -> (r: &'static str)
        ensures
            r@ == "docker-env"@,
    {
        "docker-env"
    }

    /// The flattened environment lines of a value, joined by newlines.
    pub fn to_str(&self, v: &Value) -> (r: Result<String, WriterError>)
        ensures
            r matches Ok(s) && s@ == docker_env_text(v@),
    {
        let empty: Vec<char> = Vec::new();
        let lines = flatten(&empty, v, false);
        let joined = vec_join_with(&lines, '\n');
        Ok(crate::strutil::string_of_chars(joined))
    }

    /// A boxed writer, for assembling a suite.
    pub fn new_boxed() -> (r: Box<DockerEnvVarWriter>) {
        Box::new(DockerEnvVarWriter {  })
    }
}

} // verus!
