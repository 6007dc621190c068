//! The `yaml` writer: canonical YAML through serde_yaml, over the same
//! node tree the JSON writer builds.

use crate::writer::json::{jv_model, spec_to_json, to_json};
use crate::writer::WriterError;
use crate::{ValModel, Value};
use serde_json::Value as JsonValue;
use vstd::prelude::*;

verus! {

/// The YAML text of a node, as a function of its model.
pub uninterp spec fn yaml_text_of(m: ValModel) -> Seq<char>;

/// Relies on serde_yaml::to_string: printing a value tree cannot fail (its
/// maps are string-keyed), and the text is a function of the tree.  Nothing
/// is claimed of re-parsing the text: the printer has no depth limit while
/// the parser refuses deep nesting, so a deep enough tree prints to a text
/// the parser will not take back.
#[verifier::external_body]
fn yaml_render(v: &JsonValue) -> (r: Option<String>)
    ensures
        r is Some,
        r matches Some(s) ==> s@ == yaml_text_of(jv_model(*v)),
{
    serde_yaml::to_string(v).ok()
}

/// The `yaml` writer.
#[derive(Debug)]
pub struct YamlWriter {}

impl YamlWriter {
    /// The format tag this writer serves.
    pub fn ext(&self) -> (r: &'static str)
        ensures
            r@ == "yaml"@,
    {
        "yaml"
    }

    /// The YAML text of a value: the text of the node tree `spec_to_json`
    /// describes.  Printing a value tree cannot fail.
    pub fn to_str(&self, v: &Value) -> (r: Result<String, WriterError>)
        ensures
            r matches Ok(s) && s@ == yaml_text_of(spec_to_json(v@)),
    {
        match yaml_render(&to_json(v)) {
            Some(s) => Ok(s),
            None => Err(
                WriterError { format: "yaml", message: String::from_str("serialization failed") },
            ),
        }
    }

    /// A boxed writer, for assembling a suite.
    pub fn new_boxed() -> (r: Box<YamlWriter>) {
        Box::new(YamlWriter {  })
    }
}

} // verus!
