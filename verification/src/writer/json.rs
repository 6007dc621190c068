//! The `json` writer: canonical JSON through serde_json.
//!
//! The tree handed to serde_json is built node by node from the `Value`,
//! and the conversion is verified against `spec_to_json` over a model of
//! the built nodes; what serde_json prints for a tree is named
//! `json_text_of` and taken on trust.

use crate::writer::WriterError;
use crate::{entry_models, lemma_entry_models, lemma_seq_models, seq_models, val_model, ValModel,
    Value};
use serde_json::Value as JsonValue;
use vstd::prelude::*;

verus! {

#[verifier::external_type_specification]
#[verifier::external_body]
pub struct ExJsonValue(JsonValue);

/// What a built serde_json node stands for, over this crate's value model:
/// scalars as themselves, numbers through `json_num_of`, arrays elementwise,
/// objects through `json_obj_of`.  A function of the node alone.
pub uninterp spec fn jv_model(v: JsonValue) -> ValModel;

/// The model of the number node parsed from a numeric text: a function of
/// the text alone.
pub uninterp spec fn json_num_of(t: Seq<char>) -> ValModel;

/// Whether a text parses as a JSON number.
pub uninterp spec fn json_num_parses(t: Seq<char>) -> bool;

/// The model of the object node collected from entries (the default map
/// sorts its keys, a later duplicate key winning): a function of the
/// entries alone.
pub uninterp spec fn json_obj_of(entries: Seq<(Seq<char>, ValModel)>) -> ValModel;

/// The compact JSON text of a node, as a function of its model.
pub uninterp spec fn json_text_of(m: ValModel) -> Seq<char>;

/// The models of a list of nodes.
pub open spec fn jv_models(items: Seq<JsonValue>) -> Seq<ValModel> {
    Seq::new(items.len(), |i: int| jv_model(items[i]))
}

/// The models of a list of keyed nodes.
pub open spec fn jv_entry_models(entries: Seq<(String, JsonValue)>) -> Seq<(Seq<char>, ValModel)> {
    Seq::new(entries.len(), |i: int| (entries[i].0@, jv_model(entries[i].1)))
}

/// Relies on serde_json::Value: the null node.
#[verifier::external_body]
pub(crate) fn jv_null() -> (r: JsonValue)
    ensures
        jv_model(r) == ValModel::Null,
{
    JsonValue::Null
}

/// Relies on serde_json::Value: wraps a boolean.
#[verifier::external_body]
pub(crate) fn jv_bool(b: bool) -> (r: JsonValue)
    ensures
        jv_model(r) == ValModel::Bool(b),
{
    JsonValue::Bool(b)
}

/// Relies on serde_json::Value and Number: wraps a signed integer.
#[verifier::external_body]
pub(crate) fn jv_int(i: i64) -> (r: JsonValue)
    ensures
        jv_model(r) == ValModel::Int(i as int),
{
    JsonValue::Number(serde_json::Number::from(i))
}

/// Relies on serde_json::Number's text parser: wraps a number given as its
/// decimal text, `None` exactly where the text is not a JSON number.
#[verifier::external_body]
pub(crate) fn jv_number_text(t: &str) -> (r: Option<JsonValue>)
    ensures
        r is Some <==> json_num_parses(t@),
        r matches Some(n) ==> jv_model(n) == json_num_of(t@),
{
    t.parse::<serde_json::Number>().ok().map(JsonValue::Number)
}

/// Relies on serde_json::Value: wraps a string.
#[verifier::external_body]
pub(crate) fn jv_string(s: &str) -> (r: JsonValue)
    ensures
        jv_model(r) == ValModel::Str(s@),
{
    JsonValue::String(s.to_owned())
}

/// Relies on serde_json::Value: wraps a list of nodes as an array.
#[verifier::external_body]
pub(crate) fn jv_array(items: Vec<JsonValue>) -> (r: JsonValue)
    ensures
        jv_model(r) == ValModel::Arr(jv_models(items@)),
{
    JsonValue::Array(items)
}

/// Relies on serde_json::Value and Map: collects entries into an object.
#[verifier::external_body]
pub(crate) fn jv_object(entries: Vec<(String, JsonValue)>) -> (r: JsonValue)
    ensures
        jv_model(r) == json_obj_of(jv_entry_models(entries@)),
{
    JsonValue::Object(entries.into_iter().collect())
}

/// Relies on serde_json::to_string: printing a value tree cannot fail (its
/// maps are string-keyed), and the text is a function of the tree.
#[verifier::external_body]
pub(crate) fn jv_render(v: &JsonValue) -> (r: Option<String>)
    ensures
        r is Some,
        r matches Some(s) ==> s@ == json_text_of(jv_model(*v)),
{
    serde_json::to_string(v).ok()
}

/// The node model `to_json` builds for a value: scalars as themselves, the
/// int/float distinction kept (an integer stays an integer node), a float
/// whose text is not a JSON number becoming null, arrays elementwise,
/// objects collected from the converted entries.
pub open spec fn spec_to_json(m: ValModel) -> ValModel
    decreases m,
{
    match m {
        ValModel::Str(s) => ValModel::Str(s),
        ValModel::Int(i) => ValModel::Int(i),
        ValModel::Float(t) => if json_num_parses(t) {
            json_num_of(t)
        } else {
            ValModel::Null
        },
        ValModel::Bool(b) => ValModel::Bool(b),
        ValModel::Null => ValModel::Null,
        ValModel::Arr(items) => ValModel::Arr(spec_to_json_seq(items)),
        ValModel::Obj(es) => json_obj_of(spec_to_json_entries(es)),
    }
}

/// `spec_to_json` over a sequence's items.
pub open spec fn spec_to_json_seq(items: Seq<ValModel>) -> Seq<ValModel>
    decreases items,
{
    if items.len() == 0 {
        Seq::empty()
    } else {
        seq![spec_to_json(items[0])] + spec_to_json_seq(items.skip(1))
    }
}

/// `spec_to_json` over a mapping's entries.
pub open spec fn spec_to_json_entries(es: Seq<(Seq<char>, ValModel)>) -> Seq<
    (Seq<char>, ValModel),
>
    decreases es,
{
    if es.len() == 0 {
        Seq::empty()
    } else {
        seq![(es[0].0, spec_to_json(es[0].1))] + spec_to_json_entries(es.skip(1))
    }
}

proof fn lemma_spec_to_json_seq(items: Seq<ValModel>)
    ensures
        spec_to_json_seq(items).len() == items.len(),
        forall|i: int| 0 <= i < items.len() ==> spec_to_json_seq(items)[i] == spec_to_json(
            items[i],
        ),
    decreases items.len(),
{
    if items.len() > 0 {
        lemma_spec_to_json_seq(items.skip(1));
        assert forall|i: int| 0 <= i < items.len() implies spec_to_json_seq(items)[i]
            == spec_to_json(items[i]) by {
            if i > 0 {
                assert(items.skip(1)[i - 1] == items[i]);
            }
        }
    }
}

proof fn lemma_spec_to_json_entries(es: Seq<(Seq<char>, ValModel)>)
    ensures
        spec_to_json_entries(es).len() == es.len(),
        forall|i: int| 0 <= i < es.len() ==> spec_to_json_entries(es)[i] == (
            es[i].0,
            spec_to_json(es[i].1),
        ),
    decreases es.len(),
{
    if es.len() > 0 {
        lemma_spec_to_json_entries(es.skip(1));
        assert forall|i: int| 0 <= i < es.len() implies spec_to_json_entries(es)[i] == (
            es[i].0,
            spec_to_json(es[i].1),
        ) by {
            if i > 0 {
                assert(es.skip(1)[i - 1] == es[i]);
            }
        }
    }
}

/// The serde_json tree of a value, built exactly as `spec_to_json` states:
/// the int/float distinction is kept where JSON can express it.
#[verifier::loop_isolation(false)]
pub fn to_json(value: &Value) -> (r: JsonValue)
    ensures
        jv_model(r) == spec_to_json(value@),
    decreases value,
{
    match value {
        Value::String(s) => jv_string(s.as_str()),
        Value::Int(i) => jv_int(*i),
        Value::Float(t) => {
            match jv_number_text(t.as_str()) {
                Some(n) => n,
                None => jv_null(),
            }
        },
        Value::Boolean(b) => jv_bool(*b),
        Value::Null => jv_null(),
        Value::Sequence(items) => {
            let n = items.len();
            let mut out: Vec<JsonValue> = Vec::new();
            let mut i: usize = 0;
            while i < n
                invariant
                    0 <= i <= n,
                    n == items@.len(),
                    out@.len() == i,
                    forall|k: int| 0 <= k < i ==> jv_model(#[trigger] out@[k]) == spec_to_json(
                        val_model(items@[k]),
                    ),
                decreases n - i,
            {
                proof {
                    assert(decreases_to!(*value => *items));
                    assert(decreases_to!(*items => items@));
                    assert(decreases_to!(items@ => items@[i as int]));
                }
                out.push(to_json(&items[i]));
                i += 1;
            }
            proof {
                lemma_seq_models(items@);
                lemma_spec_to_json_seq(seq_models(items@));
                assert(jv_models(out@) =~= spec_to_json_seq(seq_models(items@)));
            }
            jv_array(out)
        },
        Value::Mapping(entries) => {
            let n = entries.len();
            let mut out: Vec<(String, JsonValue)> = Vec::new();
            let mut i: usize = 0;
            while i < n
                invariant
                    0 <= i <= n,
                    n == entries@.len(),
                    out@.len() == i,
                    forall|k: int| 0 <= k < i ==> (#[trigger] out@[k]).0@ == entries@[k].0@
                        && jv_model(out@[k].1) == spec_to_json(val_model(entries@[k].1)),
                decreases n - i,
            {
                proof {
                    assert(decreases_to!(*value => *entries));
                    assert(decreases_to!(*entries => entries@));
                    assert(decreases_to!(entries@ => entries@[i as int]));
                    assert(decreases_to!(entries@[i as int] => entries@[i as int].1));
                }
                let key = entries[i].0.clone();
                out.push((key, to_json(&entries[i].1)));
                i += 1;
            }
            proof {
                lemma_entry_models(entries@);
                lemma_spec_to_json_entries(entry_models(entries@));
                assert(jv_entry_models(out@) =~= spec_to_json_entries(entry_models(entries@)));
            }
            jv_object(out)
        },
    }
}

/// The `json` writer.
#[derive(Debug)]
pub struct JsonWriter {}

impl JsonWriter {
    /// The format tag this writer serves.
    pub fn ext(&self) -> (r: &'static str)
        ensures
            r@ == "json"@,
    {
        "json"
    }

    /// The compact JSON text of a value: the text of the node tree
    /// `spec_to_json` describes.  Printing a value tree cannot fail.
    pub fn to_str(&self, v: &Value) -> (r: Result<String, WriterError>)
        ensures
            r matches Ok(s) && s@ == json_text_of(spec_to_json(v@)),
    {
        match jv_render(&to_json(v)) {
            Some(s) => Ok(s),
            None => Err(
                WriterError { format: "json", message: String::from_str("serialization failed") },
            ),
        }
    }

    /// A boxed writer, for assembling a suite.
    pub fn new_boxed() -> (r: Box<JsonWriter>) {
        Box::new(JsonWriter {  })
    }
}

} // verus!
