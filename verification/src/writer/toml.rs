//! The `toml` writer: TOML through the toml crate, over the node tree the
//! JSON writer builds.  TOML has no null and wants a table at the root, so
//! nulls become empty strings first and a non-mapping root is wrapped under
//! a synthetic `root` key.

use crate::writer::json::{jv_model, spec_to_json, to_json};
use crate::writer::WriterError;
use crate::{val_model, ValModel, Value};
use serde_json::Value as JsonValue;
use vstd::prelude::*;

verus! {

/// The TOML text of a node, where TOML can carry it; a function of the
/// node's model.
pub uninterp spec fn toml_text_of(m: ValModel) -> Option<Seq<char>>;

/// Relies on toml::Value::try_from and toml::to_string_pretty: transcodes
/// one tree and prints it as TOML; whether it succeeds, and the text, are
/// functions of the tree alone.
#[verifier::external_body]
fn toml_render(v: &JsonValue) -> (r: Option<String>)
    ensures
        r matches Some(s) ==> toml_text_of(jv_model(*v)) == Some(s@),
        r is None ==> toml_text_of(jv_model(*v)) is None,
{
    match toml::Value::try_from(v) {
        Ok(t) => toml::to_string_pretty(&t).ok(),
        Err(_) => None,
    }
}

/// The node a value is serialized through: nulls become empty strings, and
/// a root that is not a mapping is wrapped under a synthetic `root` key.
pub open spec fn spec_toml_ready(m: ValModel) -> ValModel {
    let cleaned = spec_without_nulls(m);
    if cleaned is Obj {
        cleaned
    } else {
        ValModel::Obj(seq![("root"@, cleaned)])
    }
}

/// A value with every null turned into an empty string, TOML having no null.
pub open spec fn spec_without_nulls(m: ValModel) -> ValModel
    decreases m,
{
    match m {
        ValModel::Null => ValModel::Str(Seq::empty()),
        ValModel::Arr(items) => ValModel::Arr(spec_seq_without_nulls(items)),
        ValModel::Obj(es) => ValModel::Obj(spec_entries_without_nulls(es)),
        other => other,
    }
}

/// `spec_without_nulls` over a sequence's items.
pub open spec fn spec_seq_without_nulls(items: Seq<ValModel>) -> Seq<ValModel>
    decreases items,
{
    if items.len() == 0 {
        Seq::empty()
    } else {
        seq![spec_without_nulls(items[0])] + spec_seq_without_nulls(items.skip(1))
    }
}

/// `spec_without_nulls` over a mapping's entries.
pub open spec fn spec_entries_without_nulls(es: Seq<(Seq<char>, ValModel)>) -> Seq<
    (Seq<char>, ValModel),
>
    decreases es,
{
    if es.len() == 0 {
        Seq::empty()
    } else {
        seq![(es[0].0, spec_without_nulls(es[0].1))] + spec_entries_without_nulls(es.skip(1))
    }
}

/// Replaces every null in a value by an empty string.
#[verifier::loop_isolation(false)]
pub fn without_nulls(v: &Value) -> (r: Value)
    ensures
        r@ == spec_without_nulls(v@),
    decreases v,
{
    match v {
        Value::Null => Value::String(String::new()),
        Value::String(s) => Value::String(s.clone()),
        Value::Int(i) => Value::Int(*i),
        Value::Float(t) => Value::Float(t.clone()),
        Value::Boolean(b) => Value::Boolean(*b),
        Value::Sequence(items) => {
            let n = items.len();
            let mut out: Vec<Value> = Vec::new();
            let mut i: usize = 0;
            while i < n
                invariant
                    0 <= i <= n,
                    n == items@.len(),
                    out@.len() == i,
                    forall|k: int| 0 <= k < i ==> val_model(#[trigger] out@[k])
                        == spec_without_nulls(val_model(items@[k])),
                decreases n - i,
            {
                proof {
                    assert(decreases_to!(*v => *items));
                    assert(decreases_to!(*items => items@));
                    assert(decreases_to!(items@ => items@[i as int]));
                }
                out.push(without_nulls(&items[i]));
                i += 1;
            }
            proof {
                crate::lemma_seq_models(items@);
                crate::lemma_seq_models(out@);
                lemma_seq_without_nulls(crate::seq_models(items@));
                assert(crate::seq_models(out@) =~= spec_seq_without_nulls(
                    crate::seq_models(items@),
                ));
            }
            Value::Sequence(out)
        },
        Value::Mapping(entries) => {
            let n = entries.len();
            let mut out: Vec<(String, Value)> = Vec::new();
            let mut i: usize = 0;
            while i < n
                invariant
                    0 <= i <= n,
                    n == entries@.len(),
                    out@.len() == i,
                    forall|k: int| 0 <= k < i ==> (#[trigger] out@[k]).0@ == entries@[k].0@
                        && val_model(out@[k].1) == spec_without_nulls(val_model(entries@[k].1)),
                decreases n - i,
            {
                proof {
                    assert(decreases_to!(*v => *entries));
                    assert(decreases_to!(*entries => entries@));
                    assert(decreases_to!(entries@ => entries@[i as int]));
                    assert(decreases_to!(entries@[i as int] => entries@[i as int].1));
                }
                let key = entries[i].0.clone();
                let val = without_nulls(&entries[i].1);
                out.push((key, val));
                i += 1;
            }
            proof {
                crate::lemma_entry_models(entries@);
                crate::lemma_entry_models(out@);
                lemma_entries_without_nulls(crate::entry_models(entries@));
                assert(crate::entry_models(out@) =~= spec_entries_without_nulls(
                    crate::entry_models(entries@),
                ));
            }
            Value::Mapping(out)
        },
    }
}

broadcast proof fn lemma_seq_without_nulls(items: Seq<ValModel>)
    ensures
        (#[trigger] spec_seq_without_nulls(items)).len() == items.len(),
        forall|i: int| 0 <= i < items.len() ==> spec_seq_without_nulls(items)[i]
            == spec_without_nulls(items[i]),
    decreases items.len(),
{
    if items.len() > 0 {
        lemma_seq_without_nulls(items.skip(1));
        assert forall|i: int| 0 <= i < items.len() implies spec_seq_without_nulls(items)[i]
            == spec_without_nulls(items[i]) by {
            if i > 0 {
                assert(items.skip(1)[i - 1] == items[i]);
            }
        }
    }
}

broadcast proof fn lemma_entries_without_nulls(es: Seq<(Seq<char>, ValModel)>)
    ensures
        (#[trigger] spec_entries_without_nulls(es)).len() == es.len(),
        forall|i: int| 0 <= i < es.len() ==> spec_entries_without_nulls(es)[i] == (
            es[i].0,
            spec_without_nulls(es[i].1),
        ),
    decreases es.len(),
{
    if es.len() > 0 {
        lemma_entries_without_nulls(es.skip(1));
        assert forall|i: int| 0 <= i < es.len() implies spec_entries_without_nulls(es)[i] == (
            es[i].0,
            spec_without_nulls(es[i].1),
        ) by {
            if i > 0 {
                assert(es.skip(1)[i - 1] == es[i]);
            }
        }
    }
}

/// The `toml` writer.
#[derive(Debug)]
pub struct TomlWriter {}

impl TomlWriter {
    /// The format tag this writer serves.
    pub fn ext(&self) -> (r: &'static str)
        ensures
            r@ == "toml"@,
    {
        "toml"
    }

    /// The TOML text of a value: nulls become empty strings, a non-mapping
    /// root is wrapped under a `root` key, and the result is the TOML text
    /// of the node tree `spec_to_json` describes for that value; a
    /// format-tagged error exactly where TOML cannot carry it.
    pub fn to_str(&self, v: &Value) -> (r: Result<String, WriterError>)
        ensures
            r matches Ok(s) ==> toml_text_of(spec_to_json(spec_toml_ready(v@))) == Some(s@),
            r matches Err(e) ==> e.format@ == "toml"@ && toml_text_of(
                spec_to_json(spec_toml_ready(v@)),
            ) is None,
    {
        let cleaned = without_nulls(v);
        let wrapped: Value = match cleaned {
            Value::Mapping(entries) => Value::Mapping(entries),
            other => {
                let ghost om = val_model(other);
                proof {
                    assert(!(om is Obj));
                }
                let mut entries: Vec<(String, Value)> = Vec::new();
                let key = String::from_str("root");
                entries.push((key, other));
                proof {
                    crate::lemma_entry_models(entries@);
                    assert(crate::entry_models(entries@) =~= seq![("root"@, om)]);
                }
                Value::Mapping(entries)
            },
        };
        proof {
            assert(val_model(wrapped) == spec_toml_ready(v@));
        }
        match toml_render(&to_json(&wrapped)) {
            Some(s) => Ok(s),
            None => Err(
                WriterError { format: "toml", message: String::from_str("serialization failed") },
            ),
        }
    }

    /// A boxed writer, for assembling a suite.
    pub fn new_boxed() -> (r: Box<TomlWriter>) {
        Box::new(TomlWriter {  })
    }
}

} // verus!
