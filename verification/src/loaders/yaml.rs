//! The YAML loader: text to `Value`, through serde_yaml.
//!
//! Mapping rules: scalars keep their type (int against float against string
//! against bool against null); non-string keys are written in their
//! canonical text form and anything else as a key drops the entry; tagged
//! scalars unwrap to their inner value; unsigned integers beyond the signed
//! range are truncated.  The rules are stated by `spec_from_yaml` over the
//! shape of each parsed node, and the conversion is verified against it.

use crate::loader::LoaderError;
use crate::strutil::{bool_text, bool_to_string, i64_to_string, int_text};
use crate::{entry_models, lemma_entry_models, lemma_seq_models, seq_models, val_model, ValModel,
    Value};
use serde_yaml::Value as YamlValue;
use vstd::prelude::*;

verus! {

#[verifier::external_type_specification]
#[verifier::external_body]
pub struct ExYamlValue(YamlValue);

/// What one parsed YAML node holds: scalars as plain values, containers as
/// the nodes they hold, a tagged value as its inner node.  A number holds a
/// signed integer where it fits one (an unsigned value beyond that range is
/// truncated), and otherwise its canonical text.
pub enum YamlShape {
    Str(Seq<char>),
    IntVal(int),
    FloatText(Seq<char>),
    Bool(bool),
    Null,
    Arr(Seq<YamlValue>),
    Table(Seq<(YamlValue, YamlValue)>),
    Tagged(YamlValue),
}

/// The shape of one parsed node: a function of the node alone.
pub uninterp spec fn yaml_shape(v: YamlValue) -> YamlShape;

/// One level of a parsed YAML tree, taken apart.
enum YamlNode {
    Str(String),
    IntVal(i64),
    FloatText(String),
    Bool(bool),
    Null,
    Arr(Vec<YamlValue>),
    Table(Vec<(YamlValue, YamlValue)>),
    Tagged(YamlValue),
}

/// Relies on serde_yaml::Value: takes one node apart, one arm per variant,
/// moving the fields out; the number accessors decide int against text as
/// `yaml_shape`'s description says.
#[verifier::external_body]
fn yaml_node(v: &YamlValue) -> (r: YamlNode)
    ensures
        match r {
            YamlNode::Str(s) => yaml_shape(*v) == YamlShape::Str(s@),
            YamlNode::IntVal(i) => yaml_shape(*v) == YamlShape::IntVal(i as int),
            YamlNode::FloatText(t) => yaml_shape(*v) == YamlShape::FloatText(t@),
            YamlNode::Bool(b) => yaml_shape(*v) == YamlShape::Bool(b),
            YamlNode::Null => yaml_shape(*v) == YamlShape::Null,
            YamlNode::Arr(items) => yaml_shape(*v) == YamlShape::Arr(items@),
            YamlNode::Table(es) => yaml_shape(*v) == YamlShape::Table(es@),
            YamlNode::Tagged(inner) => yaml_shape(*v) == YamlShape::Tagged(inner),
        },
{
    match v {
        YamlValue::String(s) => YamlNode::Str(s.clone()),
        YamlValue::Number(n) => match n.as_i64().or(n.as_u64().map(|u| u as i64)) {
            Some(i) => YamlNode::IntVal(i),
            None => YamlNode::FloatText(n.to_string()),
        },
        YamlValue::Bool(b) => YamlNode::Bool(*b),
        YamlValue::Null => YamlNode::Null,
        YamlValue::Sequence(items) => YamlNode::Arr(items.clone()),
        YamlValue::Mapping(m) => YamlNode::Table(m.iter().map(|(k, v)| (k.clone(), v.clone())).collect()),
        YamlValue::Tagged(t) => YamlNode::Tagged(t.value.clone()),
    }
}

/// Whether a text parses as one YAML document: a function of the text alone.
pub uninterp spec fn yaml_parses(s: Seq<char>) -> bool;

/// The tree a valid text parses into: a function of the text alone.
pub uninterp spec fn yaml_doc(s: Seq<char>) -> YamlValue;

/// Relies on serde_yaml::from_str: parsing succeeds or fails on the text
/// alone, `None` means the text is not valid YAML, and a valid text always
/// parses to the same tree.
#[verifier::external_body]
fn yaml_parse(content: &str) -> (r: Option<YamlValue>)
    ensures
        r is Some <==> yaml_parses(content@),
        r matches Some(v) ==> v == yaml_doc(content@),
{
    serde_yaml::from_str(content).ok()
}

/// The depth bound of the conversion.  serde_yaml itself refuses documents
/// nested beyond its own recursion limit, far below this; a deeper tree
/// converts to null from that depth on.
pub const MAX_YAML_DEPTH: u32 = 500;

/// The text form of a mapping key, where the key is string-like: a string
/// itself, a number or a boolean in canonical text; `None` otherwise.
pub open spec fn spec_key_text(k: YamlValue) -> Option<Seq<char>> {
    match yaml_shape(k) {
        YamlShape::Str(s) => Some(s),
        YamlShape::IntVal(i) => Some(int_text(i)),
        YamlShape::FloatText(t) => Some(t),
        YamlShape::Bool(b) => Some(bool_text(b)),
        _ => None,
    }
}

/// The `Value` a parsed node converts to: scalars keep their kind, tagged
/// nodes unwrap, containers convert their children, entries under a key
/// that is not string-like are dropped; past the depth bound, null.
pub open spec fn spec_from_yaml(v: YamlValue, fuel: nat) -> ValModel
    decreases fuel, 0int,
{
    if fuel == 0 {
        ValModel::Null
    } else {
        match yaml_shape(v) {
            YamlShape::Str(s) => ValModel::Str(s),
            YamlShape::IntVal(i) => ValModel::Int(i),
            YamlShape::FloatText(t) => ValModel::Float(t),
            YamlShape::Bool(b) => ValModel::Bool(b),
            YamlShape::Null => ValModel::Null,
            YamlShape::Tagged(inner) => spec_from_yaml(inner, (fuel - 1) as nat),
            YamlShape::Arr(items) => ValModel::Arr(spec_from_yaml_seq(items, (fuel - 1) as nat)),
            YamlShape::Table(es) => ValModel::Obj(
                spec_from_yaml_entries(es, (fuel - 1) as nat),
            ),
        }
    }
}

/// The conversion of a sequence's nodes, in order.
pub open spec fn spec_from_yaml_seq(items: Seq<YamlValue>, fuel: nat) -> Seq<ValModel>
    decreases fuel, items.len(),
{
    if items.len() == 0 {
        Seq::empty()
    } else {
        seq![spec_from_yaml(items[0], fuel)] + spec_from_yaml_seq(items.skip(1), fuel)
    }
}

/// The conversion of a mapping's entries, in order, keys in their text
/// form, entries under non-string-like keys dropped.
pub open spec fn spec_from_yaml_entries(es: Seq<(YamlValue, YamlValue)>, fuel: nat) -> Seq<
    (Seq<char>, ValModel),
>
    decreases fuel, es.len(),
{
    if es.len() == 0 {
        Seq::empty()
    } else {
        (match spec_key_text(es[0].0) {
            Some(k) => seq![(k, spec_from_yaml(es[0].1, fuel))],
            None => Seq::<(Seq<char>, ValModel)>::empty(),
        }) + spec_from_yaml_entries(es.skip(1), fuel)
    }
}

pub proof fn lemma_spec_from_yaml_seq(items: Seq<YamlValue>, fuel: nat)
    ensures
        spec_from_yaml_seq(items, fuel).len() == items.len(),
        forall|i: int| 0 <= i < items.len() ==> spec_from_yaml_seq(items, fuel)[i]
            == spec_from_yaml(items[i], fuel),
    decreases items.len(),
{
    if items.len() > 0 {
        lemma_spec_from_yaml_seq(items.skip(1), fuel);
        assert forall|i: int| 0 <= i < items.len() implies spec_from_yaml_seq(items, fuel)[i]
            == spec_from_yaml(items[i], fuel) by {
            if i > 0 {
                assert(items.skip(1)[i - 1] == items[i]);
            }
        }
    }
}

/// The text form of a mapping key, where it has one.
fn key_text(k: &YamlValue) -> (r: Option<String>)
    ensures
        r matches Some(s) ==> spec_key_text(*k) == Some(s@),
        r is None ==> spec_key_text(*k) is None,
{
    match yaml_node(k) {
        YamlNode::Str(s) => Some(s),
        YamlNode::IntVal(i) => Some(i64_to_string(i)),
        YamlNode::FloatText(t) => Some(t),
        YamlNode::Bool(b) => Some(bool_to_string(b)),
        _ => None,
    }
}

/// The conversion, depth-bounded, verified against `spec_from_yaml`.
#[verifier::loop_isolation(false)]
fn from_yaml_at(v: &YamlValue, fuel: u32) -> (r: Value)
    ensures
        r@ == spec_from_yaml(*v, fuel as nat),
    decreases fuel,
{
    if fuel == 0 {
        return Value::Null;
    }
    match yaml_node(v) {
        YamlNode::Str(s) => Value::String(s),
        YamlNode::IntVal(i) => Value::Int(i),
        YamlNode::FloatText(t) => Value::Float(t),
        YamlNode::Bool(b) => Value::Boolean(b),
        YamlNode::Null => Value::Null,
        YamlNode::Tagged(inner) => from_yaml_at(&inner, fuel - 1),
        YamlNode::Arr(items) => {
            let ghost f = (fuel - 1) as nat;
            let n = items.len();
            let mut out: Vec<Value> = Vec::new();
            let mut i: usize = 0;
            while i < n
                invariant
                    0 <= i <= n,
                    n == items@.len(),
                    out@.len() == i,
                    forall|k: int| 0 <= k < i ==> val_model(#[trigger] out@[k]) == spec_from_yaml(
                        items@[k],
                        f,
                    ),
                decreases n - i,
            {
                out.push(from_yaml_at(&items[i], fuel - 1));
                i += 1;
            }
            proof {
                lemma_seq_models(out@);
                lemma_spec_from_yaml_seq(items@, f);
                assert(seq_models(out@) =~= spec_from_yaml_seq(items@, f));
            }
            Value::Sequence(out)
        },
        YamlNode::Table(entries) => {
            let ghost f = (fuel - 1) as nat;
            let ghost es = entries@;
            let n = entries.len();
            let mut out: Vec<(String, Value)> = Vec::new();
            proof {
                assert(es.skip(0) =~= es);
                assert(entry_models(out@) =~= Seq::<(Seq<char>, ValModel)>::empty());
            }
            let mut i: usize = 0;
            while i < n
                invariant
                    0 <= i <= n,
                    n == es.len(),
                    es == entries@,
                    entry_models(out@) + spec_from_yaml_entries(es.skip(i as int), f)
                        =~= spec_from_yaml_entries(es, f),
                decreases n - i,
            {
                proof {
                    assert(es.skip(i as int)[0] == es[i as int]);
                    assert(es.skip(i as int).skip(1) =~= es.skip(i + 1));
                }
                match key_text(&entries[i].0) {
                    Some(key) => {
                        let val = from_yaml_at(&entries[i].1, fuel - 1);
                        let ghost out0 = out@;
                        out.push((key, val));
                        proof {
                            lemma_entry_models(out0);
                            lemma_entry_models(out@);
                            assert(entry_models(out@) =~= entry_models(out0).push(
                                (spec_key_text(es[i as int].0).unwrap(), spec_from_yaml(
                                    es[i as int].1,
                                    f,
                                )),
                            ));
                            assert(entry_models(out@) + spec_from_yaml_entries(es.skip(i + 1), f)
                                =~= entry_models(out0) + spec_from_yaml_entries(
                                es.skip(i as int),
                                f,
                            ));
                        }
                    },
                    None => {
                        proof {
                            assert(spec_from_yaml_entries(es.skip(i as int), f)
                                =~= spec_from_yaml_entries(es.skip(i + 1), f));
                        }
                    },
                }
                i += 1;
            }
            proof {
                assert(es.skip(n as int) =~= Seq::<(YamlValue, YamlValue)>::empty());
                assert(entry_models(out@) + Seq::<(Seq<char>, ValModel)>::empty() =~= entry_models(
                    out@,
                ));
            }
            Value::Mapping(out)
        },
    }
}

/// Converts a parsed YAML tree to a `Value` under the loader's mapping
/// rules, exactly as `spec_from_yaml` states them.
pub fn from_yaml(yaml_value: YamlValue) -> (r: Value)
    ensures
        r@ == spec_from_yaml(yaml_value, MAX_YAML_DEPTH as nat),
{
    from_yaml_at(&yaml_value, MAX_YAML_DEPTH)
}

/// The YAML loader of the default suite.
#[derive(Debug)]
pub struct YamlLoader {}

impl YamlLoader {
    /// The extension this loader handles.
    pub fn ext(&self) -> (r: &'static str)
        ensures
            r@ == "yaml"@,
    {
        "yaml"
    }

    /// Parses YAML text into a `Value`: `ParseFailed` exactly where the
    /// text is not valid YAML, and otherwise the parsed tree converted
    /// under the mapping rules of `spec_from_yaml`.
    pub fn load(&self, content: &str) -> (r: Result<Value, LoaderError>)
        ensures
            r is Ok <==> yaml_parses(content@),
            r matches Ok(v) ==> v@ == spec_from_yaml(yaml_doc(content@), MAX_YAML_DEPTH as nat),
            r matches Err(e) ==> e == LoaderError::ParseFailed,
    {
        match yaml_parse(content) {
            Some(y) => Ok(from_yaml(y)),
            None => Err(LoaderError::ParseFailed),
        }
    }
}

} // verus!
