pub mod functions;
pub mod strutil;
pub mod authorizer;
pub mod config;
pub mod fs;
pub mod imports;
pub mod laws;
pub mod loader;
pub mod loaders;
pub mod lsp;
pub mod render;
pub mod render_helper;
pub mod utils;
pub mod writer;

use vstd::prelude::*;

verus! {

/// A parsed, format-agnostic configuration tree.
///
/// Mappings keep their entries in insertion order; a well-formed mapping
/// has pairwise-distinct keys.  The `Float` variant carries the number's
/// canonical decimal text, which is how the loader hands it over and how
/// every writer prints it.
#[derive(Debug, PartialEq)]
pub enum Value {
    String(String),
    Int(i64),
    Float(String),
    Boolean(bool),
    Null,
    Sequence(Vec<Value>),
    Mapping(Vec<(String, Value)>),
}

/// The mathematical shape of a `Value`: strings become character
/// sequences, mappings become sequences of key/value pairs.
pub enum ValModel {
    Str(Seq<char>),
    Int(int),
    Float(Seq<char>),
    Bool(bool),
    Null,
    Arr(Seq<ValModel>),
    Obj(Seq<(Seq<char>, ValModel)>),
}

/// The model of a `Value`, taken structurally.
pub open spec fn val_model(v: Value) -> ValModel
    decreases v,
{
    match v {
        Value::String(s) => ValModel::Str(s@),
        Value::Int(i) => ValModel::Int(i as int),
        Value::Float(t) => ValModel::Float(t@),
        Value::Boolean(b) => ValModel::Bool(b),
        Value::Null => ValModel::Null,
        Value::Sequence(items) => ValModel::Arr(seq_models(items@)),
        Value::Mapping(entries) => ValModel::Obj(entry_models(entries@)),
    }
}

/// The models of the items of a sequence, in order.
pub open spec fn seq_models(s: Seq<Value>) -> Seq<ValModel>
    decreases s,
{
    if s.len() == 0 {
        Seq::empty()
    } else {
        seq![val_model(s[0])] + seq_models(s.skip(1))
    }
}

/// The models of the entries of a mapping, in order.
pub open spec fn entry_models(s: Seq<(String, Value)>) -> Seq<(Seq<char>, ValModel)>
    decreases s,
{
    if s.len() == 0 {
        Seq::empty()
    } else {
        seq![(s[0].0@, val_model(s[0].1))] + entry_models(s.skip(1))
    }
}

impl View for Value {
    type V = ValModel;

    open spec fn view(&self) -> ValModel {
        val_model(*self)
    }
}

/// Looks a key up among the pairs of an `Obj`: the first pair whose key matches.
pub open spec fn obj_get(entries: Seq<(Seq<char>, ValModel)>, key: Seq<char>) -> Option<ValModel>
    decreases entries.len(),
{
    if entries.len() == 0 {
        None
    } else if entries[0].0 == key {
        Some(entries[0].1)
    } else {
        obj_get(entries.skip(1), key)
    }
}

/// An ordered list of values, the payload of `Value::Sequence`.
pub type Sequence = Vec<Value>;

/// A string-keyed mapping in insertion order, the payload of `Value::Mapping`.
pub type Mapping = Vec<(String, Value)>;

pub broadcast proof fn lemma_seq_models(s: Seq<Value>)
    ensures
        (#[trigger] seq_models(s)).len() == s.len(),
        forall|i: int| 0 <= i < s.len() ==> seq_models(s)[i] == val_model(s[i]),
    decreases s.len(),
{
    if s.len() > 0 {
        lemma_seq_models(s.skip(1));
        assert forall|i: int| 0 <= i < s.len() implies seq_models(s)[i] == val_model(s[i]) by {
            if i > 0 {
                assert(s.skip(1)[i - 1] == s[i]);
            }
        }
    }
}

pub broadcast proof fn lemma_entry_models(s: Seq<(String, Value)>)
    ensures
        (#[trigger] entry_models(s)).len() == s.len(),
        forall|i: int| 0 <= i < s.len()
            ==> entry_models(s)[i] == (s[i].0@, val_model(s[i].1)),
    decreases s.len(),
{
    if s.len() > 0 {
        lemma_entry_models(s.skip(1));
        assert forall|i: int| 0 <= i < s.len()
            implies entry_models(s)[i] == (s[i].0@, val_model(s[i].1)) by {
            if i > 0 {
                assert(s.skip(1)[i - 1] == s[i]);
            }
        }
    }
}

/// `obj_get` looks past any prefix whose keys all miss.
pub proof fn lemma_obj_get_skip(entries: Seq<(Seq<char>, ValModel)>, key: Seq<char>, i: int)
    requires
        0 <= i <= entries.len(),
        forall|j: int| 0 <= j < i ==> entries[j].0 != key,
    ensures
        obj_get(entries, key) == obj_get(entries.skip(i), key),
    decreases i,
{
    if i > 0 {
        assert(entries[0].0 != key);
        assert(forall|j: int| 0 <= j < i - 1 ==> entries.skip(1)[j] == entries[j + 1]);
        lemma_obj_get_skip(entries.skip(1), key, i - 1);
        assert(entries.skip(1).skip(i - 1) =~= entries.skip(i));
        assert(obj_get(entries, key) == obj_get(entries.skip(1), key));
    } else {
        assert(entries.skip(0) =~= entries);
    }
}

impl Value {
    /// What `get` returns: a mapping lookup, `None` on every other variant.
    pub open spec fn spec_get(self, key: Seq<char>) -> Option<ValModel> {
        match val_model(self) {
            ValModel::Obj(entries) => obj_get(entries, key),
            _ => None,
        }
    }

    /// On a mapping, the value under `key` (first matching entry); `None` otherwise.
    pub fn get<'a>(&'a self, key: &str) -> (r: Option<&'a Value>)
        ensures
            r matches Some(v) ==> self.spec_get(key@) == Some(val_model(*v)),
            r is None ==> self.spec_get(key@) is None,
    {
        match self {
            Value::Mapping(entries) => {
                proof {
                    lemma_entry_models(entries@);
                }
                let n = entries.len();
                let mut i: usize = 0;
                while i < n
                    invariant
                        0 <= i <= n,
                        n == entries@.len(),
                        val_model(*self) == ValModel::Obj(entry_models(entries@)),
                        forall|j: int| 0 <= j < i ==> entries@[j].0@ != key@,
                        entry_models(entries@).len() == entries@.len(),
                        forall|k: int| 0 <= k < entries@.len()
                            ==> entry_models(entries@)[k] == (entries@[k].0@, val_model(entries@[k].1)),
                    decreases n - i,
                {
                    if strutil::str_eq(entries[i].0.as_str(), key) {
                        proof {
                            lemma_obj_get_skip(entry_models(entries@), key@, i as int);
                        }
                        return Some(&entries[i].1);
                    }
                    i += 1;
                }
                proof {
                    lemma_obj_get_skip(entry_models(entries@), key@, n as int);
                }
                None
            },
            _ => None,
        }
    }

    /// The items when this value is a sequence; `None` otherwise.
    pub fn as_sequence(&self) -> (r: Option<&Sequence>)
        ensures
            r matches Some(items) ==> self@ == ValModel::Arr(seq_models(items@)),
            r is None ==> !(self@ is Arr),
    {
        match self {
            Value::Sequence(values) => Some(values),
            _ => None,
        }
    }

    /// The entries when this value is a mapping; `None` otherwise.
    pub fn as_mapping(&self) -> (r: Option<&Mapping>)
        ensures
            r matches Some(entries) ==> self@ == ValModel::Obj(entry_models(entries@)),
            r is None ==> !(self@ is Obj),
    {
        match self {
            Value::Mapping(values) => Some(values),
            _ => None,
        }
    }

    /// The text when this value is a string; `None` otherwise.
    pub fn as_str(&self) -> (r: Option<&String>)
        ensures
            r matches Some(s) ==> self@ == ValModel::Str(s@),
            r is None ==> !(self@ is Str),
    {
        match self {
            Value::String(s) => Some(s),
            _ => None,
        }
    }
}

impl Clone for Value {
    /// A structural copy: the clone has the same model as the original.
    #[verifier::loop_isolation(false)]
    fn clone(&self) -> (r: Value)
        ensures
            r@ == self@,
        decreases self,
    {
        match self {
            Value::String(s) => Value::String(s.clone()),
            Value::Int(i) => Value::Int(*i),
            Value::Float(t) => Value::Float(t.clone()),
            Value::Boolean(b) => Value::Boolean(*b),
            Value::Null => Value::Null,
            Value::Sequence(items) => {
                let n = items.len();
                let mut out: Vec<Value> = Vec::new();
                let mut i: usize = 0;
                while i < n
                    invariant
                        0 <= i <= n,
                        n == items@.len(),
                        out@.len() == i,
                        forall|j: int| 0 <= j < i ==> val_model(#[trigger] out@[j]) == val_model(items@[j]),
                    decreases n - i,
                {
                    proof {
                        assert(decreases_to!(*self => *items));
                        assert(decreases_to!(*items => items@));
                        assert(decreases_to!(items@ => items@[i as int]));
                    }
                    out.push(items[i].clone());
                    i += 1;
                }
                proof {
                    lemma_seq_models(items@);
                    lemma_seq_models(out@);
                    assert(seq_models(out@) =~= seq_models(items@));
                }
                Value::Sequence(out)
            },
            Value::Mapping(entries) => {
                let n = entries.len();
                let mut out: Vec<(String, Value)> = Vec::new();
                let mut i: usize = 0;
                while i < n
                    invariant
                        0 <= i <= n,
                        n == entries@.len(),
                        out@.len() == i,
                        forall|j: int| 0 <= j < i ==> (#[trigger] out@[j]).0@ == entries@[j].0@
                            && val_model(out@[j].1) == val_model(entries@[j].1),
                    decreases n - i,
                {
                    proof {
                        assert(decreases_to!(*self => *entries));
                        assert(decreases_to!(*entries => entries@));
                        assert(decreases_to!(entries@ => entries@[i as int]));
                        assert(decreases_to!(entries@[i as int] => entries@[i as int].1));
                    }
                    let k = entries[i].0.clone();
                    let v = entries[i].1.clone();
                    out.push((k, v));
                    i += 1;
                }
                proof {
                    lemma_entry_models(entries@);
                    lemma_entry_models(out@);
                    assert(entry_models(out@) =~= entry_models(entries@));
                }
                Value::Mapping(out)
            },
        }
    }
}

/// One commit's configuration in git mode: the document DAG of that commit
/// and the authorizer built from the same files.  Cached by commit hash and
/// built at most once per commit.
#[derive(Debug)]
pub struct DagEntry<P: crate::fs::FileProvider> {
    pub dag: crate::render::Dag<P>,
    pub authorizer: crate::authorizer::Authorizer,
}

/// One loaded document: the raw parsed tree and, once computed, its render.
///
/// `rendered` starts empty and is filled at most once; a reload replaces the
/// whole `Konf`, never the cell in place.
#[derive(Debug)]
pub struct Konf {
    pub raw: Value,
    pub rendered: Option<Value>,
}

impl Konf {
    /// A fresh document with an empty render cell.
    pub fn new(raw: Value) -> (r: Konf)
        ensures
            r.raw@ == raw@,
            r.rendered is None,
    {
        Konf { raw, rendered: None }
    }
}

} // verus!
