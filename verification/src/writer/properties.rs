//! The `properties` writer: Java-properties lines.
//!
//! Nested keys are joined with `.`, sequence indices written `key[0]`;
//! string values are double-quoted, numbers and booleans written plainly,
//! and null becomes an empty value.  Every line ends with a newline.

use crate::strutil::{
    bool_text, char_views, dec_digits, i64_to_string, int_text, str_to_chars, usize_to_string,
    vec_subrange,
};
use crate::writer::WriterError;
use crate::{ValModel, Value};
use vstd::prelude::*;

verus! {

/// A scalar's text in a properties line.
pub open spec fn props_scalar_text(m: ValModel) -> Seq<char> {
    match m {
        ValModel::Str(s) => seq!['"'] + s + seq!['"'],
        ValModel::Int(i) => int_text(i),
        ValModel::Float(t) => t,
        ValModel::Bool(b) => bool_text(b),
        _ => Seq::empty(),
    }
}

/// The properties text of a value under a prefix.
pub open spec fn props_at(prefix: Seq<char>, m: ValModel) -> Seq<char>
    decreases m,
{
    match m {
        ValModel::Obj(es) => props_obj(prefix, es),
        ValModel::Arr(items) => props_arr(prefix, items, 0),
        _ => prefix + seq!['='] + props_scalar_text(m) + seq!['\n'],
    }
}

/// The properties text of a mapping's entries.
pub open spec fn props_obj(prefix: Seq<char>, es: Seq<(Seq<char>, ValModel)>) -> Seq<char>
    decreases es,
{
    if es.len() == 0 {
        Seq::empty()
    } else {
        props_at(
            if prefix.len() == 0 {
                es[0].0
            } else {
                prefix + seq!['.'] + es[0].0
            },
            es[0].1,
        ) + props_obj(prefix, es.skip(1))
    }
}

/// The properties text of a sequence's items, indices bracketed.
pub open spec fn props_arr(prefix: Seq<char>, items: Seq<ValModel>, idx: int) -> Seq<char>
    decreases items,
{
    if items.len() == 0 {
        Seq::empty()
    } else {
        props_at(prefix + seq!['['] + dec_digits(idx as nat) + seq![']'], items[0]) + props_arr(
            prefix,
            items.skip(1),
            idx + 1,
        )
    }
}

/// The whole `properties` output of a value.
pub open spec fn properties_text(m: ValModel) -> Seq<char> {
    props_at(Seq::empty(), m)
}

/// Writes the properties text of a value under a prefix.
#[verifier::loop_isolation(false)]
fn props_flatten(prefix: &Vec<char>, v: &Value) -> (r: Vec<char>)
    ensures
        r@ == props_at(prefix@, v@),
    decreases v,
{
    match v {
        Value::Mapping(entries) => {
            let ghost esm = crate::entry_models(entries@);
            proof {
                crate::lemma_entry_models(entries@);
            }
            let n = entries.len();
            let mut out: Vec<char> = Vec::new();
            proof {
                assert(esm.skip(0) =~= esm);
                assert(out@ + props_obj(prefix@, esm.skip(0)) =~= props_obj(prefix@, esm));
            }
            let mut i: usize = 0;
            while i < n
                invariant
                    0 <= i <= n,
                    n == entries@.len(),
                    out@ + props_obj(prefix@, esm.skip(i as int)) =~= props_obj(prefix@, esm),
                decreases n - i,
            {
                proof {
                    assert(decreases_to!(*v => *entries));
                    assert(decreases_to!(*entries => entries@));
                    assert(decreases_to!(entries@ => entries@[i as int]));
                    assert(decreases_to!(entries@[i as int] => entries@[i as int].1));
                    assert(esm.skip(i as int)[0] == esm[i as int]);
                    assert(esm.skip(i as int).skip(1) =~= esm.skip(i + 1));
                }
                let mut child: Vec<char> = if prefix.len() == 0 {
                    str_to_chars(entries[i].0.as_str())
                } else {
                    let mut c = vec_subrange(prefix, 0, prefix.len());
                    c.push('.');
                    let mut k = str_to_chars(entries[i].0.as_str());
                    c.append(&mut k);
                    c
                };
                proof {
                    assert(child@ =~= (if prefix@.len() == 0 {
                        esm[i as int].0
                    } else {
                        prefix@ + seq!['.'] + esm[i as int].0
                    }));
                }
                let mut piece = props_flatten(&child, &entries[i].1);
                let ghost before = out@;
                out.append(&mut piece);
                proof {
                    assert(out@ + props_obj(prefix@, esm.skip(i + 1)) =~= before + props_obj(
                        prefix@,
                        esm.skip(i as int),
                    ));
                }
                i += 1;
            }
            proof {
                assert(esm.skip(n as int) =~= Seq::<(Seq<char>, ValModel)>::empty());
                assert(out@ + Seq::<char>::empty() =~= out@);
            }
            out
        },
        Value::Sequence(items) => {
            let ghost ism = crate::seq_models(items@);
            proof {
                crate::lemma_seq_models(items@);
            }
            let n = items.len();
            let mut out: Vec<char> = Vec::new();
            proof {
                assert(ism.skip(0) =~= ism);
                assert(out@ + props_arr(prefix@, ism.skip(0), 0) =~= props_arr(prefix@, ism, 0));
            }
            let mut i: usize = 0;
            while i < n
                invariant
                    0 <= i <= n,
                    n == items@.len(),
                    out@ + props_arr(prefix@, ism.skip(i as int), i as int) =~= props_arr(
                        prefix@,
                        ism,
                        0,
                    ),
                decreases n - i,
            {
                proof {
                    assert(decreases_to!(*v => *items));
                    assert(decreases_to!(*items => items@));
                    assert(decreases_to!(items@ => items@[i as int]));
                    assert(ism.skip(i as int)[0] == ism[i as int]);
                    assert(ism.skip(i as int).skip(1) =~= ism.skip(i + 1));
                }
                let mut child = vec_subrange(prefix, 0, prefix.len());
                child.push('[');
                let mut digits = str_to_chars(usize_to_string(i).as_str());
                child.append(&mut digits);
                child.push(']');
                proof {
                    assert(child@ =~= prefix@ + seq!['['] + dec_digits(i as nat) + seq![']']);
                }
                let mut piece = props_flatten(&child, &items[i]);
                let ghost before = out@;
                out.append(&mut piece);
                proof {
                    assert(out@ + props_arr(prefix@, ism.skip(i + 1), i + 1) =~= before
                        + props_arr(prefix@, ism.skip(i as int), i as int));
                }
                i += 1;
            }
            proof {
                assert(ism.skip(n as int) =~= Seq::<ValModel>::empty());
                assert(out@ + Seq::<char>::empty() =~= out@);
            }
            out
        },
        _ => {
            let mut out = vec_subrange(prefix, 0, prefix.len());
            out.push('=');
            let mut text: Vec<char> = match v {
                Value::String(s) => {
                    let mut q: Vec<char> = Vec::new();
                    q.push('"');
                    let mut body = str_to_chars(s.as_str());
                    q.append(&mut body);
                    q.push('"');
                    proof {
                        assert(q@ =~= seq!['"'] + s@ + seq!['"']);
                    }
                    q
                },
                Value::Int(i) => str_to_chars(i64_to_string(*i).as_str()),
                Value::Float(t) => str_to_chars(t.as_str()),
                Value::Boolean(b) => str_to_chars(crate::strutil::bool_to_string(*b).as_str()),
                _ => Vec::new(),
            };
            proof {
                assert(text@ == props_scalar_text(v@));
            }
            out.append(&mut text);
            out.push('\n');
            proof {
                assert(out@ =~= prefix@ + seq!['='] + props_scalar_text(v@) + seq!['\n']);
            }
            out
        },
    }
}

/// The `properties` writer.
#[derive(Debug)]
pub struct PropertiesWriter {}

impl PropertiesWriter {
    /// The format tag this writer serves.
    pub fn ext(&self) -> (r: &'static str)
        ensures
            r@ == "properties"@,
    {
        "properties"
    }

    /// The properties lines of a value.
    pub fn to_str(&self, v: &Value) -> (r: Result<String, WriterError>)
        ensures
            r matches Ok(s) && s@ == properties_text(v@),
    {
        let empty: Vec<char> = Vec::new();
        let text = props_flatten(&empty, v);
        Ok(crate::strutil::string_of_chars(text))
    }

    /// A boxed writer, for assembling a suite.
    pub fn new_boxed() -> (r: Box<PropertiesWriter>) {
        Box::new(PropertiesWriter {  })
    }
}

} // verus!
