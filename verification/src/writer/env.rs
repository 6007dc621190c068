//! The `env` writer: a recursive flatten into environment-variable lines.
//!
//! Nested keys are joined with `_` and the whole key uppercased; sequence
//! indices are inlined like keys; string values are double-quoted, numbers
//! and booleans written plainly, and null becomes a quoted empty string.

use crate::functions::string::{to_upper, upper_of};
use crate::strutil::{
    bool_text, char_views, chars_to_string, dec_digits, i64_to_string, int_text, join_with,
    str_to_chars, usize_to_string, vec_join_with, vec_subrange,
};
use crate::writer::WriterError;
use crate::{val_model, ValModel, Value};
use vstd::prelude::*;

verus! {

/// One flattened line: the uppercased key, `=`, and the value's text.
pub open spec fn env_leaf(prefix: Seq<char>, text: Seq<char>) -> Seq<char> {
    upper_of(prefix) + seq!['='] + text
}

/// A scalar's text: strings quoted or bare by `quoted`, numbers and
/// booleans canonically, null as a quoted empty string either way.
pub open spec fn env_scalar_text(m: ValModel, quoted: bool) -> Seq<char> {
    match m {
        ValModel::Str(s) => if quoted {
            seq!['"'] + s + seq!['"']
        } else {
            s
        },
        ValModel::Int(i) => int_text(i),
        ValModel::Float(t) => t,
        ValModel::Bool(b) => bool_text(b),
        _ => seq!['"', '"'],
    }
}

/// The key of a mapping entry under a prefix.
pub open spec fn env_child_prefix(prefix: Seq<char>, k: Seq<char>) -> Seq<char> {
    if prefix.len() == 0 {
        k
    } else {
        prefix + seq!['_'] + k
    }
}

/// The flattened lines of a value under a prefix.
pub open spec fn env_lines(prefix: Seq<char>, m: ValModel, quoted: bool) -> Seq<Seq<char>>
    decreases m,
{
    match m {
        ValModel::Obj(es) => env_obj_lines(prefix, es, quoted),
        ValModel::Arr(items) => env_arr_lines(prefix, items, 0, quoted),
        _ => seq![env_leaf(prefix, env_scalar_text(m, quoted))],
    }
}

/// The flattened lines of a mapping's entries.
pub open spec fn env_obj_lines(
    prefix: Seq<char>,
    es: Seq<(Seq<char>, ValModel)>,
    quoted: bool,
) -> Seq<Seq<char>>
    decreases es,
{
    if es.len() == 0 {
        Seq::empty()
    } else {
        env_lines(env_child_prefix(prefix, es[0].0), es[0].1, quoted) + env_obj_lines(
            prefix,
            es.skip(1),
            quoted,
        )
    }
}

/// The flattened lines of a sequence's items, indices inlined.
pub open spec fn env_arr_lines(
    prefix: Seq<char>,
    items: Seq<ValModel>,
    idx: int,
    quoted: bool,
) -> Seq<Seq<char>>
    decreases items,
{
    if items.len() == 0 {
        Seq::empty()
    } else {
        env_lines(prefix + seq!['_'] + dec_digits(idx as nat), items[0], quoted)
            + env_arr_lines(prefix, items.skip(1), idx + 1, quoted)
    }
}

/// The whole `env` output of a value.
pub open spec fn env_text(m: ValModel) -> Seq<char> {
    join_with(env_lines(Seq::empty(), m, true), '\n')
}

/// One leaf line, built from the prefix and the value text.
fn leaf_line(prefix: &Vec<char>, text: Vec<char>) -> (r: Vec<char>)
    ensures
        r@ == env_leaf(prefix@, text@),
{
    let ghost t0 = text@;
    let pstr = chars_to_string(prefix);
    let up = to_upper(pstr.as_str());
    let mut out = str_to_chars(up.as_str());
    out.push('=');
    let mut tail = text;
    out.append(&mut tail);
    proof {
        assert(out@ =~= env_leaf(prefix@, t0));
    }
    out
}

/// A scalar's text as characters.
fn scalar_text(v: &Value, quoted: bool) -> (r: Vec<char>)
    requires
        !(v@ is Obj),
        !(v@ is Arr),
    ensures
        r@ == env_scalar_text(v@, quoted),
{
    match v {
        Value::String(s) => {
            let body = str_to_chars(s.as_str());
            if quoted {
                let mut out: Vec<char> = Vec::new();
                out.push('"');
                let mut b = body;
                out.append(&mut b);
                out.push('"');
                proof {
                    assert(out@ =~= seq!['"'] + s@ + seq!['"']);
                }
                out
            } else {
                body
            }
        },
        Value::Int(i) => str_to_chars(i64_to_string(*i).as_str()),
        Value::Float(t) => str_to_chars(t.as_str()),
        Value::Boolean(b) => str_to_chars(crate::strutil::bool_to_string(*b).as_str()),
        _ => {
            let out: Vec<char> = vec!['"', '"'];
            proof {
                assert(out@ =~= seq!['"', '"']);
            }
            out
        },
    }
}

/// Flattens a value into lines, mirroring `env_lines`.
#[verifier::loop_isolation(false)]
pub(crate) fn flatten(prefix: &Vec<char>, v: &Value, quoted: bool) -> (r: Vec<Vec<char>>)
    ensures
        char_views(r@) == env_lines(prefix@, v@, quoted),
    decreases v,
{
    match v {
        Value::Mapping(entries) => {
            let ghost esm = crate::entry_models(entries@);
            proof {
                crate::lemma_entry_models(entries@);
            }
            let n = entries.len();
            let mut out: Vec<Vec<char>> = Vec::new();
            proof {
                assert(esm.skip(0) =~= esm);
                assert(char_views(out@) + env_obj_lines(prefix@, esm.skip(0), quoted)
                    =~= env_obj_lines(prefix@, esm, quoted));
            }
            let mut i: usize = 0;
            while i < n
                invariant
                    0 <= i <= n,
                    n == entries@.len(),
                    char_views(out@) + env_obj_lines(prefix@, esm.skip(i as int), quoted)
                        =~= env_obj_lines(prefix@, esm, quoted),
                decreases n - i,
            {
                proof {
                    assert(decreases_to!(*v => *entries));
                    assert(decreases_to!(*entries => entries@));
                    assert(decreases_to!(entries@ => entries@[i as int]));
                    assert(decreases_to!(entries@[i as int] => entries@[i as int].1));
                    assert(esm.skip(i as int)[0] == esm[i as int]);
                    assert(esm.skip(i as int).skip(1) =~= esm.skip(i + 1));
                }
                // Build the child's key.
                let mut child: Vec<char> = if prefix.len() == 0 {
                    str_to_chars(entries[i].0.as_str())
                } else {
                    let mut c = vec_subrange(prefix, 0, prefix.len());
                    c.push('_');
                    let mut k = str_to_chars(entries[i].0.as_str());
                    c.append(&mut k);
                    c
                };
                proof {
                    assert(child@ =~= env_child_prefix(prefix@, esm[i as int].0));
                }
                let mut lines = flatten(&child, &entries[i].1, quoted);
                let ghost before = out@;
                out.append(&mut lines);
                proof {
                    assert(char_views(out@) =~= char_views(before) + env_lines(
                        env_child_prefix(prefix@, esm[i as int].0),
                        esm[i as int].1,
                        quoted,
                    ));
                    assert(char_views(out@) + env_obj_lines(prefix@, esm.skip(i + 1), quoted)
                        =~= char_views(before) + env_obj_lines(prefix@, esm.skip(i as int), quoted));
                }
                i += 1;
            }
            proof {
                assert(esm.skip(n as int) =~= Seq::<(Seq<char>, ValModel)>::empty());
                assert(char_views(out@) + Seq::<Seq<char>>::empty() =~= char_views(out@));
            }
            out
        },
        Value::Sequence(items) => {
            let ghost ism = crate::seq_models(items@);
            proof {
                crate::lemma_seq_models(items@);
            }
            let n = items.len();
            let mut out: Vec<Vec<char>> = Vec::new();
            proof {
                assert(ism.skip(0) =~= ism);
                assert(char_views(out@) + env_arr_lines(prefix@, ism.skip(0), 0, quoted)
                    =~= env_arr_lines(prefix@, ism, 0, quoted));
            }
            let mut i: usize = 0;
            while i < n
                invariant
                    0 <= i <= n,
                    n == items@.len(),
                    char_views(out@) + env_arr_lines(prefix@, ism.skip(i as int), i as int, quoted)
                        =~= env_arr_lines(prefix@, ism, 0, quoted),
                decreases n - i,
            {
                proof {
                    assert(decreases_to!(*v => *items));
                    assert(decreases_to!(*items => items@));
                    assert(decreases_to!(items@ => items@[i as int]));
                    assert(ism.skip(i as int)[0] == ism[i as int]);
                    assert(ism.skip(i as int).skip(1) =~= ism.skip(i + 1));
                }
                let mut child = vec_subrange(prefix, 0, prefix.len());
                child.push('_');
                let mut digits = str_to_chars(usize_to_string(i).as_str());
                child.append(&mut digits);
                proof {
                    assert(child@ =~= prefix@ + seq!['_'] + dec_digits(i as nat));
                }
                let mut lines = flatten(&child, &items[i], quoted);
                let ghost before = out@;
                out.append(&mut lines);
                proof {
                    assert(char_views(out@) =~= char_views(before) + env_lines(
                        prefix@ + seq!['_'] + dec_digits(i as nat),
                        ism[i as int],
                        quoted,
                    ));
                    assert(char_views(out@) + env_arr_lines(prefix@, ism.skip(i + 1), i + 1, quoted)
                        =~= char_views(before) + env_arr_lines(
                        prefix@,
                        ism.skip(i as int),
                        i as int,
                        quoted,
                    ));
                }
                i += 1;
            }
            proof {
                assert(ism.skip(n as int) =~= Seq::<ValModel>::empty());
                assert(char_views(out@) + Seq::<Seq<char>>::empty() =~= char_views(out@));
            }
            out
        },
        _ => {
            let text = scalar_text(v, quoted);
            let line = leaf_line(prefix, text);
            let mut out: Vec<Vec<char>> = Vec::new();
            out.push(line);
            proof {
                assert(char_views(out@) =~= seq![env_leaf(prefix@, env_scalar_text(v@, quoted))]);
            }
            out
        },
    }
}

/// The `env` writer: quoted strings, uppercased underscore-joined keys.
#[derive(Debug)]
pub struct EnvVarWriter {}

impl EnvVarWriter {
    /// The format tag this writer serves.
    pub fn ext(&self) -> (r: &'static str)
        ensures
            r@ == "env"@,
    {
        "env"
    }

    /// The flattened environment lines of a value, joined by newlines.
    pub fn to_str(&self, v: &Value) -> (r: Result<String, WriterError>)
        ensures
            r matches Ok(s) && s@ == env_text(v@),
    {
        let empty: Vec<char> = Vec::new();
        let lines = flatten(&empty, v, true);
        let joined = vec_join_with(&lines, '\n');
        Ok(crate::strutil::string_of_chars(joined))
    }

    /// A boxed writer, for assembling a suite.
    pub fn new_boxed() -> (r: Box<EnvVarWriter>) {
        Box::new(EnvVarWriter {  })
    }
}

} // verus!
