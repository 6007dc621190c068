//! Shared helpers: the walk of the `<!>` metadata section and the
//! host-boundary error type.

use crate::strutil::string_views;
use crate::{lemma_seq_models, obj_get, seq_models, val_model, ValModel, Value};
use vstd::prelude::*;

verus! {

/// The characters of the reserved metadata key `<!>`.
pub open spec fn metadata_key_chars() -> Seq<char> {
    seq!['<', '!', '>']
}

/// The literal metadata key, `<!>`.
pub fn metadata_key() -> (r: &'static str)
    ensures
        r@ == metadata_key_chars(),
{
    proof {
        reveal_strlit("<!>");
        assert("<!>"@ =~= metadata_key_chars());
    }
    "<!>"
}

/// The string items of a list of values; anything else is passed over.
pub open spec fn str_items(items: Seq<ValModel>) -> Seq<Seq<char>>
    decreases items.len(),
{
    if items.len() == 0 {
        Seq::empty()
    } else {
        (match items[0] {
            ValModel::Str(s) => seq![s],
            _ => Seq::<Seq<char>>::empty(),
        }) + str_items(items.skip(1))
    }
}

/// Appending one value extends the string items by its contribution.
pub proof fn lemma_str_items_push(items: Seq<ValModel>, x: ValModel)
    ensures
        str_items(items.push(x)) == str_items(items) + (match x {
            ValModel::Str(s) => seq![s],
            _ => Seq::<Seq<char>>::empty(),
        }),
    decreases items.len(),
{
    let added = (match x {
        ValModel::Str(s) => seq![s],
        _ => Seq::<Seq<char>>::empty(),
    });
    if items.len() == 0 {
        reveal_with_fuel(str_items, 2);
        assert(items.push(x)[0] == x);
        assert(items.push(x).skip(1) =~= Seq::<ValModel>::empty());
        assert(str_items(items.push(x)) =~= added);
        assert(str_items(items) + added =~= added);
    } else {
        lemma_str_items_push(items.skip(1), x);
        assert(items.push(x)[0] == items[0]);
        assert(items.push(x).skip(1) =~= items.skip(1).push(x));
        let head = (match items[0] {
            ValModel::Str(s) => seq![s],
            _ => Seq::<Seq<char>>::empty(),
        });
        assert(str_items(items.push(x)) == head + (str_items(items.skip(1)) + added));
        assert(head + (str_items(items.skip(1)) + added) =~= (head + str_items(items.skip(1)))
            + added);
    }
}

/// The list under `<!>.<key>` of a document: the string items of that entry,
/// where the document is a mapping, the metadata entry is a mapping, and the
/// entry under `key` is a sequence; empty otherwise.
pub open spec fn conf_strings(doc: ValModel, key: Seq<char>) -> Seq<Seq<char>> {
    match doc {
        ValModel::Obj(es) => match obj_get(es, metadata_key_chars()) {
            Some(meta) => match meta {
                ValModel::Obj(ms) => match obj_get(ms, key) {
                    Some(entry) => match entry {
                        ValModel::Arr(items) => str_items(items),
                        _ => Seq::empty(),
                    },
                    _ => Seq::empty(),
                },
                _ => Seq::empty(),
            },
            _ => Seq::empty(),
        },
        _ => Seq::empty(),
    }
}

/// The string items of the list under `<!>.<key>` of a document.
pub fn get_conf_strings(value: &Value, key: &str) -> (r: Vec<String>)
    ensures
        string_views(r@) == conf_strings(value@, key@),
{
    let out: Vec<String> = Vec::new();
    let meta = match value.get(metadata_key()) {
        Some(m) => m,
        None => {
            proof {
                assert(string_views(out@) =~= conf_strings(value@, key@));
            }
            return out;
        },
    };
    let entry = match meta.get(key) {
        Some(e) => e,
        None => {
            proof {
                assert(string_views(out@) =~= conf_strings(value@, key@));
            }
            return out;
        },
    };
    let items = match entry.as_sequence() {
        Some(items) => items,
        None => {
            proof {
                assert(string_views(out@) =~= conf_strings(value@, key@));
            }
            return out;
        },
    };
    let ghost m = seq_models(items@);
    proof {
        lemma_seq_models(items@);
        assert(conf_strings(value@, key@) == str_items(m));
    }
    let mut out: Vec<String> = out;
    let n = items.len();
    let mut i: usize = 0;
    while i < n
        invariant
            0 <= i <= n,
            n == items@.len(),
            m == seq_models(items@),
            m.len() == n,
            forall|k: int| 0 <= k < n ==> m[k] == val_model(items@[k]),
            string_views(out@) == str_items(m.take(i as int)),
        decreases n - i,
    {
        proof {
            assert(m.take(i + 1) =~= m.take(i as int).push(m[i as int]));
            lemma_str_items_push(m.take(i as int), m[i as int]);
        }
        match items[i].as_str() {
            Some(s) => {
                let ghost out0 = out@;
                out.push(s.clone());
                proof {
                    assert(string_views(out@) =~= string_views(out0).push(s@));
                    assert(string_views(out@) =~= str_items(m.take(i + 1)));
                }
            },
            None => {
                proof {
                    assert(str_items(m.take(i + 1)) =~= str_items(m.take(i as int)));
                }
            },
        }
        i += 1;
    }
    proof {
        assert(m.take(n as int) =~= m);
    }
    out
}

/// The error taxonomy of the read path, each variant carrying the
/// originating key, commit or reason.
#[derive(Debug)]
pub enum GetError {
    /// The requested commit was not found in the repository.
    CommitNotFound { commit: String },
    /// The requested document was not found.
    ConfigNotFound { path: String },
    /// The document could not be rendered (missing import, cycle).
    RenderError { path: String, reason: String },
    /// The per-commit state could not be built.
    DagInitError { commit: String, reason: String },
    /// An unexpected internal failure.
    InternalError { reason: String },
    /// A malformed request (bad commit format, unknown output format).
    BadRequest { reason: String },
    /// The request carried no usable token.
    Unauthorized { reason: String },
    /// The token is valid but not allowed to read this document.
    Forbidden { path: String },
}

impl GetError {
    /// A human-readable description naming the offending key or commit.
    pub fn message(&self) -> (r: String)
        ensures
            match *self {
                GetError::CommitNotFound { commit } => r@ == "commit not found: '"@ + commit@
                    + "'"@,
                GetError::ConfigNotFound { path } => r@ == "config file not found: '"@ + path@
                    + "'"@,
                GetError::RenderError { path, reason } => r@ == "failed to render config '"@
                    + path@ + "': "@ + reason@,
                GetError::DagInitError { commit, reason } => r@
                    == "failed to initialize config for commit '"@ + commit@ + "': "@ + reason@,
                GetError::InternalError { reason } => r@ == "internal error: "@ + reason@,
                GetError::BadRequest { reason } => r@ == "bad request: "@ + reason@,
                GetError::Unauthorized { reason } => r@ == "unauthorized: "@ + reason@,
                GetError::Forbidden { path } => r@ == "forbidden: not authorized to access '"@
                    + path@ + "'"@,
            },
    {
        match self {
            GetError::CommitNotFound { commit } => {
                let r = String::from_str("commit not found: '").concat(commit.as_str()).concat(
                    "'",
                );
                proof {
                    assert(r@ =~= "commit not found: '"@ + commit@ + "'"@);
                }
                r
            },
            GetError::ConfigNotFound { path } => {
                let r = String::from_str("config file not found: '").concat(path.as_str()).concat(
                    "'",
                );
                proof {
                    assert(r@ =~= "config file not found: '"@ + path@ + "'"@);
                }
                r
            },
            GetError::RenderError { path, reason } => {
                let r = String::from_str("failed to render config '").concat(path.as_str()).concat(
                    "': ",
                ).concat(reason.as_str());
                proof {
                    assert(r@ =~= "failed to render config '"@ + path@ + "': "@ + reason@);
                }
                r
            },
            GetError::DagInitError { commit, reason } => {
                let r = String::from_str("failed to initialize config for commit '").concat(
                    commit.as_str(),
                ).concat("': ").concat(reason.as_str());
                proof {
                    assert(r@ =~= "failed to initialize config for commit '"@ + commit@ + "': "@
                        + reason@);
                }
                r
            },
            GetError::InternalError { reason } => {
                String::from_str("internal error: ").concat(reason.as_str())
            },
            GetError::BadRequest { reason } => {
                String::from_str("bad request: ").concat(reason.as_str())
            },
            GetError::Unauthorized { reason } => {
                String::from_str("unauthorized: ").concat(reason.as_str())
            },
            GetError::Forbidden { path } => {
                let r = String::from_str("forbidden: not authorized to access '").concat(
                    path.as_str(),
                ).concat("'");
                proof {
                    assert(r@ =~= "forbidden: not authorized to access '"@ + path@ + "'"@);
                }
                r
            },
        }
    }
}

} // verus!
