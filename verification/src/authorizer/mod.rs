//! Token-based read authorization, built from each document's `<!>.auth` list.

use crate::fs::FileProvider;
use crate::imports::auth_key_chars;
use crate::loader::MultiLoader;
use crate::strutil::{str_eq, string_views};
use crate::utils::{conf_strings, get_conf_strings};
use crate::{entry_models, lemma_entry_models, lemma_obj_get_skip, obj_get, val_model, ValModel,
    Value};
use vstd::prelude::*;

verus! {

/// Gates reads by `(path, token)`: a token may read a document exactly when
/// the document's `<!>.auth` list names it.  Documents without an auth list
/// are absent from the table, so nothing may read them through this gate.
#[derive(Debug)]
pub struct Authorizer {
    /// For each gated path, the tokens allowed to read it.
    pub paths: Vec<(String, Vec<String>)>,
}

/// The model of the authorizer's table.
pub open spec fn auth_model(paths: Seq<(String, Vec<String>)>) -> Seq<(Seq<char>, Seq<Seq<char>>)> {
    Seq::new(paths.len(), |i: int| (paths[i].0@, string_views(paths[i].1@)))
}

/// The first table entry under `path`, or `-1`.
pub open spec fn find_auth(t: Seq<(Seq<char>, Seq<Seq<char>>)>, path: Seq<char>) -> int
    decreases t.len(),
{
    if t.len() == 0 {
        -1
    } else if t[0].0 == path {
        0
    } else {
        if find_auth(t.skip(1), path) < 0 {
            -1
        } else {
            find_auth(t.skip(1), path) + 1
        }
    }
}

/// `find_auth` names the first entry under that path.
pub proof fn lemma_find_auth(t: Seq<(Seq<char>, Seq<Seq<char>>)>, path: Seq<char>)
    ensures
        -1 <= find_auth(t, path) < t.len(),
        find_auth(t, path) >= 0 ==> t[find_auth(t, path)].0 == path,
        forall|j: int| 0 <= j < find_auth(t, path) ==> t[j].0 != path,
        find_auth(t, path) == -1 ==> forall|j: int| 0 <= j < t.len() ==> t[j].0 != path,
    decreases t.len(),
{
    if t.len() > 0 && t[0].0 != path {
        lemma_find_auth(t.skip(1), path);
        let u = t.skip(1);
        assert(forall|j: int| 0 <= j < u.len() ==> u[j] == t[j + 1]);
        if find_auth(u, path) >= 0 {
            assert forall|j: int| 0 <= j < find_auth(t, path) implies t[j].0 != path by {
                if j > 0 {
                    assert(u[j - 1].0 != path);
                }
            }
        } else {
            assert forall|j: int| 0 <= j < t.len() implies t[j].0 != path by {
                if j > 0 {
                    assert(u[j - 1].0 != path);
                }
            }
        }
    }
}

/// Whether the table lets `token` read `path`.
pub open spec fn auth_allows(
    t: Seq<(Seq<char>, Seq<Seq<char>>)>,
    path: Seq<char>,
    token: Seq<char>,
) -> bool {
    let i = find_auth(t, path);
    i >= 0 && t[i].1.contains(token)
}

/// The authorization table of a list of parsed documents: one entry per
/// document whose `<!>.auth` list is nonempty, in document order.
pub open spec fn auth_table(docs: Seq<(Seq<char>, ValModel)>) -> Seq<(Seq<char>, Seq<Seq<char>>)>
    decreases docs.len(),
{
    if docs.len() == 0 {
        Seq::empty()
    } else {
        let toks = conf_strings(docs[0].1, auth_key_chars());
        (if toks.len() == 0 {
            Seq::empty()
        } else {
            seq![(docs[0].0, toks)]
        }) + auth_table(docs.skip(1))
    }
}

/// Appending one document extends the table by its entry, where it has one.
proof fn lemma_auth_table_push(docs: Seq<(Seq<char>, ValModel)>, x: (Seq<char>, ValModel))
    ensures
        auth_table(docs.push(x)) == auth_table(docs) + (if conf_strings(
            x.1,
            auth_key_chars(),
        ).len() == 0 {
            Seq::<(Seq<char>, Seq<Seq<char>>)>::empty()
        } else {
            seq![(x.0, conf_strings(x.1, auth_key_chars()))]
        }),
    decreases docs.len(),
{
    let added: Seq<(Seq<char>, Seq<Seq<char>>)> = if conf_strings(x.1, auth_key_chars()).len()
        == 0 {
        Seq::empty()
    } else {
        seq![(x.0, conf_strings(x.1, auth_key_chars()))]
    };
    if docs.len() == 0 {
        reveal_with_fuel(auth_table, 2);
        assert(docs.push(x)[0] == x);
        assert(docs.push(x).skip(1) =~= Seq::<(Seq<char>, ValModel)>::empty());
        assert(auth_table(docs.push(x)) =~= added);
        assert(auth_table(docs) + added =~= added);
    } else {
        lemma_auth_table_push(docs.skip(1), x);
        assert(docs.push(x)[0] == docs[0]);
        assert(docs.push(x).skip(1) =~= docs.skip(1).push(x));
        let head: Seq<(Seq<char>, Seq<Seq<char>>)> = if conf_strings(
            docs[0].1,
            auth_key_chars(),
        ).len() == 0 {
            Seq::empty()
        } else {
            seq![(docs[0].0, conf_strings(docs[0].1, auth_key_chars()))]
        };
        assert(auth_table(docs.push(x)) == head + (auth_table(docs.skip(1)) + added));
        assert(head + (auth_table(docs.skip(1)) + added) =~= (head + auth_table(docs.skip(1)))
            + added);
    }
}

impl Authorizer {
    /// The model of this authorizer.
    pub open spec fn model(&self) -> Seq<(Seq<char>, Seq<Seq<char>>)> {
        auth_model(self.paths@)
    }

    /// Whether `token` may read the document under `path`: true exactly
    /// when the path is gated and its token list holds the token.
    pub fn authorize(&self, path: &str, token: &str) -> (r: bool)
        ensures
            r == auth_allows(self.model(), path@, token@),
    {
        proof {
            lemma_find_auth(self.model(), path@);
        }
        let ghost t = self.model();
        let n = self.paths.len();
        let mut i: usize = 0;
        while i < n
            invariant
                0 <= i <= n,
                n == self.paths@.len(),
                t == self.model(),
                t.len() == n,
                forall|m: int| 0 <= m < n ==> t[m] == (self.paths@[m].0@, string_views(
                    self.paths@[m].1@,
                )),
                forall|j: int| 0 <= j < i ==> t[j].0 != path@,
            decreases n - i,
        {
            if str_eq(self.paths[i].0.as_str(), path) {
                proof {
                    lemma_find_auth(t, path@);
                    assert(t[i as int] == (self.paths@[i as int].0@, string_views(
                        self.paths@[i as int].1@,
                    )));
                    assert(t[i as int].0 == path@);
                    let f = find_auth(t, path@);
                    if f == -1 {
                        assert(t[i as int].0 != path@);
                        assert(false);
                    }
                    if f < i as int && f >= 0 {
                        assert(t[f].0 != path@);
                        assert(false);
                    }
                    if f > i as int {
                        assert(t[i as int].0 != path@);
                        assert(false);
                    }
                }
                let tokens = &self.paths[i].1;
                let m = tokens.len();
                let mut j: usize = 0;
                while j < m
                    invariant
                        0 <= j <= m,
                        m == tokens@.len(),
                        forall|q: int| 0 <= q < j ==> tokens@[q]@ != token@,
                        t == self.model(),
                        t.len() == n,
                        i < n,
                        find_auth(t, path@) == i as int,
                        t[i as int].1 == string_views(tokens@),
                    decreases m - j,
                {
                    if str_eq(tokens[j].as_str(), token) {
                        proof {
                            assert(string_views(tokens@)[j as int] == token@);
                            assert(t[i as int].1.contains(token@));
                        }
                        return true;
                    }
                    j += 1;
                }
                proof {
                    assert(!t[i as int].1.contains(token@)) by {
                        if t[i as int].1.contains(token@) {
                            let w = choose|w: int|
                                0 <= w < t[i as int].1.len() && t[i as int].1[w] == token@;
                            assert(string_views(tokens@)[w] == tokens@[w]@);
                            assert(tokens@[w]@ != token@);
                        }
                    }
                }
                return false;
            }
            i += 1;
        }
        proof {
            lemma_find_auth(t, path@);
        }
        false
    }

    /// The authorizer of a list of parsed documents: every document with a
    /// nonempty `<!>.auth` list is gated by exactly those tokens.
    pub fn from_files(docs: &Vec<(String, Value)>) -> (r: Authorizer)
        ensures
            r.model() == auth_table(entry_models(docs@)),
    {
        let ghost input = entry_models(docs@);
        proof {
            lemma_entry_models(docs@);
            assert(input.take(0) =~= Seq::<(Seq<char>, ValModel)>::empty());
        }
        let n = docs.len();
        let mut paths: Vec<(String, Vec<String>)> = Vec::new();
        let mut i: usize = 0;
        while i < n
            invariant
                0 <= i <= n,
                n == docs@.len(),
                input == entry_models(docs@),
                input.len() == n,
                forall|m: int| 0 <= m < n ==> input[m] == (docs@[m].0@, val_model(docs@[m].1)),
                auth_model(paths@) == auth_table(input.take(i as int)),
            decreases n - i,
        {
            proof {
                assert(input.take(i + 1) =~= input.take(i as int).push(input[i as int]));
                lemma_auth_table_push(input.take(i as int), input[i as int]);
            }
            let tokens = get_conf_strings(&docs[i].1, crate::imports::auth_key());
            if tokens.len() > 0 {
                let ghost p0 = paths@;
                let key = docs[i].0.clone();
                paths.push((key, tokens));
                proof {
                    assert(auth_model(paths@) =~= auth_model(p0).push(
                        (input[i as int].0, conf_strings(input[i as int].1, auth_key_chars())),
                    ));
                }
            } else {
                proof {
                    assert(auth_table(input.take(i + 1)) =~= auth_table(input.take(i as int)));
                }
            }
            i += 1;
        }
        proof {
            assert(input.take(n as int) =~= input);
        }
        Authorizer { paths }
    }

    /// The authorizer of everything a provider lists: each entry's text is
    /// loaded and parsed, and its auth list gates its key.  What the store
    /// and the parser hand over is their affair; whatever came back, the
    /// table is gated by `from_files`'s contract over those documents.
    pub fn new<P: FileProvider>(fs: &P, loader: &MultiLoader) -> (r: Authorizer)
        ensures
            exists|docs: Seq<(Seq<char>, ValModel)>| r.model() == auth_table(docs),
    {
        let entries = fs.list();
        let mut parsed: Vec<(String, Value)> = Vec::new();
        let n = entries.len();
        let mut i: usize = 0;
        while i < n
            invariant
                0 <= i <= n,
                n == entries@.len(),
            decreases n - i,
        {
            match fs.load(entries[i].full_path.as_str()) {
                Some(content) => {
                    match loader.load(entries[i].ext.as_str(), content.as_str()) {
                        Ok(value) => {
                            let key = entries[i].filename.clone();
                            parsed.push((key, value));
                        },
                        Err(_) => {},
                    }
                },
                None => {},
            }
            i += 1;
        }
        let r = Authorizer::from_files(&parsed);
        proof {
            assert(r.model() == auth_table(entry_models(parsed@)));
        }
        r
    }
}

/// Authorization against a snapshot with pairwise-distinct keys: a token may
/// read a path exactly when a document under that key is in the snapshot
/// and its `<!>.auth` list holds the token.
pub proof fn lemma_authorization(
    docs: Seq<(Seq<char>, ValModel)>,
    path: Seq<char>,
    token: Seq<char>,
)
    requires
        forall|i: int, j: int| 0 <= i < j < docs.len() ==> docs[i].0 != docs[j].0,
    ensures
        auth_allows(auth_table(docs), path, token) <==> (match obj_get(docs, path) {
            Some(doc) => conf_strings(doc, auth_key_chars()).contains(token),
            None => false,
        }),
    decreases docs.len(),
{
    if docs.len() == 0 {
    } else {
        let rest = docs.skip(1);
        assert(forall|j: int| 0 <= j < rest.len() ==> rest[j] == docs[j + 1]);
        lemma_authorization(rest, path, token);
        let toks = conf_strings(docs[0].1, auth_key_chars());
        let head: Seq<(Seq<char>, Seq<Seq<char>>)> = if toks.len() == 0 {
            Seq::empty()
        } else {
            seq![(docs[0].0, toks)]
        };
        let t = auth_table(docs);
        assert(t == head + auth_table(rest));
        lemma_find_auth(t, path);
        lemma_find_auth(auth_table(rest), path);
        if docs[0].0 == path {
            // No later document has this key.
            assert(forall|j: int| 0 <= j < rest.len() ==> rest[j].0 != path);
            lemma_auth_table_no_key(rest, path);
            if toks.len() == 0 {
                assert(t =~= auth_table(rest));
                assert(find_auth(t, path) == -1);
            } else {
                assert(t[0] == (path, toks));
                assert(find_auth(t, path) == 0);
            }
        } else {
            if toks.len() == 0 {
                assert(t =~= auth_table(rest));
            } else {
                assert(t.len() == 1 + auth_table(rest).len());
                assert(t[0] == (docs[0].0, toks));
                assert(forall|j: int| 0 <= j < auth_table(rest).len() ==> t[j + 1] == auth_table(
                    rest,
                )[j]);
                let fr = find_auth(auth_table(rest), path);
                let ft = find_auth(t, path);
                if fr >= 0 {
                    assert(t[fr + 1].0 == path);
                    if ft < fr + 1 {
                        if ft >= 1 {
                            assert(auth_table(rest)[ft - 1].0 == path);
                            assert(auth_table(rest)[ft - 1].0 != path);
                        }
                        assert(false);
                    }
                    if ft > fr + 1 {
                        assert(t[fr + 1].0 != path);
                        assert(false);
                    }
                    assert(ft == fr + 1);
                    assert(t[ft].1 == auth_table(rest)[fr].1);
                } else {
                    if ft >= 0 {
                        assert(ft >= 1);
                        assert(auth_table(rest)[ft - 1].0 == path);
                        assert(false);
                    }
                }
            }
        }
    }
}

/// A table built from documents without a key holds no entry under it.
proof fn lemma_auth_table_no_key(docs: Seq<(Seq<char>, ValModel)>, path: Seq<char>)
    requires
        forall|j: int| 0 <= j < docs.len() ==> docs[j].0 != path,
    ensures
        find_auth(auth_table(docs), path) == -1,
    decreases docs.len(),
{
    lemma_find_auth(auth_table(docs), path);
    if docs.len() > 0 {
        let rest = docs.skip(1);
        assert(forall|j: int| 0 <= j < rest.len() ==> rest[j] == docs[j + 1]);
        lemma_auth_table_no_key(rest, path);
        lemma_find_auth(auth_table(rest), path);
        let toks = conf_strings(docs[0].1, auth_key_chars());
        let t = auth_table(docs);
        if find_auth(t, path) >= 0 {
            let f = find_auth(t, path);
            assert(t[f].0 == path);
            if toks.len() == 0 {
                assert(t =~= auth_table(rest));
                assert(auth_table(rest)[f].0 == path);
                assert(false);
            } else {
                assert(t[0] == (docs[0].0, toks));
                if f == 0 {
                    assert(docs[0].0 != path);
                    assert(false);
                } else {
                    assert(t[f] == auth_table(rest)[f - 1]);
                    assert(auth_table(rest)[f - 1].0 == path);
                    assert(false);
                }
            }
        }
    }
}

} // verus!
