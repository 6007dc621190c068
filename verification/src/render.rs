//! The document DAG: lazy dependency-ordered rendering over an atomically
//! replaceable snapshot of parsed documents.
//!
//! Rendering a key renders every import first (resolving relative paths
//! against the importing document), builds the alias-to-value dependency
//! map in declaration order, runs the template resolver over the raw tree,
//! and strips the top-level `<!>` entry.  A key on the current rendering
//! path again is a cycle and an error; a missing document, or a missing
//! transitive import, is an error naming the absent key.

use crate::fs::FileProvider;
use crate::imports::{imports_of, imports_table, parse_imports, ImportTuple};
use crate::loader::{LoaderError, MultiLoader};
use crate::render_helper::{resolve_refs_from_deps, resolve_value, strip_metadata,
    strip_metadata_entry};
use crate::strutil::{str_eq, string_views};
use crate::{
    entry_models, lemma_entry_models, lemma_obj_get_skip, obj_get, val_model, Konf, ValModel,
    Value,
};
use std::sync::Arc;
use vstd::prelude::*;

verus! {

/// An error from rendering a document.
#[derive(Debug)]
pub enum RenderError {
    /// The named document, or a transitive import of it, is not in the
    /// current snapshot.
    ConfigNotFound { path: String },
    /// The named document takes part in an import cycle.
    Cycle { path: String },
}

/// The model of a render failure.
pub enum RenderErr {
    NotFound(Seq<char>),
    Cycle(Seq<char>),
}

/// The raw documents of a snapshot: key and parsed tree, in snapshot order.
pub open spec fn docs_of(files: Seq<(String, Konf)>) -> Seq<(Seq<char>, ValModel)> {
    Seq::new(files.len(), |i: int| (files[i].0@, val_model(files[i].1.raw)))
}

/// What rendering `key` yields, with `visiting` the keys on the current
/// rendering path and `fuel` bounding the depth.  A key already on the path
/// is a cycle; a key not in the snapshot is missing; otherwise every import
/// is rendered with the key pushed onto the path, and the raw tree is
/// resolved against the imports' values and stripped of its `<!>` entry.
pub open spec fn spec_render_at(
    docs: Seq<(Seq<char>, ValModel)>,
    visiting: Seq<Seq<char>>,
    fuel: nat,
    key: Seq<char>,
) -> Result<ValModel, RenderErr>
    decreases fuel, 0int,
{
    if visiting.contains(key) {
        Err(RenderErr::Cycle(key))
    } else {
        match obj_get(docs, key) {
            None => Err(RenderErr::NotFound(key)),
            Some(raw) => {
                if fuel == 0 {
                    Err(RenderErr::Cycle(key))
                } else {
                    match spec_render_deps(
                        docs,
                        visiting.push(key),
                        (fuel - 1) as nat,
                        imports_table(imports_of(raw, key)),
                        0,
                    ) {
                        Err(e) => Err(e),
                        Ok(deps) => Ok(strip_metadata(resolve_value(raw, deps))),
                    }
                }
            },
        }
    }
}

/// The dependency map built from the imports at and after `i`: each import
/// rendered at its resolved path and bound to its alias, in order; the
/// first failure propagates.
pub open spec fn spec_render_deps(
    docs: Seq<(Seq<char>, ValModel)>,
    visiting: Seq<Seq<char>>,
    fuel: nat,
    imps: Seq<ImportTuple>,
    i: int,
) -> Result<Seq<(Seq<char>, ValModel)>, RenderErr>
    decreases fuel, imps.len() - i,
{
    if i < 0 || i >= imps.len() {
        Ok(Seq::empty())
    } else {
        let target = match imps[i].2 {
            Some(p) => p,
            None => imps[i].0,
        };
        match spec_render_at(docs, visiting, fuel, target) {
            Err(e) => Err(e),
            Ok(v) => match spec_render_deps(docs, visiting, fuel, imps, i + 1) {
                Err(e) => Err(e),
                Ok(rest) => Ok(seq![(imps[i].1, v)] + rest),
            },
        }
    }
}

/// What rendering `key` against a whole snapshot yields.  The fuel is the
/// snapshot size: a dependency path can visit each key at most once, so on
/// any input the depth bound is reached only past a repeated key, which the
/// path check reports as a cycle first.
pub open spec fn spec_render(docs: Seq<(Seq<char>, ValModel)>, key: Seq<char>) -> Result<
    ValModel,
    RenderErr,
> {
    spec_render_at(docs, Seq::empty(), docs.len(), key)
}

/// The index of the first snapshot entry with this key, or `-1`.
pub open spec fn find_doc(s: Seq<(Seq<char>, ValModel)>, key: Seq<char>) -> int
    decreases s.len(),
{
    if s.len() == 0 {
        -1
    } else if s[0].0 == key {
        0
    } else {
        if find_doc(s.skip(1), key) < 0 {
            -1
        } else {
            find_doc(s.skip(1), key) + 1
        }
    }
}

/// `find_doc` names the first entry under that key.
pub proof fn lemma_find_doc(s: Seq<(Seq<char>, ValModel)>, key: Seq<char>)
    ensures
        -1 <= find_doc(s, key) < s.len(),
        find_doc(s, key) >= 0 ==> s[find_doc(s, key)].0 == key,
        forall|j: int| 0 <= j < find_doc(s, key) ==> s[j].0 != key,
        find_doc(s, key) == -1 ==> forall|j: int| 0 <= j < s.len() ==> s[j].0 != key,
    decreases s.len(),
{
    if s.len() > 0 && s[0].0 != key {
        lemma_find_doc(s.skip(1), key);
        let t = s.skip(1);
        assert(forall|j: int| 0 <= j < t.len() ==> t[j] == s[j + 1]);
        if find_doc(t, key) >= 0 {
            assert forall|j: int| 0 <= j < find_doc(s, key) implies s[j].0 != key by {
                if j > 0 {
                    assert(t[j - 1].0 != key);
                }
            }
        } else {
            assert forall|j: int| 0 <= j < s.len() implies s[j].0 != key by {
                if j > 0 {
                    assert(t[j - 1].0 != key);
                }
            }
        }
    }
}

/// Adds one parsed document to a snapshot: an entry with the same key is
/// replaced, the new document's cell starting empty (last-enumerated wins).
pub open spec fn upsert_doc(
    acc: Seq<(Seq<char>, ValModel)>,
    doc: (Seq<char>, ValModel),
) -> Seq<(Seq<char>, ValModel)> {
    let i = find_doc(acc, doc.0);
    if i < 0 {
        acc.push(doc)
    } else {
        acc.remove(i).push(doc)
    }
}

/// The snapshot built from a list of parsed documents, in order, a later
/// key collision replacing the earlier document.
pub open spec fn docs_table(s: Seq<(Seq<char>, ValModel)>) -> Seq<(Seq<char>, ValModel)>
    decreases s.len(),
{
    if s.len() == 0 {
        Seq::empty()
    } else {
        upsert_doc(docs_table(s.drop_last()), s.last())
    }
}

/// Keys are pairwise distinct in a built snapshot.
pub proof fn lemma_docs_table_unique(s: Seq<(Seq<char>, ValModel)>)
    ensures
        forall|i: int, j: int|
            0 <= i < j < docs_table(s).len() ==> docs_table(s)[i].0 != docs_table(s)[j].0,
    decreases s.len(),
{
    if s.len() > 0 {
        lemma_docs_table_unique(s.drop_last());
        let acc = docs_table(s.drop_last());
        let x = s.last();
        lemma_find_doc(acc, x.0);
        let t = docs_table(s);
        let k = find_doc(acc, x.0);
        if k < 0 {
            assert forall|i: int, j: int| 0 <= i < j < t.len() implies t[i].0 != t[j].0 by {
                if j < t.len() - 1 {
                    assert(t[i] == acc[i] && t[j] == acc[j]);
                } else {
                    assert(t[i] == acc[i]);
                    assert(acc[i].0 != x.0);
                }
            }
        } else {
            let rem = acc.remove(k);
            assert forall|i: int, j: int| 0 <= i < j < t.len() implies t[i].0 != t[j].0 by {
                assert(forall|m: int| 0 <= m < rem.len() ==> rem[m] == (if m < k {
                    acc[m]
                } else {
                    acc[m + 1]
                }));
                if j < t.len() - 1 {
                    assert(t[i] == rem[i] && t[j] == rem[j]);
                } else {
                    assert(t[i] == rem[i]);
                    assert(rem[i].0 != x.0);
                }
            }
        }
    }
}

/// A directed graph of documents with lazy dependency-ordered rendering and
/// atomic snapshot replacement.
#[derive(Debug)]
pub struct Dag<P: FileProvider> {
    /// The storage the snapshot is (re)loaded from.
    pub file_provider: P,
    /// The loader suite parsing raw text.
    pub multiloader: Arc<MultiLoader>,
    /// The current snapshot: one `Konf` per document key.
    pub files: Vec<(String, Konf)>,
}

/// Renders one key of a snapshot, mirroring `spec_render_at`.
fn render_rec(files: &Vec<(String, Konf)>, visiting: &Vec<String>, fuel: usize, key: &str) -> (r:
    Result<Value, RenderError>)
    ensures
        r matches Ok(v) ==> spec_render_at(
            docs_of(files@),
            string_views(visiting@),
            fuel as nat,
            key@,
        ) == Ok::<ValModel, RenderErr>(v@),
        r matches Err(e) ==> (match e {
            RenderError::ConfigNotFound { path } => spec_render_at(
                docs_of(files@),
                string_views(visiting@),
                fuel as nat,
                key@,
            ) == Err::<ValModel, RenderErr>(RenderErr::NotFound(path@)),
            RenderError::Cycle { path } => spec_render_at(
                docs_of(files@),
                string_views(visiting@),
                fuel as nat,
                key@,
            ) == Err::<ValModel, RenderErr>(RenderErr::Cycle(path@)),
        }),
    decreases fuel,
{
    let ghost docs = docs_of(files@);
    let ghost vis = string_views(visiting@);
    // A key already being rendered closes a cycle.
    let nv = visiting.len();
    let mut ci: usize = 0;
    while ci < nv
        invariant
            0 <= ci <= nv,
            nv == visiting@.len(),
            vis == string_views(visiting@),
            forall|j: int| 0 <= j < ci ==> vis[j] != key@,
        decreases nv - ci,
    {
        if str_eq(visiting[ci].as_str(), key) {
            proof {
                assert(vis[ci as int] == key@);
                assert(vis.contains(key@));
            }
            return Err(RenderError::Cycle { path: key.to_owned() });
        }
        ci += 1;
    }
    proof {
        assert(!vis.contains(key@)) by {
            if vis.contains(key@) {
                let w = choose|w: int| 0 <= w < vis.len() && vis[w] == key@;
                assert(vis[w] != key@);
            }
        }
    }
    // Look the document up.
    let n = files.len();
    proof {
        assert(docs.len() == n);
        assert(forall|m: int| 0 <= m < n ==> docs[m] == (files@[m].0@, val_model(
            files@[m].1.raw,
        )));
    }
    let mut k: usize = 0;
    let mut found: bool = false;
    while k < n && !found
        invariant
            0 <= k <= n,
            n == files@.len(),
            docs == docs_of(files@),
            docs.len() == n,
            forall|m: int| 0 <= m < n ==> docs[m] == (files@[m].0@, val_model(files@[m].1.raw)),
            !found ==> forall|m: int| 0 <= m < k ==> docs[m].0 != key@,
            found ==> k < n && docs[k as int].0 == key@ && (forall|m: int|
                0 <= m < k ==> docs[m].0 != key@),
        decreases n - k, (if found { 0int } else { 1int }),
    {
        if str_eq(files[k].0.as_str(), key) {
            found = true;
        } else {
            k += 1;
        }
    }
    if !found {
        proof {
            lemma_obj_get_skip(docs, key@, n as int);
        }
        return Err(RenderError::ConfigNotFound { path: key.to_owned() });
    }
    proof {
        lemma_obj_get_skip(docs, key@, k as int);
        assert(obj_get(docs, key@) == Some(val_model(files@[k as int].1.raw)));
    }
    let raw: &Value = &files[k].1.raw;
    if fuel == 0 {
        return Err(RenderError::Cycle { path: key.to_owned() });
    }
    // Render every import with this key on the path.
    let map = parse_imports(raw, key);
    let ghost imps = imports_table(imports_of(val_model(*raw), key@));
    let mut vis2: Vec<String> = Vec::new();
    proof {
        assert(string_views(vis2@) =~= vis.take(0));
    }
    let mut vi: usize = 0;
    while vi < nv
        invariant
            0 <= vi <= nv,
            nv == visiting@.len(),
            vis == string_views(visiting@),
            vis.len() == nv,
            string_views(vis2@) == vis.take(vi as int),
        decreases nv - vi,
    {
        let ghost v0 = vis2@;
        proof {
            assert(string_views(v0).len() == v0.len());
            assert(v0.len() == vi as int);
        }
        vis2.push(visiting[vi].clone());
        proof {
            assert(vis2@[vi as int]@ == vis[vi as int]);
            assert forall|q: int| 0 <= q < vi + 1 implies string_views(vis2@)[q] == vis.take(
                vi + 1,
            )[q] by {
                assert(string_views(vis2@)[q] == vis2@[q]@);
                if q < vi as int {
                    assert(vis2@[q] == v0[q]);
                    assert(string_views(v0)[q] == v0[q]@);
                    assert(string_views(v0)[q] == vis.take(vi as int)[q]);
                }
            }
            assert(string_views(vis2@) =~= vis.take(vi + 1));
        }
        vi += 1;
    }
    vis2.push(key.to_owned());
    proof {
        assert(vis.take(nv as int) =~= vis);
        assert(string_views(vis2@) =~= vis.push(key@));
    }
    let ghost vis2v = string_views(vis2@);
    let ghost f2 = (fuel - 1) as nat;
    let total = map.entries.len();
    let mut deps: Vec<(String, Value)> = Vec::new();
    proof {
        assert(imps.len() == total);
        assert(forall|m: int| 0 <= m < total ==> imps[m] == crate::imports::import_view(
            map.entries@[m],
        ));
        assert(entry_models(deps@) =~= Seq::<(Seq<char>, ValModel)>::empty());
        lemma_entry_models(deps@);
    }
    let mut i: usize = 0;
    while i < total
        invariant
            0 <= i <= total,
            total == map.entries@.len(),
            imps.len() == total,
            forall|m: int| 0 <= m < total ==> imps[m] == crate::imports::import_view(
                map.entries@[m],
            ),
            docs == docs_of(files@),
            vis == string_views(visiting@),
            !vis.contains(key@),
            obj_get(docs, key@) == Some(val_model(*raw)),
            imps == imports_table(imports_of(val_model(*raw), key@)),
            vis2v == string_views(vis2@),
            vis2v == vis.push(key@),
            fuel >= 1,
            f2 == (fuel - 1) as nat,
            match spec_render_deps(docs, vis2v, f2, imps, i as int) {
                Ok(rest) => spec_render_deps(docs, vis2v, f2, imps, 0) == Ok::<
                    Seq<(Seq<char>, ValModel)>,
                    RenderErr,
                >(entry_models(deps@) + rest),
                Err(e) => spec_render_deps(docs, vis2v, f2, imps, 0) == Err::<
                    Seq<(Seq<char>, ValModel)>,
                    RenderErr,
                >(e),
            },
        decreases total - i,
    {
        proof {
            assert(imps[i as int] == crate::imports::import_view(map.entries@[i as int]));
        }
        let target: String = match &map.entries[i].resolved_path {
            Some(p) => p.clone(),
            None => map.entries[i].path.clone(),
        };
        proof {
            assert(target@ == match imps[i as int].2 {
                Some(p) => p,
                None => imps[i as int].0,
            });
        }
        match render_rec(files, &vis2, fuel - 1, target.as_str()) {
            Ok(v) => {
                let ghost deps0 = deps@;
                let alias = map.entries[i].alias.clone();
                deps.push((alias, v));
                proof {
                    lemma_entry_models(deps0);
                    lemma_entry_models(deps@);
                    assert(entry_models(deps@) =~= entry_models(deps0).push(
                        (imps[i as int].1, val_model(v)),
                    ));
                    assert(entry_models(deps@) + match spec_render_deps(
                        docs,
                        vis2v,
                        f2,
                        imps,
                        i + 1,
                    ) {
                        Ok(rest) => rest,
                        Err(_) => Seq::empty(),
                    } =~= entry_models(deps0) + (seq![(imps[i as int].1, val_model(v))]
                        + match spec_render_deps(docs, vis2v, f2, imps, i + 1) {
                        Ok(rest) => rest,
                        Err(_) => Seq::empty(),
                    }));
                }
            },
            Err(e) => {
                return Err(e);
            },
        }
        i += 1;
    }
    proof {
        assert(entry_models(deps@) + Seq::<(Seq<char>, ValModel)>::empty() =~= entry_models(
            deps@,
        ));
    }
    // Resolve the raw tree against the dependency map and strip `<!>`.
    let mut rendered = raw.clone();
    resolve_refs_from_deps(&mut rendered, &deps);
    let stripped = strip_metadata_entry(rendered);
    Ok(stripped)
}

impl<P: FileProvider> Dag<P> {
    /// The raw documents of the current snapshot.
    pub open spec fn docs_model(&self) -> Seq<(Seq<char>, ValModel)> {
        docs_of(self.files@)
    }

    /// Builds a DAG over the provider's current contents: always a whole
    /// snapshot built as one table, every render cell empty.
    pub fn new(file_provider: P, multiloader: Arc<MultiLoader>) -> (r: Result<Dag<P>, LoaderError>)
        ensures
            r is Ok,
            r matches Ok(d) ==> exists|input: Seq<(Seq<char>, ValModel)>|
                d.docs_model() == docs_table(input),
            r matches Ok(d) ==> forall|i: int|
                0 <= i < d.files@.len() ==> (#[trigger] d.files@[i]).1.rendered is None,
    {
        let mut dag = Dag { file_provider, multiloader, files: Vec::new() };
        match dag.reload() {
            Ok(()) => Ok(dag),
            Err(e) => Err(e),
        }
    }

    /// Renders the document under `file_path` against the current snapshot.
    ///
    /// The result is a function of the snapshot and the key alone: two
    /// calls on one snapshot return the same value.  The errors name the
    /// key at fault: the missing document or import, or a cycle member.
    pub fn get_rendered(&self, file_path: &str) -> (r: Result<Value, RenderError>)
        ensures
            r matches Ok(v) ==> spec_render(self.docs_model(), file_path@) == Ok::<
                ValModel,
                RenderErr,
            >(v@),
            r matches Err(e) ==> (match e {
                RenderError::ConfigNotFound { path } => spec_render(self.docs_model(), file_path@)
                    == Err::<ValModel, RenderErr>(RenderErr::NotFound(path@)),
                RenderError::Cycle { path } => spec_render(self.docs_model(), file_path@) == Err::<
                    ValModel,
                    RenderErr,
                >(RenderErr::Cycle(path@)),
            }),
    {
        let visiting: Vec<String> = Vec::new();
        proof {
            assert(string_views(visiting@) =~= Seq::<Seq<char>>::empty());
        }
        let fuel = self.files.len();
        render_rec(&self.files, &visiting, fuel, file_path)
    }

    /// Every populated render cell agrees with rendering its own key
    /// against the current snapshot.
    pub open spec fn cache_ok(&self) -> bool {
        forall|i: int|
            0 <= i < self.files@.len() ==> match (#[trigger] self.files@[i]).1.rendered {
                Some(v) => spec_render(self.docs_model(), self.files@[i].0@) == Ok::<
                    ValModel,
                    RenderErr,
                >(val_model(v)),
                None => true,
            }
    }

    /// Renders with memoization: the first call for a key computes the
    /// render and fills the document's cell, later calls hand the cached
    /// value back.  The cell is written at most once per snapshot, the raw
    /// documents are untouched, and the result is `get_rendered`'s.
    pub fn get_rendered_cached(&mut self, file_path: &str) -> (r: Result<Value, RenderError>)
        requires
            old(self).cache_ok(),
        ensures
            final(self).cache_ok(),
            final(self).docs_model() == old(self).docs_model(),
            final(self).file_provider == old(self).file_provider,
            final(self).multiloader == old(self).multiloader,
            r matches Ok(v) ==> spec_render(old(self).docs_model(), file_path@) == Ok::<
                ValModel,
                RenderErr,
            >(v@),
            r matches Err(e) ==> (match e {
                RenderError::ConfigNotFound { path } => spec_render(
                    old(self).docs_model(),
                    file_path@,
                ) == Err::<ValModel, RenderErr>(RenderErr::NotFound(path@)),
                RenderError::Cycle { path } => spec_render(old(self).docs_model(), file_path@)
                    == Err::<ValModel, RenderErr>(RenderErr::Cycle(path@)),
            }),
    {
        let ghost docs = self.docs_model();
        let n = self.files.len();
        proof {
            assert(docs.len() == n);
            assert(forall|m: int| 0 <= m < n ==> docs[m] == (self.files@[m].0@, val_model(
                self.files@[m].1.raw,
            )));
        }
        let mut k: usize = 0;
        let mut found: bool = false;
        while k < n && !found
            invariant
                0 <= k <= n,
                n == self.files@.len(),
                docs == self.docs_model(),
                docs.len() == n,
                forall|m: int| 0 <= m < n ==> docs[m] == (self.files@[m].0@, val_model(
                    self.files@[m].1.raw,
                )),
                !found ==> forall|m: int| 0 <= m < k ==> docs[m].0 != file_path@,
                found ==> k < n && docs[k as int].0 == file_path@,
            decreases n - k, (if found { 0int } else { 1int }),
        {
            if str_eq(self.files[k].0.as_str(), file_path) {
                found = true;
            } else {
                k += 1;
            }
        }
        if !found {
            proof {
                lemma_obj_get_skip(docs, file_path@, n as int);
            }
            return Err(RenderError::ConfigNotFound { path: file_path.to_owned() });
        }
        match &self.files[k].1.rendered {
            Some(cached) => {
                proof {
                    assert(spec_render(docs, self.files@[k as int].0@) == Ok::<
                        ValModel,
                        RenderErr,
                    >(val_model(*cached)));
                }
                return Ok(cached.clone());
            },
            None => {},
        }
        let result = self.get_rendered(file_path);
        match result {
            Ok(v) => {
                // Fill the cell, leaving the raw document as it was.
                let ghost files0 = self.files@;
                let cached = v.clone();
                let slot = self.files.remove(k);
                self.files.insert(k, (slot.0, Konf { raw: slot.1.raw, rendered: Some(cached) }));
                proof {
                    assert(self.files@.len() == files0.len());
                    assert(forall|m: int| 0 <= m < files0.len() && m != k ==> self.files@[m]
                        == files0[m]);
                    assert(self.files@[k as int].0 == files0[k as int].0);
                    assert(self.files@[k as int].1.raw == files0[k as int].1.raw);
                    assert(docs_of(self.files@) =~= docs);
                }
                Ok(v)
            },
            Err(e) => Err(e),
        }
    }

    /// The raw, unrendered document under `file_path`.
    pub fn get_raw(&self, file_path: &str) -> (r: Result<Value, RenderError>)
        ensures
            r matches Ok(v) ==> obj_get(self.docs_model(), file_path@) == Some(v@),
            r matches Err(e) ==> obj_get(self.docs_model(), file_path@) is None && (
            e matches RenderError::ConfigNotFound { path } && path@ == file_path@),
    {
        let ghost docs = self.docs_model();
        let n = self.files.len();
        proof {
            assert(docs.len() == n);
            assert(forall|m: int| 0 <= m < n ==> docs[m] == (self.files@[m].0@, val_model(
                self.files@[m].1.raw,
            )));
        }
        let mut k: usize = 0;
        while k < n
            invariant
                0 <= k <= n,
                n == self.files@.len(),
                docs == self.docs_model(),
                docs.len() == n,
                forall|m: int| 0 <= m < n ==> docs[m] == (self.files@[m].0@, val_model(
                    self.files@[m].1.raw,
                )),
                forall|m: int| 0 <= m < k ==> docs[m].0 != file_path@,
            decreases n - k,
        {
            if str_eq(self.files[k].0.as_str(), file_path) {
                proof {
                    lemma_obj_get_skip(docs, file_path@, k as int);
                }
                return Ok(self.files[k].1.raw.clone());
            }
            k += 1;
        }
        proof {
            lemma_obj_get_skip(docs, file_path@, n as int);
        }
        Err(RenderError::ConfigNotFound { path: file_path.to_owned() })
    }

    /// Installs a snapshot built from the given parsed documents: one entry
    /// per key (a later duplicate replaces the earlier document), every
    /// render cell empty.  Readers of the old snapshot are unaffected; the
    /// replacement is whole.
    pub fn reload_from_values(&mut self, docs: Vec<(String, Value)>)
        ensures
            final(self).docs_model() == docs_table(entry_models(docs@)),
            forall|i: int|
                0 <= i < final(self).files@.len()
                    ==> (#[trigger] final(self).files@[i]).1.rendered is None,
            final(self).file_provider == old(self).file_provider,
            final(self).multiloader == old(self).multiloader,
    {
        let ghost input = entry_models(docs@);
        proof {
            lemma_entry_models(docs@);
        }
        let n = docs.len();
        let mut files: Vec<(String, Konf)> = Vec::new();
        let mut i: usize = 0;
        while i < n
            invariant
                0 <= i <= n,
                n == docs@.len(),
                input == entry_models(docs@),
                input.len() == n,
                forall|m: int| 0 <= m < n ==> input[m] == (docs@[m].0@, val_model(docs@[m].1)),
                docs_of(files@) == docs_table(input.take(i as int)),
                forall|m: int|
                    0 <= m < files@.len() ==> (#[trigger] files@[m]).1.rendered is None,
            decreases n - i,
        {
            let ghost cur = docs_of(files@);
            proof {
                lemma_find_doc(cur, input[i as int].0);
            }
            let key = docs[i].0.clone();
            let value = docs[i].1.clone();
            // Replace an earlier document under the same key, if any.
            let m = files.len();
            let mut j: usize = 0;
            let mut dup: bool = false;
            while j < m && !dup
                invariant
                    0 <= j <= m,
                    m == files@.len(),
                    cur == docs_of(files@),
                    cur.len() == m,
                    key@ == input[i as int].0,
                    i < n,
                    input.len() == n,
                    forall|q: int| 0 <= q < m ==> cur[q] == (files@[q].0@, val_model(
                        files@[q].1.raw,
                    )),
                    !dup ==> forall|q: int| 0 <= q < j ==> cur[q].0 != key@,
                    dup ==> j < m && cur[j as int].0 == key@ && (forall|q: int|
                        0 <= q < j ==> cur[q].0 != key@),
                decreases m - j, (if dup { 0int } else { 1int }),
            {
                if str_eq(files[j].0.as_str(), key.as_str()) {
                    dup = true;
                } else {
                    j += 1;
                }
            }
            if dup {
                proof {
                    lemma_find_doc(cur, input[i as int].0);
                    assert(find_doc(cur, input[i as int].0) == j as int);
                }
                let removed = files.remove(j);
                files.push((key, Konf::new(value)));
                proof {
                    assert(docs_of(files@) =~= upsert_doc(cur, input[i as int]));
                }
            } else {
                proof {
                    lemma_find_doc(cur, input[i as int].0);
                    assert(find_doc(cur, input[i as int].0) == -1);
                }
                files.push((key, Konf::new(value)));
                proof {
                    assert(docs_of(files@) =~= upsert_doc(cur, input[i as int]));
                }
            }
            proof {
                assert(input.take(i + 1).drop_last() =~= input.take(i as int));
                assert(input.take(i + 1).last() == input[i as int]);
            }
            i += 1;
        }
        proof {
            assert(input.take(n as int) =~= input);
        }
        self.files = files;
    }

    /// Reloads all documents from the provider: every listed entry whose
    /// text loads and parses enters the new snapshot under its key, the
    /// last listing winning a key collision; unloadable or unparseable
    /// entries are passed over.  The new snapshot replaces the old one
    /// whole, with every render cell empty.
    pub fn reload(&mut self) -> (r: Result<(), LoaderError>)
        ensures
            r is Ok,
            forall|i: int|
                0 <= i < final(self).files@.len()
                    ==> (#[trigger] final(self).files@[i]).1.rendered is None,
            exists|input: Seq<(Seq<char>, ValModel)>|
                final(self).docs_model() == docs_table(input),
    {
        let entries = self.file_provider.list();
        let mut parsed: Vec<(String, Value)> = Vec::new();
        let n = entries.len();
        let mut i: usize = 0;
        while i < n
            invariant
                0 <= i <= n,
                n == entries@.len(),
            decreases n - i,
        {
            match self.file_provider.load(entries[i].full_path.as_str()) {
                Some(content) => {
                    match self.multiloader.load(entries[i].ext.as_str(), content.as_str()) {
                        Ok(value) => {
                            let key = entries[i].filename.clone();
                            parsed.push((key, value));
                        },
                        Err(_) => {},
                    }
                },
                None => {},
            }
            i += 1;
        }
        self.reload_from_values(parsed);
        Ok(())
    }
}

} // verus!
