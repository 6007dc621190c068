//! The stated laws of the library, proved once and for all: what the
//! resolver does to already-resolved values, how rendering relates to the
//! import closure, and how an exact-match placeholder keeps its target's
//! type.  Determinism of `get_rendered` and the whole-snapshot shape of
//! `reload` are the contracts of those functions themselves.

use crate::imports::ImportTuple;
use crate::render::{spec_render_at, spec_render_deps, RenderErr};
use crate::render_helper::{
    apply_calls, interp, is_exact_placeholder, lookup_path, next_placeholder, resolve_content,
    resolve_entries, resolve_seq, resolve_string, resolve_value,
};
use crate::strutil::{find_char, lemma_find_char, split_on};
use crate::functions::string::trim_chars;
use crate::{obj_get, ValModel};
use vstd::prelude::*;

verus! {

// ---------------------------------------------------------------------------
// Idempotence: substitution output is a fixed point wherever it holds no
// placeholder.
// ---------------------------------------------------------------------------
/// Whether a string holds no placeholder.
pub open spec fn placeholder_free_str(s: Seq<char>) -> bool {
    next_placeholder(s, 0) is None
}

/// Whether a value holds no placeholder in any string leaf.
pub open spec fn placeholder_free(m: ValModel) -> bool
    decreases m,
{
    match m {
        ValModel::Str(s) => placeholder_free_str(s),
        ValModel::Arr(items) => placeholder_free_seq(items),
        ValModel::Obj(es) => placeholder_free_entries(es),
        _ => true,
    }
}

/// `placeholder_free` over a sequence's items.
pub open spec fn placeholder_free_seq(items: Seq<ValModel>) -> bool
    decreases items,
{
    if items.len() == 0 {
        true
    } else {
        placeholder_free(items[0]) && placeholder_free_seq(items.skip(1))
    }
}

/// `placeholder_free` over a mapping's entries.
pub open spec fn placeholder_free_entries(es: Seq<(Seq<char>, ValModel)>) -> bool
    decreases es,
{
    if es.len() == 0 {
        true
    } else {
        placeholder_free(es[0].1) && placeholder_free_entries(es.skip(1))
    }
}

/// A string without placeholders resolves to itself.
proof fn lemma_resolve_string_free(s: Seq<char>, deps: Seq<(Seq<char>, ValModel)>)
    requires
        placeholder_free_str(s),
    ensures
        resolve_string(s, deps) == ValModel::Str(s),
{
    if is_exact_placeholder(s) {
        // An exact placeholder is itself the first placeholder of the string.
        lemma_find_char(s.skip(2), '}');
        assert(next_placeholder(s, 0) is Some);
    }
    assert(interp(s, 0, deps) == s.subrange(0, s.len() as int));
    assert(s.subrange(0, s.len() as int) =~= s);
}

/// The resolver is a no-op on a value without placeholders.
///
/// This is the idempotence law: substitution output that holds no
/// placeholder is a fixed point of the resolver, whatever the dependency
/// map.  (A resolved document can still hold a placeholder, where a lookup
/// missed and the text was deliberately left in place; on such a value a
/// second pass is not a no-op in general.)
pub proof fn lemma_resolve_placeholder_free(m: ValModel, deps: Seq<(Seq<char>, ValModel)>)
    requires
        placeholder_free(m),
    ensures
        resolve_value(m, deps) == m,
    decreases m,
{
    match m {
        ValModel::Str(s) => {
            lemma_resolve_string_free(s, deps);
        },
        ValModel::Arr(items) => {
            lemma_resolve_seq_free(items, deps);
        },
        ValModel::Obj(es) => {
            lemma_resolve_entries_free(es, deps);
        },
        _ => {},
    }
}

proof fn lemma_resolve_seq_free(items: Seq<ValModel>, deps: Seq<(Seq<char>, ValModel)>)
    requires
        placeholder_free_seq(items),
    ensures
        resolve_seq(items, deps) == items,
    decreases items,
{
    if items.len() == 0 {
        assert(resolve_seq(items, deps) =~= items);
    } else {
        lemma_resolve_placeholder_free(items[0], deps);
        lemma_resolve_seq_free(items.skip(1), deps);
        assert(resolve_seq(items, deps) =~= items);
    }
}

proof fn lemma_resolve_entries_free(es: Seq<(Seq<char>, ValModel)>, deps: Seq<(Seq<char>, ValModel)>)
    requires
        placeholder_free_entries(es),
    ensures
        resolve_entries(es, deps) == es,
    decreases es,
{
    if es.len() == 0 {
        assert(resolve_entries(es, deps) =~= es);
    } else {
        lemma_resolve_placeholder_free(es[0].1, deps);
        lemma_resolve_entries_free(es.skip(1), deps);
        assert(resolve_entries(es, deps) =~= es);
    }
}

/// Resolving twice is resolving once, wherever the first pass leaves no
/// placeholder behind.
pub proof fn lemma_resolver_idempotent(m: ValModel, deps: Seq<(Seq<char>, ValModel)>)
    requires
        placeholder_free(resolve_value(m, deps)),
    ensures
        resolve_value(resolve_value(m, deps), deps) == resolve_value(m, deps),
{
    lemma_resolve_placeholder_free(resolve_value(m, deps), deps);
}

// ---------------------------------------------------------------------------
// Type preservation under exact match.
// ---------------------------------------------------------------------------
/// An exact-match placeholder without a pipeline resolves to the looked-up
/// value itself: the result is the target, variant and all.
pub proof fn lemma_exact_match_preserves_type(s: Seq<char>, deps: Seq<(Seq<char>, ValModel)>)
    requires
        is_exact_placeholder(s),
        find_char(s.subrange(2, s.len() - 1), '|') == -1,
        lookup_path(deps, trim_chars(s.subrange(2, s.len() - 1))) is Some,
    ensures
        resolve_string(s, deps) == lookup_path(
            deps,
            trim_chars(s.subrange(2, s.len() - 1)),
        ).unwrap(),
{
    let content = s.subrange(2, s.len() - 1);
    let parts = split_on(content, '|');
    assert(parts == seq![content]);
    assert(parts[0] == content);
    assert(parts.skip(1) =~= Seq::<Seq<char>>::empty());
    let v = lookup_path(deps, trim_chars(content)).unwrap();
    assert(apply_calls(v, parts.skip(1)) == Some(v));
    assert(resolve_content(content, deps) == Some(v));
}

// ---------------------------------------------------------------------------
// Dependency closure.
// ---------------------------------------------------------------------------
/// The key an import declaration points at: its resolved path, or the
/// written path where none was resolved.
pub open spec fn import_target(t: ImportTuple) -> Seq<char> {
    match t.2 {
        Some(p) => p,
        None => t.0,
    }
}

/// The dependency map succeeds exactly when every import from `i` on
/// renders.
pub proof fn lemma_render_deps_ok(
    docs: Seq<(Seq<char>, ValModel)>,
    visiting: Seq<Seq<char>>,
    fuel: nat,
    imps: Seq<ImportTuple>,
    i: int,
)
    requires
        0 <= i <= imps.len(),
    ensures
        spec_render_deps(docs, visiting, fuel, imps, i) is Ok <==> (forall|j: int|
            i <= j < imps.len() ==> spec_render_at(
                docs,
                visiting,
                fuel,
                import_target(#[trigger] imps[j]),
            ) is Ok),
    decreases imps.len() - i,
{
    if i < imps.len() {
        lemma_render_deps_ok(docs, visiting, fuel, imps, i + 1);
    }
}

/// Dependency closure, one step at a time: a document renders exactly when
/// it is present and, with the document on the rendering path, every one of
/// its imports renders.  Unfolded transitively this is the closure law: a
/// key renders exactly when every transitively imported key is present and
/// no import path returns to a key it passed through.
pub proof fn lemma_dependency_closure(
    docs: Seq<(Seq<char>, ValModel)>,
    visiting: Seq<Seq<char>>,
    fuel: nat,
    key: Seq<char>,
)
    requires
        !visiting.contains(key),
        fuel > 0,
    ensures
        spec_render_at(docs, visiting, fuel, key) is Ok <==> (obj_get(docs, key) is Some && (
        forall|j: int|
            0 <= j < crate::imports::imports_table(
                crate::imports::imports_of(obj_get(docs, key).unwrap(), key),
            ).len() ==> spec_render_at(
                docs,
                visiting.push(key),
                (fuel - 1) as nat,
                import_target(
                    #[trigger] crate::imports::imports_table(
                        crate::imports::imports_of(obj_get(docs, key).unwrap(), key),
                    )[j],
                ),
            ) is Ok)),
{
    match obj_get(docs, key) {
        None => {},
        Some(raw) => {
            let imps = crate::imports::imports_table(crate::imports::imports_of(raw, key));
            lemma_render_deps_ok(docs, visiting.push(key), (fuel - 1) as nat, imps, 0);
        },
    }
}

/// Dependency closure at the top of a render: a key renders against a
/// snapshot exactly when it is present and every one of its imports renders
/// with the key on the path.
pub proof fn lemma_dependency_closure_top(docs: Seq<(Seq<char>, ValModel)>, key: Seq<char>)
    ensures
        crate::render::spec_render(docs, key) is Ok <==> (obj_get(docs, key) is Some && (
        forall|j: int|
            0 <= j < crate::imports::imports_table(
                crate::imports::imports_of(obj_get(docs, key).unwrap(), key),
            ).len() ==> spec_render_at(
                docs,
                Seq::empty().push(key),
                (docs.len() - 1) as nat,
                import_target(
                    #[trigger] crate::imports::imports_table(
                        crate::imports::imports_of(obj_get(docs, key).unwrap(), key),
                    )[j],
                ),
            ) is Ok)),
{
    let empty = Seq::<Seq<char>>::empty();
    assert(!empty.contains(key));
    if docs.len() == 0 {
        assert(obj_get(docs, key) is None);
    } else {
        lemma_dependency_closure(docs, empty, docs.len(), key);
    }
}

/// The transitive dependency closure of `key`, walked like a render: the
/// key is not already on the path, it is present in the snapshot, and every
/// one of its imports satisfies the same, with the key pushed onto the
/// path.  A repeated key on a path — a cycle — fails the path check; the
/// depth bound mirrors the render's and never decides (see
/// `lemma_fuel_not_exhausted`).
pub open spec fn spec_renderable(
    docs: Seq<(Seq<char>, ValModel)>,
    visiting: Seq<Seq<char>>,
    fuel: nat,
    key: Seq<char>,
) -> bool
    decreases fuel,
{
    &&& !visiting.contains(key)
    &&& obj_get(docs, key) is Some
    &&& fuel > 0
    &&& (forall|j: int|
        0 <= j < doc_imports(docs, key).len() ==> spec_renderable(
            docs,
            visiting.push(key),
            (fuel - 1) as nat,
            import_target(#[trigger] doc_imports(docs, key)[j]),
        ))
}

/// The import table of the document under `key` in the snapshot.
pub open spec fn doc_imports(docs: Seq<(Seq<char>, ValModel)>, key: Seq<char>) -> Seq<
    ImportTuple,
> {
    crate::imports::imports_table(
        crate::imports::imports_of(obj_get(docs, key).unwrap(), key),
    )
}

/// The dependency-closure law, in one statement: a key renders against a
/// snapshot exactly when it is in the snapshot, every transitively imported
/// key is, and no import path returns to a key it passed through.
pub proof fn lemma_render_defined(docs: Seq<(Seq<char>, ValModel)>, key: Seq<char>)
    ensures
        crate::render::spec_render(docs, key) is Ok <==> spec_renderable(
            docs,
            Seq::empty(),
            docs.len(),
            key,
        ),
{
    lemma_renderable(docs, Seq::empty(), docs.len(), key);
}

/// `spec_renderable` and the render function agree at every path and depth.
pub proof fn lemma_renderable(
    docs: Seq<(Seq<char>, ValModel)>,
    visiting: Seq<Seq<char>>,
    fuel: nat,
    key: Seq<char>,
)
    ensures
        spec_render_at(docs, visiting, fuel, key) is Ok <==> spec_renderable(
            docs,
            visiting,
            fuel,
            key,
        ),
    decreases fuel,
{
    if !visiting.contains(key) {
        match obj_get(docs, key) {
            None => {},
            Some(raw) => {
                if fuel > 0 {
                    let imps = doc_imports(docs, key);
                    let vis2 = visiting.push(key);
                    let f2 = (fuel - 1) as nat;
                    lemma_render_deps_ok(docs, vis2, f2, imps, 0);
                    assert forall|j: int| 0 <= j < imps.len() implies (spec_render_at(
                        docs,
                        vis2,
                        f2,
                        import_target(#[trigger] imps[j]),
                    ) is Ok <==> spec_renderable(docs, vis2, f2, import_target(imps[j]))) by {
                        lemma_renderable(docs, vis2, f2, import_target(imps[j]));
                    }
                }
            },
        }
    }
}

/// The keys of a snapshot, in order.
pub open spec fn doc_keys(docs: Seq<(Seq<char>, ValModel)>) -> Seq<Seq<char>> {
    Seq::new(docs.len(), |i: int| docs[i].0)
}

/// A found key is among the snapshot's keys.
pub proof fn lemma_obj_get_in_keys(docs: Seq<(Seq<char>, ValModel)>, key: Seq<char>)
    requires
        obj_get(docs, key) is Some,
    ensures
        doc_keys(docs).contains(key),
    decreases docs.len(),
{
    if docs.len() > 0 {
        if docs[0].0 == key {
            assert(doc_keys(docs)[0] == key);
        } else {
            lemma_obj_get_in_keys(docs.skip(1), key);
            let w = choose|w: int|
                0 <= w < docs.skip(1).len() && doc_keys(docs.skip(1))[w] == key;
            assert(docs.skip(1)[w] == docs[w + 1]);
            assert(doc_keys(docs)[w + 1] == key);
        }
    }
}

/// The depth bound of `spec_render` never decides a render: the keys on a
/// rendering path are pairwise distinct and each present in the snapshot,
/// so a path is always shorter than the snapshot, and with the fuel set to
/// the snapshot size the path check fires before the fuel runs out.
pub proof fn lemma_fuel_not_exhausted(
    docs: Seq<(Seq<char>, ValModel)>,
    visiting: Seq<Seq<char>>,
    key: Seq<char>,
)
    requires
        visiting.no_duplicates(),
        forall|i: int| 0 <= i < visiting.len() ==> doc_keys(docs).contains(#[trigger] visiting[i]),
        !visiting.contains(key),
        obj_get(docs, key) is Some,
    ensures
        visiting.len() < docs.len(),
{
    broadcast use vstd::seq_lib::group_seq_lib_default;

    let path = visiting.push(key);
    let keys = doc_keys(docs);
    lemma_obj_get_in_keys(docs, key);
    assert(path.no_duplicates()) by {
        assert forall|i: int, j: int| 0 <= i < j < path.len() implies path[i] != path[j] by {
            if j == path.len() - 1 {
                assert(path[j] == key);
                if path[i] == key {
                    assert(visiting[i] == key);
                    assert(visiting.contains(key));
                }
            } else {
                assert(path[i] == visiting[i] && path[j] == visiting[j]);
            }
        }
    }
    path.unique_seq_to_set();
    keys.lemma_cardinality_of_set();
    assert(path.to_set().subset_of(keys.to_set())) by {
        assert forall|x: Seq<char>| path.to_set().contains(x) implies keys.to_set().contains(
            x,
        ) by {
            assert(path.contains(x));
            let w = choose|w: int| 0 <= w < path.len() && path[w] == x;
            if w < path.len() - 1 {
                assert(visiting[w] == x);
                assert(keys.contains(x));
            } else {
                assert(x == key);
            }
        }
    }
    vstd::set_lib::lemma_len_subset(path.to_set(), keys.to_set());
    assert(path.len() <= keys.len());
}

/// A rendered document and a missing one are told apart by the snapshot
/// alone: on a fixed snapshot, rendering is a function of the key.  This is
/// determinism restated as mathematics; `Dag::get_rendered`'s contract ties
/// each call to this function.
pub proof fn lemma_render_deterministic(
    docs: Seq<(Seq<char>, ValModel)>,
    key: Seq<char>,
    r1: Result<ValModel, RenderErr>,
    r2: Result<ValModel, RenderErr>,
)
    requires
        r1 == crate::render::spec_render(docs, key),
        r2 == crate::render::spec_render(docs, key),
    ensures
        r1 == r2,
{
}

} // verus!
