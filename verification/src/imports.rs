//! Import declarations of the `<!>` metadata section.
//!
//! An import is written `path: alias` under `<!>.import`.  A missing, empty
//! or non-string alias means the path itself is the alias.  A path beginning
//! with `./` or `../` is resolved against the directory of the importing
//! document's key; any other path is taken as written.

use crate::strutil::{
    char_views, chars_start_with, chars_to_string, has_prefix, join_with, lemma_join_push,
    lemma_rfind_char, rfind_char, split_on, str_eq, str_to_chars, string_views, vec_rfind_char,
    vec_split_on, vec_subrange,
};
use crate::utils::metadata_key;
use crate::utils::metadata_key_chars;
use crate::{lemma_entry_models, obj_get, val_model, ValModel, Value};
use vstd::prelude::*;

verus! {

/// The model of one import declaration: path as written, alias, and the
/// resolved path where the document's key was known.
pub type ImportTuple = (Seq<char>, Seq<char>, Option<Seq<char>>);

/// Whether an import path is relative: it begins with `./` or `../`.
pub open spec fn is_relative_path(p: Seq<char>) -> bool {
    has_prefix(p, seq!['.', '/']) || has_prefix(p, seq!['.', '.', '/'])
}

/// The path components of the directory holding `doc_key`: everything up to
/// the last `/`, split on `/`; empty when the key has no directory part.
pub open spec fn parent_components(doc_key: Seq<char>) -> Seq<Seq<char>> {
    let i = rfind_char(doc_key, '/');
    if i < 0 {
        Seq::empty()
    } else {
        let dir = doc_key.subrange(0, i);
        if dir.len() == 0 {
            Seq::empty()
        } else {
            split_on(dir, '/')
        }
    }
}

/// One path-segment step: `..` pops, `.` and the empty segment do nothing,
/// anything else is pushed.
pub open spec fn apply_step(stack: Seq<Seq<char>>, part: Seq<char>) -> Seq<Seq<char>> {
    if part == seq!['.', '.'] {
        if stack.len() > 0 {
            stack.drop_last()
        } else {
            stack
        }
    } else if part == seq!['.'] || part.len() == 0 {
        stack
    } else {
        stack.push(part)
    }
}

/// All steps of a segment list applied in order.
pub open spec fn apply_parts(stack: Seq<Seq<char>>, parts: Seq<Seq<char>>) -> Seq<Seq<char>>
    decreases parts.len(),
{
    if parts.len() == 0 {
        stack
    } else {
        apply_parts(apply_step(stack, parts[0]), parts.skip(1))
    }
}

/// What `resolve_relative_path` returns: a non-relative path verbatim; a
/// relative one resolved segment by segment against the document's directory.
pub open spec fn spec_resolve_relative(doc_key: Seq<char>, p: Seq<char>) -> Seq<char> {
    if !is_relative_path(p) {
        p
    } else {
        join_with(apply_parts(parent_components(doc_key), split_on(p, '/')), '/')
    }
}

/// Resolves an import path against the directory of `doc_key`.
///
/// A path that does not begin with `./` or `../` is returned as written.
/// Otherwise the document's directory is split into segments and the path is
/// applied to it: `..` pops a segment (doing nothing at the root), `.` and
/// empty segments are skipped, and every other segment is appended; the
/// segments are joined back with `/`.
pub fn resolve_relative_path(doc_key: &str, import_path: &str) -> (r: String)
    ensures
        r@ == spec_resolve_relative(doc_key@, import_path@),
{
    let p = str_to_chars(import_path);
    let dot_slash: Vec<char> = vec!['.', '/'];
    let dotdot_slash: Vec<char> = vec!['.', '.', '/'];
    let rel1 = chars_start_with(&p, &dot_slash);
    let rel2 = chars_start_with(&p, &dotdot_slash);
    if !rel1 && !rel2 {
        let r = import_path.to_owned();
        return r;
    }
    let dk = str_to_chars(doc_key);
    proof {
        lemma_rfind_char(dk@, '/');
    }
    let mut stack: Vec<Vec<char>> = match vec_rfind_char(&dk, '/') {
        None => Vec::new(),
        Some(pos) => {
            let dir = vec_subrange(&dk, 0, pos);
            if dir.len() == 0 {
                Vec::new()
            } else {
                vec_split_on(&dir, '/')
            }
        },
    };
    proof {
        assert(char_views(stack@) =~= parent_components(doc_key@));
    }
    let parts = vec_split_on(&p, '/');
    let ghost parts_v = char_views(parts@);
    let ghost stack0 = char_views(stack@);
    proof {
        assert(parts_v.skip(0) =~= parts_v);
    }
    let n = parts.len();
    let mut i: usize = 0;
    while i < n
        invariant
            0 <= i <= n,
            n == parts@.len(),
            parts_v == char_views(parts@),
            parts_v.len() == n,
            apply_parts(stack0, parts_v) == apply_parts(char_views(stack@), parts_v.skip(i as int)),
        decreases n - i,
    {
        let ghost cur = char_views(stack@);
        let part = &parts[i];
        proof {
            assert(parts_v.skip(i as int)[0] == parts_v[i as int]);
            assert(parts_v[i as int] == part@);
            assert(parts_v.skip(i as int).skip(1) =~= parts_v.skip(i + 1));
            assert(apply_parts(cur, parts_v.skip(i as int)) == apply_parts(
                apply_step(cur, part@),
                parts_v.skip(i + 1),
            ));
        }
        if part.len() == 2 && part[0] == '.' && part[1] == '.' {
            proof {
                assert(part@ =~= seq!['.', '.']);
            }
            let popped = stack.pop();
            proof {
                if cur.len() > 0 {
                    assert(char_views(stack@) =~= cur.drop_last());
                } else {
                    assert(char_views(stack@) =~= cur);
                }
                assert(char_views(stack@) =~= apply_step(cur, part@));
            }
        } else if part.len() == 0 || (part.len() == 1 && part[0] == '.') {
            proof {
                if part@.len() == 0 {
                    assert(part@ != seq!['.', '.']);
                } else {
                    assert(part@ =~= seq!['.']);
                }
                assert(char_views(stack@) =~= apply_step(cur, part@));
            }
        } else {
            proof {
                assert(part@ != seq!['.', '.'] && part@ != seq!['.']) by {
                    if part@.len() == 2 {
                        assert(!(part@[0] == '.' && part@[1] == '.'));
                    }
                }
            }
            let seg = vec_subrange(part, 0, part.len());
            proof {
                assert(seg@ =~= part@);
            }
            stack.push(seg);
            proof {
                assert(char_views(stack@) =~= cur.push(part@));
                assert(char_views(stack@) =~= apply_step(cur, part@));
            }
        }
        i += 1;
    }
    proof {
        assert(parts_v.skip(n as int) =~= Seq::<Seq<char>>::empty());
        assert(apply_parts(char_views(stack@), parts_v.skip(n as int)) == char_views(stack@));
    }
    // Join the resolved segments with `/`.
    let ghost resolved = char_views(stack@);
    let m = stack.len();
    let mut out: Vec<char> = Vec::new();
    let mut j: usize = 0;
    while j < m
        invariant
            0 <= j <= m,
            m == stack@.len(),
            resolved == char_views(stack@),
            resolved.len() == m,
            out@ == join_with(resolved.take(j as int), '/'),
        decreases m - j,
    {
        proof {
            lemma_join_push(resolved.take(j as int), '/', resolved[j as int]);
            assert(resolved.take(j + 1) =~= resolved.take(j as int).push(resolved[j as int]));
        }
        if j > 0 {
            out.push('/');
        }
        let mut seg = vec_subrange(&stack[j], 0, stack[j].len());
        proof {
            assert(seg@ =~= resolved[j as int]);
        }
        out.append(&mut seg);
        proof {
            assert(out@ =~= join_with(resolved.take(j + 1), '/'));
        }
        j += 1;
    }
    proof {
        assert(resolved.take(m as int) =~= resolved);
    }
    chars_to_string(&out)
}

/// The characters of the `import` key of the metadata section.
pub open spec fn import_key_chars() -> Seq<char> {
    seq!['i', 'm', 'p', 'o', 'r', 't']
}

/// The literal `import` key.
pub fn import_key() -> (r: &'static str)
    ensures
        r@ == import_key_chars(),
{
    proof {
        reveal_strlit("import");
        assert("import"@ =~= import_key_chars());
    }
    "import"
}

/// The alias of one import entry: the written alias where it is a non-empty
/// string, otherwise the path as written.
pub open spec fn alias_of(path: Seq<char>, alias_value: ValModel) -> Seq<char> {
    match alias_value {
        ValModel::Str(s) => if s.len() > 0 {
            s
        } else {
            path
        },
        _ => path,
    }
}

/// The model of one entry of the `<!>.import` mapping, resolved against `doc_key`.
pub open spec fn import_of(entry: (Seq<char>, ValModel), doc_key: Seq<char>) -> ImportTuple {
    (entry.0, alias_of(entry.0, entry.1), Some(spec_resolve_relative(doc_key, entry.0)))
}

/// The import declarations of a document, in written order, before alias
/// deduplication; empty where the document has no `<!>.import` mapping.
pub open spec fn imports_of(doc: ValModel, doc_key: Seq<char>) -> Seq<ImportTuple> {
    match doc {
        ValModel::Obj(es) => match obj_get(es, metadata_key_chars()) {
            Some(meta) => match meta {
                ValModel::Obj(ms) => match obj_get(ms, import_key_chars()) {
                    Some(imp) => match imp {
                        ValModel::Obj(ies) => Seq::new(
                            ies.len(),
                            |i: int| import_of(ies[i], doc_key),
                        ),
                        _ => Seq::empty(),
                    },
                    _ => Seq::empty(),
                },
                _ => Seq::empty(),
            },
            _ => Seq::empty(),
        },
        _ => Seq::empty(),
    }
}

/// The first index whose alias is `a`, or `-1`.
pub open spec fn find_alias(s: Seq<ImportTuple>, a: Seq<char>) -> int
    decreases s.len(),
{
    if s.len() == 0 {
        -1
    } else if s[0].1 == a {
        0
    } else {
        if find_alias(s.skip(1), a) < 0 {
            -1
        } else {
            find_alias(s.skip(1), a) + 1
        }
    }
}

/// `find_alias` names the first entry with that alias.
pub proof fn lemma_find_alias(s: Seq<ImportTuple>, a: Seq<char>)
    ensures
        -1 <= find_alias(s, a) < s.len(),
        find_alias(s, a) >= 0 ==> s[find_alias(s, a)].1 == a,
        forall|j: int| 0 <= j < find_alias(s, a) ==> s[j].1 != a,
        find_alias(s, a) == -1 ==> forall|j: int| 0 <= j < s.len() ==> s[j].1 != a,
    decreases s.len(),
{
    if s.len() > 0 && s[0].1 != a {
        lemma_find_alias(s.skip(1), a);
        let t = s.skip(1);
        assert(forall|j: int| 0 <= j < t.len() ==> t[j] == s[j + 1]);
        if find_alias(t, a) >= 0 {
            assert forall|j: int| 0 <= j < find_alias(s, a) implies s[j].1 != a by {
                if j > 0 {
                    assert(t[j - 1].1 != a);
                }
            }
        } else {
            assert forall|j: int| 0 <= j < s.len() implies s[j].1 != a by {
                if j > 0 {
                    assert(t[j - 1].1 != a);
                }
            }
        }
    }
}

/// Adds one declaration: an entry with the same alias is replaced, and the
/// winning declaration moves to the end.
pub open spec fn upsert(acc: Seq<ImportTuple>, x: ImportTuple) -> Seq<ImportTuple> {
    let i = find_alias(acc, x.1);
    if i < 0 {
        acc.push(x)
    } else {
        acc.remove(i).push(x)
    }
}

/// The import table of a list of declarations: each processed in order, a
/// later alias collision replacing the earlier entry (last wins).
pub open spec fn imports_table(s: Seq<ImportTuple>) -> Seq<ImportTuple>
    decreases s.len(),
{
    if s.len() == 0 {
        Seq::empty()
    } else {
        upsert(imports_table(s.drop_last()), s.last())
    }
}

/// Aliases are pairwise distinct in an import table.
pub proof fn lemma_imports_table_unique(s: Seq<ImportTuple>)
    ensures
        forall|i: int, j: int|
            0 <= i < j < imports_table(s).len() ==> imports_table(s)[i].1 != imports_table(s)[j].1,
    decreases s.len(),
{
    if s.len() > 0 {
        lemma_imports_table_unique(s.drop_last());
        let acc = imports_table(s.drop_last());
        let x = s.last();
        lemma_find_alias(acc, x.1);
        let t = imports_table(s);
        let k = find_alias(acc, x.1);
        if k < 0 {
            assert forall|i: int, j: int| 0 <= i < j < t.len() implies t[i].1 != t[j].1 by {
                if j < t.len() - 1 {
                    assert(t[i] == acc[i] && t[j] == acc[j]);
                } else {
                    assert(t[i] == acc[i]);
                    assert(acc[i].1 != x.1);
                }
            }
        } else {
            let rem = acc.remove(k);
            assert forall|i: int, j: int| 0 <= i < j < t.len() implies t[i].1 != t[j].1 by {
                assert(forall|m: int| 0 <= m < rem.len() ==> rem[m] == (if m < k {
                    acc[m]
                } else {
                    acc[m + 1]
                }));
                if j < t.len() - 1 {
                    assert(t[i] == rem[i] && t[j] == rem[j]);
                } else {
                    assert(t[i] == rem[i]);
                    assert(rem[i].1 != x.1);
                }
            }
        }
    }
}

/// Information about one import declaration.
#[derive(Debug, PartialEq)]
pub struct ImportInfo {
    /// The path as written in the document (possibly relative).
    pub path: String,
    /// The alias under which the import is visible in templates.
    pub alias: String,
    /// The path after resolving `./` and `../` against the document's key,
    /// where that key was known.
    pub resolved_path: Option<String>,
}

/// The model of an `ImportInfo`.
pub open spec fn import_view(i: ImportInfo) -> ImportTuple {
    (
        i.path@,
        i.alias@,
        match i.resolved_path {
            Some(s) => Some(s@),
            None => None,
        },
    )
}

/// The models of a list of `ImportInfo`s.
pub open spec fn import_views(s: Seq<ImportInfo>) -> Seq<ImportTuple> {
    Seq::new(s.len(), |i: int| import_view(s[i]))
}

impl Clone for ImportInfo {
    /// A copy with the same model.
    fn clone(&self) -> (r: ImportInfo)
        ensures
            import_view(r) == import_view(*self),
    {
        ImportInfo {
            path: self.path.clone(),
            alias: self.alias.clone(),
            resolved_path: match &self.resolved_path {
                Some(s) => Some(s.clone()),
                None => None,
            },
        }
    }
}

/// The import declarations of one document, keyed by alias: at most one
/// entry per alias, in declaration order, a later collision winning.
#[derive(Debug)]
pub struct ImportMap {
    pub entries: Vec<ImportInfo>,
}

impl View for ImportMap {
    type V = Seq<ImportTuple>;

    open spec fn view(&self) -> Seq<ImportTuple> {
        import_views(self.entries@)
    }
}

impl ImportMap {
    /// The declaration under `alias`, if any.
    pub fn get(&self, alias: &str) -> (r: Option<&ImportInfo>)
        ensures
            r matches Some(info) ==> find_alias(self@, alias@) >= 0 && import_view(*info)
                == self@[find_alias(self@, alias@)],
            r is None ==> find_alias(self@, alias@) == -1,
    {
        proof {
            lemma_find_alias(self@, alias@);
        }
        let n = self.entries.len();
        let mut i: usize = 0;
        while i < n
            invariant
                0 <= i <= n,
                n == self.entries@.len(),
                self@.len() == n,
                forall|k: int| 0 <= k < n ==> self@[k] == import_view(self.entries@[k]),
                forall|j: int| 0 <= j < i ==> self@[j].1 != alias@,
            decreases n - i,
        {
            if str_eq(self.entries[i].alias.as_str(), alias) {
                proof {
                    lemma_find_alias(self@, alias@);
                    let f = find_alias(self@, alias@);
                    assert(self@[i as int] == import_view(self.entries@[i as int]));
                    assert(self@[i as int].1 == alias@);
                    if f < i as int {
                        if f >= 0 {
                            assert(self@[f].1 != alias@);
                        }
                        assert(false);
                    }
                    if f > i as int {
                        assert(self@[i as int].1 != alias@);
                        assert(false);
                    }
                }
                return Some(&self.entries[i]);
            }
            i += 1;
        }
        proof {
            lemma_find_alias(self@, alias@);
        }
        None
    }

    /// How many imports the document declares.
    pub fn len(&self) -> (r: usize)
        ensures
            r == self@.len(),
    {
        self.entries.len()
    }

    /// Whether the document declares no import.
    pub fn is_empty(&self) -> (r: bool)
        ensures
            r == (self@.len() == 0),
    {
        self.entries.len() == 0
    }
}

/// Parses the `<!>.import` mapping of a document.
///
/// Each entry `path: alias` becomes one declaration; a missing, empty or
/// non-string alias falls back to the path itself, and relative paths are
/// resolved against the directory of `doc_key`.  On an alias collision the
/// last declaration wins.
pub fn parse_imports(value: &Value, doc_key: &str) -> (r: ImportMap)
    ensures
        r@ == imports_table(imports_of(value@, doc_key@)),
{
    let mut out = ImportMap { entries: Vec::new() };
    let ghost decls = imports_of(value@, doc_key@);
    let meta = match value.get(metadata_key()) {
        Some(m) => m,
        None => {
            proof {
                assert(out@ =~= imports_table(decls));
            }
            return out;
        },
    };
    let import_val = match meta.get(import_key()) {
        Some(v) => v,
        None => {
            proof {
                assert(out@ =~= imports_table(decls));
            }
            return out;
        },
    };
    let entries = match import_val.as_mapping() {
        Some(es) => es,
        None => {
            proof {
                assert(out@ =~= imports_table(decls));
            }
            return out;
        },
    };
    proof {
        lemma_entry_models(entries@);
        assert(decls =~= Seq::new(
            entries@.len(),
            |i: int| import_of((entries@[i].0@, val_model(entries@[i].1)), doc_key@),
        ));
    }
    let n = entries.len();
    let mut i: usize = 0;
    while i < n
        invariant
            0 <= i <= n,
            n == entries@.len(),
            decls.len() == n,
            forall|k: int| 0 <= k < n ==> decls[k] == import_of(
                (entries@[k].0@, val_model(entries@[k].1)),
                doc_key@,
            ),
            out@ == imports_table(decls.take(i as int)),
        decreases n - i,
    {
        let path: &String = &entries[i].0;
        let alias: String = match entries[i].1.as_str() {
            Some(s) => {
                if s.as_str().is_empty() {
                    path.clone()
                } else {
                    s.clone()
                }
            },
            None => path.clone(),
        };
        let resolved = resolve_relative_path(doc_key, path.as_str());
        let info = ImportInfo { path: path.clone(), alias, resolved_path: Some(resolved) };
        proof {
            assert(import_view(info) == decls[i as int]);
        }
        // Replace an earlier entry with the same alias, if any.
        let ghost cur = out@;
        proof {
            lemma_find_alias(cur, info.alias@);
        }
        let m = out.entries.len();
        let mut j: usize = 0;
        let mut found: bool = false;
        while j < m && !found
            invariant
                0 <= j <= m,
                m == out.entries@.len(),
                cur == out@,
                cur.len() == m,
                forall|k: int| 0 <= k < cur.len() ==> cur[k] == import_view(out.entries@[k]),
                !found ==> forall|k: int| 0 <= k < j ==> cur[k].1 != info.alias@,
                found ==> j < m && cur[j as int].1 == info.alias@ && (forall|k: int|
                    0 <= k < j ==> cur[k].1 != info.alias@),
            decreases m - j, (if found { 0int } else { 1int }),
        {
            if str_eq(out.entries[j].alias.as_str(), info.alias.as_str()) {
                found = true;
            } else {
                j += 1;
            }
        }
        if found {
            proof {
                lemma_find_alias(cur, info.alias@);
                assert(find_alias(cur, info.alias@) == j as int);
            }
            let removed = out.entries.remove(j);
            out.entries.push(info);
            proof {
                assert(out@ =~= upsert(cur, decls[i as int]));
            }
        } else {
            proof {
                lemma_find_alias(cur, info.alias@);
                assert(find_alias(cur, info.alias@) == -1);
            }
            out.entries.push(info);
            proof {
                assert(out@ =~= upsert(cur, decls[i as int]));
            }
        }
        proof {
            assert(decls.take(i + 1).drop_last() =~= decls.take(i as int));
            assert(decls.take(i + 1).last() == decls[i as int]);
            assert(imports_table(decls.take(i + 1)) == upsert(
                imports_table(decls.take(i as int)),
                decls[i as int],
            ));
        }
        i += 1;
    }
    proof {
        assert(decls.take(n as int) =~= decls);
    }
    out
}

/// The metadata section of one document: its imports and its auth tokens.
#[derive(Debug)]
pub struct KonfMetadata {
    /// Import declarations, keyed by alias.
    pub imports: ImportMap,
    /// Tokens permitted to read the document.
    pub auth: Vec<String>,
}

/// Parses the whole `<!>` section: imports and the auth token list.
pub fn parse_metadata(value: &Value, doc_key: &str) -> (r: KonfMetadata)
    ensures
        r.imports@ == imports_table(imports_of(value@, doc_key@)),
        string_views(r.auth@) == crate::utils::conf_strings(value@, auth_key_chars()),
{
    let imports = parse_imports(value, doc_key);
    let auth = crate::utils::get_conf_strings(value, auth_key());
    KonfMetadata { imports, auth }
}

/// The characters of the `auth` key of the metadata section.
pub open spec fn auth_key_chars() -> Seq<char> {
    seq!['a', 'u', 't', 'h']
}

/// The literal `auth` key.
pub fn auth_key() -> (r: &'static str)
    ensures
        r@ == auth_key_chars(),
{
    proof {
        reveal_strlit("auth");
        assert("auth"@ =~= auth_key_chars());
    }
    "auth"
}

/// The resolved paths of an import table, in table order.
pub open spec fn resolved_paths(t: Seq<ImportTuple>) -> Seq<Seq<char>> {
    Seq::new(
        t.len(),
        |i: int|
            match t[i].2 {
                Some(s) => s,
                None => Seq::empty(),
            },
    )
}

/// The resolved paths of all imports of a document, in table order.
pub fn get_import_paths(value: &Value, doc_key: &str) -> (r: Vec<String>)
    ensures
        string_views(r@) == resolved_paths(imports_table(imports_of(value@, doc_key@))),
{
    let map = parse_imports(value, doc_key);
    let n = map.entries.len();
    let mut out: Vec<String> = Vec::new();
    let mut i: usize = 0;
    while i < n
        invariant
            0 <= i <= n,
            n == map.entries@.len(),
            map@.len() == n,
            forall|k: int| 0 <= k < n ==> map@[k] == import_view(map.entries@[k]),
            string_views(out@) == resolved_paths(map@).take(i as int),
        decreases n - i,
    {
        proof {
            assert(map@[i as int] == import_view(map.entries@[i as int]));
        }
        let ghost out0 = out@;
        proof {
            assert(string_views(out0).len() == out0.len());
            assert(resolved_paths(map@).len() == n);
            assert(out0.len() == i as int);
        }
        match &map.entries[i].resolved_path {
            Some(s) => {
                proof {
                    assert(map@[i as int].2 == Some(s@));
                }
                out.push(s.clone());
            },
            None => {
                proof {
                    assert(map@[i as int].2 is None);
                }
                let empty = String::new();
                out.push(empty);
            },
        }
        proof {
            let rp = resolved_paths(map@);
            assert(out@.len() == i + 1);
            assert(out@[i as int]@ == rp[i as int]);
            assert forall|k: int| 0 <= k < i + 1 implies string_views(out@)[k] == rp.take(i + 1)[k]
                by {
                assert(rp.take(i + 1)[k] == rp[k]);
                assert(string_views(out@)[k] == out@[k]@);
                if k < i as int {
                    assert(out@[k] == out0[k]);
                    assert(string_views(out0)[k] == out0[k]@);
                    assert(string_views(out0)[k] == rp.take(i as int)[k]);
                }
            }
            assert(string_views(out@) =~= rp.take(i + 1));
        }
        i += 1;
    }
    proof {
        assert(resolved_paths(map@).take(n as int) =~= resolved_paths(map@));
    }
    out
}

} // verus!
