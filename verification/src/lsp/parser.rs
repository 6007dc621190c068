//! Positional analysis of documents for editor tooling: template references,
//! cursor contexts, and the import section.
//!
//! Lines are counted by `\n`; columns count characters.

use crate::functions::string::{trim_chars, trim_vec};
use crate::fs::ext_of_path;
use crate::render_helper::{lemma_next_placeholder, next_placeholder};
use crate::strutil::{
    lemma_string_views_push,
    char_views, chars_start_with, chars_to_string, find_char, has_prefix, split_on, str_to_chars,
    string_views, vec_find_char, vec_split_on, vec_subrange,
};
use vstd::prelude::*;

verus! {

/// One template reference found in a document.
#[derive(Debug)]
pub struct TemplateRef {
    /// The path inside the braces.
    pub path: String,
    /// The line, counted from zero.
    pub line: usize,
    /// The column of the `$`.
    pub col_start: usize,
    /// The column after the closing brace.
    pub col_end: usize,
}

/// The references of one line at or after `from`: content, start column,
/// and the column after the closing brace.
pub open spec fn line_refs(s: Seq<char>, from: int) -> Seq<(Seq<char>, int, int)>
    decreases s.len() - from
        when 0 <= from <= s.len()
        via line_refs_dec
{
    match next_placeholder(s, from) {
        None => Seq::empty(),
        Some(p) => seq![(s.subrange(p.0 + 2, p.1), p.0, p.1 + 1)] + line_refs(s, p.1 + 1),
    }
}

#[via_fn]
proof fn line_refs_dec(s: Seq<char>, from: int) {
    lemma_next_placeholder(s, from);
}

/// The references of one line, as `TemplateRef` models with the line number.
pub open spec fn ref_views(refs: Seq<TemplateRef>) -> Seq<(Seq<char>, int, int, int)> {
    Seq::new(refs.len(), |i: int| (refs[i].path@, refs[i].line as int, refs[i].col_start as int,
        refs[i].col_end as int))
}

/// The references of every line of a document: for each line `ln`, the
/// line's references tagged with `ln`, in order.
pub open spec fn doc_refs(lines: Seq<Seq<char>>, ln: int) -> Seq<(Seq<char>, int, int, int)>
    decreases lines.len() - ln,
{
    if ln < 0 || ln >= lines.len() {
        Seq::empty()
    } else {
        tag_line(line_refs(lines[ln], 0), ln) + doc_refs(lines, ln + 1)
    }
}

/// Tags one line's references with its line number.
pub open spec fn tag_line(refs: Seq<(Seq<char>, int, int)>, ln: int) -> Seq<
    (Seq<char>, int, int, int),
> {
    Seq::new(refs.len(), |i: int| (refs[i].0, ln, refs[i].1, refs[i].2))
}

/// Scans one line for references at or after `from`.
fn scan_line(chars: &Vec<char>, from: usize, ln: usize) -> (r: Vec<TemplateRef>)
    requires
        from <= chars@.len(),
    ensures
        ref_views(r@) == tag_line(line_refs(chars@, from as int), ln as int),
    decreases chars@.len() - from,
{
    proof {
        lemma_next_placeholder(chars@, from as int);
    }
    match crate::render_helper::find_next_placeholder(chars, from) {
        None => {
            let r: Vec<TemplateRef> = Vec::new();
            proof {
                assert(ref_views(r@) =~= tag_line(line_refs(chars@, from as int), ln as int));
            }
            r
        },
        Some((i, j)) => {
            let clen = chars.len();
            proof {
                assert(j < clen);
            }
            let content = vec_subrange(chars, i + 2, j);
            let head = TemplateRef {
                path: chars_to_string(&content),
                line: ln,
                col_start: i,
                col_end: j + 1,
            };
            let mut out: Vec<TemplateRef> = Vec::new();
            out.push(head);
            let mut rest = scan_line(chars, j + 1, ln);
            let ghost rest0 = rest@;
            let ghost h0 = out@[0];
            out.append(&mut rest);
            proof {
                let lr = line_refs(chars@, from as int);
                let lr_rest = line_refs(chars@, j + 1);
                assert(lr == seq![(chars@.subrange(i + 2, j as int), i as int, j + 1)] + lr_rest);
                assert(ref_views(rest0).len() == rest0.len());
                assert(tag_line(lr_rest, ln as int).len() == lr_rest.len());
                assert(rest0.len() == lr_rest.len());
                assert(out@.len() == 1 + rest0.len());
                assert forall|k: int| 0 <= k < out@.len() implies ref_views(out@)[k] == tag_line(
                    lr,
                    ln as int,
                )[k] by {
                    assert(ref_views(out@)[k] == (out@[k].path@, out@[k].line as int,
                        out@[k].col_start as int, out@[k].col_end as int));
                    if k == 0 {
                        assert(out@[0] == h0);
                        assert(lr[0] == (chars@.subrange(i + 2, j as int), i as int, j + 1));
                    } else {
                        assert(out@[k] == rest0[k - 1]);
                        assert(ref_views(rest0)[k - 1] == tag_line(lr_rest, ln as int)[k - 1]);
                        assert(lr[k] == lr_rest[k - 1]);
                    }
                }
                assert(ref_views(out@) =~= tag_line(lr, ln as int));
            }
            out
        },
    }
}

/// Every template reference of a document, line by line.
pub fn find_template_refs(content: &str) -> (r: Vec<TemplateRef>)
    ensures
        ref_views(r@) == doc_refs(split_on(content@, '\n'), 0),
{
    let chars = str_to_chars(content);
    let lines = vec_split_on(&chars, '\n');
    let ghost lv = char_views(lines@);
    let n = lines.len();
    let mut out: Vec<TemplateRef> = Vec::new();
    let mut ln: usize = 0;
    while ln < n
        invariant
            0 <= ln <= n,
            n == lines@.len(),
            lv == char_views(lines@),
            lv == split_on(content@, '\n'),
            lv.len() == n,
            ref_views(out@) + doc_refs(lv, ln as int) =~= doc_refs(lv, 0),
        decreases n - ln,
    {
        proof {
            assert(lv[ln as int] == lines@[ln as int]@);
        }
        let mut refs = scan_line(&lines[ln], 0, ln);
        let ghost before = out@;
        let ghost refs0 = refs@;
        out.append(&mut refs);
        proof {
            assert forall|k: int| 0 <= k < out@.len() implies ref_views(out@)[k] == (ref_views(
                before,
            ) + ref_views(refs0))[k] by {
                if k >= before.len() {
                    assert(out@[k] == refs0[k - before.len()]);
                }
            }
            assert(ref_views(out@) =~= ref_views(before) + ref_views(refs0));
            assert(ref_views(out@) + doc_refs(lv, ln + 1) =~= ref_views(before) + doc_refs(
                lv,
                ln as int,
            ));
        }
        ln += 1;
    }
    proof {
        assert(ref_views(out@) + Seq::<(Seq<char>, int, int, int)>::empty() =~= ref_views(out@));
    }
    out
}

/// Splits a reference path into the document key and the key path inside
/// the document: everything before the first dot names the file.
pub fn parse_template_path(path: &str) -> (r: Option<(String, Vec<String>)>)
    ensures
        r matches Some(p) ==> p.0@ == split_on(path@, '.')[0] && string_views(p.1@) == split_on(
            path@,
            '.',
        ).skip(1),
        r is Some,
{
    let chars = str_to_chars(path);
    let parts = vec_split_on(&chars, '.');
    let ghost pv = char_views(parts@);
    let file_key = chars_to_string(&parts[0]);
    let n = parts.len();
    let mut keys: Vec<String> = Vec::new();
    let mut i: usize = 1;
    while i < n
        invariant
            1 <= i <= n,
            n == parts@.len(),
            pv == char_views(parts@),
            pv.len() == n,
            string_views(keys@) == pv.skip(1).take(i - 1),
        decreases n - i,
    {
        let ghost keys0 = keys@;
        let piece = chars_to_string(&parts[i]);
        keys.push(piece);
        proof {
            lemma_string_views_push(keys0, keys@.last());
            assert(keys@ == keys0.push(keys@.last()));
            assert(keys@.last()@ == pv[i as int]);
            assert(pv.skip(1).take(i as int) =~= pv.skip(1).take(i - 1).push(pv[i as int]));
        }
        i += 1;
    }
    proof {
        assert(pv.skip(1).take(n - 1) =~= pv.skip(1));
    }
    Some((file_key, keys))
}

/// The cursor's place inside one template reference.
#[derive(Debug)]
pub struct TemplateContext {
    /// The whole path inside the braces (for an unclosed template, up to
    /// the cursor's line end).
    pub full_path: String,
    /// The cursor's offset within that path.
    pub cursor_offset: usize,
}

/// What is being completed at a cursor.
#[derive(Debug, PartialEq)]
pub enum CompletionContext {
    /// Still typing the document key: no dot before the cursor.
    FileName { partial: String },
    /// Typing a key path inside a document.
    KeyPath { file_key: String, key_path: Vec<String>, partial: String },
}

impl TemplateContext {
    /// The part of the path before the cursor.
    pub fn path_before_cursor(&self) -> (r: String)
        ensures
            r@ == self.full_path@.take(if self.cursor_offset as int <= self.full_path@.len() {
                self.cursor_offset as int
            } else {
                self.full_path@.len() as int
            }),
    {
        let chars = str_to_chars(self.full_path.as_str());
        let end = if self.cursor_offset <= chars.len() {
            self.cursor_offset
        } else {
            chars.len()
        };
        chars_to_string(&vec_subrange(&chars, 0, end))
    }

    /// The completion this cursor asks for: a document key where no dot
    /// precedes the cursor; otherwise the key path, split on dots, with the
    /// last piece still being typed.
    pub fn completion_context(&self) -> (r: CompletionContext)
        ensures
            ({
                let before = self.full_path@.take(
                    if self.cursor_offset as int <= self.full_path@.len() {
                        self.cursor_offset as int
                    } else {
                        self.full_path@.len() as int
                    },
                );
                let parts = split_on(before, '.');
                match r {
                    CompletionContext::FileName { partial } => find_char(before, '.') == -1
                        && partial@ == before,
                    CompletionContext::KeyPath { file_key, key_path, partial } => find_char(
                        before,
                        '.',
                    ) >= 0 && file_key@ == parts[0] && string_views(key_path@) == parts.subrange(
                        1,
                        parts.len() - 1,
                    ) && partial@ == parts.last(),
                }
            }),
    {
        let before = self.path_before_cursor();
        let bchars = str_to_chars(before.as_str());
        match vec_find_char(&bchars, '.') {
            None => CompletionContext::FileName { partial: before },
            Some(_) => {
                let parts = vec_split_on(&bchars, '.');
                let ghost pv = char_views(parts@);
                proof {
                    lemma_split_on_nontrivial(bchars@, '.');
                }
                let file_key = chars_to_string(&parts[0]);
                let n = parts.len();
                let mut key_path: Vec<String> = Vec::new();
                let mut i: usize = 1;
                while i < n - 1
                    invariant
                        1 <= i <= n - 1,
                        n == parts@.len(),
                        n >= 2,
                        pv == char_views(parts@),
                        pv.len() == n,
                        string_views(key_path@) == pv.subrange(1, i as int),
                    decreases n - i,
                {
                    let ghost kp0 = key_path@;
                    let piece = chars_to_string(&parts[i]);
                    key_path.push(piece);
                    proof {
                        lemma_string_views_push(kp0, key_path@.last());
                        assert(key_path@ == kp0.push(key_path@.last()));
                        assert(key_path@.last()@ == pv[i as int]);
                        assert(pv.subrange(1, i + 1) =~= pv.subrange(1, i as int).push(
                            pv[i as int],
                        ));
                    }
                    i += 1;
                }
                let partial = chars_to_string(&parts[n - 1]);
                CompletionContext::KeyPath { file_key, key_path, partial }
            },
        }
    }
}

/// A split at a present separator has at least two pieces.
proof fn lemma_split_on_nontrivial(s: Seq<char>, c: char)
    requires
        find_char(s, c) >= 0,
    ensures
        split_on(s, c).len() >= 2,
{
    crate::strutil::lemma_find_char(s, c);
    let i = find_char(s, c);
    let rest = s.subrange(i + 1, s.len() as int);
    assert(split_on(s, c) == seq![s.subrange(0, i)] + split_on(rest, c));
    assert(split_on(rest, c).len() >= 1);
}

/// A short description of one key of a document, for completion lists.
#[derive(Debug)]
pub struct KeyInfo {
    /// The key itself.
    pub name: String,
    /// The name of its value's type.
    pub value_type: String,
    /// A one-line preview of its value.
    pub preview: String,
}

/// The first complete placeholder at or after `from` whose span holds the
/// column (the span runs from the `$` through the character after `}`).
pub open spec fn placeholder_around(s: Seq<char>, from: int, col: int) -> Option<(int, int)>
    decreases s.len() - from
        when 0 <= from <= s.len()
        via placeholder_around_dec
{
    match next_placeholder(s, from) {
        None => None,
        Some(p) => if p.0 <= col <= p.1 + 1 {
            Some(p)
        } else {
            placeholder_around(s, p.1 + 1, col)
        },
    }
}

#[via_fn]
proof fn placeholder_around_dec(s: Seq<char>, from: int, col: int) {
    lemma_next_placeholder(s, from);
}

/// The start of the leftmost unclosed placeholder at or after `from`: a
/// `${` with no closing brace anywhere after it; `-1` where there is none.
pub open spec fn unclosed_start(s: Seq<char>, from: int) -> int
    decreases s.len() - from
        when 0 <= from <= s.len()
{
    if from + 2 > s.len() {
        -1
    } else if s[from] == '$' && s[from + 1] == '{' && find_char(s.skip(from + 2), '}') == -1 {
        from
    } else {
        unclosed_start(s, from + 1)
    }
}

/// The bounds of `placeholder_around`.
pub proof fn lemma_placeholder_around(s: Seq<char>, from: int, col: int)
    requires
        0 <= from <= s.len(),
    ensures
        match placeholder_around(s, from, col) {
            Some(p) => from <= p.0 && p.0 + 2 < p.1 < s.len() && p.0 <= col <= p.1 + 1,
            None => true,
        },
    decreases s.len() - from,
{
    lemma_next_placeholder(s, from);
    match next_placeholder(s, from) {
        None => {},
        Some(p) => {
            if !(p.0 <= col <= p.1 + 1) {
                lemma_placeholder_around(s, p.1 + 1, col);
            }
        },
    }
}

/// The bounds of `unclosed_start`.
pub proof fn lemma_unclosed_start(s: Seq<char>, from: int)
    requires
        0 <= from <= s.len(),
    ensures
        unclosed_start(s, from) == -1 || from <= unclosed_start(s, from) <= s.len() - 2,
    decreases s.len() - from,
{
    if from + 2 <= s.len() && !(s[from] == '$' && s[from + 1] == '{' && find_char(
        s.skip(from + 2),
        '}',
    ) == -1) {
        lemma_unclosed_start(s, from + 1);
    }
}

/// Finds the placeholder around a column.
fn placeholder_around_exec(chars: &Vec<char>, from: usize, col: usize) -> (r: Option<
    (usize, usize),
>)
    requires
        from <= chars@.len(),
    ensures
        r matches Some(p) ==> placeholder_around(chars@, from as int, col as int) == Some(
            (p.0 as int, p.1 as int),
        ),
        r is None ==> placeholder_around(chars@, from as int, col as int) is None,
    decreases chars@.len() - from,
{
    proof {
        lemma_next_placeholder(chars@, from as int);
    }
    match crate::render_helper::find_next_placeholder(chars, from) {
        None => None,
        Some((i, j)) => {
            let clen = chars.len();
            proof {
                assert(j < clen);
            }
            if i <= col && col <= j + 1 {
                Some((i, j))
            } else {
                placeholder_around_exec(chars, j + 1, col)
            }
        },
    }
}

/// Finds the leftmost unclosed placeholder at or after `from`.
fn unclosed_start_exec(chars: &Vec<char>, from: usize) -> (r: Option<usize>)
    requires
        from <= chars@.len(),
    ensures
        r matches Some(p) ==> unclosed_start(chars@, from as int) == p as int,
        r is None ==> unclosed_start(chars@, from as int) == -1,
    decreases chars@.len() - from,
{
    let n = chars.len();
    if n < 2 || from > n - 2 {
        return None;
    }
    if chars[from] == '$' && chars[from + 1] == '{' {
        let ghost t = chars@.skip(from + 2);
        proof {
            crate::strutil::lemma_find_char(t, '}');
            assert(forall|k: int| 0 <= k < t.len() ==> t[k] == chars@[k + from + 2]);
        }
        match crate::strutil::vec_find_char_from(chars, '}', from + 2) {
            None => {
                proof {
                    if find_char(t, '}') >= 0 {
                        assert(chars@[find_char(t, '}') + from + 2] == '}');
                        assert(false);
                    }
                }
                Some(from)
            },
            Some(jabs) => {
                proof {
                    assert(t[jabs - from - 2] == '}');
                    assert(find_char(t, '}') != -1);
                }
                unclosed_start_exec(chars, from + 1)
            },
        }
    } else {
        unclosed_start_exec(chars, from + 1)
    }
}

/// The cursor's template context at a position, if any: a complete
/// placeholder whose span holds the column, or an unclosed `${` before the
/// cursor.  The path of an unclosed placeholder runs to the cursor.
pub fn get_template_at_position(content: &str, line: usize, col: usize) -> (r: Option<
    TemplateContext,
>)
    ensures
        ({
            let lines = split_on(content@, '\n');
            if line as int >= lines.len() {
                r is None
            } else {
                let l = lines[line as int];
                let before = l.take(if col as int <= l.len() {
                    col as int
                } else {
                    l.len() as int
                });
                match placeholder_around(l, 0, col as int) {
                    Some(p) => r matches Some(ctx) && ctx.full_path@ == l.subrange(p.0 + 2, p.1)
                        && ctx.cursor_offset as int == (if col as int >= p.0 + 2 {
                        col - p.0 - 2
                    } else {
                        0
                    }),
                    None => {
                        let u = unclosed_start(before, 0);
                        if u >= 0 {
                            r matches Some(ctx) && ctx.full_path@ == before.skip(u + 2)
                                && ctx.cursor_offset as int == (if col as int >= u + 2 {
                                col - u - 2
                            } else {
                                0
                            })
                        } else {
                            r is None
                        }
                    },
                }
            }
        }),
{
    let chars = str_to_chars(content);
    let lines = vec_split_on(&chars, '\n');
    let ghost lv = char_views(lines@);
    if line >= lines.len() {
        return None;
    }
    let l = &lines[line];
    proof {
        assert(lv[line as int] == lines@[line as int]@);
    }
    match placeholder_around_exec(l, 0, col) {
        Some((i, j)) => {
            proof {
                lemma_placeholder_around(l@, 0, col as int);
            }
            let path = vec_subrange(l, i + 2, j);
            let off = if col >= i + 2 {
                col - i - 2
            } else {
                0
            };
            Some(TemplateContext { full_path: chars_to_string(&path), cursor_offset: off })
        },
        None => {
            let end = if col <= l.len() {
                col
            } else {
                l.len()
            };
            let before = vec_subrange(l, 0, end);
            match unclosed_start_exec(&before, 0) {
                Some(u) => {
                    proof {
                        lemma_unclosed_start(before@, 0);
                    }
                    let path = vec_subrange(&before, u + 2, before.len());
                    let off = if col >= u + 2 {
                        col - u - 2
                    } else {
                        0
                    };
                    Some(
                        TemplateContext { full_path: chars_to_string(&path), cursor_offset: off },
                    )
                },
                None => None,
            }
        },
    }
}

/// Whether the line sits inside the `import:` table of the `<!>` section,
/// processing lines in order: the section opens at a trimmed `<!>:` line,
/// closes at an unindented nonempty line that is no list item, and within
/// it `import:` opens and `auth:` closes the import table.
pub open spec fn import_state_at(
    lines: Seq<Seq<char>>,
    i: int,
    meta: bool,
    imp: bool,
    target: int,
) -> bool
    decreases lines.len() - i
        when 0 <= i <= lines.len()
{
    if i >= lines.len() {
        false
    } else {
        let t = trim_chars(lines[i]);
        if has_prefix(t, seq!['<', '!', '>', ':']) {
            import_state_at(lines, i + 1, true, imp, target)
        } else {
            let dedent = meta && !has_prefix(lines[i], seq![' ']) && !has_prefix(
                lines[i],
                seq!['\t'],
            ) && t.len() > 0 && !has_prefix(t, seq!['-']);
            let meta2 = if dedent {
                false
            } else {
                meta
            };
            let imp2 = if dedent {
                false
            } else {
                imp
            };
            let imp3 = if meta {
                if has_prefix(t, seq!['i', 'm', 'p', 'o', 'r', 't', ':']) {
                    true
                } else if has_prefix(t, seq!['a', 'u', 't', 'h', ':']) {
                    false
                } else {
                    imp2
                }
            } else {
                imp2
            };
            if i == target {
                meta2 && imp3
            } else {
                import_state_at(lines, i + 1, meta2, imp3, target)
            }
        }
    }
}

/// Whether a position sits inside the import table of the metadata section.
pub fn is_in_import_section(content: &str, line: usize) -> (r: bool)
    ensures
        r == import_state_at(split_on(content@, '\n'), 0, false, false, line as int),
{
    let chars = str_to_chars(content);
    let lines = vec_split_on(&chars, '\n');
    let ghost lv = char_views(lines@);
    let meta_open: Vec<char> = vec!['<', '!', '>', ':'];
    let import_open: Vec<char> = vec!['i', 'm', 'p', 'o', 'r', 't', ':'];
    let auth_open: Vec<char> = vec!['a', 'u', 't', 'h', ':'];
    let space: Vec<char> = vec![' '];
    let tab: Vec<char> = vec!['\t'];
    let dash: Vec<char> = vec!['-'];
    let n = lines.len();
    let mut meta: bool = false;
    let mut imp: bool = false;
    let mut i: usize = 0;
    while i < n
        invariant
            0 <= i <= n,
            n == lines@.len(),
            lv == char_views(lines@),
            lv == split_on(content@, '\n'),
            lv.len() == n,
            meta_open@ == seq!['<', '!', '>', ':'],
            import_open@ == seq!['i', 'm', 'p', 'o', 'r', 't', ':'],
            auth_open@ == seq!['a', 'u', 't', 'h', ':'],
            space@ == seq![' '],
            tab@ == seq!['\t'],
            dash@ == seq!['-'],
            import_state_at(lv, 0, false, false, line as int) == import_state_at(
                lv,
                i as int,
                meta,
                imp,
                line as int,
            ),
        decreases n - i,
    {
        proof {
            assert(lv[i as int] == lines@[i as int]@);
        }
        let t = trim_vec(&lines[i]);
        if chars_start_with(&t, &meta_open) {
            meta = true;
        } else {
            let dedent = meta && !chars_start_with(&lines[i], &space) && !chars_start_with(
                &lines[i],
                &tab,
            ) && t.len() > 0 && !chars_start_with(&t, &dash);
            let meta2 = if dedent {
                false
            } else {
                meta
            };
            let imp2 = if dedent {
                false
            } else {
                imp
            };
            let imp3 = if meta {
                if chars_start_with(&t, &import_open) {
                    true
                } else if chars_start_with(&t, &auth_open) {
                    false
                } else {
                    imp2
                }
            } else {
                imp2
            };
            proof {
                assert(t@ == trim_chars(lv[i as int]));
                assert(!has_prefix(trim_chars(lv[i as int]), seq!['<', '!', '>', ':']));
                assert(import_state_at(lv, i as int, meta, imp, line as int) == (if i == line {
                    meta2 && imp3
                } else {
                    import_state_at(lv, i + 1, meta2, imp3, line as int)
                }));
            }
            if i == line {
                return meta2 && imp3;
            }
            meta = meta2;
            imp = imp3;
        }
        i += 1;
    }
    false
}

/// Whether a path names a YAML file: its extension is `yaml` or `yml`.
pub fn is_yaml_file(path: &str) -> (r: bool)
    ensures
        r == (ext_of_path(path@) == seq!['y', 'a', 'm', 'l'] || ext_of_path(path@) == seq![
            'y',
            'm',
            'l',
        ]),
{
    let chars = str_to_chars(path);
    let n = chars.len();
    proof {
        crate::strutil::lemma_rfind_char(chars@, '/');
        crate::strutil::lemma_rfind_char(chars@, '.');
    }
    let slash = crate::strutil::vec_rfind_char(&chars, '/');
    let dot = crate::strutil::vec_rfind_char(&chars, '.');
    let (has_ext, dot_idx): (bool, usize) = match dot {
        None => (false, 0),
        Some(d) => {
            proof {
                assert(d < n);
            }
            match slash {
                None => (d > 0, d),
                Some(sl) => {
                    proof {
                        assert(sl < n);
                    }
                    (d > sl + 1, d)
                },
            }
        },
    };
    if !has_ext {
        proof {
            assert(ext_of_path(path@) =~= Seq::<char>::empty());
        }
        return false;
    }
    let ext = vec_subrange(&chars, dot_idx + 1, n);
    proof {
        assert(ext@ =~= ext_of_path(path@));
    }
    let yaml: Vec<char> = vec!['y', 'a', 'm', 'l'];
    let yml: Vec<char> = vec!['y', 'm', 'l'];
    proof {
        assert(yaml@ =~= seq!['y', 'a', 'm', 'l']);
        assert(yml@ =~= seq!['y', 'm', 'l']);
    }
    crate::strutil::vec_chars_eq(&ext, &yaml) || crate::strutil::vec_chars_eq(&ext, &yml)
}

} // verus!
