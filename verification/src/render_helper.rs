//! The template resolver: finds `${…}` placeholders in string leaves and
//! rewrites them against a map of rendered dependencies.
//!
//! A placeholder holds a dotted path and an optional pipeline:
//! `${alias.key | trim | default:"x"}`.  The first path segment names a
//! dependency by alias; the rest walk mapping entries.  An exact-match
//! string (the whole string is one placeholder) is replaced by the value
//! itself, keeping its type; inside larger text the value is stringified
//! and spliced.  A lookup miss, an unknown function, a bad literal or a
//! function error leaves the placeholder as written.

use crate::functions::string::{trim_chars, trim_vec};
use crate::functions::{arg_value, arg_values, spec_apply, FunctionArg, FunctionRegistry};
use crate::strutil::{
    bool_text, char_views, chars_to_string, find_char, int_text, lemma_find_char, split_on,
    string_of_chars, vec_chars_eq, vec_find_char, vec_find_char_from, vec_split_on, vec_subrange,
};
use crate::{
    entry_models, lemma_entry_models, lemma_obj_get_skip, lemma_seq_models, obj_get, seq_models,
    val_model, ValModel, Value,
};
use vstd::prelude::*;

verus! {

// ---------------------------------------------------------------------------
// Dotted-path lookup
// ---------------------------------------------------------------------------
/// Walks `segs[i..]` as mapping lookups inside `v`.
pub open spec fn walk_path(v: ValModel, segs: Seq<Seq<char>>, i: int) -> Option<ValModel>
    decreases segs.len() - i,
{
    if i < 0 || i >= segs.len() {
        Some(v)
    } else {
        match v {
            ValModel::Obj(es) => match obj_get(es, segs[i]) {
                Some(v2) => walk_path(v2, segs, i + 1),
                None => None,
            },
            _ => None,
        }
    }
}

/// A dotted path looked up in the dependencies: the first segment names the
/// dependency, the remaining segments walk mapping entries.
pub open spec fn lookup_path(deps: Seq<(Seq<char>, ValModel)>, path: Seq<char>) -> Option<
    ValModel,
> {
    let segs = split_on(path, '.');
    match obj_get(deps, segs[0]) {
        Some(v) => walk_path(v, segs, 1),
        None => None,
    }
}

/// Looks a dotted path up in the dependency map.
fn lookup_in_deps<'a>(path: &Vec<char>, deps: &'a Vec<(String, Value)>) -> (r: Option<&'a Value>)
    ensures
        r matches Some(v) ==> lookup_path(entry_models(deps@), path@) == Some(val_model(*v)),
        r is None ==> lookup_path(entry_models(deps@), path@) is None,
{
    proof {
        lemma_entry_models(deps@);
    }
    let segs = vec_split_on(path, '.');
    let ghost segs_v = char_views(segs@);
    let ghost depsm = entry_models(deps@);
    // Find the dependency named by the first segment.
    let n = deps.len();
    let mut k: usize = 0;
    let mut root: Option<&Value> = None;
    while k < n && root.is_none()
        invariant
            0 <= k <= n,
            n == deps@.len(),
            depsm == entry_models(deps@),
            depsm.len() == n,
            segs_v == char_views(segs@),
            segs@.len() >= 1,
            forall|m: int| 0 <= m < n ==> depsm[m] == (deps@[m].0@, val_model(deps@[m].1)),
            root is None ==> forall|m: int| 0 <= m < k ==> depsm[m].0 != segs_v[0],
            root matches Some(v) ==> obj_get(depsm, segs_v[0]) == Some(val_model(*v)),
        decreases n - k, (if root is Some { 0int } else { 1int }),
    {
        let key_chars = crate::strutil::str_to_chars(deps[k].0.as_str());
        if vec_chars_eq(&key_chars, &segs[0]) {
            proof {
                lemma_obj_get_skip(depsm, segs_v[0], k as int);
            }
            root = Some(&deps[k].1);
        } else {
            k += 1;
        }
    }
    let mut cur: &Value = match root {
        Some(v) => v,
        None => {
            proof {
                lemma_obj_get_skip(depsm, segs_v[0], n as int);
            }
            return None;
        },
    };
    // Walk the remaining segments.
    let total = segs.len();
    let mut i: usize = 1;
    while i < total
        invariant
            1 <= i <= total,
            total == segs@.len(),
            segs_v == char_views(segs@),
            depsm == entry_models(deps@),
            lookup_path(depsm, path@) == walk_path(val_model(*cur), segs_v, i as int),
        decreases total - i,
    {
        let seg = chars_to_string(&segs[i]);
        match cur.get(seg.as_str()) {
            Some(next) => {
                cur = next;
            },
            None => {
                return None;
            },
        }
        i += 1;
    }
    Some(cur)
}

// ---------------------------------------------------------------------------
// Literals and pipeline calls
// ---------------------------------------------------------------------------
/// Whether a character is a decimal digit.
pub open spec fn is_digit_char(c: char) -> bool {
    48 <= c as u32 <= 57
}

/// The value of one digit character.
pub open spec fn digit_val(c: char) -> int {
    c as u32 - 48
}

/// Whether every character is a decimal digit.
pub open spec fn all_digits(s: Seq<char>) -> bool {
    forall|i: int| 0 <= i < s.len() ==> is_digit_char(#[trigger] s[i])
}

/// The decimal value of a digit sequence.
pub open spec fn dec_val(s: Seq<char>) -> int
    decreases s.len(),
{
    if s.len() == 0 {
        0
    } else {
        dec_val(s.drop_last()) * 10 + digit_val(s.last())
    }
}

/// Ten to the `n`th.
pub open spec fn pow10(n: nat) -> int
    decreases n,
{
    if n == 0 {
        1
    } else {
        10 * pow10((n - 1) as nat)
    }
}

/// A digit sequence's value is nonnegative and below ten to its length.
pub proof fn lemma_dec_val_bound(s: Seq<char>)
    requires
        all_digits(s),
    ensures
        0 <= dec_val(s) < pow10(s.len()),
    decreases s.len(),
{
    if s.len() > 0 {
        assert(all_digits(s.drop_last())) by {
            assert(forall|i: int| 0 <= i < s.len() - 1 ==> s.drop_last()[i] == s[i]);
        }
        lemma_dec_val_bound(s.drop_last());
        assert(is_digit_char(s[s.len() - 1]));
    }
}

/// The digit text of a signed literal, past any leading minus.
pub open spec fn int_digits(t: Seq<char>) -> Seq<char> {
    if t.len() > 0 && t[0] == '-' {
        t.skip(1)
    } else {
        t
    }
}

/// Whether a literal is an integer: an optional minus, then one or more
/// digits whose value fits a signed 64-bit integer.
pub open spec fn is_int_literal(t: Seq<char>) -> bool {
    let d = int_digits(t);
    &&& d.len() >= 1
    &&& all_digits(d)
    &&& (if t.len() > 0 && t[0] == '-' {
        dec_val(d) <= 0x8000000000000000
    } else {
        dec_val(d) <= 0x7fffffffffffffff
    })
}

/// The value of an integer literal.
pub open spec fn int_literal_value(t: Seq<char>) -> int {
    if t.len() > 0 && t[0] == '-' {
        -dec_val(int_digits(t))
    } else {
        dec_val(t)
    }
}

/// Whether a literal is a float: an optional minus, digits, one dot, digits.
pub open spec fn is_float_literal(t: Seq<char>) -> bool {
    let d = int_digits(t);
    let di = find_char(d, '.');
    &&& 1 <= di < d.len() - 1
    &&& all_digits(d.take(di))
    &&& all_digits(d.skip(di + 1))
}

/// What a pipeline literal stands for: a quoted string (no escapes), `true`
/// or `false`, an integer, or a float (kept as its text); `None` otherwise.
pub open spec fn parse_literal(t: Seq<char>) -> Option<ValModel> {
    if t.len() >= 2 && t[0] == '"' && t.last() == '"' {
        Some(ValModel::Str(t.subrange(1, t.len() - 1)))
    } else if t == seq!['t', 'r', 'u', 'e'] {
        Some(ValModel::Bool(true))
    } else if t == seq!['f', 'a', 'l', 's', 'e'] {
        Some(ValModel::Bool(false))
    } else if is_int_literal(t) {
        Some(ValModel::Int(int_literal_value(t)))
    } else if is_float_literal(t) {
        Some(ValModel::Float(t))
    } else {
        None
    }
}

/// One pipeline call, already trimmed: a function name, optionally followed
/// by `:` and one literal; `None` on an empty name or a bad literal.
pub open spec fn parse_call(t: Seq<char>) -> Option<(Seq<char>, Seq<ValModel>)> {
    let ci = find_char(t, ':');
    if ci < 0 || ci >= t.len() {
        if t.len() == 0 {
            None
        } else {
            Some((t, Seq::empty()))
        }
    } else {
        match parse_literal(t.skip(ci + 1)) {
            Some(m) => Some((t.subrange(0, ci), seq![m])),
            None => None,
        }
    }
}

/// The pipeline of calls applied left to right; `None` on any parse
/// failure, unknown function or function error.
pub open spec fn apply_calls(v: ValModel, calls: Seq<Seq<char>>) -> Option<ValModel>
    decreases calls.len(),
{
    if calls.len() == 0 {
        Some(v)
    } else {
        match parse_call(trim_chars(calls[0])) {
            None => None,
            Some((name, args)) => match spec_apply(name, v, args) {
                None => None,
                Some(v2) => apply_calls(v2, calls.skip(1)),
            },
        }
    }
}

/// The value of one placeholder's content: the dotted path looked up, then
/// the pipeline applied; `None` on a miss or any pipeline failure.
pub open spec fn resolve_content(content: Seq<char>, deps: Seq<(Seq<char>, ValModel)>) -> Option<
    ValModel,
> {
    let parts = split_on(content, '|');
    match lookup_path(deps, trim_chars(parts[0])) {
        Some(v) => apply_calls(v, parts.skip(1)),
        None => None,
    }
}

/// Checks that all characters are digits.
fn check_all_digits(t: &Vec<char>, from: usize, to: usize) -> (r: bool)
    requires
        from <= to <= t@.len(),
    ensures
        r == all_digits(t@.subrange(from as int, to as int)),
{
    let ghost d = t@.subrange(from as int, to as int);
    let mut i: usize = from;
    while i < to
        invariant
            from <= i <= to <= t@.len(),
            d == t@.subrange(from as int, to as int),
            forall|j: int| 0 <= j < i - from ==> is_digit_char(#[trigger] d[j]),
        decreases to - i,
    {
        let cv = t[i] as u32;
        if !(cv >= 48 && cv <= 57) {
            proof {
                assert(d[i - from] == t@[i as int]);
                assert(!is_digit_char(d[i - from]));
            }
            return false;
        }
        proof {
            assert(d[i - from] == t@[i as int]);
        }
        i += 1;
    }
    true
}

/// A digit run's value only grows as more digits are taken.
proof fn lemma_dec_val_mono(s: Seq<char>, i: int)
    requires
        all_digits(s),
        0 <= i <= s.len(),
    ensures
        0 <= dec_val(s.take(i)) <= dec_val(s),
    decreases s.len() - i,
{
    assert(all_digits(s.take(i))) by {
        assert(forall|j: int| 0 <= j < i ==> s.take(i)[j] == s[j]);
    }
    lemma_dec_val_bound(s.take(i));
    if i < s.len() {
        lemma_dec_val_mono(s, i + 1);
        assert(s.take(i + 1).drop_last() =~= s.take(i));
        assert(s.take(i + 1).last() == s[i]);
        assert(is_digit_char(s[i]));
        assert(dec_val(s.take(i + 1)) == dec_val(s.take(i)) * 10 + digit_val(s[i]));
    } else {
        assert(s.take(i) =~= s);
    }
}

/// Parses the digit run `t[from..to]` as a number, refusing values above
/// `bound`.
fn parse_digits(t: &Vec<char>, from: usize, to: usize, bound: u64) -> (r: Option<u64>)
    requires
        from <= to <= t@.len(),
        1 <= to - from,
        all_digits(t@.subrange(from as int, to as int)),
    ensures
        r matches Some(a) ==> a == dec_val(t@.subrange(from as int, to as int)) && a <= bound,
        r is None ==> dec_val(t@.subrange(from as int, to as int)) > bound,
{
    let ghost d = t@.subrange(from as int, to as int);
    proof {
        assert(d.take(0) =~= Seq::<char>::empty());
    }
    let mut acc: u64 = 0;
    let mut i: usize = from;
    while i < to
        invariant
            from <= i <= to <= t@.len(),
            d == t@.subrange(from as int, to as int),
            all_digits(d),
            acc == dec_val(d.take(i - from)),
            acc <= bound,
        decreases to - i,
    {
        let c = t[i];
        proof {
            assert(d[i - from] == t@[i as int]);
            assert(is_digit_char(d[i - from]));
            assert(d.take(i - from + 1).drop_last() =~= d.take(i - from));
            assert(d.take(i - from + 1).last() == d[i - from]);
            assert(dec_val(d.take(i - from + 1)) == acc * 10 + digit_val(d[i - from]));
        }
        let dv: u64 = ((c as u32) - 48) as u64;
        if acc > bound / 10 || (acc == bound / 10 && dv > bound % 10) {
            proof {
                lemma_dec_val_mono(d, i - from + 1);
                assert(acc * 10 + dv > bound);
            }
            return None;
        }
        proof {
            assert(acc * 10 + dv <= bound);
        }
        acc = acc * 10 + dv;
        i += 1;
    }
    proof {
        assert(d.take(to - from) =~= d);
    }
    Some(acc)
}

/// Parses one pipeline literal.
fn parse_literal_exec(t: &Vec<char>) -> (r: Option<FunctionArg>)
    ensures
        r matches Some(a) ==> parse_literal(t@) == Some(arg_value(a)),
        r is None ==> parse_literal(t@) is None,
{
    let n = t.len();
    // Quoted string.
    if n >= 2 && t[0] == '"' && t[n - 1] == '"' {
        let inner = vec_subrange(t, 1, n - 1);
        return Some(FunctionArg::String(string_of_chars(inner)));
    }
    // Booleans.
    let true_chars: Vec<char> = vec!['t', 'r', 'u', 'e'];
    if vec_chars_eq(t, &true_chars) {
        proof {
            assert(t@ =~= seq!['t', 'r', 'u', 'e']);
        }
        return Some(FunctionArg::Boolean(true));
    }
    let false_chars: Vec<char> = vec!['f', 'a', 'l', 's', 'e'];
    if vec_chars_eq(t, &false_chars) {
        proof {
            assert(t@ =~= seq!['f', 'a', 'l', 's', 'e']);
        }
        return Some(FunctionArg::Boolean(false));
    }
    proof {
        assert(t@ != seq!['t', 'r', 'u', 'e'] && t@ != seq!['f', 'a', 'l', 's', 'e']);
    }
    // Numbers: an optional minus, then digits, optionally dot and digits.
    let neg: bool = n > 0 && t[0] == '-';
    let start: usize = if neg {
        1
    } else {
        0
    };
    let ghost d = int_digits(t@);
    proof {
        assert(d =~= t@.subrange(start as int, n as int));
    }
    if start >= n {
        proof {
            assert(!is_int_literal(t@) && !is_float_literal(t@));
        }
        return None;
    }
    let dot = vec_find_char_from(t, '.', start);
    match dot {
        None => {
            // Integer shape.
            proof {
                lemma_find_char(d, '.');
                if find_char(d, '.') >= 0 {
                    assert(d[find_char(d, '.')] == '.');
                    assert(t@[find_char(d, '.') + start] == '.');
                    assert(false);
                }
                assert(!is_float_literal(t@));
            }
            if !check_all_digits(t, start, n) {
                proof {
                    assert(!is_int_literal(t@));
                }
                return None;
            }
            let bound: u64 = if neg {
                9223372036854775808u64
            } else {
                9223372036854775807u64
            };
            let mag = match parse_digits(t, start, n, bound) {
                Some(m) => m,
                None => {
                    proof {
                        assert(!is_int_literal(t@));
                    }
                    return None;
                },
            };
            let value: i64 = if neg {
                if mag == 9223372036854775808u64 {
                    i64::MIN
                } else {
                    -(mag as i64)
                }
            } else {
                mag as i64
            };
            proof {
                assert(is_int_literal(t@));
                assert(value as int == int_literal_value(t@));
            }
            Some(FunctionArg::Int(value))
        },
        Some(di) => {
            // Float shape: digits on both sides of the first dot.
            proof {
                lemma_find_char(d, '.');
                let fd = find_char(d, '.');
                assert(d[di - start] == '.');
                if fd < di - start {
                    assert(t@[fd + start] == '.');
                    assert(false);
                }
                if fd > di - start {
                    assert(d[di - start] != '.');
                    assert(false);
                }
                assert(fd == di - start);
                if all_digits(d) {
                    assert(is_digit_char(d[di - start]));
                    assert(false);
                }
                assert(!is_int_literal(t@));
            }
            if di == start || di + 1 >= n {
                proof {
                    assert(!is_float_literal(t@));
                }
                return None;
            }
            let ok1 = check_all_digits(t, start, di);
            let ok2 = check_all_digits(t, di + 1, n);
            proof {
                assert(d.take(di - start) =~= t@.subrange(start as int, di as int));
                assert(d.skip(di - start + 1) =~= t@.subrange(di + 1, n as int));
            }
            if ok1 && ok2 {
                let whole = vec_subrange(t, 0, n);
                proof {
                    assert(whole@ =~= t@);
                    assert(is_float_literal(t@));
                }
                Some(FunctionArg::Float(string_of_chars(whole)))
            } else {
                proof {
                    assert(!is_float_literal(t@));
                }
                None
            }
        },
    }
}

/// Parses one pipeline call, `name` or `name:literal`.
fn parse_call_exec(t: &Vec<char>) -> (r: Option<(String, Vec<FunctionArg>)>)
    ensures
        r matches Some(c) ==> parse_call(t@) == Some((c.0@, arg_values(c.1@))),
        r is None ==> parse_call(t@) is None,
{
    match vec_find_char(t, ':') {
        None => {
            if t.len() == 0 {
                None
            } else {
                let args: Vec<FunctionArg> = Vec::new();
                proof {
                    assert(arg_values(args@) =~= Seq::<ValModel>::empty());
                }
                Some((chars_to_string(t), args))
            }
        },
        Some(ci) => {
            let tl = t.len();
            proof {
                lemma_find_char(t@, ':');
                assert(ci < tl);
            }
            let name = chars_to_string(&vec_subrange(t, 0, ci));
            let lit = vec_subrange(t, ci + 1, tl);
            proof {
                assert(lit@ =~= t@.skip(ci + 1));
            }
            match parse_literal_exec(&lit) {
                Some(a) => {
                    let mut args: Vec<FunctionArg> = Vec::new();
                    args.push(a);
                    proof {
                        assert(arg_values(args@) =~= seq![arg_value(args@[0])]);
                    }
                    Some((name, args))
                },
                None => None,
            }
        },
    }
}

/// Resolves one placeholder's content against the dependencies.
fn resolve_content_exec(content: &Vec<char>, deps: &Vec<(String, Value)>) -> (r: Option<Value>)
    ensures
        r matches Some(v) ==> resolve_content(content@, entry_models(deps@)) == Some(v@),
        r is None ==> resolve_content(content@, entry_models(deps@)) is None,
{
    let registry = FunctionRegistry::new();
    let parts = vec_split_on(content, '|');
    let ghost parts_v = char_views(parts@);
    let path = trim_vec(&parts[0]);
    let root = match lookup_in_deps(&path, deps) {
        Some(v) => v,
        None => {
            return None;
        },
    };
    let mut cur: Value = root.clone();
    let total = parts.len();
    let ghost depsm = entry_models(deps@);
    proof {
        assert(parts_v.skip(1).skip(0) =~= parts_v.skip(1));
    }
    let mut i: usize = 1;
    while i < total
        invariant
            1 <= i <= total,
            total == parts@.len(),
            parts_v == char_views(parts@),
            depsm == entry_models(deps@),
            apply_calls(val_model(cur), parts_v.skip(i as int)) == resolve_content(
                content@,
                depsm,
            ),
        decreases total - i,
    {
        proof {
            assert(parts_v.skip(i as int)[0] == parts_v[i as int]);
            assert(parts_v.skip(i as int).skip(1) =~= parts_v.skip(i + 1));
        }
        let call_t = trim_vec(&parts[i]);
        let parsed = match parse_call_exec(&call_t) {
            Some(p) => p,
            None => {
                return None;
            },
        };
        let next = match registry.execute(parsed.0.as_str(), cur, parsed.1.as_slice()) {
            Ok(v) => v,
            Err(_) => {
                return None;
            },
        };
        cur = next;
        i += 1;
    }
    proof {
        assert(parts_v.skip(total as int) =~= Seq::<Seq<char>>::empty());
    }
    Some(cur)
}

// ---------------------------------------------------------------------------
// Placeholder scanning and interpolation
// ---------------------------------------------------------------------------
/// The first placeholder `${…}` at or after `from`: its start and the index
/// of its closing brace.  The content between the braces is nonempty and
/// holds no brace.
pub open spec fn next_placeholder(s: Seq<char>, from: int) -> Option<(int, int)>
    decreases s.len() - from
        when 0 <= from <= s.len()
{
    if from + 2 > s.len() {
        None
    } else if s[from] == '$' && s[from + 1] == '{' {
        let j = find_char(s.skip(from + 2), '}');
        if j < 0 {
            None
        } else if j == 0 {
            next_placeholder(s, from + 1)
        } else {
            Some((from, from + 2 + j))
        }
    } else {
        next_placeholder(s, from + 1)
    }
}

/// A found placeholder sits after `from`, opens with `${`, closes with the
/// first following brace, and has nonempty content.
pub proof fn lemma_next_placeholder(s: Seq<char>, from: int)
    requires
        0 <= from <= s.len(),
    ensures
        match next_placeholder(s, from) {
            Some(p) => from <= p.0 && p.0 + 2 < p.1 < s.len() && s[p.0] == '$' && s[p.0 + 1] == '{'
                && s[p.1] == '}' && (forall|k: int| p.0 + 2 <= k < p.1 ==> s[k] != '}'),
            None => true,
        },
    decreases s.len() - from,
{
    if from + 2 > s.len() {
    } else if s[from] == '$' && s[from + 1] == '{' {
        let t = s.skip(from + 2);
        lemma_find_char(t, '}');
        let j = find_char(t, '}');
        assert(forall|k: int| 0 <= k < t.len() ==> t[k] == s[k + from + 2]);
        if j < 0 {
        } else if j == 0 {
            lemma_next_placeholder(s, from + 1);
        } else {
            assert(t[j] == '}');
            assert(s[from + 2 + j] == '}');
            assert forall|k: int| from + 2 <= k < from + 2 + j implies s[k] != '}' by {
                assert(t[k - from - 2] != '}');
            }
        }
    } else {
        lemma_next_placeholder(s, from + 1);
    }
}

/// Finds the first placeholder at or after `from`.
pub(crate) fn find_next_placeholder(chars: &Vec<char>, from: usize) -> (r: Option<(usize, usize)>)
    requires
        from <= chars@.len(),
    ensures
        r matches Some(p) ==> next_placeholder(chars@, from as int) == Some(
            (p.0 as int, p.1 as int),
        ),
        r is None ==> next_placeholder(chars@, from as int) is None,
    decreases chars@.len() - from,
{
    let n = chars.len();
    if n < 2 || from > n - 2 {
        return None;
    }
    if chars[from] == '$' && chars[from + 1] == '{' {
        let ghost t = chars@.skip(from + 2);
        proof {
            lemma_find_char(t, '}');
            assert(forall|k: int| 0 <= k < t.len() ==> t[k] == chars@[k + from + 2]);
        }
        match vec_find_char_from(chars, '}', from + 2) {
            None => {
                proof {
                    if find_char(t, '}') >= 0 {
                        assert(chars@[find_char(t, '}') + from + 2] == '}');
                        assert(false);
                    }
                }
                None
            },
            Some(jabs) => {
                proof {
                    let j = find_char(t, '}');
                    assert(t[jabs - from - 2] == '}');
                    if j < jabs - from - 2 {
                        assert(chars@[j + from + 2] == '}');
                        assert(false);
                    }
                    if j > jabs - from - 2 {
                        assert(t[jabs - from - 2] != '}');
                        assert(false);
                    }
                }
                if jabs == from + 2 {
                    find_next_placeholder(chars, from + 1)
                } else {
                    Some((from, jabs))
                }
            },
        }
    } else {
        find_next_placeholder(chars, from + 1)
    }
}

/// The text a value is spliced in as: strings as they are, numbers and
/// booleans canonically, null as `null`; sequences and mappings have none.
pub open spec fn stringify(m: ValModel) -> Option<Seq<char>> {
    match m {
        ValModel::Str(s) => Some(s),
        ValModel::Int(i) => Some(int_text(i)),
        ValModel::Float(t) => Some(t),
        ValModel::Bool(b) => Some(bool_text(b)),
        ValModel::Null => Some(seq!['n', 'u', 'l', 'l']),
        _ => None,
    }
}

/// Stringifies a value for interpolation.
fn stringify_exec(v: &Value) -> (r: Option<String>)
    ensures
        r matches Some(t) ==> stringify(v@) == Some(t@),
        r is None ==> stringify(v@) is None,
{
    match v {
        Value::String(s) => Some(s.clone()),
        Value::Int(i) => Some(crate::strutil::i64_to_string(*i)),
        Value::Float(t) => Some(t.clone()),
        Value::Boolean(b) => Some(crate::strutil::bool_to_string(*b)),
        Value::Null => {
            let chars: Vec<char> = vec!['n', 'u', 'l', 'l'];
            proof {
                assert(chars@ =~= seq!['n', 'u', 'l', 'l']);
            }
            Some(string_of_chars(chars))
        },
        _ => None,
    }
}

/// The text one placeholder is replaced by during interpolation: the
/// resolved value's text, or the placeholder as written on a miss, a
/// pipeline failure, or a value with no text.
pub open spec fn splice_text(
    content: Seq<char>,
    placeholder: Seq<char>,
    deps: Seq<(Seq<char>, ValModel)>,
) -> Seq<char> {
    match resolve_content(content, deps) {
        Some(v) => match stringify(v) {
            Some(t) => t,
            None => placeholder,
        },
        None => placeholder,
    }
}

/// The interpolated tail of `s` from `from` on: each placeholder replaced
/// by its spliced text.
pub open spec fn interp(s: Seq<char>, from: int, deps: Seq<(Seq<char>, ValModel)>) -> Seq<char>
    decreases s.len() - from
        when 0 <= from <= s.len()
        via interp_dec
{
    match next_placeholder(s, from) {
        None => s.subrange(from, s.len() as int),
        Some(p) => s.subrange(from, p.0) + splice_text(
            s.subrange(p.0 + 2, p.1),
            s.subrange(p.0, p.1 + 1),
            deps,
        ) + interp(s, p.1 + 1, deps),
    }
}

#[via_fn]
proof fn interp_dec(s: Seq<char>, from: int, deps: Seq<(Seq<char>, ValModel)>) {
    lemma_next_placeholder(s, from);
}

/// Interpolates the tail of `chars` from `pos` on.
fn interp_exec(chars: &Vec<char>, pos: usize, deps: &Vec<(String, Value)>) -> (r: Vec<char>)
    requires
        pos <= chars@.len(),
    ensures
        r@ == interp(chars@, pos as int, entry_models(deps@)),
    decreases chars@.len() - pos,
{
    proof {
        lemma_next_placeholder(chars@, pos as int);
    }
    match find_next_placeholder(chars, pos) {
        None => vec_subrange(chars, pos, chars.len()),
        Some((i, j)) => {
            let clen = chars.len();
            proof {
                assert(j < clen);
            }
            let mut out = vec_subrange(chars, pos, i);
            let content = vec_subrange(chars, i + 2, j);
            let placeholder = vec_subrange(chars, i, j + 1);
            let mut spliced: Vec<char> = match resolve_content_exec(&content, deps) {
                Some(v) => {
                    match stringify_exec(&v) {
                        Some(t) => crate::strutil::str_to_chars(t.as_str()),
                        None => placeholder,
                    }
                },
                None => placeholder,
            };
            out.append(&mut spliced);
            let mut rest = interp_exec(chars, j + 1, deps);
            out.append(&mut rest);
            proof {
                assert(out@ =~= interp(chars@, pos as int, entry_models(deps@)));
            }
            out
        },
    }
}

/// Whether a whole string is exactly one placeholder.
pub open spec fn is_exact_placeholder(s: Seq<char>) -> bool {
    s.len() >= 4 && s[0] == '$' && s[1] == '{' && s.last() == '}' && find_char(s.skip(2), '}')
        == s.len() - 3
}

/// What the resolver makes of one string leaf: an exact-match placeholder
/// becomes the resolved value itself (or stays as written on a miss or
/// failure); any other string is interpolated.
pub open spec fn resolve_string(s: Seq<char>, deps: Seq<(Seq<char>, ValModel)>) -> ValModel {
    if is_exact_placeholder(s) {
        match resolve_content(s.subrange(2, s.len() - 1), deps) {
            Some(v) => v,
            None => ValModel::Str(s),
        }
    } else {
        ValModel::Str(interp(s, 0, deps))
    }
}

/// Resolves one string leaf.
fn resolve_string_exec(s: &String, deps: &Vec<(String, Value)>) -> (r: Value)
    ensures
        r@ == resolve_string(s@, entry_models(deps@)),
{
    let chars = crate::strutil::str_to_chars(s.as_str());
    let n = chars.len();
    let ghost t2 = chars@.skip(2);
    let mut exact = false;
    if n >= 4 && chars[0] == '$' && chars[1] == '{' && chars[n - 1] == '}' {
        proof {
            lemma_find_char(t2, '}');
            assert(forall|k: int| 0 <= k < t2.len() ==> t2[k] == chars@[k + 2]);
        }
        match vec_find_char_from(&chars, '}', 2) {
            Some(fb) => {
                proof {
                    let j = find_char(t2, '}');
                    assert(t2[fb - 2] == '}');
                    if j < fb - 2 {
                        assert(chars@[j + 2] == '}');
                        assert(false);
                    }
                    if j > fb - 2 {
                        assert(t2[fb - 2] != '}');
                        assert(false);
                    }
                }
                if fb == n - 1 {
                    exact = true;
                }
            },
            None => {
                proof {
                    assert(chars@[n - 1] == '}');
                    assert(false);
                }
            },
        }
    }
    proof {
        assert(exact == is_exact_placeholder(s@));
    }
    if exact {
        let content = vec_subrange(&chars, 2, n - 1);
        match resolve_content_exec(&content, deps) {
            Some(v) => v,
            None => Value::String(s.clone()),
        }
    } else {
        let spliced = interp_exec(&chars, 0, deps);
        Value::String(string_of_chars(spliced))
    }
}

// ---------------------------------------------------------------------------
// Tree traversal
// ---------------------------------------------------------------------------
/// The resolver over a whole value: string leaves rewritten, sequences and
/// mapping values traversed, mapping keys untouched.
pub open spec fn resolve_value(m: ValModel, deps: Seq<(Seq<char>, ValModel)>) -> ValModel
    decreases m,
{
    match m {
        ValModel::Str(s) => resolve_string(s, deps),
        ValModel::Arr(items) => ValModel::Arr(resolve_seq(items, deps)),
        ValModel::Obj(es) => ValModel::Obj(resolve_entries(es, deps)),
        other => other,
    }
}

/// The resolver over the items of a sequence.
pub open spec fn resolve_seq(items: Seq<ValModel>, deps: Seq<(Seq<char>, ValModel)>) -> Seq<
    ValModel,
>
    decreases items,
{
    if items.len() == 0 {
        Seq::empty()
    } else {
        seq![resolve_value(items[0], deps)] + resolve_seq(items.skip(1), deps)
    }
}

/// The resolver over the entries of a mapping.
pub open spec fn resolve_entries(
    es: Seq<(Seq<char>, ValModel)>,
    deps: Seq<(Seq<char>, ValModel)>,
) -> Seq<(Seq<char>, ValModel)>
    decreases es,
{
    if es.len() == 0 {
        Seq::empty()
    } else {
        seq![(es[0].0, resolve_value(es[0].1, deps))] + resolve_entries(es.skip(1), deps)
    }
}

pub broadcast proof fn lemma_resolve_seq(items: Seq<ValModel>, deps: Seq<(Seq<char>, ValModel)>)
    ensures
        (#[trigger] resolve_seq(items, deps)).len() == items.len(),
        forall|i: int| 0 <= i < items.len() ==> resolve_seq(items, deps)[i] == resolve_value(
            items[i],
            deps,
        ),
    decreases items.len(),
{
    if items.len() > 0 {
        lemma_resolve_seq(items.skip(1), deps);
        assert forall|i: int| 0 <= i < items.len() implies resolve_seq(items, deps)[i]
            == resolve_value(items[i], deps) by {
            if i > 0 {
                assert(items.skip(1)[i - 1] == items[i]);
            }
        }
    }
}

pub broadcast proof fn lemma_resolve_entries(
    es: Seq<(Seq<char>, ValModel)>,
    deps: Seq<(Seq<char>, ValModel)>,
)
    ensures
        (#[trigger] resolve_entries(es, deps)).len() == es.len(),
        forall|i: int| 0 <= i < es.len() ==> resolve_entries(es, deps)[i] == (
            es[i].0,
            resolve_value(es[i].1, deps),
        ),
    decreases es.len(),
{
    if es.len() > 0 {
        lemma_resolve_entries(es.skip(1), deps);
        assert forall|i: int| 0 <= i < es.len() implies resolve_entries(es, deps)[i] == (
            es[i].0,
            resolve_value(es[i].1, deps),
        ) by {
            if i > 0 {
                assert(es.skip(1)[i - 1] == es[i]);
            }
        }
    }
}

/// Resolves a whole value tree.
#[verifier::loop_isolation(false)]
fn resolve_val(v: &Value, deps: &Vec<(String, Value)>) -> (r: Value)
    ensures
        r@ == resolve_value(v@, entry_models(deps@)),
    decreases v,
{
    match v {
        Value::String(s) => resolve_string_exec(s, deps),
        Value::Int(i) => Value::Int(*i),
        Value::Float(t) => Value::Float(t.clone()),
        Value::Boolean(b) => Value::Boolean(*b),
        Value::Null => Value::Null,
        Value::Sequence(items) => {
            let n = items.len();
            let mut out: Vec<Value> = Vec::new();
            let mut i: usize = 0;
            while i < n
                invariant
                    0 <= i <= n,
                    n == items@.len(),
                    out@.len() == i,
                    forall|k: int| 0 <= k < i ==> val_model(#[trigger] out@[k]) == resolve_value(
                        val_model(items@[k]),
                        entry_models(deps@),
                    ),
                decreases n - i,
            {
                proof {
                    assert(decreases_to!(*v => *items));
                    assert(decreases_to!(*items => items@));
                    assert(decreases_to!(items@ => items@[i as int]));
                }
                let rv = resolve_val(&items[i], deps);
                out.push(rv);
                i += 1;
            }
            proof {
                lemma_seq_models(items@);
                lemma_seq_models(out@);
                lemma_resolve_seq(seq_models(items@), entry_models(deps@));
                assert(seq_models(out@) =~= resolve_seq(seq_models(items@), entry_models(deps@)));
            }
            Value::Sequence(out)
        },
        Value::Mapping(entries) => {
            let n = entries.len();
            let mut out: Vec<(String, Value)> = Vec::new();
            let mut i: usize = 0;
            while i < n
                invariant
                    0 <= i <= n,
                    n == entries@.len(),
                    out@.len() == i,
                    forall|k: int| 0 <= k < i ==> (#[trigger] out@[k]).0@ == entries@[k].0@
                        && val_model(out@[k].1) == resolve_value(
                        val_model(entries@[k].1),
                        entry_models(deps@),
                    ),
                decreases n - i,
            {
                proof {
                    assert(decreases_to!(*v => *entries));
                    assert(decreases_to!(*entries => entries@));
                    assert(decreases_to!(entries@ => entries@[i as int]));
                    assert(decreases_to!(entries@[i as int] => entries@[i as int].1));
                }
                let key = entries[i].0.clone();
                let rv = resolve_val(&entries[i].1, deps);
                out.push((key, rv));
                i += 1;
            }
            proof {
                lemma_entry_models(entries@);
                lemma_entry_models(out@);
                lemma_resolve_entries(entry_models(entries@), entry_models(deps@));
                assert(entry_models(out@) =~= resolve_entries(
                    entry_models(entries@),
                    entry_models(deps@),
                ));
            }
            Value::Mapping(out)
        },
    }
}

/// Rewrites every string leaf of `value` against the dependency map: one
/// full template-resolution pass over a document.
pub fn resolve_refs_from_deps(value: &mut Value, deps: &Vec<(String, Value)>)
    ensures
        final(value)@ == resolve_value(old(value)@, entry_models(deps@)),
{
    let next = resolve_val(value, deps);
    *value = next;
}

// ---------------------------------------------------------------------------
// Metadata stripping and import listing
// ---------------------------------------------------------------------------
/// The entries of a mapping with the `<!>` entry removed.
pub open spec fn strip_entries(es: Seq<(Seq<char>, ValModel)>) -> Seq<(Seq<char>, ValModel)>
    decreases es.len(),
{
    if es.len() == 0 {
        Seq::empty()
    } else if es[0].0 == crate::utils::metadata_key_chars() {
        strip_entries(es.skip(1))
    } else {
        seq![es[0]] + strip_entries(es.skip(1))
    }
}

/// A value with the top-level `<!>` entry removed, where it is a mapping.
pub open spec fn strip_metadata(m: ValModel) -> ValModel {
    match m {
        ValModel::Obj(es) => ValModel::Obj(strip_entries(es)),
        other => other,
    }
}

/// Appending one entry extends the stripped entries by it, unless its key
/// is the metadata key.
proof fn lemma_strip_entries_push(es: Seq<(Seq<char>, ValModel)>, x: (Seq<char>, ValModel))
    ensures
        strip_entries(es.push(x)) == if x.0 == crate::utils::metadata_key_chars() {
            strip_entries(es)
        } else {
            strip_entries(es) + seq![x]
        },
    decreases es.len(),
{
    let added: Seq<(Seq<char>, ValModel)> = if x.0 == crate::utils::metadata_key_chars() {
        Seq::empty()
    } else {
        seq![x]
    };
    if es.len() == 0 {
        reveal_with_fuel(strip_entries, 2);
        assert(es.push(x)[0] == x);
        assert(es.push(x).skip(1) =~= Seq::<(Seq<char>, ValModel)>::empty());
        assert(strip_entries(es.push(x)) =~= added);
        assert(strip_entries(es) + added =~= added);
    } else {
        lemma_strip_entries_push(es.skip(1), x);
        assert(es.push(x)[0] == es[0]);
        assert(es.push(x).skip(1) =~= es.skip(1).push(x));
        if es[0].0 == crate::utils::metadata_key_chars() {
        } else {
            assert(seq![es[0]] + (strip_entries(es.skip(1)) + added) =~= (seq![es[0]]
                + strip_entries(es.skip(1))) + added);
        }
    }
}

/// Removes the top-level `<!>` entry of a mapping document.
pub fn strip_metadata_entry(value: Value) -> (r: Value)
    ensures
        r@ == strip_metadata(value@),
{
    match value {
        Value::Mapping(entries) => {
            let ghost esm = entry_models(entries@);
            proof {
                lemma_entry_models(entries@);
                assert(esm.take(0) =~= Seq::<(Seq<char>, ValModel)>::empty());
            }
            let meta = crate::utils::metadata_key();
            let n = entries.len();
            let mut out: Vec<(String, Value)> = Vec::new();
            let mut i: usize = 0;
            while i < n
                invariant
                    0 <= i <= n,
                    n == entries@.len(),
                    esm == entry_models(entries@),
                    esm.len() == n,
                    forall|k: int| 0 <= k < n ==> esm[k] == (entries@[k].0@, val_model(
                        entries@[k].1,
                    )),
                    meta@ == crate::utils::metadata_key_chars(),
                    entry_models(out@) == strip_entries(esm.take(i as int)),
                decreases n - i,
            {
                proof {
                    assert(esm.take(i + 1) =~= esm.take(i as int).push(esm[i as int]));
                    lemma_strip_entries_push(esm.take(i as int), esm[i as int]);
                }
                if !crate::strutil::str_eq(entries[i].0.as_str(), meta) {
                    let ghost out0 = out@;
                    let key = entries[i].0.clone();
                    let val = entries[i].1.clone();
                    out.push((key, val));
                    proof {
                        lemma_entry_models(out0);
                        lemma_entry_models(out@);
                        assert(entry_models(out@) =~= entry_models(out0).push(esm[i as int]));
                    }
                }
                i += 1;
            }
            proof {
                assert(esm.take(n as int) =~= esm);
            }
            Value::Mapping(out)
        },
        other => other,
    }
}

/// The paths of a document's imports, as written, in table order.
pub open spec fn written_paths(t: Seq<crate::imports::ImportTuple>) -> Seq<Seq<char>> {
    Seq::new(t.len(), |i: int| t[i].0)
}

/// The import paths of a document, as written (aliases deduplicated, a
/// later collision winning).
pub fn get_imports(value: &Value) -> (r: Vec<String>)
    ensures
        crate::strutil::string_views(r@) == written_paths(
            crate::imports::imports_table(crate::imports::imports_of(value@, Seq::empty())),
        ),
{
    let empty_key = String::new();
    let map = crate::imports::parse_imports(value, empty_key.as_str());
    let n = map.entries.len();
    let ghost table = crate::imports::imports_table(
        crate::imports::imports_of(value@, Seq::empty()),
    );
    let mut out: Vec<String> = Vec::new();
    let mut i: usize = 0;
    while i < n
        invariant
            0 <= i <= n,
            n == map.entries@.len(),
            map@ == table,
            map@.len() == n,
            forall|k: int| 0 <= k < n ==> map@[k] == crate::imports::import_view(map.entries@[k]),
            crate::strutil::string_views(out@) == written_paths(table).take(i as int),
        decreases n - i,
    {
        proof {
            assert(map@[i as int] == crate::imports::import_view(map.entries@[i as int]));
        }
        let ghost out0 = out@;
        proof {
            assert(crate::strutil::string_views(out0).len() == out0.len());
            assert(written_paths(table).len() == n);
            assert(out0.len() == i as int);
        }
        out.push(map.entries[i].path.clone());
        proof {
            let wp = written_paths(table);
            assert(out@[i as int]@ == wp[i as int]);
            assert forall|k: int| 0 <= k < i + 1 implies crate::strutil::string_views(out@)[k]
                == wp.take(i + 1)[k] by {
                assert(wp.take(i + 1)[k] == wp[k]);
                assert(crate::strutil::string_views(out@)[k] == out@[k]@);
                if k < i as int {
                    assert(out@[k] == out0[k]);
                    assert(crate::strutil::string_views(out0)[k] == out0[k]@);
                    assert(crate::strutil::string_views(out0)[k] == wp.take(i as int)[k]);
                }
            }
            assert(crate::strutil::string_views(out@) =~= wp.take(i + 1));
        }
        i += 1;
    }
    proof {
        assert(written_paths(table).take(n as int) =~= written_paths(table));
    }
    out
}

} // verus!
