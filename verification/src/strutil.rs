//! Small verified helpers for working with strings as character sequences.

use vstd::prelude::*;

verus! {

/// Character-wise equality of two string slices.
pub fn str_eq(a: &str, b: &str) -> (r: bool)
    ensures
        r == (a@ == b@),
{
    let sa = a.to_owned();
    let sb = b.to_owned();
    sa == sb
}

/// The characters of a string slice, as a vector.
pub fn str_to_chars(s: &str) -> (v: Vec<char>)
    ensures
        v@ == s@,
{
    let n = s.unicode_len();
    let mut v: Vec<char> = Vec::new();
    let mut i: usize = 0;
    while i < n
        invariant
            0 <= i <= n,
            n == s@.len(),
            v@ == s@.subrange(0, i as int),
        decreases n - i,
    {
        v.push(s.get_char(i));
        proof {
            assert(v@ =~= s@.subrange(0, i + 1));
        }
        i += 1;
    }
    proof {
        assert(s@.subrange(0, n as int) =~= s@);
    }
    v
}

/// Relies on collecting a character iterator into a `String`: the result
/// holds exactly the given characters, in order.
#[verifier::external_body]
pub fn chars_to_string(v: &Vec<char>) -> (s: String)
    ensures
        s@ == v@,
{
    v.iter().collect()
}

/// The decimal digits of `n`, most significant first.
pub open spec fn dec_digits(n: nat) -> Seq<char>
    decreases n,
{
    if n < 10 {
        seq![digit_char(n)]
    } else {
        dec_digits(n / 10) + seq![digit_char(n % 10)]
    }
}

/// The character for one decimal digit.
pub open spec fn digit_char(d: nat) -> char {
    ((48 + d % 10) as u8) as char
}

/// The decimal text of a signed number: a minus sign for negatives,
/// then the digits of the magnitude.
pub open spec fn int_text(i: int) -> Seq<char> {
    if i < 0 {
        seq!['-'] + dec_digits((-i) as nat)
    } else {
        dec_digits(i as nat)
    }
}

/// Appends the decimal digits of `n` to `out`.
fn push_dec(n: u64, out: &mut Vec<char>)
    ensures
        final(out)@ == old(out)@ + dec_digits(n as nat),
    decreases n,
{
    if n < 10 {
        let d: u8 = 48 + (n as u8);
        out.push(d as char);
        proof {
            assert(out@ == old(out)@ + dec_digits(n as nat)) by { assert(out@ =~= old(out)@ + dec_digits(n as nat)); };
        }
    } else {
        push_dec(n / 10, out);
        let d: u8 = 48 + ((n % 10) as u8);
        out.push(d as char);
        proof {
            assert(out@ == old(out)@ + dec_digits(n as nat)) by { assert(out@ =~= old(out)@ + dec_digits(n as nat)); };
        }
    }
}

/// The decimal text of an `i64`.
pub fn i64_to_string(n: i64) -> (r: String)
    ensures
        r@ == int_text(n as int),
{
    let mut chars: Vec<char> = Vec::new();
    if n < 0 {
        chars.push('-');
        let mag: u64 = if n == i64::MIN {
            9223372036854775808u64
        } else {
            (-n) as u64
        };
        proof {
            assert(mag as nat == (-(n as int)) as nat);
        }
        push_dec(mag, &mut chars);
        proof {
            assert(chars@ =~= int_text(n as int));
        }
    } else {
        push_dec(n as u64, &mut chars);
    }
    chars_to_string(&chars)
}

/// The decimal text of a `usize`.
pub fn usize_to_string(n: usize) -> (r: String)
    ensures
        r@ == dec_digits(n as nat),
{
    let mut chars: Vec<char> = Vec::new();
    push_dec(n as u64, &mut chars);
    chars_to_string(&chars)
}

/// The text of a boolean.
pub open spec fn bool_text(b: bool) -> Seq<char> {
    if b {
        seq!['t', 'r', 'u', 'e']
    } else {
        seq!['f', 'a', 'l', 's', 'e']
    }
}

/// A `String` holding the text of a boolean.
pub fn bool_to_string(b: bool) -> (r: String)
    ensures
        r@ == bool_text(b),
{
    let v: Vec<char> = if b {
        vec!['t', 'r', 'u', 'e']
    } else {
        vec!['f', 'a', 'l', 's', 'e']
    };
    chars_to_string(&v)
}

/// A `String` holding exactly the given characters.
pub fn string_of_chars(v: Vec<char>) -> (s: String)
    ensures
        s@ == v@,
{
    chars_to_string(&v)
}

/// The index of the first occurrence of `c` in `s`, or `-1`.
pub open spec fn find_char(s: Seq<char>, c: char) -> int
    decreases s.len(),
{
    if s.len() == 0 {
        -1
    } else if s[0] == c {
        0
    } else {
        if find_char(s.skip(1), c) < 0 {
            -1
        } else {
            find_char(s.skip(1), c) + 1
        }
    }
}

/// `find_char` names the first occurrence: in range, hits `c`, nothing before it does.
pub proof fn lemma_find_char(s: Seq<char>, c: char)
    ensures
        -1 <= find_char(s, c) < s.len(),
        find_char(s, c) >= 0 ==> s[find_char(s, c)] == c,
        forall|j: int| 0 <= j < find_char(s, c) ==> s[j] != c,
        find_char(s, c) == -1 ==> forall|j: int| 0 <= j < s.len() ==> s[j] != c,
    decreases s.len(),
{
    if s.len() > 0 && s[0] != c {
        lemma_find_char(s.skip(1), c);
        let t = s.skip(1);
        assert(forall|j: int| 0 <= j < t.len() ==> t[j] == s[j + 1]);
        if find_char(t, c) >= 0 {
            assert forall|j: int| 0 <= j < find_char(s, c) implies s[j] != c by {
                if j > 0 {
                    assert(t[j - 1] != c);
                }
            }
        } else {
            assert forall|j: int| 0 <= j < s.len() implies s[j] != c by {
                if j > 0 {
                    assert(t[j - 1] != c);
                }
            }
        }
    }
}

/// The index of the last occurrence of `c` in `s`, or `-1`.
pub open spec fn rfind_char(s: Seq<char>, c: char) -> int
    decreases s.len(),
{
    if s.len() == 0 {
        -1
    } else if s[s.len() - 1] == c {
        s.len() - 1
    } else {
        rfind_char(s.drop_last(), c)
    }
}

/// `rfind_char` names the last occurrence: in range, hits `c`, nothing after it does.
pub proof fn lemma_rfind_char(s: Seq<char>, c: char)
    ensures
        -1 <= rfind_char(s, c) < s.len(),
        rfind_char(s, c) >= 0 ==> s[rfind_char(s, c)] == c,
        forall|j: int| rfind_char(s, c) < j < s.len() ==> s[j] != c,
    decreases s.len(),
{
    if s.len() > 0 && s[s.len() - 1] != c {
        lemma_rfind_char(s.drop_last(), c);
        assert(forall|j: int| 0 <= j < s.len() - 1 ==> s.drop_last()[j] == s[j]);
    }
}

/// The pieces of `s` between occurrences of `c`; always at least one piece.
pub open spec fn split_on(s: Seq<char>, c: char) -> Seq<Seq<char>>
    decreases s.len(),
{
    let i = find_char(s, c);
    if i < 0 || i >= s.len() {
        seq![s]
    } else {
        seq![s.subrange(0, i)] + split_on(s.subrange(i + 1, s.len() as int), c)
    }
}

/// The pieces joined back with `c` between them.
pub open spec fn join_with(parts: Seq<Seq<char>>, c: char) -> Seq<char>
    decreases parts.len(),
{
    if parts.len() == 0 {
        Seq::empty()
    } else if parts.len() == 1 {
        parts[0]
    } else {
        parts[0] + seq![c] + join_with(parts.skip(1), c)
    }
}

/// Joining after appending one piece appends a separator and the piece.
pub proof fn lemma_join_push(parts: Seq<Seq<char>>, c: char, x: Seq<char>)
    ensures
        join_with(parts.push(x), c) == if parts.len() == 0 {
            x
        } else {
            join_with(parts, c) + seq![c] + x
        },
    decreases parts.len(),
{
    let p = parts.push(x);
    if parts.len() == 0 {
        assert(p[0] == x);
    } else if parts.len() == 1 {
        assert(p.skip(1) =~= seq![x]);
        assert(p[0] == parts[0]);
        assert(join_with(seq![x], c) == x);
        assert(join_with(p, c) == parts[0] + seq![c] + x);
    } else {
        lemma_join_push(parts.skip(1), c, x);
        assert(p.skip(1) =~= parts.skip(1).push(x));
        assert(p[0] == parts[0]);
        assert(join_with(p, c) == parts[0] + seq![c] + join_with(parts.skip(1).push(x), c));
        assert(join_with(parts.skip(1).push(x), c) == join_with(parts.skip(1), c) + seq![c] + x);
        assert(parts[0] + seq![c] + (join_with(parts.skip(1), c) + seq![c] + x) =~= (parts[0]
            + seq![c] + join_with(parts.skip(1), c)) + seq![c] + x);
    }
}

/// A copy of `s[from..to]`.
pub fn vec_subrange(s: &Vec<char>, from: usize, to: usize) -> (r: Vec<char>)
    requires
        from <= to <= s@.len(),
    ensures
        r@ == s@.subrange(from as int, to as int),
{
    let mut r: Vec<char> = Vec::new();
    let mut i: usize = from;
    while i < to
        invariant
            from <= i <= to <= s@.len(),
            r@ == s@.subrange(from as int, i as int),
        decreases to - i,
    {
        r.push(s[i]);
        proof {
            assert(r@ =~= s@.subrange(from as int, i + 1));
        }
        i += 1;
    }
    r
}

/// The first index of `c` at or after `from`, if any.
pub fn vec_find_char_from(s: &Vec<char>, c: char, from: usize) -> (r: Option<usize>)
    requires
        from <= s@.len(),
    ensures
        r matches Some(i) ==> from <= i < s@.len() && s@[i as int] == c && (forall|j: int|
            from <= j < i ==> s@[j] != c),
        r is None ==> forall|j: int| from <= j < s@.len() ==> s@[j] != c,
{
    let n = s.len();
    let mut i: usize = from;
    while i < n
        invariant
            from <= i <= n,
            n == s@.len(),
            forall|j: int| from <= j < i ==> s@[j] != c,
        decreases n - i,
    {
        if s[i] == c {
            return Some(i);
        }
        i += 1;
    }
    None
}

/// The first occurrence of `c` in `s`, agreeing with `find_char`.
pub fn vec_find_char(s: &Vec<char>, c: char) -> (r: Option<usize>)
    ensures
        r matches Some(i) ==> find_char(s@, c) == i as int,
        r is None ==> find_char(s@, c) == -1,
{
    let r = vec_find_char_from(s, c, 0);
    proof {
        lemma_find_char(s@, c);
    }
    r
}

/// The last occurrence of `c` in `s`, agreeing with `rfind_char`.
pub fn vec_rfind_char(s: &Vec<char>, c: char) -> (r: Option<usize>)
    ensures
        r matches Some(i) ==> rfind_char(s@, c) == i as int,
        r is None ==> rfind_char(s@, c) == -1,
{
    proof {
        lemma_rfind_char(s@, c);
    }
    let n = s.len();
    let mut i: usize = n;
    while i > 0
        invariant
            0 <= i <= n,
            n == s@.len(),
            forall|j: int| i <= j < n ==> s@[j] != c,
        decreases i,
    {
        i -= 1;
        if s[i] == c {
            proof {
                lemma_rfind_char(s@, c);
            }
            return Some(i);
        }
    }
    None
}

/// The views of a sequence of character vectors.
pub open spec fn char_views(v: Seq<Vec<char>>) -> Seq<Seq<char>> {
    Seq::new(v.len(), |i: int| v[i]@)
}

/// Splits `s` at every occurrence of `c`, agreeing with `split_on`.
pub fn vec_split_on(s: &Vec<char>, c: char) -> (r: Vec<Vec<char>>)
    ensures
        char_views(r@) == split_on(s@, c),
        r@.len() >= 1,
    decreases s@.len(),
{
    proof {
        lemma_find_char(s@, c);
    }
    match vec_find_char(s, c) {
        None => {
            let whole = vec_subrange(s, 0, s.len());
            let mut r: Vec<Vec<char>> = Vec::new();
            r.push(whole);
            proof {
                assert(s@.subrange(0, s@.len() as int) =~= s@);
                assert(char_views(r@) =~= split_on(s@, c));
            }
            r
        },
        Some(i) => {
            let n = s.len();
            proof {
                assert(i < s@.len());
            }
            let head = vec_subrange(s, 0, i);
            let tail = vec_subrange(s, i + 1, n);
            let mut rest = vec_split_on(&tail, c);
            let ghost rest0 = rest@;
            let mut r: Vec<Vec<char>> = Vec::new();
            r.push(head);
            r.append(&mut rest);
            proof {
                assert(r@.len() == 1 + rest0.len());
                assert(r@[0] == head);
                assert(forall|k: int| 0 <= k < rest0.len() ==> r@[k + 1] == rest0[k]);
                assert(split_on(s@, c) == seq![s@.subrange(0, i as int)] + split_on(
                    s@.subrange(i + 1, s@.len() as int),
                    c,
                ));
                assert forall|k: int| 0 <= k < r@.len() implies char_views(r@)[k] == split_on(
                    s@,
                    c,
                )[k] by {
                    if k > 0 {
                        assert(char_views(rest0)[k - 1] == split_on(tail@, c)[k - 1]);
                        assert(char_views(r@)[k] == rest0[k - 1]@);
                    }
                }
                assert(char_views(r@) =~= split_on(s@, c));
            }
            r
        },
    }
}

/// The views of a sequence of strings.
pub open spec fn string_views(v: Seq<String>) -> Seq<Seq<char>> {
    Seq::new(v.len(), |i: int| v[i]@)
}

/// Appending one string extends the views by its view.
pub proof fn lemma_string_views_push(v0: Seq<String>, x: String)
    ensures
        string_views(v0.push(x)) == string_views(v0).push(x@),
{
    assert forall|k: int| 0 <= k < v0.len() + 1 implies string_views(v0.push(x))[k]
        == string_views(v0).push(x@)[k] by {
        if k < v0.len() {
            assert(v0.push(x)[k] == v0[k]);
        } else {
            assert(v0.push(x)[k] == x);
        }
    }
    assert(string_views(v0.push(x)) =~= string_views(v0).push(x@));
}

/// Character-wise equality of two character vectors.
pub fn vec_chars_eq(a: &Vec<char>, b: &Vec<char>) -> (r: bool)
    ensures
        r == (a@ == b@),
{
    let n = a.len();
    if b.len() != n {
        return false;
    }
    let mut i: usize = 0;
    while i < n
        invariant
            0 <= i <= n,
            n == a@.len() == b@.len(),
            forall|j: int| 0 <= j < i ==> a@[j] == b@[j],
        decreases n - i,
    {
        if a[i] != b[i] {
            return false;
        }
        i += 1;
    }
    proof {
        assert(a@ =~= b@);
    }
    true
}

/// Joins character vectors with a separator, agreeing with `join_with`.
pub fn vec_join_with(parts: &Vec<Vec<char>>, c: char) -> (r: Vec<char>)
    ensures
        r@ == join_with(char_views(parts@), c),
{
    let ghost pv = char_views(parts@);
    let m = parts.len();
    let mut out: Vec<char> = Vec::new();
    let mut j: usize = 0;
    while j < m
        invariant
            0 <= j <= m,
            m == parts@.len(),
            pv == char_views(parts@),
            pv.len() == m,
            out@ == join_with(pv.take(j as int), c),
        decreases m - j,
    {
        proof {
            lemma_join_push(pv.take(j as int), c, pv[j as int]);
            assert(pv.take(j + 1) =~= pv.take(j as int).push(pv[j as int]));
        }
        if j > 0 {
            out.push(c);
        }
        let mut piece = vec_subrange(&parts[j], 0, parts[j].len());
        proof {
            assert(piece@ =~= pv[j as int]);
        }
        out.append(&mut piece);
        proof {
            assert(out@ =~= join_with(pv.take(j + 1), c));
        }
        j += 1;
    }
    proof {
        assert(pv.take(m as int) =~= pv);
    }
    out
}

/// Whether `s` begins with `prefix`.
pub open spec fn has_prefix(s: Seq<char>, prefix: Seq<char>) -> bool {
    s.len() >= prefix.len() && s.subrange(0, prefix.len() as int) == prefix
}

/// Checks whether the characters of `s` begin with those of `prefix`.
pub fn chars_start_with(s: &Vec<char>, prefix: &Vec<char>) -> (r: bool)
    ensures
        r == has_prefix(s@, prefix@),
{
    let np = prefix.len();
    if s.len() < np {
        proof {
            assert(!has_prefix(s@, prefix@));
        }
        return false;
    }
    let mut i: usize = 0;
    while i < np
        invariant
            0 <= i <= np,
            np == prefix@.len(),
            s@.len() >= np,
            forall|j: int| 0 <= j < i ==> s@[j] == prefix@[j],
        decreases np - i,
    {
        if s[i] != prefix[i] {
            proof {
                assert(s@.subrange(0, np as int)[i as int] != prefix@[i as int]);
            }
            return false;
        }
        i += 1;
    }
    proof {
        assert(s@.subrange(0, np as int) =~= prefix@);
    }
    true
}

} // verus!
