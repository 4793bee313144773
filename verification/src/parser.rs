//! Lexical primitives shared by every grammar in the crate: byte classes,
//! whitespace trimming, identifier keys, quoted strings and `key="value"`
//! attribute lists.
//!
//! Each executable reader returns the parsed value together with the position
//! of the first unconsumed byte, and its contract equates it with a `spec`
//! mirror of the grammar, so that callers reason purely over the mirrors.

use vstd::prelude::*;

verus! {

use crate::num::{
    lemma_render_num_at, lemma_render_num_chars, lex_number, num_boundary, spec_lex_number,
    spec_render_num, Num,
};

/// Kinds of hard parse failures; each carries enough context for a caller to
/// locate the offending fragment in the source text.
#[derive(Debug, Clone, Copy, PartialEq, Eq, Structural)]
pub enum ErrorKind {
    /// A numeric literal was expected and none could be read.
    Number,
    /// A numeric literal was read but does not fit the exact decimal model.
    NumberTooLarge,
    /// A `0`/`1` flag was expected.
    Flag,
    /// A specific punctuation or tag byte was expected.
    Tag,
    /// A path command letter was expected.
    CommandLetter,
    /// A keyword of a closed enumeration was expected.
    Keyword,
    /// A value lies outside its documented range.
    Range,
    /// Input ended or continued where the document grammar forbids it.
    Document,
}

/// A reported parse failure: what was expected and the byte position at which
/// the expectation failed.
#[derive(Debug, Clone, Copy, PartialEq, Eq, Structural)]
pub struct ParseError {
    pub kind: ErrorKind,
    pub pos: usize,
}

/// The bytes the grammars treat as whitespace: space, tab, line feed and
/// carriage return.
pub open spec fn is_ws(b: u8) -> bool {
    b == 32 || b == 9 || b == 10 || b == 13
}

/// ASCII decimal digit.
pub open spec fn is_digit(b: u8) -> bool {
    48 <= b <= 57
}

/// ASCII letter or digit; attribute keys start with one of these.
pub open spec fn is_alnum(b: u8) -> bool {
    is_digit(b) || 65 <= b <= 90 || 97 <= b <= 122
}

/// First position at or after `i` that does not hold whitespace.
pub open spec fn spec_skip_ws(s: Seq<u8>, i: int) -> int
    decreases s.len() - i when 0 <= i <= s.len()
{
    if i < s.len() && is_ws(s[i]) {
        spec_skip_ws(s, i + 1)
    } else {
        i
    }
}

pub proof fn lemma_skip_ws_bounds(s: Seq<u8>, i: int)
    requires
        0 <= i <= s.len(),
    ensures
        i <= spec_skip_ws(s, i) <= s.len(),
    decreases s.len() - i,
{
    if i < s.len() && is_ws(s[i]) {
        lemma_skip_ws_bounds(s, i + 1);
    }
}

/// End of the maximal digit run starting at `i`.
pub open spec fn spec_digit_run(s: Seq<u8>, i: int) -> int
    decreases s.len() - i when 0 <= i <= s.len()
{
    if i < s.len() && is_digit(s[i]) {
        spec_digit_run(s, i + 1)
    } else {
        i
    }
}

pub proof fn lemma_digit_run(s: Seq<u8>, i: int)
    requires
        0 <= i <= s.len(),
    ensures
        i <= spec_digit_run(s, i) <= s.len(),
        forall|k: int| i <= k < spec_digit_run(s, i) ==> is_digit(#[trigger] s[k]),
        spec_digit_run(s, i) < s.len() ==> !is_digit(s[spec_digit_run(s, i)]),
    decreases s.len() - i,
{
    if i < s.len() && is_digit(s[i]) {
        lemma_digit_run(s, i + 1);
    }
}

/// A digit run halts exactly at the first non-digit position.
pub proof fn lemma_digit_run_exact(s: Seq<u8>, i: int, j: int)
    requires
        0 <= i <= j <= s.len(),
        forall|k: int| i <= k < j ==> is_digit(#[trigger] s[k]),
        j < s.len() ==> !is_digit(s[j]),
    ensures
        spec_digit_run(s, i) == j,
    decreases j - i,
{
    if i < j {
        lemma_digit_run_exact(s, i + 1, j);
    }
}

pub fn is_ws_byte(b: u8) -> (r: bool)
    ensures
        r == is_ws(b),
{
    b == 32 || b == 9 || b == 10 || b == 13
}

pub fn is_digit_byte(b: u8) -> (r: bool)
    ensures
        r == is_digit(b),
{
    48 <= b && b <= 57
}

pub fn is_alnum_byte(b: u8) -> (r: bool)
    ensures
        r == is_alnum(b),
{
    (48 <= b && b <= 57) || (65 <= b && b <= 90) || (97 <= b && b <= 122)
}

/// Advances over whitespace, exactly as `spec_skip_ws` describes.
pub fn skip_ws(s: &[u8], i: usize) -> (j: usize)
    requires
        i <= s@.len(),
    ensures
        j == spec_skip_ws(s@, i as int),
        i <= j <= s@.len(),
{
    let mut j = i;
    while j < s.len() && is_ws_byte(s[j])
        invariant
            i <= j <= s@.len(),
            spec_skip_ws(s@, i as int) == spec_skip_ws(s@, j as int),
        decreases s@.len() - j,
    {
        j += 1;
    }
    j
}

/// First position at or before `j` with no whitespace just before it: the
/// end of the text once trailing whitespace is trimmed.
pub open spec fn spec_ws_end(s: Seq<u8>, j: int) -> int
    decreases j when 0 <= j <= s.len()
{
    if j > 0 && is_ws(s[j - 1]) {
        spec_ws_end(s, j - 1)
    } else {
        j
    }
}

/// Trims trailing whitespace, exactly as `spec_ws_end` describes.
pub fn ws_end(s: &[u8], j: usize) -> (r: usize)
    requires
        j <= s@.len(),
    ensures
        r == spec_ws_end(s@, j as int),
        r <= j,
{
    let mut r = j;
    while r > 0 && is_ws_byte(s[r - 1])
        invariant
            r <= j <= s@.len(),
            spec_ws_end(s@, j as int) == spec_ws_end(s@, r as int),
        decreases r,
    {
        r -= 1;
    }
    r
}

/// Advances over decimal digits, exactly as `spec_digit_run` describes.
pub fn digit_run(s: &[u8], i: usize) -> (j: usize)
    requires
        i <= s@.len(),
    ensures
        j == spec_digit_run(s@, i as int),
        i <= j <= s@.len(),
{
    let mut j = i;
    while j < s.len() && is_digit_byte(s[j])
        invariant
            i <= j <= s@.len(),
            spec_digit_run(s@, i as int) == spec_digit_run(s@, j as int),
        decreases s@.len() - j,
    {
        j += 1;
    }
    j
}

/// End of the maximal run of non-whitespace bytes starting at `i`.
pub open spec fn spec_token_run(s: Seq<u8>, i: int) -> int
    decreases s.len() - i when 0 <= i <= s.len()
{
    if i < s.len() && !is_ws(s[i]) {
        spec_token_run(s, i + 1)
    } else {
        i
    }
}

/// Advances over non-whitespace, exactly as `spec_token_run` describes.
pub fn token_run(s: &[u8], i: usize) -> (j: usize)
    requires
        i <= s@.len(),
    ensures
        j == spec_token_run(s@, i as int),
        i <= j <= s@.len(),
{
    let mut j = i;
    while j < s.len() && !is_ws_byte(s[j])
        invariant
            i <= j <= s@.len(),
            spec_token_run(s@, i as int) == spec_token_run(s@, j as int),
        decreases s@.len() - j,
    {
        j += 1;
    }
    j
}

/// Position of the first `b` at or after `i`.
pub open spec fn spec_find_byte(s: Seq<u8>, i: int, b: u8) -> Option<int>
    decreases s.len() - i when 0 <= i <= s.len()
{
    if i < s.len() {
        if s[i] == b {
            Some(i)
        } else {
            spec_find_byte(s, i + 1, b)
        }
    } else {
        None
    }
}

pub proof fn lemma_find_byte(s: Seq<u8>, i: int, b: u8)
    requires
        0 <= i <= s.len(),
    ensures
        spec_find_byte(s, i, b) matches Some(q) ==> i <= q < s.len() && s[q] == b,
    decreases s.len() - i,
{
    if i < s.len() && s[i] != b {
        lemma_find_byte(s, i + 1, b);
    }
}

/// Scans for a byte, exactly as `spec_find_byte` describes.
pub fn find_byte(s: &[u8], i: usize, b: u8) -> (r: Option<usize>)
    requires
        i <= s@.len(),
    ensures
        match r {
            Some(q) => spec_find_byte(s@, i as int, b) == Some(q as int) && i <= q < s@.len()
                && s@[q as int] == b,
            None => spec_find_byte(s@, i as int, b) is None,
        },
{
    let mut q = i;
    while q < s.len() && s[q] != b
        invariant
            i <= q <= s@.len(),
            spec_find_byte(s@, i as int, b) == spec_find_byte(s@, q as int, b),
        decreases s@.len() - q,
    {
        q += 1;
    }
    if q < s.len() {
        Some(q)
    } else {
        None
    }
}

/// Byte-wise equality of two slices.
pub fn bytes_eq(a: &[u8], b: &[u8]) -> (r: bool)
    ensures
        r == (a@ == b@),
{
    if a.len() != b.len() {
        proof {
            assert(a@ != b@);
        }
        return false;
    }
    let mut k: usize = 0;
    while k < a.len()
        invariant
            k <= a@.len() == b@.len(),
            forall|q: int| 0 <= q < k ==> a@[q] == b@[q],
        decreases a@.len() - k,
    {
        if a[k] != b[k] {
            return false;
        }
        k += 1;
    }
    proof {
        assert(a@ =~= b@);
    }
    true
}

/// `pat` occurs in `s` starting at `i`.
pub open spec fn spec_match_at(s: Seq<u8>, i: int, pat: Seq<u8>) -> bool {
    i + pat.len() <= s.len() && s.subrange(i, i + pat.len()) == pat
}

pub fn match_at(s: &[u8], i: usize, pat: &[u8]) -> (r: bool)
    requires
        i <= s@.len(),
    ensures
        r == spec_match_at(s@, i as int, pat@),
{
    if s.len() - i < pat.len() {
        return false;
    }
    let n = s.len();
    let mut k: usize = 0;
    while k < pat.len()
        invariant
            k <= pat@.len(),
            i + pat@.len() <= s@.len(),
            n == s@.len(),
            forall|q: int| 0 <= q < k ==> s@[i + q] == pat@[q],
        decreases pat@.len() - k,
    {
        proof {
            assert(i + k < s@.len());
        }
        if s[i + k] != pat[k] {
            proof {
                assert(s@.subrange(i as int, i + pat@.len())[k as int] == s@[i + k]);
            }
            return false;
        }
        k += 1;
    }
    proof {
        assert(s@.subrange(i as int, i + pat@.len()) =~= pat@);
    }
    true
}

/// Copies `s[i..j]` into an owned buffer.
pub fn copy_range(s: &[u8], i: usize, j: usize) -> (r: Vec<u8>)
    requires
        i <= j <= s@.len(),
    ensures
        r@ == s@.subrange(i as int, j as int),
{
    let mut out: Vec<u8> = Vec::new();
    let mut k = i;
    while k < j
        invariant
            i <= k <= j <= s@.len(),
            out@ =~= s@.subrange(i as int, k as int),
        decreases j - k,
    {
        out.push(s[k]);
        proof {
            assert(s@.subrange(i as int, (k + 1) as int) =~= s@.subrange(i as int, k as int).push(
                s@[k as int],
            ));
        }
        k += 1;
    }
    proof {
        assert(out@ =~= s@.subrange(i as int, j as int));
    }
    out
}

/// Appends a copy of `p`.
pub fn push_slice(out: &mut Vec<u8>, p: &[u8])
    ensures
        final(out)@ == old(out)@ + p@,
{
    let mut k: usize = 0;
    while k < p.len()
        invariant
            k <= p@.len(),
            out@ =~= old(out)@ + p@.subrange(0, k as int),
        decreases p@.len() - k,
    {
        out.push(p[k]);
        proof {
            assert(old(out)@ + p@.subrange(0, (k + 1) as int) =~= (old(out)@ + p@.subrange(
                0,
                k as int,
            )).push(p@[k as int]));
        }
        k += 1;
    }
    proof {
        assert(p@.subrange(0, p@.len() as int) =~= p@);
        assert(out@ =~= old(out)@ + p@);
    }
}

/// The canonical text of one rendered attribute: `key="value" `, with the
/// trailing space that separates attributes.
pub open spec fn spec_attr(key: Seq<u8>, val: Seq<u8>) -> Seq<u8> {
    key + seq!['=' as u8, '"' as u8] + val + seq!['"' as u8, ' ' as u8]
}

/// Appends one rendered attribute, exactly as `spec_attr` describes.
pub fn push_attr(out: &mut Vec<u8>, key: &[u8], val: &[u8])
    ensures
        final(out)@ == old(out)@ + spec_attr(key@, val@),
{
    push_slice(out, key);
    out.push('=' as u8);
    out.push('"' as u8);
    push_slice(out, val);
    out.push('"' as u8);
    out.push(' ' as u8);
    proof {
        assert(out@ =~= old(out)@ + spec_attr(key@, val@));
    }
}

/// End of the maximal run of alphanumerics and `extra` starting at `i`.
pub open spec fn spec_run_of(s: Seq<u8>, i: int, extra: u8) -> int
    decreases s.len() - i when 0 <= i <= s.len()
{
    if i < s.len() && (is_alnum(s[i]) || s[i] == extra) {
        spec_run_of(s, i + 1, extra)
    } else {
        i
    }
}

pub proof fn lemma_run_of(s: Seq<u8>, i: int, extra: u8)
    requires
        0 <= i <= s.len(),
    ensures
        i <= spec_run_of(s, i, extra) <= s.len(),
    decreases s.len() - i,
{
    if i < s.len() && (is_alnum(s[i]) || s[i] == extra) {
        lemma_run_of(s, i + 1, extra);
    }
}

/// A token that opens with an alphanumeric and continues with alphanumerics
/// or the given extra byte: the position after it, or `None` when the input
/// does not open with an alphanumeric.
pub open spec fn spec_parse_normal(s: Seq<u8>, i: int, extra: u8) -> Option<int> {
    if i < s.len() && is_alnum(s[i]) {
        Some(spec_run_of(s, i + 1, extra))
    } else {
        None
    }
}

/// Reads a token of alphanumerics and the split byte `sign`, exactly as
/// `spec_parse_normal` describes; the matched text is `s[i..e]`.
pub fn parse_normal(s: &[u8], i: usize, sign: u8) -> (r: Option<usize>)
    requires
        i <= s@.len(),
    ensures
        match r {
            Some(e) => spec_parse_normal(s@, i as int, sign) == Some(e as int) && i < e
                <= s@.len(),
            None => spec_parse_normal(s@, i as int, sign) is None,
        },
{
    if i < s.len() && is_alnum_byte(s[i]) {
        proof {
            lemma_run_of(s@, i + 1 as int, sign);
        }
        let mut j = i + 1;
        while j < s.len() && (is_alnum_byte(s[j]) || s[j] == sign)
            invariant
                i + 1 <= j <= s@.len(),
                spec_run_of(s@, i + 1 as int, sign) == spec_run_of(s@, j as int, sign),
            decreases s@.len() - j,
        {
            j += 1;
        }
        Some(j)
    } else {
        None
    }
}

/// A value token: alphanumerics split by minus signs.
pub fn parse_value(s: &[u8], i: usize) -> (r: Option<usize>)
    requires
        i <= s@.len(),
    ensures
        match r {
            Some(e) => spec_parse_normal(s@, i as int, '-' as u8) == Some(e as int) && i < e
                <= s@.len(),
            None => spec_parse_normal(s@, i as int, '-' as u8) is None,
        },
{
    parse_normal(s, i, '-' as u8)
}

/// An attribute key: alphanumerics and hyphens, opening with an
/// alphanumeric, which covers hyphenated names such as `stroke-width`.
pub fn parse_normal_key(s: &[u8], i: usize) -> (r: Option<usize>)
    requires
        i <= s@.len(),
    ensures
        match r {
            Some(e) => spec_parse_normal(s@, i as int, '-' as u8) == Some(e as int) && i < e
                <= s@.len(),
            None => spec_parse_normal(s@, i as int, '-' as u8) is None,
        },
{
    parse_normal(s, i, '-' as u8)
}

/// Position of the first `"` at or after `i`.
pub open spec fn spec_find_quote(s: Seq<u8>, i: int) -> Option<int>
    decreases s.len() - i when 0 <= i <= s.len()
{
    if i < s.len() {
        if s[i] == '"' as u8 {
            Some(i)
        } else {
            spec_find_quote(s, i + 1)
        }
    } else {
        None
    }
}

pub proof fn lemma_find_quote(s: Seq<u8>, i: int)
    requires
        0 <= i <= s.len(),
    ensures
        spec_find_quote(s, i) matches Some(q) ==> i <= q < s.len() && s[q] == '"' as u8,
    decreases s.len() - i,
{
    if i < s.len() && s[i] != '"' as u8 {
        lemma_find_quote(s, i + 1);
    }
}

/// A quoted string: content strictly between two `"` bytes, no escapes.
/// `None` when the opening or closing quote is missing.
pub open spec fn spec_parse_string(s: Seq<u8>, i: int) -> Option<(Seq<u8>, int)> {
    if i < s.len() && s[i] == '"' as u8 {
        match spec_find_quote(s, i + 1) {
            Some(q) => Some((s.subrange(i + 1, q), q + 1)),
            None => None,
        }
    } else {
        None
    }
}

/// Reads a quoted string, exactly as `spec_parse_string` describes.
pub fn parse_string(s: &[u8], i: usize) -> (r: Option<(Vec<u8>, usize)>)
    requires
        i <= s@.len(),
    ensures
        match r {
            Some((v, e)) => spec_parse_string(s@, i as int) == Some((v@, e as int)) && i < e
                <= s@.len(),
            None => spec_parse_string(s@, i as int) is None,
        },
{
    if i < s.len() && s[i] == '"' as u8 {
        proof {
            lemma_find_quote(s@, i + 1 as int);
        }
        let mut q = i + 1;
        while q < s.len() && s[q] != '"' as u8
            invariant
                i + 1 <= q <= s@.len(),
                spec_find_quote(s@, i + 1 as int) == spec_find_quote(s@, q as int),
            decreases s@.len() - q,
        {
            q += 1;
        }
        if q < s.len() {
            let v = copy_range(s, i + 1, q);
            Some((v, q + 1))
        } else {
            None
        }
    } else {
        None
    }
}

/// One `key="value"` pair, the `=` tight against both sides.
pub open spec fn spec_parse_property(s: Seq<u8>, i: int) -> Option<((Seq<u8>, Seq<u8>), int)> {
    match spec_parse_normal(s, i, '-' as u8) {
        Some(ke) => {
            if ke < s.len() && s[ke] == '=' as u8 {
                match spec_parse_string(s, ke + 1) {
                    Some((v, e)) => Some(((s.subrange(i, ke), v), e)),
                    None => None,
                }
            } else {
                None
            }
        },
        None => None,
    }
}

/// Reads one `key="value"` pair, exactly as `spec_parse_property` describes.
pub fn parse_property(s: &[u8], i: usize) -> (r: Option<((Vec<u8>, Vec<u8>), usize)>)
    requires
        i <= s@.len(),
    ensures
        match r {
            Some(((k, v), e)) => spec_parse_property(s@, i as int) == Some(
                ((k@, v@), e as int),
            ) && i < e <= s@.len(),
            None => spec_parse_property(s@, i as int) is None,
        },
{
    match parse_normal_key(s, i) {
        Some(ke) => {
            if ke < s.len() && s[ke] == '=' as u8 {
                match parse_string(s, ke + 1) {
                    Some((v, e)) => {
                        let k = copy_range(s, i, ke);
                        Some(((k, v), e))
                    },
                    None => None,
                }
            } else {
                None
            }
        },
        None => None,
    }
}

/// The key/value views of an owned pair list.
pub open spec fn kvs_view(ps: Seq<(Vec<u8>, Vec<u8>)>) -> Seq<(Seq<u8>, Seq<u8>)> {
    ps.map_values(|p: (Vec<u8>, Vec<u8>)| (p.0@, p.1@))
}

/// Zero or more whitespace-trimmed `key="value"` pairs, read greedily; the
/// first text that is no pair ends the list and stays unconsumed.
pub open spec fn spec_parse_properties(s: Seq<u8>, i: int) -> (Seq<(Seq<u8>, Seq<u8>)>, int)
    decreases s.len() - i when 0 <= i <= s.len()
{
    let j = spec_skip_ws(s, i);
    match spec_parse_property(s, j) {
        Some((kv, e)) => {
            let e2 = spec_skip_ws(s, e);
            if i < e2 <= s.len() {
                let (rest, fin) = spec_parse_properties(s, e2);
                (seq![kv] + rest, fin)
            } else {
                (seq![kv], e2)
            }
        },
        None => (Seq::empty(), i),
    }
}

/// Reads an attribute list, exactly as `spec_parse_properties` describes.
pub fn parse_properties(s: &[u8], i: usize) -> (r: (Vec<(Vec<u8>, Vec<u8>)>, usize))
    requires
        i <= s@.len(),
    ensures
        kvs_view(r.0@) == spec_parse_properties(s@, i as int).0,
        r.1 as int == spec_parse_properties(s@, i as int).1,
        i <= r.1 <= s@.len(),
{
    let mut out: Vec<(Vec<u8>, Vec<u8>)> = Vec::new();
    let mut cur = i;
    loop
        invariant
            i <= cur <= s@.len(),
            spec_parse_properties(s@, i as int).0 =~= kvs_view(out@) + spec_parse_properties(
                s@,
                cur as int,
            ).0,
            spec_parse_properties(s@, i as int).1 == spec_parse_properties(s@, cur as int).1,
        decreases s@.len() - cur,
    {
        let j = skip_ws(s, cur);
        proof {
            lemma_skip_ws_bounds(s@, cur as int);
        }
        match parse_property(s, j) {
            Some(((k, v), e)) => {
                let e2 = skip_ws(s, e);
                let ghost pre = out@;
                out.push((k, v));
                proof {
                    assert(kvs_view(out@) =~= kvs_view(pre) + seq![(k@, v@)]);
                }
                if e2 <= cur {
                    proof {
                        assert(spec_parse_properties(s@, cur as int).0 =~= seq![(k@, v@)]);
                        assert(kvs_view(pre) + seq![(k@, v@)] =~= kvs_view(out@));
                        assert(spec_parse_properties(s@, i as int).0 =~= kvs_view(out@));
                    }
                    return (out, e2);
                }
                proof {
                    assert(spec_parse_properties(s@, cur as int).0 =~= seq![(k@, v@)]
                        + spec_parse_properties(s@, e2 as int).0);
                    assert(kvs_view(pre) + (seq![(k@, v@)] + spec_parse_properties(
                        s@,
                        e2 as int,
                    ).0) =~= kvs_view(out@) + spec_parse_properties(s@, e2 as int).0);
                }
                cur = e2;
            },
            None => {
                proof {
                    assert(spec_parse_properties(s@, cur as int).0 =~= Seq::<(
                        Seq<u8>,
                        Seq<u8>,
                    )>::empty());
                    assert(kvs_view(out@) + Seq::<(Seq<u8>, Seq<u8>)>::empty() =~= kvs_view(out@));
                }
                return (out, cur);
            },
        }
    }
}

/// The raw value of the last occurrence of `key`, as the attribute map
/// semantics demand: on duplicates, the later pair wins.
pub open spec fn spec_lookup(kvs: Seq<(Seq<u8>, Seq<u8>)>, key: Seq<u8>) -> Option<Seq<u8>>
    decreases kvs.len(),
{
    if kvs.len() == 0 {
        None
    } else if kvs.last().0 == key {
        Some(kvs.last().1)
    } else {
        spec_lookup(kvs.drop_last(), key)
    }
}

/// Looks `key` up in a pair list, exactly as `spec_lookup` describes.
pub fn lookup<'a>(kvs: &'a Vec<(Vec<u8>, Vec<u8>)>, key: &[u8]) -> (r: Option<&'a Vec<u8>>)
    ensures
        match r {
            Some(v) => spec_lookup(kvs_view(kvs@), key@) == Some(v@),
            None => spec_lookup(kvs_view(kvs@), key@) is None,
        },
{
    let mut k: usize = kvs.len();
    proof {
        assert(kvs@.take(kvs@.len() as int) =~= kvs@);
    }
    while k > 0
        invariant
            k <= kvs@.len(),
            spec_lookup(kvs_view(kvs@), key@) == spec_lookup(
                kvs_view(kvs@.take(k as int)),
                key@,
            ),
        decreases k,
    {
        proof {
            let pre = kvs_view(kvs@.take(k as int));
            assert(pre.last() == (kvs@[k - 1].0@, kvs@[k - 1].1@));
            assert(pre.drop_last() =~= kvs_view(kvs@.take(k - 1)));
        }
        if bytes_eq(kvs[k - 1].0.as_slice(), key) {
            return Some(&kvs[k - 1].1);
        }
        k -= 1;
    }
    proof {
        assert(kvs_view(kvs@.take(0)) =~= Seq::<(Seq<u8>, Seq<u8>)>::empty());
    }
    None
}

/// A number with surrounding whitespace trimmed on both sides.
pub open spec fn spec_parse_number(s: Seq<u8>, i: int) -> Option<(Num, int)> {
    let j = spec_skip_ws(s, i);
    match spec_lex_number(s, j) {
        Some((n, e)) => Some((n, spec_skip_ws(s, e))),
        None => None,
    }
}

/// Reads a whitespace-trimmed number, exactly as `spec_parse_number`
/// describes.
pub fn parse_number(s: &[u8], i: usize) -> (r: Result<(Num, usize), ParseError>)
    requires
        i <= s@.len(),
    ensures
        r matches Ok((n, e)) ==> spec_parse_number(s@, i as int) == Some((n, e as int)) && n.wf()
            && i < e <= s@.len(),
        r is Err <==> spec_parse_number(s@, i as int) is None,
{
    let j = skip_ws(s, i);
    match lex_number(s, j) {
        Ok((n, e)) => {
            let e2 = skip_ws(s, e);
            Ok((n, e2))
        },
        Err(er) => Err(er),
    }
}

/// Two trimmed numbers split by one comma or by whitespace alone; returns
/// the ordered pair.  The separator is the one place both conventions hold.
pub open spec fn spec_parse_point(s: Seq<u8>, i: int) -> Option<((Num, Num), int)> {
    let j = spec_skip_ws(s, i);
    match spec_lex_number(s, j) {
        Some((n1, e1)) => {
            let m = spec_skip_ws(s, e1);
            let comma = m < s.len() && s[m] == ',' as u8;
            let m2 = if comma {
                spec_skip_ws(s, m + 1)
            } else {
                m
            };
            if comma || m > e1 {
                match spec_lex_number(s, m2) {
                    Some((n2, e2)) => Some(((n1, n2), spec_skip_ws(s, e2))),
                    None => None,
                }
            } else {
                None
            }
        },
        None => None,
    }
}

/// Reads a coordinate pair, exactly as `spec_parse_point` describes.
pub fn point(s: &[u8], i: usize) -> (r: Result<((Num, Num), usize), ParseError>)
    requires
        i <= s@.len(),
    ensures
        r matches Ok((p, e)) ==> spec_parse_point(s@, i as int) == Some((p, e as int)) && p.0.wf()
            && p.1.wf() && i < e <= s@.len(),
        r is Err <==> spec_parse_point(s@, i as int) is None,
{
    let j = skip_ws(s, i);
    let (n1, e1) = match lex_number(s, j) {
        Ok(v) => v,
        Err(er) => {
            return Err(er);
        },
    };
    let m = skip_ws(s, e1);
    let comma = m < s.len() && s[m] == ',' as u8;
    let m2 = if comma {
        skip_ws(s, m + 1)
    } else {
        m
    };
    if !(comma || m > e1) {
        return Err(ParseError { kind: ErrorKind::Tag, pos: m });
    }
    let (n2, e2) = match lex_number(s, m2) {
        Ok(v) => v,
        Err(er) => {
            return Err(er);
        },
    };
    Ok(((n1, n2), skip_ws(s, e2)))
}

/// The canonical text of a coordinate pair: `x,y`.
pub open spec fn spec_render_point(x: Num, y: Num) -> Seq<u8> {
    spec_render_num(x) + seq![',' as u8] + spec_render_num(y)
}

/// Appends the canonical `x,y` text of a coordinate pair.
pub fn push_point(out: &mut Vec<u8>, x: &Num, y: &Num)
    requires
        x.wf(),
        y.wf(),
    ensures
        final(out)@ == old(out)@ + spec_render_point(*x, *y),
{
    let mut t = x.to_text();
    out.append(&mut t);
    out.push(',' as u8);
    let mut t2 = y.to_text();
    out.append(&mut t2);
    proof {
        assert(out@ =~= old(out)@ + spec_render_point(*x, *y));
    }
}

/// Serialize-then-parse identity for a coordinate pair sitting at `j`, where
/// parsing starts at `i` and only whitespace separates `i` from `j`.
pub proof fn lemma_render_point_at(s: Seq<u8>, i: int, j: int, x: Num, y: Num)
    requires
        x.wf(),
        y.wf(),
        0 <= i <= j,
        spec_skip_ws(s, i) == j,
        j + spec_render_point(x, y).len() <= s.len(),
        s.subrange(j, j + spec_render_point(x, y).len() as int) == spec_render_point(x, y),
        j + spec_render_point(x, y).len() < s.len() ==> num_boundary(
            s[j + spec_render_point(x, y).len()],
        ),
    ensures
        spec_parse_point(s, i) == Some(
            ((x, y), spec_skip_ws(s, j + spec_render_point(x, y).len())),
        ),
{
    let pt = spec_render_point(x, y);
    let l = pt.len() as int;
    let rx = spec_render_num(x);
    let ry = spec_render_num(y);
    lemma_render_num_chars(x);
    lemma_render_num_chars(y);
    assert(forall|k: int| 0 <= k < l ==> s[j + k] == #[trigger] pt[k]) by {
        assert(forall|k: int|
            0 <= k < l ==> s.subrange(j, j + l)[k] == s[j + k] && s.subrange(j, j + l)[k]
                == #[trigger] pt[k]);
    };
    assert(forall|k: int| 0 <= k < rx.len() ==> pt[k] == #[trigger] rx[k]) by {
        assert(forall|k: int|
            0 <= k < rx.len() ==> pt[k] == (spec_render_num(x) + seq![',' as u8])[k]);
    };
    assert(pt[rx.len() as int] == ',' as u8) by {
        assert(pt[rx.len() as int] == (spec_render_num(x) + seq![',' as u8])[rx.len() as int]);
    };
    assert(forall|k: int| 0 <= k < ry.len() ==> pt[rx.len() + 1 + k] == #[trigger] ry[k]);
    let e1 = j + rx.len() as int;
    assert(s.subrange(j, e1) =~= rx);
    assert(s[e1] == ',' as u8);
    lemma_render_num_at(s, j, x);
    assert(spec_skip_ws(s, e1) == e1);
    assert(s[e1 + 1] == ry[0]);
    assert(spec_skip_ws(s, e1 + 1) == e1 + 1);
    assert(s.subrange(e1 + 1, j + l) =~= ry);
    lemma_render_num_at(s, e1 + 1, y);
}

/// The space-separated text of a coordinate pair: `x y`.
pub open spec fn spec_render_point_ws(x: Num, y: Num) -> Seq<u8> {
    spec_render_num(x) + seq![' ' as u8] + spec_render_num(y)
}

/// Serialize-then-parse identity for a space-separated coordinate pair
/// sitting at `j`, where parsing starts at `i` and only whitespace separates
/// `i` from `j`.
pub proof fn lemma_render_point_ws_at(s: Seq<u8>, i: int, j: int, x: Num, y: Num)
    requires
        x.wf(),
        y.wf(),
        0 <= i <= j,
        spec_skip_ws(s, i) == j,
        j + spec_render_point_ws(x, y).len() <= s.len(),
        s.subrange(j, j + spec_render_point_ws(x, y).len() as int) == spec_render_point_ws(x, y),
        j + spec_render_point_ws(x, y).len() < s.len() ==> num_boundary(
            s[j + spec_render_point_ws(x, y).len()],
        ),
    ensures
        spec_parse_point(s, i) == Some(
            ((x, y), spec_skip_ws(s, j + spec_render_point_ws(x, y).len())),
        ),
{
    let pt = spec_render_point_ws(x, y);
    let l = pt.len() as int;
    let rx = spec_render_num(x);
    let ry = spec_render_num(y);
    lemma_render_num_chars(x);
    lemma_render_num_chars(y);
    assert(forall|k: int| 0 <= k < l ==> s[j + k] == #[trigger] pt[k]) by {
        assert(forall|k: int|
            0 <= k < l ==> s.subrange(j, j + l)[k] == s[j + k] && s.subrange(j, j + l)[k]
                == #[trigger] pt[k]);
    };
    assert(forall|k: int| 0 <= k < rx.len() ==> pt[k] == #[trigger] rx[k]) by {
        assert(forall|k: int|
            0 <= k < rx.len() ==> pt[k] == (spec_render_num(x) + seq![' ' as u8])[k]);
    };
    assert(pt[rx.len() as int] == ' ' as u8) by {
        assert(pt[rx.len() as int] == (spec_render_num(x) + seq![' ' as u8])[rx.len() as int]);
    };
    assert(forall|k: int| 0 <= k < ry.len() ==> pt[rx.len() + 1 + k] == #[trigger] ry[k]);
    let e1 = j + rx.len() as int;
    assert(s.subrange(j, e1) =~= rx);
    assert(s[e1] == ' ' as u8);
    lemma_render_num_at(s, j, x);
    assert(s[e1 + 1] == ry[0]);
    assert(spec_skip_ws(s, e1) == spec_skip_ws(s, e1 + 1));
    assert(spec_skip_ws(s, e1 + 1) == e1 + 1);
    assert(s.subrange(e1 + 1, j + l) =~= ry);
    lemma_render_num_at(s, e1 + 1, y);
}

/// Serialize-then-parse identity for one trimmed number sitting at `j`,
/// where parsing starts at `i` and only whitespace separates `i` from `j`.
pub proof fn lemma_render_number_at(s: Seq<u8>, i: int, j: int, n: Num)
    requires
        n.wf(),
        0 <= i <= j,
        spec_skip_ws(s, i) == j,
        j + spec_render_num(n).len() <= s.len(),
        s.subrange(j, j + spec_render_num(n).len() as int) == spec_render_num(n),
        j + spec_render_num(n).len() < s.len() ==> num_boundary(
            s[j + spec_render_num(n).len()],
        ),
    ensures
        spec_parse_number(s, i) == Some(
            (n, spec_skip_ws(s, j + spec_render_num(n).len())),
        ),
{
    lemma_render_num_at(s, j, n);
}

/// Serialize-then-parse identity for one rendered flag byte at `j`, where
/// parsing starts at `i` and only whitespace separates `i` from `j`.
pub proof fn lemma_render_flag_at(s: Seq<u8>, i: int, j: int, b: bool)
    requires
        0 <= i <= j < s.len(),
        spec_skip_ws(s, i) == j,
        s[j] == (if b {
            '1' as u8
        } else {
            '0' as u8
        }),
    ensures
        spec_parse_flag(s, i) == Some((b, spec_skip_ws(s, j + 1))),
{
}

/// A single `0` or `1` byte, trimmed on both sides; `1` means true.
pub open spec fn spec_parse_flag(s: Seq<u8>, i: int) -> Option<(bool, int)> {
    let j = spec_skip_ws(s, i);
    if j < s.len() && (s[j] == '0' as u8 || s[j] == '1' as u8) {
        Some((s[j] == '1' as u8, spec_skip_ws(s, j + 1)))
    } else {
        None
    }
}

/// Reads a boolean flag, exactly as `spec_parse_flag` describes.
pub fn bool_flag(s: &[u8], i: usize) -> (r: Result<(bool, usize), ParseError>)
    requires
        i <= s@.len(),
    ensures
        r matches Ok((b, e)) ==> spec_parse_flag(s@, i as int) == Some((b, e as int)) && i < e
            <= s@.len(),
        r is Err <==> spec_parse_flag(s@, i as int) is None,
{
    let j = skip_ws(s, i);
    if j < s.len() && (s[j] == '0' as u8 || s[j] == '1' as u8) {
        let b = s[j] == '1' as u8;
        let e = skip_ws(s, j + 1);
        Ok((b, e))
    } else {
        Err(ParseError { kind: ErrorKind::Flag, pos: j })
    }
}

} // verus!
