//! Character-level text helpers shared by every module.
//!
//! Text is processed as `Vec<char>` (a `Seq<char>` view) and turned back
//! into a `String` at the public boundary. Byte offsets, which spans and
//! diagnostics use, are derived from the UTF-8 width of each char.
use vstd::prelude::*;

verus! {

/// The characters of a string, in order.
///
/// Trusted: calls `str::chars` and collects; the standard library documents
/// that the iterator yields exactly the string's chars.
#[verifier::external_body]
pub(crate) fn str_chars(s: &str) -> (v: Vec<char>)
    ensures
        v@ == s@,
{
    s.chars().collect()
}

/// A string made of the given characters.
///
/// Trusted: collects the chars into a `String` (`FromIterator<&char>`),
/// which by the standard library's documentation appends each char in order.
#[verifier::external_body]
pub(crate) fn chars_to_string(v: &[char]) -> (s: String)
    ensures
        s@ == v@,
{
    v.iter().collect()
}

/// Number of bytes the UTF-8 encoding of `c` takes.
pub open spec fn char_width(c: char) -> nat {
    if (c as u32) < 0x80 {
        1
    } else if (c as u32) < 0x800 {
        2
    } else if (c as u32) < 0x10000 {
        3
    } else {
        4
    }
}

/// Number of bytes of the UTF-8 encoding of a char sequence.
pub open spec fn utf8_len(s: Seq<char>) -> nat
    decreases s.len(),
{
    if s.len() == 0 {
        0
    } else {
        utf8_len(s.drop_last()) + char_width(s.last())
    }
}

pub proof fn lemma_utf8_len_push(s: Seq<char>, c: char)
    ensures
        utf8_len(s.push(c)) == utf8_len(s) + char_width(c),
{
    assert(s.push(c).drop_last() =~= s);
}

pub proof fn lemma_utf8_len_take_step(s: Seq<char>, i: int)
    requires
        0 <= i < s.len(),
    ensures
        utf8_len(s.take(i + 1)) == utf8_len(s.take(i)) + char_width(s[i]),
{
    assert(s.take(i + 1).drop_last() =~= s.take(i));
}

pub proof fn lemma_utf8_len_mono(s: Seq<char>, i: int, j: int)
    requires
        0 <= i <= j <= s.len(),
    ensures
        utf8_len(s.take(i)) <= utf8_len(s.take(j)),
        utf8_len(s.take(i)) + (j - i) <= utf8_len(s.take(j)),
    decreases j - i,
{
    if i < j {
        lemma_utf8_len_mono(s, i, j - 1);
        lemma_utf8_len_take_step(s, j - 1);
    }
}

/// UTF-8 width of one char.
pub fn char_len_utf8(c: char) -> (n: usize)
    ensures
        n == char_width(c),
        1 <= n <= 4,
{
    let u = c as u32;
    if u < 0x80 {
        1
    } else if u < 0x800 {
        2
    } else if u < 0x10000 {
        3
    } else {
        4
    }
}

/// Byte offset of every char boundary: `offs[i]` is the UTF-8 length of
/// the first `i` chars; the last entry is the length of the whole text.
pub fn byte_offsets(s: &[char]) -> (offs: Vec<usize>)
    requires
        utf8_len(s@) <= usize::MAX,
    ensures
        offs@.len() == s@.len() + 1,
        forall|i: int| 0 <= i <= s@.len() ==> offs@[i] == utf8_len(#[trigger] s@.take(i)),
{
    let mut offs: Vec<usize> = Vec::new();
    let mut acc: usize = 0;
    offs.push(0);
    let mut i: usize = 0;
    assert(s@.take(0) =~= Seq::<char>::empty());
    assert(s@.take(s@.len() as int) =~= s@);
    while i < s.len()
        invariant
            i <= s@.len(),
            offs@.len() == i + 1,
            acc == utf8_len(s@.take(i as int)),
            utf8_len(s@) <= usize::MAX,
            s@.take(s@.len() as int) =~= s@,
            forall|k: int| 0 <= k <= i ==> offs@[k] == utf8_len(#[trigger] s@.take(k)),
        decreases s@.len() - i,
    {
        proof {
            lemma_utf8_len_take_step(s@, i as int);
            lemma_utf8_len_mono(s@, i as int + 1, s@.len() as int);
        }
        let w = char_len_utf8(s[i]);
        acc = acc + w;
        i = i + 1;
        offs.push(acc);
    }
    offs
}

/// Append all of `src` to `out`.
pub fn push_all(out: &mut Vec<char>, src: &[char])
    ensures
        final(out)@ == old(out)@ + src@,
{
    let mut i: usize = 0;
    while i < src.len()
        invariant
            i <= src@.len(),
            out@ == old(out)@ + src@.take(i as int),
        decreases src@.len() - i,
    {
        out.push(src[i]);
        i = i + 1;
        assert(src@.take(i as int) =~= src@.take(i - 1).push(src@[i - 1]));
    }
    assert(src@.take(src@.len() as int) =~= src@);
}

/// Append the characters of a string to `out`.
pub fn push_str(out: &mut Vec<char>, s: &str)
    ensures
        final(out)@ == old(out)@ + s@,
{
    let v = str_chars(s);
    push_all(out, v.as_slice());
}

/// Append `src[from..to]` to `out`.
pub fn push_range(out: &mut Vec<char>, src: &[char], from: usize, to: usize)
    requires
        from <= to <= src@.len(),
    ensures
        final(out)@ == old(out)@ + src@.subrange(from as int, to as int),
{
    let mut i: usize = from;
    while i < to
        invariant
            from <= i <= to,
            to <= src@.len(),
            out@ == old(out)@ + src@.subrange(from as int, i as int),
        decreases to - i,
    {
        out.push(src[i]);
        i = i + 1;
        assert(src@.subrange(from as int, i as int) =~= src@.subrange(from as int, i - 1).push(
            src@[i - 1],
        ));
    }
}

/// A fresh vector holding `src[from..to]`.
pub fn copy_range(src: &[char], from: usize, to: usize) -> (v: Vec<char>)
    requires
        from <= to <= src@.len(),
    ensures
        v@ == src@.subrange(from as int, to as int),
{
    let mut v: Vec<char> = Vec::new();
    push_range(&mut v, src, from, to);
    assert(Seq::<char>::empty() + src@.subrange(from as int, to as int) =~= src@.subrange(
        from as int,
        to as int,
    ));
    v
}

/// The string made of `src[from..to]`.
pub fn range_string(src: &[char], from: usize, to: usize) -> (s: String)
    requires
        from <= to <= src@.len(),
    ensures
        s@ == src@.subrange(from as int, to as int),
{
    let v = copy_range(src, from, to);
    chars_to_string(v.as_slice())
}

/// `pat` occurs in `s` starting at index `i`.
pub open spec fn matches_at(s: Seq<char>, i: int, pat: Seq<char>) -> bool {
    0 <= i && i + pat.len() <= s.len() && s.subrange(i, i + pat.len()) == pat
}

/// UTF-8 length of `s`, if it fits in a `usize`.
pub fn utf8_len_exec(s: &[char]) -> (r: Option<usize>)
    ensures
        r matches Some(n) ==> n == utf8_len(s@),
        r is None ==> utf8_len(s@) > usize::MAX,
{
    let mut acc: usize = 0;
    let mut i: usize = 0;
    while i < s.len()
        invariant
            i <= s@.len(),
            acc == utf8_len(s@.take(i as int)),
        decreases s@.len() - i,
    {
        proof {
            lemma_utf8_len_take_step(s@, i as int);
        }
        let w = char_len_utf8(s[i]);
        if acc > usize::MAX - w {
            proof {
                lemma_utf8_len_mono(s@, i + 1, s@.len() as int);
                assert(s@.take(s@.len() as int) =~= s@);
            }
            return None;
        }
        acc = acc + w;
        i = i + 1;
    }
    assert(s@.take(s@.len() as int) =~= s@);
    Some(acc)
}

/// Does `pat` occur in `s` at index `i`?
pub fn starts_at(s: &[char], i: usize, pat: &[char]) -> (r: bool)
    ensures
        r == matches_at(s@, i as int, pat@),
{
    if i > s.len() || pat.len() > s.len() - i {
        return false;
    }
    let mut k: usize = 0;
    while k < pat.len()
        invariant
            k <= pat@.len(),
            i + pat@.len() <= s@.len(),
            i + pat@.len() <= s.len(),
            forall|j: int| 0 <= j < k ==> s@[i + j] == pat@[j],
        decreases pat@.len() - k,
    {
        if s[i + k] != pat[k] {
            assert(s@.subrange(i as int, i + pat@.len())[k as int] != pat@[k as int]);
            return false;
        }
        k = k + 1;
    }
    assert(s@.subrange(i as int, i + pat@.len()) =~= pat@);
    true
}

/// Does the string `s` start at index `i` of `text`?
pub fn starts_at_str(text: &[char], i: usize, s: &str) -> (r: bool)
    ensures
        r == matches_at(text@, i as int, s@),
{
    let p = str_chars(s);
    starts_at(text, i, p.as_slice())
}

/// Are the two char sequences equal?
pub fn chars_eq(a: &[char], b: &[char]) -> (r: bool)
    ensures
        r == (a@ == b@),
{
    if a.len() != b.len() {
        return false;
    }
    let r = starts_at(a, 0, b);
    assert(a@.subrange(0, b@.len() as int) =~= a@);
    r
}

/// Is `a` equal to the string `s`?
pub fn chars_eq_str(a: &[char], s: &str) -> (r: bool)
    ensures
        r == (a@ == s@),
{
    let b = str_chars(s);
    chars_eq(a, b.as_slice())
}

/// Are two strings equal?
pub fn str_eq(a: &str, b: &str) -> (r: bool)
    ensures
        r == (a@ == b@),
{
    let x = str_chars(a);
    let y = str_chars(b);
    chars_eq(x.as_slice(), y.as_slice())
}

/// `c` is an ASCII space or tab.
pub open spec fn is_blank_char(c: char) -> bool {
    c == ' ' || c == '\t'
}

/// Unicode whitespace as `char::is_whitespace` defines it.
pub open spec fn is_ws(c: char) -> bool {
    c == ' ' || c == '\t' || c == '\n' || c == '\r' || c == '\u{b}' || c == '\u{c}' || c
        == '\u{85}' || c == '\u{a0}' || c == '\u{1680}' || (c as u32 >= 0x2000 && c as u32
        <= 0x200a) || c == '\u{2028}' || c == '\u{2029}' || c == '\u{202f}' || c == '\u{205f}'
        || c == '\u{3000}'
}

/// `char::is_whitespace`.
pub fn char_is_ws(c: char) -> (r: bool)
    ensures
        r == is_ws(c),
{
    let u = c as u32;
    c == ' ' || c == '\t' || c == '\n' || c == '\r' || c == '\u{b}' || c == '\u{c}' || c
        == '\u{85}' || c == '\u{a0}' || c == '\u{1680}' || (u >= 0x2000 && u <= 0x200a) || c
        == '\u{2028}' || c == '\u{2029}' || c == '\u{202f}' || c == '\u{205f}' || c == '\u{3000}'
}

/// First index at or after `from` whose char is not whitespace (or `to`).
pub open spec fn skip_ws_fwd(s: Seq<char>, from: int, to: int) -> int
    decreases to - from,
{
    if from >= to {
        to
    } else if is_ws(s[from]) {
        skip_ws_fwd(s, from + 1, to)
    } else {
        from
    }
}

/// One past the last index before `to` whose char is not whitespace.
pub open spec fn skip_ws_back(s: Seq<char>, from: int, to: int) -> int
    decreases to - from,
{
    if to <= from {
        from
    } else if is_ws(s[to - 1]) {
        skip_ws_back(s, from, to - 1)
    } else {
        to
    }
}

pub proof fn lemma_skip_ws_fwd_bounds(s: Seq<char>, from: int, to: int)
    requires
        from <= to,
    ensures
        from <= skip_ws_fwd(s, from, to) <= to,
    decreases to - from,
{
    if from < to && is_ws(s[from]) {
        lemma_skip_ws_fwd_bounds(s, from + 1, to);
    }
}

pub proof fn lemma_skip_ws_back_bounds(s: Seq<char>, from: int, to: int)
    requires
        from <= to,
    ensures
        from <= skip_ws_back(s, from, to) <= to,
    decreases to - from,
{
    if from < to && is_ws(s[to - 1]) {
        lemma_skip_ws_back_bounds(s, from, to - 1);
    }
}

/// Bounds `(a, b)` of `s[from..to]` with surrounding whitespace removed,
/// as `str::trim` does.
pub fn trim_bounds(s: &[char], from: usize, to: usize) -> (r: (usize, usize))
    requires
        from <= to <= s@.len(),
    ensures
        r.0 == skip_ws_fwd(s@, from as int, to as int),
        r.1 == skip_ws_back(s@, r.0 as int, to as int),
        from <= r.0 <= r.1 <= to,
{
    let mut a = from;
    while a < to && char_is_ws(s[a])
        invariant
            from <= a <= to,
            to <= s@.len(),
            skip_ws_fwd(s@, from as int, to as int) == skip_ws_fwd(s@, a as int, to as int),
        decreases to - a,
    {
        a = a + 1;
    }
    let mut b = to;
    while b > a && char_is_ws(s[b - 1])
        invariant
            a <= b <= to,
            to <= s@.len(),
            skip_ws_back(s@, a as int, to as int) == skip_ws_back(s@, a as int, b as int),
        decreases b - a,
    {
        b = b - 1;
    }
    (a, b)
}

/// `s[from..to]` trimmed of surrounding whitespace.
pub open spec fn trimmed(s: Seq<char>, from: int, to: int) -> Seq<char> {
    let a = skip_ws_fwd(s, from, to);
    s.subrange(a, skip_ws_back(s, a, to))
}

/// Is `s[from..to]` blank (only whitespace)?
pub fn is_blank_range(s: &[char], from: usize, to: usize) -> (r: bool)
    requires
        from <= to <= s@.len(),
    ensures
        r == (skip_ws_fwd(s@, from as int, to as int) == to),
{
    let (a, _b) = trim_bounds(s, from, to);
    a == to
}

/// Is `s[from..to]` equal to `lit` once trimmed of whitespace?
pub fn trimmed_eq(s: &[char], from: usize, to: usize, lit: &str) -> (r: bool)
    requires
        from <= to <= s@.len(),
    ensures
        r == (trimmed(s@, from as int, to as int) == lit@),
{
    let (a, b) = trim_bounds(s, from, to);
    let p = str_chars(lit);
    if b - a != p.len() {
        assert(trimmed(s@, from as int, to as int).len() != lit@.len());
        return false;
    }
    let r = starts_at(s, a, p.as_slice());
    r
}

/// Position of the first occurrence of `pat` in `s` at or after `from`.
pub open spec fn find_from(s: Seq<char>, from: int, pat: Seq<char>) -> Option<int>
    decreases s.len() + 1 - from,
{
    if from < 0 || from + pat.len() > s.len() {
        None
    } else if matches_at(s, from, pat) {
        Some(from)
    } else {
        find_from(s, from + 1, pat)
    }
}

pub proof fn lemma_find_from_bounds(s: Seq<char>, from: int, pat: Seq<char>)
    requires
        0 <= from,
    ensures
        find_from(s, from, pat) matches Some(k) ==> from <= k && k + pat.len() <= s.len()
            && matches_at(s, k, pat),
    decreases s.len() + 1 - from,
{
    if from + pat.len() <= s.len() && !matches_at(s, from, pat) {
        lemma_find_from_bounds(s, from + 1, pat);
    }
}

/// First occurrence of `pat` in `s` at or after `from`.
pub fn find_chars(s: &[char], from: usize, pat: &[char]) -> (r: Option<usize>)
    ensures
        r matches Some(k) ==> find_from(s@, from as int, pat@) == Some(k as int),
        r is None ==> find_from(s@, from as int, pat@) is None,
{
    if pat.len() == 0 {
        if from <= s.len() {
            assert(s@.subrange(from as int, from as int) =~= pat@);
            return Some(from);
        }
        return None;
    }
    let mut i = from;
    while i <= s.len() && pat.len() <= s.len() - i
        invariant
            from <= i,
            pat@.len() >= 1,
            find_from(s@, from as int, pat@) == find_from(s@, i as int, pat@),
        decreases s@.len() - i,
    {
        if starts_at(s, i, pat) {
            return Some(i);
        }
        i = i + 1;
    }
    None
}

/// First occurrence of the string `pat` in `s` at or after `from`.
pub fn find_str(s: &[char], from: usize, pat: &str) -> (r: Option<usize>)
    ensures
        r matches Some(k) ==> find_from(s@, from as int, pat@) == Some(k as int),
        r is None ==> find_from(s@, from as int, pat@) is None,
{
    let p = str_chars(pat);
    find_chars(s, from, p.as_slice())
}

/// ASCII digit.
pub open spec fn is_digit(c: char) -> bool {
    '0' <= c && c <= '9'
}

/// ASCII letter.
pub open spec fn is_alpha(c: char) -> bool {
    ('a' <= c && c <= 'z') || ('A' <= c && c <= 'Z')
}

/// ASCII lowercase letter.
pub open spec fn is_lower(c: char) -> bool {
    'a' <= c && c <= 'z'
}

pub fn char_is_digit(c: char) -> (r: bool)
    ensures
        r == is_digit(c),
{
    '0' <= c && c <= '9'
}

pub fn char_is_alpha(c: char) -> (r: bool)
    ensures
        r == is_alpha(c),
{
    ('a' <= c && c <= 'z') || ('A' <= c && c <= 'Z')
}

pub fn char_is_lower(c: char) -> (r: bool)
    ensures
        r == is_lower(c),
{
    'a' <= c && c <= 'z'
}

/// Decimal digits of `n`, most significant first.
pub open spec fn dec(n: nat) -> Seq<char>
    decreases n,
{
    if n < 10 {
        seq![digit_char(n)]
    } else {
        dec(n / 10).push(digit_char(n % 10))
    }
}

/// The ASCII digit for `d` (`d < 10`).
pub open spec fn digit_char(d: nat) -> char {
    if d == 0 {
        '0'
    } else if d == 1 {
        '1'
    } else if d == 2 {
        '2'
    } else if d == 3 {
        '3'
    } else if d == 4 {
        '4'
    } else if d == 5 {
        '5'
    } else if d == 6 {
        '6'
    } else if d == 7 {
        '7'
    } else if d == 8 {
        '8'
    } else {
        '9'
    }
}

fn digit(d: usize) -> (c: char)
    requires
        d < 10,
    ensures
        c == digit_char(d as nat),
{
    if d == 0 {
        '0'
    } else if d == 1 {
        '1'
    } else if d == 2 {
        '2'
    } else if d == 3 {
        '3'
    } else if d == 4 {
        '4'
    } else if d == 5 {
        '5'
    } else if d == 6 {
        '6'
    } else if d == 7 {
        '7'
    } else if d == 8 {
        '8'
    } else {
        '9'
    }
}

/// Append the decimal form of `n`.
pub fn push_usize(out: &mut Vec<char>, n: usize)
    ensures
        final(out)@ == old(out)@ + dec(n as nat),
    decreases n,
{
    if n < 10 {
        out.push(digit(n));
    } else {
        push_usize(out, n / 10);
        out.push(digit(n % 10));
    }
}

/// Decimal form of `n`.
pub fn usize_to_string(n: usize) -> (s: String)
    ensures
        s@ == dec(n as nat),
{
    let mut v: Vec<char> = Vec::new();
    push_usize(&mut v, n);
    assert(v@ =~= dec(n as nat));
    chars_to_string(v.as_slice())
}

/// The non-empty pieces between `/`s of `p`, scanning from `i` with the
/// current piece starting at `start`.
pub open spec fn segs_from(p: Seq<char>, start: int, i: int) -> Seq<Seq<char>>
    decreases p.len() - i,
{
    if i >= p.len() {
        if start < p.len() {
            seq![p.subrange(start, p.len() as int)]
        } else {
            seq![]
        }
    } else if p[i] == '/' {
        (if i > start {
            seq![p.subrange(start, i)]
        } else {
            seq![]
        }) + segs_from(p, i + 1, i + 1)
    } else {
        segs_from(p, start, i + 1)
    }
}

/// The components of a `/`-separated path (empty ones dropped).
pub open spec fn path_segments(p: Seq<char>) -> Seq<Seq<char>> {
    segs_from(p, 0, 0)
}

/// The views of a vector of char vectors.
pub open spec fn views(v: Seq<Vec<char>>) -> Seq<Seq<char>> {
    Seq::new(v.len(), |i: int| v[i]@)
}

/// Components joined with `/`.
pub open spec fn join_segs(ks: Seq<Seq<char>>) -> Seq<char>
    decreases ks.len(),
{
    if ks.len() == 0 {
        seq![]
    } else if ks.len() == 1 {
        ks[0]
    } else {
        join_segs(ks.drop_last()) + seq!['/'] + ks.last()
    }
}

/// Components of a `/`-separated path (see `path_segments`).
pub(crate) fn segments(p: &[char]) -> (r: Vec<Vec<char>>)
    ensures
        views(r@) == path_segments(p@),
{
    let mut out: Vec<Vec<char>> = Vec::new();
    let mut start: usize = 0;
    let mut i: usize = 0;
    while i < p.len()
        invariant
            start <= i <= p@.len(),
            views(out@) + segs_from(p@, start as int, i as int) == path_segments(p@),
        decreases p@.len() - i,
    {
        if p[i] == '/' {
            let ghost before = views(out@);
            if i > start {
                out.push(copy_range(p, start, i));
                assert(views(out@) =~= before.push(p@.subrange(start as int, i as int)));
            }
            proof {
                let piece = if i > start { seq![p@.subrange(start as int, i as int)] } else { Seq::<Seq<char>>::empty() };
                assert(before + piece =~= views(out@));
                assert(before + segs_from(p@, start as int, i as int) =~= views(out@) + segs_from(p@, i + 1, i + 1));
            }
            start = i + 1;
        }
        i = i + 1;
    }
    let ghost before = views(out@);
    if start < p.len() {
        out.push(copy_range(p, start, p.len()));
        assert(views(out@) =~= before.push(p@.subrange(start as int, p@.len() as int)));
    } else {
        assert(before + segs_from(p@, start as int, i as int) =~= before);
    }
    out
}

} // verus!
