//! Byte spans into a source text, and the source map that turns a byte
//! offset into a line and column.
use crate::text::{
    lemma_utf8_len_mono, lemma_utf8_len_take_step, range_string, str_chars, utf8_len, byte_offsets,
};
use vstd::prelude::*;

verus! {

/// A byte range `start .. start + len` of a source text.
#[derive(Clone, Copy, Debug, PartialEq, Eq, Structural, Hash, PartialOrd, Ord)]
pub struct Span {
    pub start: u32,
    pub len: u32,
}

impl Span {
    /// The zero span, used where no source position applies.
    pub fn dummy() -> (s: Span)
        ensures
            s.start == 0 && s.len == 0,
    {
        Span { start: 0, len: 0 }
    }

    /// Span of `len` bytes starting at `start` (both truncated to 32 bits).
    pub fn new(start: usize, len: usize) -> (s: Span)
        ensures
            s.start == start as u32,
            s.len == len as u32,
    {
        Span { start: start as u32, len: len as u32 }
    }

    /// One past the last byte.
    pub fn end(&self) -> (e: usize)
        requires
            self.start + self.len <= u32::MAX,
        ensures
            e == self.start + self.len,
    {
        (self.start + self.len) as usize
    }

    /// The byte range, as `(start, end)`.
    pub fn range(&self) -> (r: (usize, usize))
        requires
            self.start + self.len <= u32::MAX,
        ensures
            r.0 == self.start,
            r.1 == self.start + self.len,
    {
        (self.start as usize, self.end())
    }

    /// The smallest span covering both `self` and `other`.
    pub fn join(self, other: Span) -> (r: Span)
        requires
            self.start + self.len <= u32::MAX,
            other.start + other.len <= u32::MAX,
        ensures
            r == span_join(self, other),
    {
        let start = if self.start <= other.start {
            self.start
        } else {
            other.start
        };
        let e1 = self.start + self.len;
        let e2 = other.start + other.len;
        let end = if e1 >= e2 {
            e1
        } else {
            e2
        };
        Span { start, len: end - start }
    }
}

/// End of a span, as a mathematical integer.
pub open spec fn span_end(s: Span) -> int {
    s.start + s.len
}

/// A span lies inside the byte limit that `join` and `end` need.
pub open spec fn span_ok(s: Span) -> bool {
    s.start + s.len <= u32::MAX
}

/// The join of two spans: from the smaller start to the larger end.
pub open spec fn span_join(a: Span, b: Span) -> Span {
    let start = if a.start <= b.start {
        a.start
    } else {
        b.start
    };
    let end = if span_end(a) >= span_end(b) {
        span_end(a)
    } else {
        span_end(b)
    };
    Span { start, len: (end - start) as u32 }
}

/// `inner` lies within `outer`.
pub open spec fn span_covers(outer: Span, inner: Span) -> bool {
    outer.start <= inner.start && span_end(inner) <= span_end(outer)
}

/// Joining two spans gives a span that covers both, that is the smallest
/// such span, and that does not depend on the order of the arguments.
pub proof fn law_join_covers(a: Span, b: Span)
    requires
        span_ok(a),
        span_ok(b),
    ensures
        span_covers(span_join(a, b), a),
        span_covers(span_join(a, b), b),
        span_join(a, b) == span_join(b, a),
        span_ok(span_join(a, b)),
        forall|c: Span| span_covers(c, a) && span_covers(c, b) ==> span_covers(c, span_join(a, b)),
{
}

/// Joining is associative.
pub proof fn law_join_assoc(a: Span, b: Span, c: Span)
    requires
        span_ok(a),
        span_ok(b),
        span_ok(c),
    ensures
        span_join(span_join(a, b), c) == span_join(a, span_join(b, c)),
{
}

/// A source text with its name and the positions of its lines.
#[derive(Debug, Clone)]
pub struct SourceMap {
    pub path: String,
    pub source: String,
    line_starts: Vec<u32>,
    chars: Vec<char>,
    offs: Vec<usize>,
    line_chars: Vec<usize>,
}

/// Indices of the chars that begin a line: 0, and one past every `\n`.
pub open spec fn line_start_chars(s: Seq<char>) -> Seq<int>
    decreases s.len(),
{
    if s.len() == 0 {
        seq![0int]
    } else if s.last() == '\n' {
        line_start_chars(s.drop_last()).push(s.len() as int)
    } else {
        line_start_chars(s.drop_last())
    }
}

/// `s` with every trailing `c` removed.
pub open spec fn rstrip_char(s: Seq<char>, c: char) -> Seq<char>
    decreases s.len(),
{
    if s.len() > 0 && s.last() == c {
        rstrip_char(s.drop_last(), c)
    } else {
        s
    }
}

pub proof fn lemma_line_start_chars(s: Seq<char>)
    ensures
        line_start_chars(s).len() >= 1,
        line_start_chars(s)[0] == 0,
        forall|i: int|
            0 <= i < line_start_chars(s).len() ==> 0 <= #[trigger] line_start_chars(s)[i] <= s.len(),
        forall|i: int, j: int|
            0 <= i < j < line_start_chars(s).len() ==> line_start_chars(s)[i]
                < line_start_chars(s)[j],
    decreases s.len(),
{
    if s.len() > 0 {
        lemma_line_start_chars(s.drop_last());
    }
}

impl SourceMap {
    /// Internal consistency: the char and byte views of `source` and the
    /// line tables agree.
    pub closed spec fn wf(&self) -> bool {
        &&& self.chars@ == self.source@
        &&& utf8_len(self.source@) < u32::MAX
        &&& self.offs@.len() == self.chars@.len() + 1
        &&& forall|i: int|
            0 <= i <= self.chars@.len() ==> self.offs@[i] == utf8_len(
                #[trigger] self.chars@.take(i),
            )
        &&& self.line_chars@.len() == line_start_chars(self.chars@).len()
        &&& forall|i: int|
            0 <= i < self.line_chars@.len() ==> self.line_chars@[i] == #[trigger] line_start_chars(
                self.chars@,
            )[i]
        &&& self.line_starts@.len() == self.line_chars@.len()
        &&& forall|i: int|
            0 <= i < self.line_starts@.len() ==> self.line_starts@[i] == #[trigger] self.offs@[(
            self.line_chars@[i]) as int]
    }

    /// The source text.
    pub closed spec fn text(&self) -> Seq<char> {
        self.source@
    }

    /// The path the source was read from.
    pub closed spec fn path_view(&self) -> Seq<char> {
        self.path@
    }

    /// Number of lines (one more than the number of `\n`).
    pub closed spec fn line_count(&self) -> nat {
        self.line_chars@.len()
    }

    /// Byte length of the source.
    pub closed spec fn byte_len(&self) -> nat {
        utf8_len(self.source@)
    }

    /// Char index at which line `k` (0-based) starts.
    pub closed spec fn line_start_char(&self, k: int) -> int {
        self.line_chars@[k] as int
    }

    /// Build the map for `source`, recording where each line starts.
    pub fn new(path: &str, source: &str) -> (m: SourceMap)
        requires
            utf8_len(source@) < u32::MAX,
        ensures
            m.wf(),
            m.path_view() == path@,
            m.text() == source@,
            m.line_count() == line_start_chars(source@).len(),
    {
        let chars = str_chars(source);
        let offs = byte_offsets(chars.as_slice());
        let mut line_chars: Vec<usize> = Vec::new();
        let mut line_starts: Vec<u32> = Vec::new();
        line_chars.push(0);
        line_starts.push(0);
        assert(chars@.take(0) =~= Seq::<char>::empty());
        assert(line_start_chars(chars@.take(0)) =~= seq![0int]);
        let mut i: usize = 0;
        while i < chars.len()
            invariant
                i <= chars@.len(),
                offs@.len() == chars@.len() + 1,
                forall|k: int|
                    0 <= k <= chars@.len() ==> offs@[k] == utf8_len(#[trigger] chars@.take(k)),
                utf8_len(chars@) < u32::MAX,
                line_chars@.len() == line_start_chars(chars@.take(i as int)).len(),
                forall|k: int|
                    0 <= k < line_chars@.len() ==> line_chars@[k] == #[trigger] line_start_chars(
                        chars@.take(i as int),
                    )[k],
                line_starts@.len() == line_chars@.len(),
                forall|k: int| 0 <= k < line_chars@.len() ==> #[trigger] line_chars@[k] <= chars@.len(),
                forall|k: int|
                    0 <= k < line_starts@.len() ==> #[trigger] line_starts@[k] == offs@[(
                    line_chars@[k]) as int],
            decreases chars@.len() - i,
        {
            let c = chars[i];
            let ghost prev = chars@.take(i as int);
            proof {
                assert(chars@.take(i + 1).drop_last() =~= prev);
                lemma_line_start_chars(prev);
            }
            if c == '\n' {
                proof {
                    lemma_utf8_len_mono(chars@, i + 1, chars@.len() as int);
                    assert(chars@.take(chars@.len() as int) =~= chars@);
                }
                let o = offs[i + 1];
                let ghost old_starts = line_starts@;
                let ghost old_chars = line_chars@;
                assert(o < u32::MAX);
                line_chars.push(i + 1);
                line_starts.push(o as u32);
                assert forall|k: int| 0 <= k < line_starts@.len() implies #[trigger] line_starts@[k]
                    == offs@[(line_chars@[k]) as int] by {
                    if k < line_starts@.len() - 1 {
                        assert(line_starts@[k] == old_starts[k]);
                        assert(line_chars@[k] == old_chars[k]);
                        assert(old_starts[k] == offs@[(old_chars[k]) as int]);
                    } else {
                        assert(line_chars@[k] == i + 1);
                        assert(line_starts@[k] == o as u32);
                        assert(o == offs@[i + 1]);
                    }
                }
                assert(chars@.take(i + 1).last() == '\n');
                assert(line_start_chars(chars@.take(i + 1)) == line_start_chars(prev).push(i + 1));
            } else {
                assert(chars@.take(i + 1).last() != '\n');
            }
            i = i + 1;
        }
        assert(chars@.take(chars@.len() as int) =~= chars@);
        SourceMap {
            path: path.to_string(),
            source: source.to_string(),
            line_starts,
            chars,
            offs,
            line_chars,
        }
    }

    /// Index of the last line whose start is at or before byte `offset`.
    fn line_index(&self, offset: u32) -> (idx: usize)
        requires
            self.wf(),
        ensures
            idx < self.line_count(),
            self.line_starts@[idx as int] <= offset,
            idx + 1 < self.line_count() ==> self.line_starts@[idx + 1] > offset,
    {
        proof {
            lemma_line_start_chars(self.chars@);
            self.lemma_line_starts_increasing();
        }
        let mut lo: usize = 0;
        let mut hi: usize = self.line_starts.len();
        // line_starts[lo] <= offset, and every index >= hi is past offset.
        while lo + 1 < hi
            invariant
                self.wf(),
                0 <= lo < hi <= self.line_starts@.len(),
                self.line_starts@[lo as int] <= offset,
                hi < self.line_starts@.len() ==> self.line_starts@[hi as int] > offset,
                forall|a: int, b: int|
                    0 <= a < b < self.line_starts@.len() ==> self.line_starts@[a]
                        < self.line_starts@[b],
            decreases hi - lo,
        {
            let mid = lo + (hi - lo) / 2;
            if self.line_starts[mid] <= offset {
                lo = mid;
            } else {
                hi = mid;
            }
        }
        lo
    }

    proof fn lemma_line_starts_increasing(&self)
        requires
            self.wf(),
        ensures
            forall|a: int, b: int|
                0 <= a < b < self.line_starts@.len() ==> self.line_starts@[a]
                    < self.line_starts@[b],
            self.line_starts@[0] == 0,
    {
        lemma_line_start_chars(self.chars@);
        assert forall|a: int, b: int|
            0 <= a < b < self.line_starts@.len() implies self.line_starts@[a]
            < self.line_starts@[b] by {
            let ca = self.line_chars@[a] as int;
            let cb = self.line_chars@[b] as int;
            assert(line_start_chars(self.chars@)[a] < line_start_chars(self.chars@)[b]);
            lemma_utf8_len_mono(self.chars@, ca, cb);
            assert(self.chars@.take(ca) =~= self.chars@.take(ca));
        }
        assert(self.chars@.take(0) =~= Seq::<char>::empty());
    }

    /// Char index whose byte offset is exactly `b`, if `b` is a char
    /// boundary.
    fn char_at_byte(&self, b: usize) -> (r: Option<usize>)
        requires
            self.wf(),
        ensures
            r matches Some(k) ==> k <= self.chars@.len() && self.offs@[k as int] == b,
            r is None ==> forall|k: int| 0 <= k <= self.chars@.len() ==> self.offs@[k] != b,
    {
        proof {
            assert forall|x: int, y: int|
                0 <= x < y <= self.chars@.len() implies self.offs@[x] < self.offs@[y] by {
                lemma_utf8_len_mono(self.chars@, x, y);
            }
        }
        let mut lo: usize = 0;
        let mut hi: usize = self.offs.len();
        while lo < hi
            invariant
                self.wf(),
                0 <= lo <= hi <= self.offs@.len(),
                forall|k: int| 0 <= k < lo ==> self.offs@[k] < b,
                forall|k: int| hi <= k < self.offs@.len() ==> self.offs@[k] > b,
                forall|x: int, y: int|
                    0 <= x < y <= self.chars@.len() ==> self.offs@[x] < self.offs@[y],
            decreases hi - lo,
        {
            let mid = lo + (hi - lo) / 2;
            let v = self.offs[mid];
            if v == b {
                return Some(mid);
            } else if v < b {
                lo = mid + 1;
            } else {
                hi = mid;
            }
        }
        None
    }

    /// Line `l` (1-based) holds byte `offset`: it is the last line that
    /// starts at or before it.
    pub open spec fn holds_line(&self, offset: int, l: int) -> bool {
        &&& 1 <= l <= self.line_count()
        &&& self.line_start_byte(l - 1) <= offset
        &&& l < self.line_count() ==> self.line_start_byte(l) > offset
    }

    /// The line (1-based) that holds byte `offset`.
    pub open spec fn line_of(&self, offset: int) -> int {
        choose|l: int| self.holds_line(offset, l)
    }

    /// The char at index `k` begins at byte `offset`.
    pub open spec fn starts_char(&self, k: int, offset: int) -> bool {
        0 <= k <= self.text().len() && utf8_len(self.text().take(k)) == offset
    }

    /// Column (1-based, in chars) of byte `offset` on line `line`: one more
    /// than the number of chars from the line's start to the char that
    /// begins at `offset`; 1 when no char begins there.
    pub open spec fn col_of(&self, line: int, offset: int) -> int {
        if exists|k: int| self.starts_char(k, offset) {
            let k = choose|k: int| self.starts_char(k, offset);
            if k >= self.line_start_char(line - 1) {
                k - self.line_start_char(line - 1) + 1
            } else {
                1
            }
        } else {
            1
        }
    }

    /// 1-based line and column (in chars) of byte `offset`. The column is 1
    /// when `offset` falls inside a multi-byte char.
    pub fn line_col(&self, offset: u32) -> (r: (usize, usize))
        requires
            self.wf(),
            offset <= self.byte_len(),
        ensures
            1 <= r.0 <= self.line_count(),
            r.1 >= 1,
            self.line_start_byte((r.0 - 1) as int) <= offset,
            r.0 < self.line_count() ==> self.line_start_byte(r.0 as int) > offset,
            r.0 == self.line_of(offset as int),
            r.1 == self.col_of(r.0 as int, offset as int),
    {
        let idx = self.line_index(offset);
        let nlines = self.line_chars.len();
        let noffs = self.offs.len();
        let line_char = self.line_chars[idx];
        proof {
            lemma_line_start_chars(self.chars@);
            assert(self.chars@.take(self.chars@.len() as int) =~= self.chars@);
            self.lemma_line_starts_increasing();
            let o = offset as int;
            assert(self.holds_line(o, idx + 1));
            assert forall|l: int| self.holds_line(o, l) implies l == idx + 1 by {
                if l < idx + 1 {
                    assert(self.line_starts@[l - 1] <= offset);
                    if l < idx {
                        assert(self.line_starts@[l as int] < self.line_starts@[idx as int]);
                    }
                }
                if l > idx + 1 {
                    assert(self.line_starts@[idx + 1] <= self.line_starts@[l - 1]);
                }
            }
            assert(self.line_of(o) == idx + 1);
            assert forall|x: int, y: int|
                0 <= x < y <= self.chars@.len() implies self.offs@[x] < self.offs@[y] by {
                lemma_utf8_len_mono(self.chars@, x, y);
            }
        }
        let ck = self.char_at_byte(offset as usize);
        let col = match ck {
            Some(k) => {
                if k >= line_char {
                    k - line_char
                } else {
                    0
                }
            },
            None => 0,
        };
        proof {
            let o = offset as int;
            match ck {
                Some(k) => {
                    assert(self.chars@.take(k as int) == self.text().take(k as int));
                    assert(self.starts_char(k as int, o));
                    assert forall|j: int| self.starts_char(j, o) implies j == k by {
                        assert(self.chars@.take(j) == self.text().take(j));
                        assert(self.offs@[j] == o);
                    }
                },
                None => {
                    assert forall|j: int| !self.starts_char(j, o) by {
                        if 0 <= j <= self.text().len() {
                            assert(self.chars@.take(j) == self.text().take(j));
                            assert(self.offs@[j] != o);
                        }
                    }
                },
            }
        }
        (idx + 1, col + 1)
    }

    /// Byte offset at which line `k` (0-based) starts.
    pub closed spec fn line_start_byte(&self, k: int) -> int {
        self.line_starts@[k] as int
    }

    /// Text of line `line` (1-based) without its trailing line break.
    pub open spec fn line_text_spec(&self, line: int) -> Seq<char> {
        rstrip_char(
            rstrip_char(
                self.text().subrange(
                    self.line_start_char(line - 1),
                    if line < self.line_count() {
                        self.line_start_char(line)
                    } else {
                        self.text().len() as int
                    },
                ),
                '\n',
            ),
            '\r',
        )
    }

    /// Text of line `line` (1-based) without its trailing line break.
    pub fn line_text(&self, line: usize) -> (s: String)
        requires
            self.wf(),
            1 <= line <= self.line_count(),
        ensures
            s@ == self.line_text_spec(line as int),
    {
        proof {
            lemma_line_start_chars(self.chars@);
        }
        let a = self.line_chars[line - 1];
        assert(a == line_start_chars(self.chars@)[line - 1]);
        let b0 = if line < self.line_chars.len() {
            assert(self.line_chars@[line as int] == line_start_chars(self.chars@)[line as int]);
            self.line_chars[line]
        } else {
            self.chars.len()
        };
        let ghost whole = self.chars@.subrange(a as int, b0 as int);
        let mut b = b0;
        while b > a && self.chars[b - 1] == '\n'
            invariant
                a <= b <= b0 <= self.chars@.len(),
                rstrip_char(whole, '\n') == rstrip_char(
                    self.chars@.subrange(a as int, b as int),
                    '\n',
                ),
            decreases b - a,
        {
            assert(self.chars@.subrange(a as int, b as int).drop_last() =~= self.chars@.subrange(
                a as int,
                b - 1,
            ));
            b = b - 1;
        }
        assert(rstrip_char(self.chars@.subrange(a as int, b as int), '\n')
            == self.chars@.subrange(a as int, b as int));
        let ghost mid = self.chars@.subrange(a as int, b as int);
        while b > a && self.chars[b - 1] == '\r'
            invariant
                a <= b <= b0 <= self.chars@.len(),
                rstrip_char(mid, '\r') == rstrip_char(self.chars@.subrange(a as int, b as int), '\r'),
            decreases b - a,
        {
            assert(self.chars@.subrange(a as int, b as int).drop_last() =~= self.chars@.subrange(
                a as int,
                b - 1,
            ));
            b = b - 1;
        }
        range_string(self.chars.as_slice(), a, b)
    }

    /// The path the source was read from.
    pub fn path_str(&self) -> (p: &str)
        ensures
            p@ == self.path_view(),
    {
        self.path.as_str()
    }

    /// The source text.
    pub fn source_str(&self) -> (p: &str)
        ensures
            p@ == self.text(),
    {
        self.source.as_str()
    }

    /// Char index of byte offset `b`, if `b` is a char boundary.
    pub fn char_index_of_byte(&self, b: usize) -> (r: Option<usize>)
        requires
            self.wf(),
        ensures
            r matches Some(k) ==> k <= self.text().len() && utf8_len(self.text().take(k as int)) == b,
            r is None ==> forall|k: int| 0 <= k <= self.text().len() ==> utf8_len(#[trigger] self.text().take(k)) != b,
    {
        let r = self.char_at_byte(b);
        proof {
            if r is None {
                assert forall|k: int| 0 <= k <= self.text().len() implies utf8_len(#[trigger] self.text().take(k)) != b by {
                    assert(self.chars@.take(k) == self.text().take(k));
                    assert(self.offs@[k] != b);
                }
            }
        }
        r
    }

    /// The source as chars.
    pub fn source_chars(&self) -> (v: &[char])
        requires
            self.wf(),
        ensures
            v@ == self.text(),
    {
        self.chars.as_slice()
    }

    /// Byte length of the source.
    pub fn len_bytes(&self) -> (n: usize)
        requires
            self.wf(),
        ensures
            n == self.byte_len(),
    {
        proof {
            assert(self.chars@.take(self.chars@.len() as int) =~= self.chars@);
        }
        self.offs[self.chars.len()]
    }

    /// Byte offset of each char boundary of the source.
    pub fn byte_offset_table(&self) -> (v: &[usize])
        requires
            self.wf(),
        ensures
            v@.len() == self.text().len() + 1,
            forall|i: int|
                0 <= i <= self.text().len() ==> v@[i] == utf8_len(#[trigger] self.text().take(i)),
            utf8_len(self.text()) < u32::MAX,
    {
        self.offs.as_slice()
    }
}

} // verus!
