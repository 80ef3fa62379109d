//! The formatter: canonical layout of a Brief source, line by line. A
//! region scan finds the parts whose insides are left alone (frontmatter,
//! code fences, block comments) or aligned (tables); elsewhere trailing
//! whitespace is stripped and leading tabs become two spaces. Blank-line
//! runs collapse to one, blank edges are trimmed, line endings become `\n`
//! and the result ends with a single newline.
use crate::frontmatter::{toml_parse_table, toml_table_to_string};
use crate::text::{chars_to_string, is_blank_range, push_all, push_range, push_str, starts_at_str, str_chars, trim_bounds};
use vstd::prelude::*;

verus! {

/// Formatter options.
#[derive(Debug, Clone, Copy)]
pub struct Opts {
    /// Re-emit the frontmatter with its top-level keys in order.
    pub sort_frontmatter: bool,
}

impl Default for Opts {
    fn default() -> (o: Opts)
        ensures
            !o.sort_frontmatter,
    {
        Opts { sort_frontmatter: false }
    }
}

/// What a line belongs to.
#[derive(Debug, Clone, Copy, PartialEq, Eq, Structural)]
pub enum Region {
    Default,
    FrontmatterOpen,
    FrontmatterBody,
    FrontmatterClose,
    CodeFenceOpen,
    CodeFenceBody,
    CodeFenceClose,
    BlockComment,
    TableDirective,
    TableRow,
}

/// `s` with CRLF and lone CR turned into LF.
pub open spec fn normalized(s: Seq<char>) -> Seq<char>
    decreases s.len(),
{
    if s.len() == 0 {
        Seq::empty()
    } else if s[0] == '\r' && s.len() > 1 && s[1] == '\n' {
        seq!['\n'] + normalized(s.skip(2))
    } else if s[0] == '\r' {
        seq!['\n'] + normalized(s.skip(1))
    } else {
        seq![s[0]] + normalized(s.skip(1))
    }
}

/// Normalized text holds no carriage return.
pub proof fn law_normalized_has_no_cr(s: Seq<char>)
    ensures
        forall|i: int| 0 <= i < normalized(s).len() ==> #[trigger] normalized(s)[i] != '\r',
    decreases s.len(),
{
    if s.len() > 0 {
        if s[0] == '\r' && s.len() > 1 && s[1] == '\n' {
            law_normalized_has_no_cr(s.skip(2));
            assert forall|i: int| 0 <= i < normalized(s).len() implies #[trigger] normalized(s)[i] != '\r' by {
                if i > 0 {
                    assert(normalized(s)[i] == normalized(s.skip(2))[i - 1]);
                }
            }
        } else {
            law_normalized_has_no_cr(s.skip(1));
            assert forall|i: int| 0 <= i < normalized(s).len() implies #[trigger] normalized(s)[i] != '\r' by {
                if i > 0 {
                    assert(normalized(s)[i] == normalized(s.skip(1))[i - 1]);
                }
            }
        }
    }
}

/// `s` holds no carriage return.
pub open spec fn cr_free(s: Seq<char>) -> bool {
    forall|i: int| 0 <= i < s.len() ==> #[trigger] s[i] != '\r'
}

/// No line of `v` holds a carriage return.
pub open spec fn lines_cr_free(v: Seq<Vec<char>>) -> bool {
    forall|k: int| 0 <= k < v.len() ==> cr_free(#[trigger] v[k]@)
}

/// A piece of a carriage-return-free text is free of them too.
proof fn lemma_cr_free_sub(s: Seq<char>, a: int, b: int)
    requires
        cr_free(s),
        0 <= a <= b <= s.len(),
    ensures
        cr_free(s.subrange(a, b)),
{
    assert forall|i: int| 0 <= i < b - a implies #[trigger] s.subrange(a, b)[i] != '\r' by {
        assert(s.subrange(a, b)[i] == s[a + i]);
    }
}

/// CRLF and lone CR become LF.
pub fn normalize_line_endings(s: &[char]) -> (r: Vec<char>)
    ensures
        r@ == normalized(s@),
{
    let mut out: Vec<char> = Vec::new();
    let mut i: usize = 0;
    proof {
        assert(s@.skip(0) == s@);
        assert(out@ + normalized(s@) == normalized(s@));
    }
    while i < s.len()
        invariant
            i <= s@.len(),
            out@ + normalized(s@.skip(i as int)) == normalized(s@),
        decreases s@.len() - i,
    {
        let ghost t = s@.skip(i as int);
        if s[i] == '\r' {
            out.push('\n');
            if i + 1 < s.len() && s[i + 1] == '\n' {
                proof {
                    assert(t.skip(2) == s@.skip(i + 2));
                }
                i = i + 2;
            } else {
                proof {
                    assert(t.skip(1) == s@.skip(i + 1));
                }
                i = i + 1;
            }
        } else {
            out.push(s[i]);
            proof {
                assert(t.skip(1) == s@.skip(i + 1));
            }
            i = i + 1;
        }
    }
    proof {
        assert(s@.skip(s@.len() as int) == Seq::<char>::empty());
    }
    out
}

/// A space or a tab, or also a carriage return when `cr`.
pub open spec fn trail_char(c: char, cr: bool) -> bool {
    c == ' ' || c == '\t' || (cr && c == '\r')
}

/// `l` without its trailing `trail_char`s.
pub open spec fn rtrim(l: Seq<char>, cr: bool) -> Seq<char>
    decreases l.len(),
{
    if l.len() > 0 && trail_char(l.last(), cr) {
        rtrim(l.drop_last(), cr)
    } else {
        l
    }
}

/// End of the run of spaces and tabs of `l` that starts at `i`.
pub open spec fn indent_end(l: Seq<char>, i: int) -> int
    decreases l.len() - i,
{
    if 0 <= i < l.len() && (l[i] == ' ' || l[i] == '\t') {
        indent_end(l, i + 1)
    } else {
        i
    }
}

/// `s` with each tab written as two spaces.
pub open spec fn detab(s: Seq<char>) -> Seq<char>
    decreases s.len(),
{
    if s.len() == 0 {
        seq![]
    } else {
        detab(s.drop_last()) + if s.last() == '\t' {
            seq![' ', ' ']
        } else {
            seq![s.last()]
        }
    }
}

/// `l` with its leading tabs written as two spaces.
pub open spec fn detab_line(l: Seq<char>) -> Seq<char> {
    let n = indent_end(l, 0);
    detab(l.take(n)) + l.skip(n)
}

/// `l.take(e)` is `rtrim(l, cr)` when the chars past `e` are trailing chars
/// and the one before is not.
proof fn lemma_rtrim(l: Seq<char>, e: int, cr: bool)
    requires
        0 <= e <= l.len(),
        forall|i: int| e <= i < l.len() ==> trail_char(#[trigger] l[i], cr),
        e > 0 ==> !trail_char(l[e - 1], cr),
    ensures
        rtrim(l, cr) == l.take(e),
    decreases l.len() - e,
{
    if e < l.len() {
        let d = l.drop_last();
        assert forall|i: int| e <= i < d.len() implies trail_char(#[trigger] d[i], cr) by {
            assert(d[i] == l[i]);
        }
        lemma_rtrim(d, e, cr);
        assert(d.take(e) =~= l.take(e));
    } else {
        assert(l.take(e) =~= l);
    }
}

/// Number of leading spaces and tabs.
fn leading_indent(line: &[char]) -> (n: usize)
    ensures
        n == indent_end(line@, 0),
        n <= line@.len(),
        forall|i: int| 0 <= i < n ==> line@[i] == ' ' || line@[i] == '\t',
        n < line@.len() ==> line@[n as int] != ' ' && line@[n as int] != '\t',
{
    let mut n: usize = 0;
    while n < line.len() && (line[n] == ' ' || line[n] == '\t')
        invariant
            n <= line@.len(),
            indent_end(line@, 0) == indent_end(line@, n as int),
            forall|i: int| 0 <= i < n ==> line@[i] == ' ' || line@[i] == '\t',
        decreases line@.len() - n,
    {
        n = n + 1;
    }
    n
}

/// End of `line[a..b]` with trailing chars of `set` removed, where `set` is
/// spaces and tabs, plus `\r` when `cr`.
fn trim_end_ws(line: &[char], a: usize, b: usize, cr: bool) -> (e: usize)
    requires
        a <= b <= line@.len(),
    ensures
        a <= e <= b,
        forall|i: int| e <= i < b ==> line@[i] == ' ' || line@[i] == '\t' || (cr && line@[i] == '\r'),
        e > a ==> !(line@[e - 1] == ' ' || line@[e - 1] == '\t' || (cr && line@[e - 1] == '\r')),
{
    let mut e = b;
    while e > a && (line[e - 1] == ' ' || line[e - 1] == '\t' || (cr && line[e - 1] == '\r'))
        invariant
            a <= e <= b,
            b <= line@.len(),
            forall|i: int| e <= i < b ==> line@[i] == ' ' || line@[i] == '\t' || (cr && line@[i] == '\r'),
        decreases e - a,
    {
        e = e - 1;
    }
    e
}

/// `line` without trailing spaces, tabs and carriage returns.
fn strip_trailing_ws(line: &[char]) -> (r: Vec<char>)
    ensures
        r@ == rtrim(line@, true),
        r@.len() <= line@.len(),
        r@ == line@.take(r@.len() as int),
        r@.len() > 0 ==> !(r@.last() == ' ' || r@.last() == '\t' || r@.last() == '\r'),
{
    let e = trim_end_ws(line, 0, line.len(), true);
    let mut v: Vec<char> = Vec::new();
    push_range(&mut v, line, 0, e);
    proof {
        assert(v@ == line@.take(e as int));
        lemma_rtrim(line@, e as int, true);
    }
    v
}

/// Leading tabs become two spaces each.
fn detab_indent(line: &[char]) -> (r: Vec<char>)
    ensures
        r@ == detab_line(line@),
        cr_free(line@) ==> cr_free(r@),
{
    let n = leading_indent(line);
    let mut out: Vec<char> = Vec::new();
    let mut i: usize = 0;
    while i < n
        invariant
            i <= n <= line@.len(),
            out@ == detab(line@.take(i as int)),
            cr_free(line@) ==> cr_free(out@),
        decreases n - i,
    {
        assert(line@.take(i + 1).drop_last() =~= line@.take(i as int));
        if line[i] == '\t' {
            out.push(' ');
            out.push(' ');
        } else {
            out.push(line[i]);
        }
        i = i + 1;
    }
    let ghost before = out@;
    push_range(&mut out, line, n, line.len());
    assert(line@.subrange(n as int, line@.len() as int) =~= line@.skip(n as int));
    proof {
        if cr_free(line@) {
            lemma_cr_free_sub(line@, n as int, line@.len() as int);
            assert forall|i: int| 0 <= i < out@.len() implies #[trigger] out@[i] != '\r' by {
                if i >= before.len() {
                    assert(out@[i] == line@.subrange(n as int, line@.len() as int)[i - before.len()]);
                }
            }
        }
    }
    out
}

/// A line outside any special region: trailing whitespace stripped, then
/// leading tabs expanded.
fn transform_brief_line(line: &[char]) -> (r: Vec<char>)
    ensures
        r@ == detab_line(rtrim(line@, true)),
        cr_free(line@) ==> cr_free(r@),
{
    let s = strip_trailing_ws(line);
    proof {
        if cr_free(line@) {
            lemma_cr_free_sub(line@, 0, s@.len() as int);
        }
    }
    detab_indent(s.as_slice())
}

/// Is `t[a..b]` a table directive (`@t`, `@t ...` or `@t(...`)?
fn is_table_directive(t: &[char], a: usize, b: usize) -> (r: bool)
    requires
        a <= b <= t@.len(),
    ensures
        r == ((b - a == 2 && t@[a as int] == '@' && t@[a + 1] == 't') || (b - a >= 3 && t@[a as int] == '@'
            && t@[a + 1] == 't' && (t@[a + 2] == ' ' || t@[a + 2] == '('))),
{
    if b - a == 2 {
        return t[a] == '@' && t[a + 1] == 't';
    }
    b - a >= 3 && t[a] == '@' && t[a + 1] == 't' && (t[a + 2] == ' ' || t[a + 2] == '(')
}

/// Does `t[a..b]` (trailing spaces and tabs ignored) equal `+++`?
fn is_fence_plus(t: &[char]) -> (r: bool)
    ensures
        r == (rtrim(t@, false) == "+++"@),
{
    let e = trim_end_ws(t, 0, t.len(), false);
    proof {
        lemma_rtrim(t@, e as int, false);
        reveal_strlit("+++");
        if rtrim(t@, false) == "+++"@ {
            assert(t@.take(e as int).len() == 3);
            assert(t@.take(e as int)[0] == '+');
            assert(t@.take(e as int)[1] == '+');
            assert(t@.take(e as int)[2] == '+');
        }
        if e == 3 && t@[0] == '+' && t@[1] == '+' && t@[2] == '+' {
            assert(t@.take(e as int) =~= "+++"@);
        }
    }
    e == 3 && t[0] == '+' && t[1] == '+' && t[2] == '+'
}

/// The region of each line.
pub fn scan_regions(lines: &Vec<Vec<char>>) -> (r: Vec<Region>)
    ensures
        r@.len() == lines@.len(),
{
    let n = lines.len();
    let mut regions: Vec<Region> = Vec::new();
    let mut k: usize = 0;
    while k < n
        invariant
            k <= n,
            regions@.len() == k,
        decreases n - k,
    {
        regions.push(Region::Default);
        k = k + 1;
    }
    let mut i: usize = 0;
    if n > 0 && is_fence_plus(lines[0].as_slice()) {
        let mut close: Option<usize> = None;
        let mut j: usize = 1;
        while j < n
            invariant
                1 <= j <= n,
                close matches Some(c) ==> 1 <= c < n,
            decreases n - j,
        {
            if is_fence_plus(lines[j].as_slice()) {
                close = Some(j);
                break;
            }
            j = j + 1;
        }
        match close {
            Some(j) => {
                regions.set(0, Region::FrontmatterOpen);
                let mut q: usize = 1;
                while q < j
                    invariant
                        regions@.len() == n,
                        j < n,
                    decreases j - q,
                {
                    regions.set(q, Region::FrontmatterBody);
                    q = q + 1;
                }
                regions.set(j, Region::FrontmatterClose);
                i = j + 1;
            },
            None => {},
        }
    }
    while i < n
        invariant
            regions@.len() == n,
            i <= n,
            n == lines@.len(),
        decreases n - i,
    {
        let ghost i0 = i;
        let line = lines[i].as_slice();
        let ind = leading_indent(line);
        let e = trim_end_ws(line, ind, line.len(), false);
        if starts_at_str(line, ind, "```") && e - ind >= 3 {
            regions.set(i, Region::CodeFenceOpen);
            i = i + 1;
            while i < n
                invariant
                    regions@.len() == n,
                    i <= n,
                    i0 < i,
                    n == lines@.len(),
                decreases n - i,
            {
                let inner = lines[i].as_slice();
                let ii = leading_indent(inner);
                let ie = trim_end_ws(inner, ii, inner.len(), false);
                if ie - ii == 3 && inner[ii] == '`' && inner[ii + 1] == '`' && inner[ii + 2] == '`' {
                    regions.set(i, Region::CodeFenceClose);
                    i = i + 1;
                    break;
                }
                regions.set(i, Region::CodeFenceBody);
                i = i + 1;
            }
            continue;
        }
        if e - ind >= 2 && line[ind] == '/' && line[ind + 1] == '*' {
            regions.set(i, Region::BlockComment);
            if e - ind >= 4 && line[e - 2] == '*' && line[e - 1] == '/' {
                i = i + 1;
                continue;
            }
            i = i + 1;
            while i < n
                invariant
                    regions@.len() == n,
                    i <= n,
                    i0 < i,
                    n == lines@.len(),
                decreases n - i,
            {
                regions.set(i, Region::BlockComment);
                let inner = lines[i].as_slice();
                let ie = trim_end_ws(inner, 0, inner.len(), false);
                if ie >= 2 && inner[ie - 2] == '*' && inner[ie - 1] == '/' {
                    i = i + 1;
                    break;
                }
                i = i + 1;
            }
            continue;
        }
        if is_table_directive(line, ind, e) {
            regions.set(i, Region::TableDirective);
            i = i + 1;
            while i < n
                invariant
                    regions@.len() == n,
                    i <= n,
                    i0 < i,
                    n == lines@.len(),
                decreases n - i,
            {
                let row = lines[i].as_slice();
                let ri = leading_indent(row);
                if ri < row.len() && row[ri] == '|' {
                    regions.set(i, Region::TableRow);
                    i = i + 1;
                } else {
                    break;
                }
            }
            continue;
        }
        i = i + 1;
    }
    regions
}

/// Lines of the frontmatter body: kept (trailing whitespace stripped), or,
/// with `sort_frontmatter`, re-emitted by the TOML serialiser (whose tables
/// keep their keys in order); a body that does not parse or serialise is
/// kept.
fn process_frontmatter_body(body: &Vec<Vec<char>>, lo: usize, hi: usize, opts: &Opts) -> (r: Vec<Vec<char>>)
    requires
        lo <= hi <= body@.len(),
    ensures
        !opts.sort_frontmatter ==> r@.len() == hi - lo,
        !opts.sort_frontmatter && lines_cr_free(body@) ==> lines_cr_free(r@),
{
    let ghost free = lines_cr_free(body@);
    let mut kept: Vec<Vec<char>> = Vec::new();
    let mut k = lo;
    while k < hi
        invariant
            lo <= k <= hi,
            hi <= body@.len(),
            kept@.len() == k - lo,
            free ==> lines_cr_free(kept@),
        decreases hi - k,
    {
        let line = strip_trailing_ws(body[k].as_slice());
        proof {
            if free {
                assert(cr_free(body@[k as int]@));
                lemma_cr_free_sub(body@[k as int]@, 0, line@.len() as int);
            }
        }
        kept.push(line);
        k = k + 1;
    }
    if !opts.sort_frontmatter {
        return kept;
    }
    let mut joined: Vec<char> = Vec::new();
    let mut k = lo;
    while k < hi
        invariant
            lo <= k <= hi,
            hi <= body@.len(),
        decreases hi - k,
    {
        if k > lo {
            joined.push('\n');
        }
        push_all(&mut joined, body[k].as_slice());
        k = k + 1;
    }
    let text = chars_to_string(joined.as_slice());
    let table = match toml_parse_table(text.as_str()) {
        Ok(t) => t,
        Err(_) => {
            return kept;
        },
    };
    let ser = match toml_table_to_string(&table) {
        Ok(s) => s,
        Err(_) => {
            return kept;
        },
    };
    let sc = str_chars(ser.as_str());
    let mut e = sc.len();
    while e > 0 && sc[e - 1] == '\n'
        invariant
            e <= sc@.len(),
        decreases e,
    {
        e = e - 1;
    }
    split_lf(sc.as_slice(), 0, e)
}

/// `s[a..b]` split at every `\n` (as `str::split('\n')`).
fn split_lf(s: &[char], a: usize, b: usize) -> (r: Vec<Vec<char>>)
    requires
        a <= b <= s@.len(),
    ensures
        r@.len() >= 1,
        cr_free(s@) ==> lines_cr_free(r@),
{
    let mut out: Vec<Vec<char>> = Vec::new();
    let mut start = a;
    let mut i = a;
    while i < b
        invariant
            a <= start <= i <= b,
            b <= s@.len(),
            cr_free(s@) ==> lines_cr_free(out@),
        decreases b - i,
    {
        if s[i] == '\n' {
            let mut piece: Vec<char> = Vec::new();
            push_range(&mut piece, s, start, i);
            proof {
                if cr_free(s@) {
                    lemma_cr_free_sub(s@, start as int, i as int);
                    assert(piece@ =~= s@.subrange(start as int, i as int));
                }
            }
            out.push(piece);
            start = i + 1;
        }
        i = i + 1;
    }
    let mut last: Vec<char> = Vec::new();
    push_range(&mut last, s, start, b);
    proof {
        if cr_free(s@) {
            lemma_cr_free_sub(s@, start as int, b as int);
            assert(last@ =~= s@.subrange(start as int, b as int));
        }
    }
    out.push(last);
    out
}

/// Cells of a table row body (after its indent): trailing blanks and `|`s
/// dropped, one leading `|` dropped, split at `|`, each cell trimmed.
fn parse_table_cells(body: &[char]) -> (r: Vec<Vec<char>>)
    ensures
        r@.len() >= 1,
        cr_free(body@) ==> lines_cr_free(r@),
{
    let e1 = trim_end_ws(body, 0, body.len(), false);
    let mut e = e1;
    while e > 0 && body[e - 1] == '|'
        invariant
            e <= e1,
            e1 <= body@.len(),
        decreases e,
    {
        e = e - 1;
    }
    let s = if e > 0 && body[0] == '|' {
        1
    } else {
        0
    };
    let pieces = split_at_char(body, s, e, '|');
    let mut cells: Vec<Vec<char>> = Vec::new();
    let mut k: usize = 0;
    while k < pieces.len()
        invariant
            k <= pieces@.len(),
            cells@.len() == k,
            cr_free(body@) ==> lines_cr_free(pieces@),
            cr_free(body@) ==> lines_cr_free(cells@),
        decreases pieces@.len() - k,
    {
        let p = pieces[k].as_slice();
        let (x, y) = trim_bounds(p, 0, p.len());
        let mut c: Vec<char> = Vec::new();
        push_range(&mut c, p, x, y);
        proof {
            if cr_free(body@) {
                assert(cr_free(pieces@[k as int]@));
                lemma_cr_free_sub(p@, x as int, y as int);
                assert(c@ =~= p@.subrange(x as int, y as int));
            }
        }
        cells.push(c);
        k = k + 1;
    }
    cells
}

/// `s[a..b]` split at every `sep`.
fn split_at_char(s: &[char], a: usize, b: usize, sep: char) -> (r: Vec<Vec<char>>)
    requires
        a <= b <= s@.len(),
    ensures
        r@.len() >= 1,
        cr_free(s@) ==> lines_cr_free(r@),
{
    let mut out: Vec<Vec<char>> = Vec::new();
    let mut start = a;
    let mut i = a;
    while i < b
        invariant
            a <= start <= i <= b,
            b <= s@.len(),
            cr_free(s@) ==> lines_cr_free(out@),
        decreases b - i,
    {
        if s[i] == sep {
            let mut piece: Vec<char> = Vec::new();
            push_range(&mut piece, s, start, i);
            proof {
                if cr_free(s@) {
                    lemma_cr_free_sub(s@, start as int, i as int);
                    assert(piece@ =~= s@.subrange(start as int, i as int));
                }
            }
            out.push(piece);
            start = i + 1;
        }
        i = i + 1;
    }
    let mut last: Vec<char> = Vec::new();
    push_range(&mut last, s, start, b);
    proof {
        if cr_free(s@) {
            lemma_cr_free_sub(s@, start as int, b as int);
            assert(last@ =~= s@.subrange(start as int, b as int));
        }
    }
    out.push(last);
    out
}

/// Append a char other than a carriage return.
fn push_plain(line: &mut Vec<char>, c: char)
    requires
        c != '\r',
    ensures
        final(line)@ == old(line)@.push(c),
        cr_free(old(line)@) ==> cr_free(final(line)@),
{
    line.push(c);
    proof {
        if cr_free(old(line)@) {
            assert forall|i: int| 0 <= i < line@.len() implies #[trigger] line@[i] != '\r' by {
                if i < old(line)@.len() {
                    assert(line@[i] == old(line)@[i]);
                }
            }
        }
    }
}

/// Table rows with their cells aligned: each cell padded to its column's
/// widest cell (in chars), cells separated by ` | `, the last cell
/// unpadded, indent tabs expanded.
fn format_table(rows: &Vec<Vec<char>>, lo: usize, hi: usize) -> (r: Vec<Vec<char>>)
    requires
        lo <= hi <= rows@.len(),
    ensures
        r@.len() == hi - lo,
        lines_cr_free(rows@) ==> lines_cr_free(r@),
{
    let ghost free = lines_cr_free(rows@);
    let mut indents: Vec<Vec<char>> = Vec::new();
    let mut cells: Vec<Vec<Vec<char>>> = Vec::new();
    let mut k = lo;
    while k < hi
        invariant
            lo <= k <= hi,
            hi <= rows@.len(),
            indents@.len() == k - lo,
            cells@.len() == k - lo,
            free ==> lines_cr_free(indents@),
            free ==> forall|j: int| 0 <= j < cells@.len() ==> lines_cr_free(#[trigger] cells@[j]@),
        decreases hi - k,
    {
        let stripped = strip_trailing_ws(rows[k].as_slice());
        proof {
            if free {
                assert(cr_free(rows@[k as int]@));
                lemma_cr_free_sub(rows@[k as int]@, 0, stripped@.len() as int);
            }
        }
        let n = leading_indent(stripped.as_slice());
        let mut ind: Vec<char> = Vec::new();
        let mut q: usize = 0;
        while q < n
            invariant
                n <= stripped@.len(),
                free ==> cr_free(stripped@),
                free ==> cr_free(ind@),
            decreases n - q,
        {
            if stripped[q] == '\t' {
                push_plain(&mut ind, ' ');
                push_plain(&mut ind, ' ');
            } else {
                push_plain(&mut ind, stripped[q]);
            }
            q = q + 1;
        }
        let body = crate::text::copy_range(stripped.as_slice(), n, stripped.len());
        proof {
            if free {
                lemma_cr_free_sub(stripped@, n as int, stripped@.len() as int);
            }
        }
        indents.push(ind);
        cells.push(parse_table_cells(body.as_slice()));
        k = k + 1;
    }
    let mut max_cols: usize = 0;
    let mut k: usize = 0;
    while k < cells.len()
        decreases cells@.len() - k,
    {
        if cells[k].len() > max_cols {
            max_cols = cells[k].len();
        }
        k = k + 1;
    }
    let mut widths: Vec<usize> = Vec::new();
    let mut c: usize = 0;
    while c < max_cols
        invariant
            c <= max_cols,
            widths@.len() == c,
        decreases max_cols - c,
    {
        let mut w: usize = 0;
        let mut k: usize = 0;
        while k < cells.len()
            decreases cells@.len() - k,
        {
            if c < cells[k].len() && cells[k][c].len() > w {
                w = cells[k][c].len();
            }
            k = k + 1;
        }
        widths.push(w);
        c = c + 1;
    }
    let mut out: Vec<Vec<char>> = Vec::new();
    let mut k: usize = 0;
    while k < cells.len()
        invariant
            k <= cells@.len(),
            cells@.len() == indents@.len(),
            out@.len() == k,
            free ==> lines_cr_free(indents@),
            free ==> forall|j: int| 0 <= j < cells@.len() ==> lines_cr_free(#[trigger] cells@[j]@),
            free ==> lines_cr_free(out@),
        decreases cells@.len() - k,
    {
        let mut line: Vec<char> = Vec::new();
        push_all(&mut line, indents[k].as_slice());
        push_plain(&mut line, '|');
        let row = &cells[k];
        proof {
            if free {
                assert(cr_free(indents@[k as int]@));
                assert(lines_cr_free(cells@[k as int]@));
                assert forall|i: int| 0 <= i < line@.len() implies #[trigger] line@[i] != '\r' by {
                    if i < indents@[k as int]@.len() {
                        assert(line@[i] == indents@[k as int]@[i]);
                    }
                }
            }
        }
        let mut c: usize = 0;
        while c < row.len()
            invariant
                free ==> lines_cr_free(row@),
                free ==> cr_free(line@),
            decreases row@.len() - c,
        {
            push_plain(&mut line, ' ');
            let ghost before = line@;
            push_all(&mut line, row[c].as_slice());
            proof {
                if free {
                    assert(cr_free(row@[c as int]@));
                    assert forall|i: int| 0 <= i < line@.len() implies #[trigger] line@[i] != '\r' by {
                        if i >= before.len() {
                            assert(line@[i] == row@[c as int]@[i - before.len()]);
                        } else {
                            assert(line@[i] == before[i]);
                        }
                    }
                }
            }
            if c + 1 < row.len() {
                let w = if c < widths.len() {
                    widths[c]
                } else {
                    0
                };
                let mut pad = if w > row[c].len() {
                    w - row[c].len()
                } else {
                    0
                };
                while pad > 0
                    invariant
                        free ==> cr_free(line@),
                    decreases pad,
                {
                    push_plain(&mut line, ' ');
                    pad = pad - 1;
                }
                push_plain(&mut line, ' ');
                push_plain(&mut line, '|');
            }
            c = c + 1;
        }
        out.push(line);
        k = k + 1;
    }
    out
}

/// How one line of a region other than a frontmatter body or a table row
/// is rewritten.
pub open spec fn line_transform(l: Seq<char>, reg: Region) -> Seq<char> {
    match reg {
        Region::Default => detab_line(rtrim(l, true)),
        Region::TableDirective => detab_line(rtrim(l, true)),
        Region::FrontmatterOpen => "+++"@,
        Region::FrontmatterClose => "+++"@,
        Region::CodeFenceBody => l,
        _ => rtrim(l, true),
    }
}

/// No line lies in a frontmatter body or a table row.
pub open spec fn line_by_line(regions: Seq<Region>) -> bool {
    forall|k: int| 0 <= k < regions.len() ==> #[trigger] regions[k] != Region::FrontmatterBody && regions[k]
        != Region::TableRow
}

/// Per-region transforms; returns the new lines with their regions.
fn apply_transforms(lines: &Vec<Vec<char>>, regions: &Vec<Region>, opts: &Opts) -> (r: (Vec<Vec<char>>, Vec<Region>))
    requires
        regions@.len() == lines@.len(),
    ensures
        r.0@.len() == r.1@.len(),
        !opts.sort_frontmatter && lines_cr_free(lines@) ==> lines_cr_free(r.0@),
        line_by_line(regions@) ==> r.1@ == regions@ && forall|k: int|
            0 <= k < lines@.len() ==> (#[trigger] r.0@[k])@ == line_transform(lines@[k]@, regions@[k]),
{
    let ghost free = !opts.sort_frontmatter && lines_cr_free(lines@);
    let ghost simple = line_by_line(regions@);
    let n = lines.len();
    let mut out_lines: Vec<Vec<char>> = Vec::new();
    let mut out_regions: Vec<Region> = Vec::new();
    let mut i: usize = 0;
    while i < n
        invariant
            i <= n,
            n == lines@.len(),
            regions@.len() == n,
            out_lines@.len() == out_regions@.len(),
            free ==> lines_cr_free(out_lines@),
            simple ==> out_regions@ == regions@.take(i as int) && forall|k: int|
                0 <= k < i ==> (#[trigger] out_lines@[k])@ == line_transform(lines@[k]@, regions@[k]),
        decreases n - i,
    {
        let reg = regions[i];
        match reg {
            Region::FrontmatterBody => {
                let start = i;
                while i < n && regions[i] == Region::FrontmatterBody
                    invariant
                        start <= i <= n,
                        regions@.len() == n,
                    decreases n - i,
                {
                    i = i + 1;
                }
                let processed = process_frontmatter_body(lines, start, i, opts);
                let mut k: usize = 0;
                while k < processed.len()
                    invariant
                        out_lines@.len() == out_regions@.len(),
                        free ==> lines_cr_free(processed@),
                        free ==> lines_cr_free(out_lines@),
                    decreases processed@.len() - k,
                {
                    let line = crate::text::copy_range(processed[k].as_slice(), 0, processed[k].len());
                    assert(line@ =~= processed@[k as int]@);
                    out_lines.push(line);
                    out_regions.push(Region::FrontmatterBody);
                    k = k + 1;
                }
                if i == start {
                    i = i + 1;
                }
            },
            Region::TableRow => {
                let start = i;
                while i < n && regions[i] == Region::TableRow
                    invariant
                        start <= i <= n,
                        regions@.len() == n,
                    decreases n - i,
                {
                    i = i + 1;
                }
                let formatted = format_table(lines, start, i);
                let mut k: usize = 0;
                while k < formatted.len()
                    invariant
                        out_lines@.len() == out_regions@.len(),
                        free ==> lines_cr_free(formatted@),
                        free ==> lines_cr_free(out_lines@),
                    decreases formatted@.len() - k,
                {
                    let line = crate::text::copy_range(formatted[k].as_slice(), 0, formatted[k].len());
                    assert(line@ =~= formatted@[k as int]@);
                    out_lines.push(line);
                    out_regions.push(Region::TableRow);
                    k = k + 1;
                }
                if i == start {
                    i = i + 1;
                }
            },
            _ => {
                let line = lines[i].as_slice();
                proof {
                    reveal_strlit("+++");
                    if free {
                        assert(cr_free(lines@[i as int]@));
                        lemma_cr_free_sub(line@, 0, line@.len() as int);
                        assert(line@.subrange(0, line@.len() as int) =~= line@);
                    }
                }
                let t = match reg {
                    Region::Default => transform_brief_line(line),
                    Region::TableDirective => transform_brief_line(line),
                    Region::FrontmatterOpen => str_chars("+++"),
                    Region::FrontmatterClose => str_chars("+++"),
                    Region::CodeFenceBody => crate::text::copy_range(line, 0, line.len()),
                    _ => {
                        let w = strip_trailing_ws(line);
                        proof {
                            if free {
                                lemma_cr_free_sub(line@, 0, w@.len() as int);
                            }
                        }
                        w
                    },
                };
                proof {
                    if free {
                        assert(cr_free(t@));
                    }
                }
                assert(t@ == line_transform(line@, reg)) by {
                    reveal_strlit("+++");
                }
                let ghost ob = out_regions@;
                out_lines.push(t);
                out_regions.push(reg);
                proof {
                    if simple {
                        assert(out_regions@ =~= regions@.take(i + 1));
                    }
                }
                i = i + 1;
            },
        }
    }
    proof {
        if simple {
            assert(out_regions@ =~= regions@);
        }
    }
    (out_lines, out_regions)
}

/// `l` is blank: whitespace only.
pub open spec fn blank_line(l: Seq<char>) -> bool {
    crate::text::skip_ws_fwd(l, 0, l.len() as int) == l.len()
}

/// Lines and regions with each run of blank default-region lines cut to
/// one empty line, and whether the last line was such a blank.
pub open spec fn collapsed(ls: Seq<Seq<char>>, rs: Seq<Region>) -> (Seq<Seq<char>>, Seq<Region>, bool)
    decreases ls.len(),
{
    if ls.len() == 0 {
        (seq![], seq![], false)
    } else {
        let (o, orr, prev) = collapsed(ls.drop_last(), rs.take(ls.len() - 1));
        let l = ls.last();
        let rg = rs[ls.len() - 1];
        if blank_line(l) && rg == Region::Default {
            if !prev {
                (o.push(seq![]), orr.push(rg), true)
            } else {
                (o, orr, true)
            }
        } else {
            (o.push(l), orr.push(rg), false)
        }
    }
}

/// Line `i` is a blank line of a default region.
pub open spec fn bd(lines: Seq<Vec<char>>, regions: Seq<Region>, i: int) -> bool {
    blank_line(lines[i]@) && regions[i] == Region::Default
}

/// Runs of blank lines (in default regions) cut to one empty line.
fn collapse_blanks(lines: &Vec<Vec<char>>, regions: &Vec<Region>) -> (r: (Vec<Vec<char>>, Vec<Region>))
    requires
        regions@.len() == lines@.len(),
    ensures
        r.0@.len() == r.1@.len(),
        lines_cr_free(lines@) ==> lines_cr_free(r.0@),
        crate::text::views(r.0@) == collapsed(crate::text::views(lines@), regions@).0,
        r.1@ == collapsed(crate::text::views(lines@), regions@).1,
{
    let ghost vl = crate::text::views(lines@);
    let mut out_lines: Vec<Vec<char>> = Vec::new();
    let mut out_regions: Vec<Region> = Vec::new();
    let mut prev_blank = false;
    let mut i: usize = 0;
    assert(crate::text::views(out_lines@) =~= collapsed(vl.take(0), regions@.take(0)).0);
    assert(out_regions@ =~= collapsed(vl.take(0), regions@.take(0)).1);
    while i < lines.len()
        invariant
            i <= lines@.len(),
            vl == crate::text::views(lines@),
            regions@.len() == lines@.len(),
            out_lines@.len() == out_regions@.len(),
            lines_cr_free(lines@) ==> lines_cr_free(out_lines@),
            crate::text::views(out_lines@) == collapsed(vl.take(i as int), regions@.take(i as int)).0,
            out_regions@ == collapsed(vl.take(i as int), regions@.take(i as int)).1,
            prev_blank == collapsed(vl.take(i as int), regions@.take(i as int)).2,
        decreases lines@.len() - i,
    {
        let ghost t = vl.take(i + 1);
        let ghost tr = regions@.take(i + 1);
        assert(t.drop_last() =~= vl.take(i as int));
        assert(tr.take(i as int) =~= regions@.take(i as int));
        assert(t.last() == lines@[i as int]@);
        assert(tr[i as int] == regions@[i as int]);
        let ghost before = crate::text::views(out_lines@);
        let blank = is_blank_range(lines[i].as_slice(), 0, lines[i].len());
        if blank && regions[i] == Region::Default {
            if !prev_blank {
                prev_blank = true;
                out_lines.push(Vec::new());
                out_regions.push(regions[i]);
                assert(crate::text::views(out_lines@) =~= before.push(seq![]));
            }
        } else {
            prev_blank = false;
            let line = crate::text::copy_range(lines[i].as_slice(), 0, lines[i].len());
            assert(line@ =~= lines@[i as int]@);
            out_lines.push(line);
            out_regions.push(regions[i]);
            assert(crate::text::views(out_lines@) =~= before.push(lines@[i as int]@));
        }
        i = i + 1;
    }
    assert(vl.take(lines@.len() as int) =~= vl);
    assert(regions@.take(lines@.len() as int) =~= regions@);
    (out_lines, out_regions)
}

/// The lines without blank default-region lines at either end.
fn trim_blank_edges(lines: &Vec<Vec<char>>, regions: &Vec<Region>) -> (r: (usize, usize))
    requires
        regions@.len() == lines@.len(),
    ensures
        r.0 <= r.1 <= lines@.len(),
        forall|i: int| 0 <= i < r.0 ==> #[trigger] bd(lines@, regions@, i),
        r.0 < lines@.len() ==> !bd(lines@, regions@, r.0 as int),
        forall|i: int| r.1 <= i < lines@.len() ==> #[trigger] bd(lines@, regions@, i),
        r.1 > r.0 ==> !bd(lines@, regions@, r.1 - 1),
{
    let mut start: usize = 0;
    while start < lines.len() && is_blank_range(lines[start].as_slice(), 0, lines[start].len())
        && regions[start] == Region::Default
        invariant
            start <= lines@.len(),
            regions@.len() == lines@.len(),
            forall|i: int| 0 <= i < start ==> #[trigger] bd(lines@, regions@, i),
        decreases lines@.len() - start,
    {
        assert(bd(lines@, regions@, start as int));
        let ghost s0 = start as int;
        start = start + 1;
    }
    let mut end = lines.len();
    while end > start && is_blank_range(lines[end - 1].as_slice(), 0, lines[end - 1].len())
        && regions[end - 1] == Region::Default
        invariant
            start <= end <= lines@.len(),
            regions@.len() == lines@.len(),
            forall|i: int| end <= i < lines@.len() ==> #[trigger] bd(lines@, regions@, i),
        decreases end - start,
    {
        assert(bd(lines@, regions@, end - 1));
        let ghost e0 = end - 1;
        end = end - 1;
    }
    (start, end)
}

/// Canonical form of a Brief source. The result is empty or ends with a
/// line break; with `sort_frontmatter` off its line breaks are all `\n`
/// (no carriage return survives).
pub fn format(source: &str, opts: &Opts) -> (r: String)
    ensures
        r@.len() == 0 || r@.last() == '\n',
        !opts.sort_frontmatter ==> cr_free(r@),
        source@.len() == 0 || source@ == seq!['\u{feff}'] ==> r@.len() == 0,
{
    let all = str_chars(source);
    let from: usize = if all.len() > 0 && all[0] == '\u{feff}' {
        1
    } else {
        0
    };
    if from == all.len() {
        return String::new();
    }
    let body = crate::text::copy_range(all.as_slice(), from, all.len());
    let norm = normalize_line_endings(body.as_slice());
    proof {
        law_normalized_has_no_cr(body@);
    }
    let mut lines = split_lf(norm.as_slice(), 0, norm.len());
    if lines.len() > 0 && lines[lines.len() - 1].len() == 0 {
        let ghost before = lines@;
        lines.pop();
        proof {
            assert forall|k: int| 0 <= k < lines@.len() implies cr_free(#[trigger] lines@[k]@) by {
                assert(lines@[k] == before[k]);
            }
        }
    }
    if lines.len() == 0 {
        return String::new();
    }
    let regions = scan_regions(&lines);
    let (tl, tr) = apply_transforms(&lines, &regions, opts);
    let (cl, cr) = collapse_blanks(&tl, &tr);
    let (a, b) = trim_blank_edges(&cl, &cr);
    if a == b {
        return String::new();
    }
    let ghost free = !opts.sort_frontmatter;
    let mut out: Vec<char> = Vec::new();
    let mut k = a;
    while k < b
        invariant
            a <= k <= b,
            b <= cl@.len(),
            free ==> lines_cr_free(cl@),
            free ==> cr_free(out@),
        decreases b - k,
    {
        if k > a {
            push_plain(&mut out, '\n');
        }
        let ghost before = out@;
        push_all(&mut out, cl[k].as_slice());
        proof {
            if free {
                assert(cr_free(cl@[k as int]@));
                assert forall|i: int| 0 <= i < out@.len() implies #[trigger] out@[i] != '\r' by {
                    if i >= before.len() {
                        assert(out@[i] == cl@[k as int]@[i - before.len()]);
                    } else {
                        assert(out@[i] == before[i]);
                    }
                }
            }
        }
        k = k + 1;
    }
    push_plain(&mut out, '\n');
    chars_to_string(out.as_slice())
}

/// Whether formatting would change a source.
#[derive(Debug, Clone, Copy, PartialEq, Eq, Structural)]
pub enum CheckResult {
    Unchanged,
    WouldChange,
}

/// `Unchanged` exactly when `formatted` equals `source`.
pub fn compare(source: &str, formatted: &str) -> (r: CheckResult)
    ensures
        (r == CheckResult::Unchanged) == (formatted@ == source@),
{
    if crate::text::str_eq(formatted, source) {
        CheckResult::Unchanged
    } else {
        CheckResult::WouldChange
    }
}

/// `Unchanged` exactly when formatting `source` gives `source` back; a
/// canonical source is therefore empty or ends with a newline.
pub fn check(source: &str, opts: &Opts) -> (r: CheckResult)
    ensures
        r == CheckResult::Unchanged ==> source@.len() == 0 || source@.last() == '\n',
        source@.len() == 0 ==> r == CheckResult::Unchanged,
{
    let f = format(source, opts);
    proof {
        if source@.len() == 0 {
            assert(f@ =~= source@);
        }
    }
    compare(source, f.as_str())
}

} // verus!
