//! JSON / JSONL minifiers. Comment-free formats: `keep_comments` is a
//! no-op here. Parsing and compact re-serialisation are done by
//! `serde_json` (field order preserved).
use crate::minify::{MinifyError, MinifyOutput};
use crate::text::{chars_to_string, is_blank_range, push_str, range_string, skip_ws_fwd, str_chars, usize_to_string};
use vstd::prelude::*;

verus! {

#[verifier::external_type_specification]
#[verifier::external_body]
pub struct ExJsonValue(serde_json::Value);

/// Whether `serde_json` accepts the text as one JSON document.
pub uninterp spec fn json_accepts(src: Seq<char>) -> bool;

/// The compact text `serde_json` writes for the document it parses from
/// `src`.
pub uninterp spec fn json_compact(src: Seq<char>) -> Seq<char>;

/// `serde_json::from_str::<Value>` followed by `serde_json::to_string` of
/// the parsed value.
///
/// Trusted: the result is `Ok` exactly when serde_json accepts the text as
/// one JSON document (re-serialising a parsed `Value` into a `String`
/// cannot fail: its map keys are strings and the writer is in memory), and
/// its text is the compact serialisation of that document, named
/// `json_compact` (with `preserve_order`, a function of the source text
/// alone).
#[verifier::external_body]
fn json_compact_text(s: &str) -> (r: Result<String, String>)
    ensures
        r is Ok <==> json_accepts(s@),
        r matches Ok(t) ==> t@ == json_compact(s@),
{
    match serde_json::from_str::<serde_json::Value>(s) {
        Ok(v) => serde_json::to_string(&v).map_err(|e| e.to_string()),
        Err(e) => Err(e.to_string()),
    }
}

/// Parse `source` as one JSON document and re-serialise it compactly.
pub fn minify_json(source: &str) -> (r: Result<MinifyOutput, MinifyError>)
    ensures
        r is Ok <==> json_accepts(source@),
        r matches Ok(o) ==> o.body@ == json_compact(source@) && o.warnings@.len() == 0,
{
    match json_compact_text(source) {
        Ok(s) => Ok(MinifyOutput::body(s)),
        Err(e) => Err(MinifyError { message: e }),
    }
}

/// The line ranges `str::lines` yields for `s`, scanning from index `i`
/// with the current line starting at `start`: a line ends at each `\n`
/// (and a `\r` just before it is dropped); the text after the last `\n`
/// is a last line when it is not empty.
pub open spec fn lines_from(s: Seq<char>, start: int, i: int) -> Seq<(int, int)>
    decreases s.len() - i,
{
    if i >= s.len() {
        if start < s.len() {
            seq![(start, s.len() as int)]
        } else {
            seq![]
        }
    } else if s[i] == '\n' {
        let end = if i > start && s[i - 1] == '\r' {
            i - 1
        } else {
            i
        };
        seq![(start, end)] + lines_from(s, i + 1, i + 1)
    } else {
        lines_from(s, start, i + 1)
    }
}

/// The lines of `s`, as ranges, in the way `str::lines` splits it.
pub open spec fn line_ranges(s: Seq<char>) -> Seq<(int, int)> {
    lines_from(s, 0, 0)
}

/// Every range `(a, b)` satisfies `a <= b <= n`.
pub open spec fn ranges_within(r: Seq<(usize, usize)>, n: int) -> bool {
    forall|k: int| 0 <= k < r.len() ==> #[trigger] r[k].0 <= r[k].1 && r[k].1 <= n
}

/// The exec ranges `r` are the spec ranges `q`.
pub open spec fn same_ranges(r: Seq<(usize, usize)>, q: Seq<(int, int)>) -> bool {
    r.len() == q.len() && forall|k: int| 0 <= k < r.len() ==> #[trigger] r[k].0 == q[k].0 && r[k].1 == q[k].1
}

/// The lines of `s` as `str::lines` yields them, as index ranges.
pub fn split_lines(s: &[char]) -> (r: Vec<(usize, usize)>)
    ensures
        ranges_within(r@, s@.len() as int),
        same_ranges(r@, line_ranges(s@)),
{
    let mut out: Vec<(usize, usize)> = Vec::new();
    let mut start: usize = 0;
    let mut i: usize = 0;
    while i < s.len()
        invariant
            start <= i <= s@.len(),
            ranges_within(out@, s@.len() as int),
            same_ranges(out@, out@.map_values(|p: (usize, usize)| (p.0 as int, p.1 as int))),
            out@.map_values(|p: (usize, usize)| (p.0 as int, p.1 as int)) + lines_from(s@, start as int, i as int) == line_ranges(s@),
        decreases s@.len() - i,
    {
        if s[i] == '\n' {
            let end = if i > start && s[i - 1] == '\r' {
                i - 1
            } else {
                i
            };
            let ghost before = out@;
            out.push((start, end));
            proof {
                let f = |p: (usize, usize)| (p.0 as int, p.1 as int);
                assert(out@.map_values(f) =~= before.map_values(f).push((start as int, end as int)));
                assert(before.map_values(f) + lines_from(s@, start as int, i as int) =~= out@.map_values(f) + lines_from(s@, i + 1, i + 1));
            }
            assert forall|k: int| 0 <= k < out@.len() implies #[trigger] out@[k].0 <= out@[k].1
                && out@[k].1 <= s@.len() by {
                if k < before.len() {
                    assert(out@[k] == before[k]);
                }
            }
            start = i + 1;
        }
        i = i + 1;
    }
    if start < s.len() {
        let end = s.len();
        let ghost before = out@;
        out.push((start, end));
        proof {
            let f = |p: (usize, usize)| (p.0 as int, p.1 as int);
            assert(out@.map_values(f) =~= before.map_values(f).push((start as int, end as int)));
            assert(before.map_values(f) + lines_from(s@, start as int, i as int) =~= out@.map_values(f));
        }
        assert forall|k: int| 0 <= k < out@.len() implies #[trigger] out@[k].0 <= out@[k].1
            && out@[k].1 <= s@.len() by {
            if k < before.len() {
                assert(out@[k] == before[k]);
            }
        }
    } else {
        proof {
            let f = |p: (usize, usize)| (p.0 as int, p.1 as int);
            assert(out@.map_values(f) + lines_from(s@, start as int, i as int) =~= out@.map_values(f));
        }
    }
    out
}

/// `s[a..b]` holds only whitespace.
pub open spec fn blank_range(s: Seq<char>, a: int, b: int) -> bool {
    skip_ws_fwd(s, a, b) == b
}

/// The compacted documents of the non-blank lines among `rs`, in order.
pub open spec fn jsonl_parts(s: Seq<char>, rs: Seq<(int, int)>) -> Seq<Seq<char>>
    decreases rs.len(),
{
    if rs.len() == 0 {
        seq![]
    } else {
        let p = jsonl_parts(s, rs.drop_last());
        let (a, b) = rs.last();
        if blank_range(s, a, b) {
            p
        } else {
            p.push(json_compact(s.subrange(a, b)))
        }
    }
}

/// The parts joined with `\n` between them.
pub open spec fn join_lines(parts: Seq<Seq<char>>) -> Seq<char>
    decreases parts.len(),
{
    if parts.len() == 0 {
        seq![]
    } else if parts.len() == 1 {
        parts[0]
    } else {
        join_lines(parts.drop_last()) + seq!['\n'] + parts.last()
    }
}

/// Every non-blank line among `rs` is a JSON document serde_json accepts.
pub open spec fn jsonl_accepted(s: Seq<char>, rs: Seq<(int, int)>) -> bool {
    forall|k: int|
        0 <= k < rs.len() && !blank_range(s, rs[k].0, rs[k].1) ==> json_accepts(
            #[trigger] s.subrange(rs[k].0, rs[k].1),
        )
}

/// Parse `source` as JSONL (one document per line); blank lines dropped.
/// Any line that fails to parse fails the whole block.
pub fn minify_jsonl(source: &str) -> (r: Result<MinifyOutput, MinifyError>)
    ensures
        r is Ok <==> jsonl_accepted(source@, line_ranges(source@)),
        r matches Ok(o) ==> o.body@ == join_lines(jsonl_parts(source@, line_ranges(source@)))
            && o.warnings@.len() == 0,
{
    let src = str_chars(source);
    let lines = split_lines(src.as_slice());
    let ghost rs = line_ranges(src@);

    let mut out: Vec<char> = Vec::new();
    let mut first = true;
    let mut k: usize = 0;
    while k < lines.len()
        invariant
            src@ == source@,
            rs == line_ranges(src@),
            ranges_within(lines@, src@.len() as int),
            same_ranges(lines@, rs),
            k <= lines@.len(),
            first == (jsonl_parts(src@, rs.take(k as int)).len() == 0),
            out@ == join_lines(jsonl_parts(src@, rs.take(k as int))),
            jsonl_accepted(src@, rs.take(k as int)),
        decreases lines@.len() - k,
    {
        let (a, b) = lines[k];
        let ghost pre = rs.take(k as int);
        k = k + 1;
        assert(rs.take(k as int).drop_last() =~= pre);
        assert(rs.take(k as int).last() == (a as int, b as int));
        if is_blank_range(src.as_slice(), a, b) {
            assert(jsonl_accepted(src@, rs.take(k as int))) by {
                assert forall|j: int| 0 <= j < k && !blank_range(src@, rs.take(k as int)[j].0, rs.take(k as int)[j].1)
                    implies json_accepts(#[trigger] src@.subrange(rs.take(k as int)[j].0, rs.take(k as int)[j].1)) by {
                    if j < k - 1 {
                        assert(rs.take(k as int)[j] == pre[j]);
                    }
                }
            }
            continue;
        }
        let line = range_string(src.as_slice(), a, b);
        let s = match json_compact_text(line.as_str()) {
            Ok(s) => s,
            Err(e) => {
                proof {
                    assert(rs[k - 1] == (a as int, b as int));
                    assert(!blank_range(src@, rs[k - 1].0, rs[k - 1].1));
                    assert(src@.subrange(rs[k - 1].0, rs[k - 1].1) == line@);
                }
                let mut msg: Vec<char> = Vec::new();
                push_str(&mut msg, "line ");
                push_str(&mut msg, &usize_to_string(k));
                push_str(&mut msg, ": ");
                push_str(&mut msg, e.as_str());
                return Err(MinifyError { message: chars_to_string(msg.as_slice()) });
            },
        };
        let ghost parts = jsonl_parts(src@, pre);
        assert(jsonl_parts(src@, rs.take(k as int)) =~= parts.push(s@));
        if !first {
            out.push('\n');
        }
        push_str(&mut out, s.as_str());
        proof {
            let q = parts.push(s@);
            assert(q.drop_last() =~= parts);
            if parts.len() == 0 {
                assert(out@ =~= s@);
            } else {
                assert(out@ =~= join_lines(parts) + seq!['\n'] + s@);
            }
            assert forall|j: int| 0 <= j < k && !blank_range(src@, rs.take(k as int)[j].0, rs.take(k as int)[j].1)
                implies json_accepts(#[trigger] src@.subrange(rs.take(k as int)[j].0, rs.take(k as int)[j].1)) by {
                if j < k - 1 {
                    assert(rs.take(k as int)[j] == pre[j]);
                }
            }
        }
        first = false;
    }
    assert(rs.take(lines@.len() as int) =~= rs);
    Ok(MinifyOutput::body(chars_to_string(out.as_slice())))
}

} // verus!
