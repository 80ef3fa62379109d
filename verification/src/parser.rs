//! Block parser: turns line tokens into a `Document` (headings,
//! paragraphs, lists, blockquotes, code fences, tables, definition lists,
//! block shortcodes, frontmatter), with diagnostics for every rule the
//! input breaks.
use crate::ast::{
    Block, CodeAttrs, DefinitionItem, Document, Inline, ListItem, RefMap, Row, ShortArgs, TaskState,
};
use crate::diag::{lemma_reported_push, reported, Code, Diagnostic};
use crate::frontmatter::{toml_error_message, toml_error_span, toml_parse_table};
use crate::inline::{parse_args_at, parse_inline_chars, Src};
use crate::lexer::well_terminated;
use crate::shortcode::ArgValue;
use crate::span::{SourceMap, Span};
use crate::text::{
    byte_offsets, chars_eq_str, chars_to_string, copy_range, is_blank_range, push_all, push_range,
    push_str, push_usize, range_string, starts_at_str, str_chars, trim_bounds, trimmed_eq,
    utf8_len,
};
use crate::token::{Token, TokenKind};
use vstd::prelude::*;

verus! {

/// A token with its text as chars and the byte offset of each char.
pub struct PTok {
    /// 0: line, 1: blank, 2: end of input.
    pub kind: u8,
    pub text: Vec<char>,
    pub offs: Vec<usize>,
    pub span: Span,
    /// Leading spaces (never more than the text's length).
    pub indent: usize,
}

impl PTok {
    pub open spec fn wf(&self) -> bool {
        &&& self.offs@.len() == self.text@.len() + 1
        &&& forall|i: int|
            0 <= i <= self.text@.len() ==> self.offs@[i] == utf8_len(#[trigger] self.text@.take(i))
        &&& forall|i: int, j: int|
            0 <= i <= j <= self.text@.len() ==> self.offs@[i] <= self.offs@[j]
        &&& self.indent <= self.text@.len()
        &&& self.text@.len() + 8 <= usize::MAX
        &&& self.kind <= 2
    }
}

/// The token list ends with exactly one end-of-input token.
pub open spec fn toks_wf(t: Seq<PTok>) -> bool {
    &&& 1 <= t.len() <= usize::MAX
    &&& t.last().kind == 2
    &&& forall|i: int| 0 <= i < t.len() - 1 ==> (#[trigger] t[i]).kind != 2
    &&& forall|i: int| 0 <= i < t.len() ==> (#[trigger] t[i]).wf()
}

/// `a + b` on 32-bit source offsets (positions past 4 GiB wrap, as
/// `Span::new` truncates).
fn off(a: u32, b: usize) -> (r: u32)
    ensures
        r as int == (a as int + b as int) % 0x1_0000_0000,
{
    proof {
        vstd::arithmetic::div_mod::lemma_add_mod_noop(a as int, b as int, 0x1_0000_0000);
        vstd::arithmetic::div_mod::lemma_small_mod(a as nat, 0x1_0000_0000);
    }
    ((a as u64 + (b as u64 % 0x1_0000_0000u64)) % 0x1_0000_0000u64) as u32
}

fn to_ptok(t: &Token) -> (p: PTok)
    ensures
        p.wf(),
        p.kind == match t.kind {
            TokenKind::Line(_) => 0u8,
            TokenKind::Blank => 1u8,
            TokenKind::Eof => 2u8,
        },
{
    let (kind, text) = match &t.kind {
        TokenKind::Line(s) => (0u8, str_chars(s.as_str())),
        TokenKind::Blank => (1u8, Vec::new()),
        TokenKind::Eof => (2u8, Vec::new()),
    };
    let mut text = text;
    if text.len() > usize::MAX - 8 {
        text = Vec::new();
    }
    proof {
        crate::text::lemma_utf8_len_mono(text@, 0, text@.len() as int);
    }
    let total = crate::text::utf8_len_exec(text.as_slice());
    let offs = if total.is_some() {
        byte_offsets(text.as_slice())
    } else {
        text = Vec::new();
        proof {
            assert(text@ =~= Seq::<char>::empty());
        }
        byte_offsets(text.as_slice())
    };
    proof {
        assert forall|i: int, j: int| 0 <= i <= j <= text@.len() implies offs@[i] <= offs@[j] by {
            crate::text::lemma_utf8_len_mono(text@, i, j);
        }
    }
    let ind = if (t.indent as usize) <= text.len() {
        t.indent as usize
    } else {
        text.len()
    };
    PTok { kind, text, offs, span: t.span, indent: ind }
}

/// Parser state shared by all rules: the token list and the source.
pub struct P<'a> {
    pub src: &'a SourceMap,
    pub toks: Vec<PTok>,
}

impl<'a> P<'a> {
    pub open spec fn wf(&self) -> bool {
        toks_wf(self.toks@)
    }

    pub open spec fn n(&self) -> int {
        self.toks@.len() as int
    }

    /// `pos` is a valid position (at or before the end token).
    pub open spec fn ok(&self, pos: usize) -> bool {
        pos < self.toks@.len()
    }

    pub open spec fn is_eof(&self, pos: usize) -> bool {
        self.toks@[pos as int].kind == 2
    }
}

/// Build a message from three pieces with a number in the middle.
fn msg_num(a: &str, n: usize, b: &str) -> (r: String)
    ensures
        r@ == a@ + crate::text::dec(n as nat) + b@,
{
    let mut m: Vec<char> = Vec::new();
    push_str(&mut m, a);
    push_usize(&mut m, n);
    push_str(&mut m, b);
    assert(m@ =~= a@ + crate::text::dec(n as nat) + b@);
    chars_to_string(m.as_slice())
}

/// Parse a token stream into a document, with diagnostics.
pub fn parse(tokens: Vec<Token>, src: &SourceMap) -> (r: (Document, Vec<Diagnostic>))
    requires
        src.wf(),
        well_terminated(tokens@),
    ensures
        forall|k: Span| r.0.resolved_refs.spec_get(k) is None,
{
    let mut toks: Vec<PTok> = Vec::new();
    let mut i: usize = 0;
    while i < tokens.len()
        invariant
            well_terminated(tokens@),
            i <= tokens@.len(),
            toks@.len() == i,
            forall|k: int| 0 <= k < i ==> (#[trigger] toks@[k]).wf(),
            forall|k: int| 0 <= k < i ==> ((#[trigger] toks@[k]).kind == 2 <==> tokens@[k].kind is Eof),
        decreases tokens@.len() - i,
    {
        let t = to_ptok(&tokens[i]);
        toks.push(t);
        i = i + 1;
    }
    assert(toks@.last().kind == 2);
    let (metadata, fm_consumed, fm_diags) = parse_frontmatter(&tokens, src);
    let p = P { src, toks };
    let mut diags = fm_diags;
    let start = if fm_consumed < p.toks.len() {
        fm_consumed
    } else {
        p.toks.len() - 1
    };
    let (mut blocks, mut pos) = parse_blocks(&p, start, 0, None, &mut diags);
    while p.toks[pos].kind != 2
        invariant
            p.wf(),
            p.ok(pos),
        decreases p.n() - pos,
    {
        let t = &p.toks[pos];
        if t.kind == 1 {
            pos = pos + 1;
        } else if trimmed_eq(t.text.as_slice(), 0, t.text.len(), "@end") {
            diags.push(Diagnostic::new(Code::StrayEnd, t.span));
            pos = pos + 1;
        } else {
            let (mut more, np) = parse_blocks(&p, pos, 0, None, &mut diags);
            blocks.append(&mut more);
            if np == pos {
                // Only a stray `@end` stops a top-level pass; skip it.
                pos = pos + 1;
            } else {
                pos = np;
            }
        }
    }
    (Document { blocks, metadata, resolved_refs: RefMap::new() }, diags)
}

/// The tokens open with a frontmatter fence: a `+++` line at offset 0.
pub open spec fn opens_frontmatter(toks: Seq<Token>) -> bool {
    toks.len() > 0 && (toks[0].kind matches TokenKind::Line(s) && s@ == "+++"@) && toks[0].indent == 0
        && toks[0].span.start == 0
}

/// Frontmatter: a `+++` first line (offset 0, no indent) up to the next
/// `+++` line, parsed as TOML. Returns the table, the tokens consumed, and
/// diagnostics.
fn parse_frontmatter(toks: &Vec<Token>, src: &SourceMap) -> (r: (Option<toml::Table>, usize, Vec<Diagnostic>))
    requires
        src.wf(),
    ensures
        r.1 <= toks@.len(),
        !opens_frontmatter(toks@) ==> r.0 is None && r.1 == 0 && r.2@.len() == 0,
        opens_frontmatter(toks@) ==> r.1 >= 1 && (r.0 is None <==> r.2@.len() > 0),
{
    if toks.len() == 0 {
        return (None, 0, Vec::new());
    }
    let first = &toks[0];
    let opens = match &first.kind {
        TokenKind::Line(s) => crate::text::str_eq(s.as_str(), "+++") && first.indent == 0
            && first.span.start == 0,
        _ => false,
    };
    if !opens {
        return (None, 0, Vec::new());
    }
    let text = src.source_chars();
    let total = text.len();
    let mut idx: usize = 1;
    let body_start_byte = if idx < toks.len() {
        toks[idx].span.start as usize
    } else {
        src.byte_offset_table()[total]
    };
    let mut diags: Vec<Diagnostic> = Vec::new();
    while idx < toks.len()
        invariant
            1 <= idx <= toks@.len(),
            src.wf(),
            diags@.len() == 0,
        decreases toks@.len() - idx,
    {
        let is_close = match &toks[idx].kind {
            TokenKind::Eof => {
                diags.push(
                    Diagnostic::new(Code::UnterminatedFrontmatter, first.span).label(
                        "frontmatter opened with `+++` is never closed",
                    ),
                );
                return (None, idx, diags);
            },
            TokenKind::Line(s) => crate::text::str_eq(s.as_str(), "+++") && toks[idx].indent == 0,
            TokenKind::Blank => false,
        };
        if is_close {
            let body_end_byte = toks[idx].span.start as usize;
            let a = match src.char_index_of_byte(body_start_byte) {
                Some(a) => a,
                None => total,
            };
            let b = match src.char_index_of_byte(body_end_byte) {
                Some(b) => b,
                None => total,
            };
            let b = if b < a {
                a
            } else {
                b
            };
            let body = range_string(text, a, b);
            idx = idx + 1;
            match toml_parse_table(body.as_str()) {
                Ok(t) => {
                    return (Some(t), idx, diags);
                },
                Err(e) => {
                    let body_len = if body_end_byte >= body_start_byte {
                        body_end_byte - body_start_byte
                    } else {
                        0
                    };
                    let (offset, len) = match toml_error_span(&e) {
                        Some((s, t)) => (
                            body_start_byte.wrapping_add(s),
                            if t >= s {
                                t - s
                            } else {
                                0
                            },
                        ),
                        None => (body_start_byte, if body_end_byte >= body_start_byte {
                            body_len
                        } else {
                            0
                        }),
                    };
                    let len = if len > 1 {
                        len
                    } else {
                        1
                    };
                    let msg = toml_error_message(&e);
                    diags.push(
                        Diagnostic::new(Code::FrontmatterToml, Span::new(offset, len)).label(
                            msg.as_str(),
                        ),
                    );
                    return (None, idx, diags);
                },
            }
        }
        idx = idx + 1;
    }
    diags.push(
        Diagnostic::new(Code::UnterminatedFrontmatter, first.span).label(
            "frontmatter opened with `+++` is never closed",
        ),
    );
    (None, idx, diags)
}

/// Result of a block rule: the block and the position after it.
pub open spec fn advanced(p: &P, pos: usize, np: usize) -> bool {
    pos < np && p.ok(np)
}

/// Blocks from `pos` until end of input, a line indented less than
/// `base_indent` (or than `end_at`), or an `@end` line.
fn parse_blocks(p: &P, pos: usize, base_indent: usize, end_at: Option<usize>, diags: &mut Vec<Diagnostic>) -> (r: (Vec<Block>, usize))
    requires
        p.wf(),
        p.ok(pos),
    ensures
        pos <= r.1,
        p.ok(r.1),
        p.toks@[r.1 as int].kind != 1,
    decreases p.n() - pos, 3nat,
{
    let mut out: Vec<Block> = Vec::new();
    let mut pos = pos;
    let ghost pos0 = pos;
    loop
        invariant
            p.wf(),
            p.ok(pos),
            pos0 <= pos,
        decreases p.n() - pos,
    {
        let t = &p.toks[pos];
        if t.kind == 2 {
            break;
        }
        if t.kind == 1 {
            pos = pos + 1;
            continue;
        }
        let indent = t.indent;
        if indent < base_indent {
            break;
        }
        match end_at {
            Some(m) => {
                if indent < m {
                    break;
                }
            },
            None => {},
        }
        let text = t.text.as_slice();
        if trimmed_eq(text, indent, text.len(), "@end") {
            break;
        }
        if starts_at_str(text, indent, "//") {
            pos = pos + 1;
            continue;
        }
        if starts_at_str(text, indent, "/*") {
            pos = consume_block_comment(p, pos, diags);
            continue;
        }
        match try_block_at(p, pos, diags) {
            Some((b, np)) => {
                out.push(b);
                pos = np;
            },
            None => {
                let (b, np) = parse_paragraph(p, pos, indent, diags);
                out.push(b);
                pos = np;
            },
        }
    }
    (out, pos)
}

/// Join of two spans computed without overflow; offsets past 4 GiB wrap
/// as `Span::new` truncates.
pub fn join(a: Span, b: Span) -> (r: Span)
    ensures
        crate::span::span_ok(a) && crate::span::span_ok(b) ==> r == crate::span::span_join(a, b),
{
    let s = if a.start <= b.start {
        a.start
    } else {
        b.start
    };
    let e1 = a.start as u64 + a.len as u64;
    let e2 = b.start as u64 + b.len as u64;
    let e = if e1 >= e2 {
        e1
    } else {
        e2
    };
    Span { start: s, len: (e - s as u64) as u32 }
}

/// Does `s[a..b]` equal `lit`?
fn range_is(s: &[char], a: usize, b: usize, lit: &str) -> (r: bool)
    requires
        a <= b <= s@.len(),
    ensures
        r == (s@.subrange(a as int, b as int) == lit@),
{
    let l = str_chars(lit);
    if b - a != l.len() {
        assert(s@.subrange(a as int, b as int).len() != lit@.len());
        return false;
    }
    let r = starts_at(s, a, l.as_slice());
    r
}

use crate::text::starts_at;

/// Does `s[a..b]` end with `lit`?
fn range_ends_with(s: &[char], a: usize, b: usize, lit: &str) -> (r: bool)
    requires
        a <= b <= s@.len(),
    ensures
        r == (b - a >= lit@.len() && crate::text::matches_at(s@, b - lit@.len(), lit@)),
{
    let l = str_chars(lit);
    if b - a < l.len() {
        return false;
    }
    starts_at(s, b - l.len(), l.as_slice())
}

fn skip_blanks(p: &P, pos: usize) -> (np: usize)
    requires
        p.wf(),
        p.ok(pos),
    ensures
        pos <= np,
        p.ok(np),
        p.toks@[np as int].kind != 1,
{
    let mut pos = pos;
    let ghost pos0 = pos;
    while p.toks[pos].kind == 1
        invariant
            p.wf(),
            p.ok(pos),
            pos0 <= pos,
        decreases p.n() - pos,
    {
        pos = pos + 1;
    }
    pos
}

/// Skip a `/* ... */` comment starting at `pos`.
fn consume_block_comment(p: &P, pos: usize, diags: &mut Vec<Diagnostic>) -> (np: usize)
    requires
        p.wf(),
        p.ok(pos),
        !p.is_eof(pos),
    ensures
        pos < np,
        p.ok(np),
{
    let t = &p.toks[pos];
    let text = t.text.as_slice();
    if range_ends_with(text, t.indent, text.len(), "*/") && text.len() - t.indent >= 4 {
        return pos + 1;
    }
    let ghost pos0 = pos;
    let mut pos = pos + 1;
    loop
        invariant
            p.wf(),
            p.ok(pos),
            pos0 < pos,
        decreases p.n() - pos,
    {
        let u = &p.toks[pos];
        if u.kind == 2 {
            diags.push(
                Diagnostic::new(Code::UnterminatedBlock, u.span).label("unterminated /* */ comment"),
            );
            return pos;
        }
        pos = pos + 1;
        if u.kind == 0 {
            let (_a, e) = trim_bounds(u.text.as_slice(), 0, u.text.len());
            if range_ends_with(u.text.as_slice(), 0, e, "*/") {
                return pos;
            }
        }
    }
}

/// Dispatch on the first chars of the line at `pos` to a block rule.
fn try_block_at(p: &P, pos: usize, diags: &mut Vec<Diagnostic>) -> (r: Option<(Block, usize)>)
    requires
        p.wf(),
        p.ok(pos),
        p.toks@[pos as int].kind == 0,
    ensures
        r matches Some((_, np)) ==> advanced(p, pos, np),
        ({
            let tx = p.toks@[pos as int].text@;
            let ind = p.toks@[pos as int].indent as int;
            r is None ==> !(crate::text::matches_at(tx, ind, "#"@) || crate::text::matches_at(tx, ind, "```"@)
                || crate::text::matches_at(tx, ind, ">"@) || crate::text::matches_at(tx, ind, "|"@))
        }),
    decreases p.n() - pos, 2nat,
{
    let t = &p.toks[pos];
    let text = t.text.as_slice();
    let ind = t.indent;
    let n = text.len();
    if starts_at_str(text, ind, "#") {
        return Some(parse_heading(p, pos, diags));
    }
    if range_is(text, ind, n, "---") {
        return Some((Block::HorizontalRule { span: t.span }, pos + 1));
    }
    if starts_at_str(text, ind, "```") {
        proof {
            reveal_strlit("```");
        }
        return Some(parse_code_fence(p, pos, diags));
    }
    let is_bullet = starts_at_str(text, ind, "- ");
    if is_bullet || leading_ordered_marker(text, ind).is_some() {
        // The first line always opens an item, so the list consumes it.
        let (b, np) = parse_list(p, pos, ind, !is_bullet, diags);
        if np > pos {
            return Some((b, np));
        }
    }
    if starts_at_str(text, ind, ">") {
        proof {
            reveal_strlit(">");
            assert(text@.subrange(ind as int, ind + 1)[0] == text@[ind as int]);
        }
        return Some(parse_blockquote(p, pos, ind, diags));
    }
    if range_is(text, ind, n, "@t") || starts_at_str(text, ind, "@t ") || starts_at_str(
        text,
        ind,
        "@t(",
    ) {
        return Some(parse_table(p, pos, ind, diags));
    }
    if range_is(text, ind, n, "@dl") || starts_at_str(text, ind, "@dl ") || starts_at_str(
        text,
        ind,
        "@dl(",
    ) {
        return Some(parse_definition_list(p, pos, ind, diags));
    }
    if starts_at_str(text, ind, "@") {
        proof {
            reveal_strlit("@");
            reveal_strlit("#");
            reveal_strlit("```");
            reveal_strlit(">");
            reveal_strlit("|");
            assert(text@.subrange(ind as int, ind + 1)[0] == text@[ind as int]);
            assert(text@[ind as int] == '@');
            if ind + 3 <= text@.len() {
                assert(text@.subrange(ind as int, ind + 3)[0] == text@[ind as int]);
            }
        }
        return parse_block_shortcode_or_inline(p, pos, ind, diags);
    }
    if starts_at_str(text, ind, "|") {
        diags.push(
            Diagnostic::new(Code::StrayContent, t.span).label("`|` only appears inside a `@t` table"),
        );
        return Some((Block::Paragraph { content: Vec::new(), span: t.span }, pos + 1));
    }
    None
}

/// Inline content of `text[a..b]` with absolute byte offset `base`.
fn inline_range(text: &[char], a: usize, b: usize, base: u32, diags: &mut Vec<Diagnostic>) -> (r: Vec<Inline>)
    requires
        a <= b <= text@.len(),
    ensures
        final(diags)@.len() >= old(diags)@.len(),
        final(diags)@.take(old(diags)@.len() as int) == old(diags)@,
        base + utf8_len(text@.subrange(a as int, b as int)) > u32::MAX ==> r@.len() == 0
            && final(diags)@ == old(diags)@,
        base + utf8_len(text@.subrange(a as int, b as int)) <= u32::MAX && crate::inline::plain(
            text@.subrange(a as int, b as int),
        ) ==> crate::inline::plain_parse(
            text@.subrange(a as int, b as int),
            r@,
            final(diags)@.skip(old(diags)@.len() as int),
        ),
{
    let chunk = copy_range(text, a, b);
    let ghost o = diags@;
    let (nodes, mut d) = parse_inline_range(chunk.as_slice(), base);
    let ghost dv = d@;
    diags.append(&mut d);
    assert(diags@.take(o.len() as int) =~= o);
    assert(diags@.skip(o.len() as int) =~= dv);
    nodes
}

/// `parse_inline` on chars, for any length and offset.
fn parse_inline_range(chunk: &[char], base: u32) -> (r: (Vec<Inline>, Vec<Diagnostic>))
    ensures
        base + utf8_len(chunk@) > u32::MAX ==> r.0@.len() == 0 && r.1@.len() == 0,
        base + utf8_len(chunk@) <= u32::MAX && crate::inline::plain(chunk@) ==> crate::inline::plain_parse(
            chunk@,
            r.0@,
            r.1@,
        ),
{
    match crate::text::utf8_len_exec(chunk) {
        Some(total) => {
            if total <= (u32::MAX - base) as usize {
                parse_inline_chars(chunk, base)
            } else {
                (Vec::new(), Vec::new())
            }
        },
        None => (Vec::new(), Vec::new()),
    }
}

/// `# Heading {#anchor}`.
fn parse_heading(p: &P, pos: usize, diags: &mut Vec<Diagnostic>) -> (r: (Block, usize))
    requires
        p.wf(),
        p.ok(pos),
        p.toks@[pos as int].kind == 0,
    ensures
        advanced(p, pos, r.1),
{
    let t = &p.toks[pos];
    let text = t.text.as_slice();
    let ind = t.indent;
    let n = text.len();
    let mut level: usize = 0;
    while ind + level < n && text[ind + level] == '#'
        invariant
            ind + level <= n,
            n == text@.len(),
            level <= 7,
        decreases n - ind - level,
    {
        level = level + 1;
        if level > 6 {
            break;
        }
    }
    let mut hash_count = level;
    while ind + hash_count < n && text[ind + hash_count] == '#'
        invariant
            ind + hash_count <= n,
            n == text@.len(),
        decreases n - ind - hash_count,
    {
        hash_count = hash_count + 1;
    }
    if hash_count > 6 {
        let span = Span::new(off(t.span.start, ind) as usize, hash_count);
        diags.push(
            Diagnostic::new(Code::HeadingTooDeep, span).label(
                "Brief supports heading levels 1-6 only",
            ),
        );
        return (Block::Paragraph { content: Vec::new(), span: t.span }, pos + 1);
    }
    if !(ind + level < n && text[ind + level] == ' ') {
        diags.push(
            Diagnostic::new(Code::HeadingNoSpace, t.span).help(
                "write `# heading` with exactly one space after the `#`s",
            ),
        );
        return (Block::Paragraph { content: Vec::new(), span: t.span }, pos + 1);
    }
    if ind + level + 1 < n && text[ind + level + 1] == ' ' {
        diags.push(
            Diagnostic::new(Code::HeadingNoSpace, t.span).label(
                "multiple spaces after heading marker",
            ),
        );
    }
    let text_offset = ind + level + 1;
    let base = off(t.span.start, t.offs[text_offset]);
    let (end, anchor) = parse_heading_anchor(text, t.offs.as_slice(), text_offset, n, base, diags);
    let content = inline_range(text, text_offset, end, base, diags);
    (Block::Heading { level: level as u8, content, anchor, span: t.span }, pos + 1)
}

/// Last index `k` in `a..b` with `s[k..k+2] == "{#"`.
fn rfind_anchor_open(s: &[char], a: usize, b: usize) -> (r: Option<usize>)
    requires
        a <= b <= s@.len(),
    ensures
        r matches Some(k) ==> a <= k && k + 2 <= b && s@[k as int] == '{' && s@[k + 1] == '#',
        r matches Some(k) ==> forall|j: int| k < j && j + 2 <= b ==> !(#[trigger] s@[j] == '{' && s@[j + 1] == '#'),
        r is None ==> forall|j: int| a <= j && j + 2 <= b ==> !(#[trigger] s@[j] == '{' && s@[j + 1] == '#'),
{
    let mut k = b;
    while k > a
        invariant
            a <= k <= b,
            b <= s@.len(),
            forall|j: int| k <= j && j + 2 <= b ==> !(#[trigger] s@[j] == '{' && s@[j + 1] == '#'),
        decreases k - a,
    {
        k = k - 1;
        if k + 1 < b && s[k] == '{' && s[k + 1] == '#' {
            return Some(k);
        }
    }
    None
}

/// An anchor name: non-empty, `[a-z0-9-]` only.
pub open spec fn valid_anchor(name: Seq<char>) -> bool {
    name.len() > 0 && forall|i: int|
        0 <= i < name.len() ==> ('a' <= #[trigger] name[i] <= 'z' || '0' <= name[i] <= '9'
            || name[i] == '-')
}

/// Is `s[a..b]` a valid anchor name?
pub fn is_valid_anchor(s: &[char], a: usize, b: usize) -> (r: bool)
    requires
        a <= b <= s@.len(),
    ensures
        r == valid_anchor(s@.subrange(a as int, b as int)),
{
    if a == b {
        return false;
    }
    let mut i = a;
    while i < b
        invariant
            a <= i <= b,
            b <= s@.len(),
            forall|k: int| a <= k < i ==> ('a' <= #[trigger] s@[k] <= 'z' || '0' <= s@[k] <= '9' || s@[k] == '-'),
        decreases b - i,
    {
        let c = s[i];
        if !(('a' <= c && c <= 'z') || ('0' <= c && c <= '9') || c == '-') {
            assert(s@.subrange(a as int, b as int)[i - a] == c);
            return false;
        }
        i = i + 1;
    }
    assert forall|k: int| 0 <= k < b - a implies ('a' <= #[trigger] s@.subrange(a as int, b as int)[k] <= 'z' || '0' <= s@.subrange(a as int, b as int)[k] <= '9' || s@.subrange(a as int, b as int)[k] == '-') by {
        assert(s@.subrange(a as int, b as int)[k] == s@[a + k]);
    }
    true
}

/// A trailing `{#anchor}` on heading text `s[a..b]` (`base` is the byte
/// offset of `s[a]`). Returns where the heading text ends and the anchor,
/// reporting malformed anchors.
fn parse_heading_anchor(s: &[char], offs: &[usize], a: usize, b: usize, base: u32, diags: &mut Vec<Diagnostic>) -> (r: (usize, Option<String>))
    requires
        a <= b <= s@.len(),
        offs@.len() == s@.len() + 1,
        forall|i: int, j: int| 0 <= i <= j <= s@.len() ==> offs@[i] <= offs@[j],
    ensures
        a <= r.0 <= b,
        r.1 matches Some(name) ==> valid_anchor(name@),
{
    let hash_open = match rfind_anchor_open(s, a, b) {
        Some(k) => k,
        None => {
            return (b, None);
        },
    };
    let mut rb = hash_open;
    while rb < b && s[rb] != '}'
        invariant
            hash_open <= rb <= b,
            b <= s@.len(),
        decreases b - rb,
    {
        rb = rb + 1;
    }
    if rb == b {
        return (b, None);
    }
    let cand_end = rb + 1;
    let anchor_start = off(base, offs[hash_open] - offs[a]);
    let cand_len = offs[cand_end] - offs[hash_open];
    if cand_end < b {
        diags.push(
            Diagnostic::new(Code::BadHeadingAnchor, Span::new(anchor_start as usize, cand_len)).label(
                "anchor block must be `{#anchor}` with exactly one space before `{` and no content after `}`",
            ),
        );
        return (b, None);
    }
    let malformed = if hash_open == a {
        true
    } else if s[hash_open - 1] != ' ' {
        true
    } else {
        hash_open - 1 > a && s[hash_open - 2] == ' '
    };
    if malformed {
        diags.push(
            Diagnostic::new(Code::BadHeadingAnchor, Span::new(anchor_start as usize, cand_len)).label(
                "anchor block must be `{#anchor}` with exactly one space before `{` and no content after `}`",
            ),
        );
        return (hash_open, None);
    }
    let name_a = hash_open + 2;
    let name_b = rb;
    if !is_valid_anchor(s, name_a, name_b) {
        let name_len = offs[name_b] - offs[name_a];
        let len = if name_len > 1 {
            name_len
        } else {
            1
        };
        diags.push(
            Diagnostic::new(
                Code::BadHeadingAnchor,
                Span::new(off(anchor_start, 2) as usize, len),
            ).label("anchor must match `[a-z0-9-]+`").help(
                "use lowercase letters, digits, and hyphens only",
            ),
        );
        return (hash_open - 1, None);
    }
    (hash_open - 1, Some(range_string(s, name_a, name_b)))
}

/// A continuation line starting with one of these begins a new block.
fn leading_block_sigil(s: &[char], a: usize) -> (r: bool)
    requires
        a <= s@.len(),
    ensures
        r == (a < s@.len() && (s@[a as int] == '#' || s@[a as int] == '>' || s@[a as int] == '|' || s@[a as int]
            == '`' || s@.subrange(a as int, s@.len() as int) == "---"@ || crate::text::matches_at(
            s@,
            a as int,
            "- "@,
        ) || (ordered_marker(s@, a as int) matches Some((v, _)) && v <= u32::MAX) || crate::text::matches_at(
            s@,
            a as int,
            "//"@,
        ) || crate::text::matches_at(s@, a as int, "/*"@) || s@[a as int] == '@')),
{
    let n = s.len();
    if a >= n {
        return false;
    }
    let b = s[a];
    if b == '#' || b == '>' || b == '|' || b == '`' {
        return true;
    }
    if range_is(s, a, n, "---") {
        return true;
    }
    if starts_at_str(s, a, "- ") {
        return true;
    }
    if leading_ordered_marker(s, a).is_some() {
        return true;
    }
    if starts_at_str(s, a, "//") || starts_at_str(s, a, "/*") {
        return true;
    }
    b == '@'
}

/// End of the run of ASCII digits of `s` that starts at `i`.
pub open spec fn digit_run(s: Seq<char>, i: int) -> int
    decreases s.len() - i,
{
    if 0 <= i < s.len() && '0' <= s[i] <= '9' {
        digit_run(s, i + 1)
    } else {
        i
    }
}

/// Decimal value of a string of ASCII digits.
pub open spec fn digits_value(d: Seq<char>) -> nat
    decreases d.len(),
{
    if d.len() == 0 {
        0
    } else {
        digits_value(d.drop_last()) * 10 + (d.last() as nat - '0' as nat) as nat
    }
}

/// `N. ` at `s[a..]` (digits, a dot, a space): the number and the marker's
/// length.
pub open spec fn ordered_marker(s: Seq<char>, a: int) -> Option<(nat, int)> {
    let i = digit_run(s, a);
    if i == a || !(i < s.len() && s[i] == '.') || !(i + 1 < s.len() && s[i + 1] == ' ') {
        None
    } else {
        Some((digits_value(s.subrange(a, i)), i - a + 2))
    }
}

proof fn lemma_digit_run(s: Seq<char>, i: int)
    requires
        0 <= i <= s.len(),
    ensures
        i <= digit_run(s, i) <= s.len(),
        forall|k: int| i <= k < digit_run(s, i) ==> '0' <= #[trigger] s[k] <= '9',
    decreases s.len() - i,
{
    if i < s.len() && '0' <= s[i] <= '9' {
        lemma_digit_run(s, i + 1);
    }
}

pub(crate) proof fn lemma_digits_value_mono(d: Seq<char>, j: int)
    requires
        0 <= j <= d.len(),
        forall|k: int| 0 <= k < d.len() ==> '0' <= #[trigger] d[k] <= '9',
    ensures
        digits_value(d.take(j)) <= digits_value(d),
    decreases d.len() - j,
{
    if j < d.len() {
        let e = d.drop_last();
        assert forall|k: int| 0 <= k < e.len() implies '0' <= #[trigger] e[k] <= '9' by {
            assert(e[k] == d[k]);
        }
        lemma_digits_value_mono(e, j);
        assert(e.take(j) =~= d.take(j));
    } else {
        assert(d.take(j) =~= d);
    }
}

/// `N. ` at `s[a..]`: the number and the marker length (digits + 2);
/// `None` also when the number does not fit in a `u32`.
pub fn leading_ordered_marker(s: &[char], a: usize) -> (r: Option<(u32, usize)>)
    requires
        a <= s@.len(),
    ensures
        r matches Some((_, len)) ==> len >= 3 && a + len <= s@.len() && s@[a + len - 2] == '.'
            && s@[a + len - 1] == ' ',
        match r {
            Some((v, len)) => ordered_marker(s@, a as int) == Some((v as nat, len as int)),
            None => ordered_marker(s@, a as int) matches None || ordered_marker(s@, a as int)->Some_0.0
                > u32::MAX,
        },
{
    let n = s.len();
    let mut i = a;
    proof {
        lemma_digit_run(s@, a as int);
    }
    while i < n && '0' <= s[i] && s[i] <= '9'
        invariant
            a <= i <= n,
            n == s@.len(),
            digit_run(s@, a as int) == digit_run(s@, i as int),
        decreases n - i,
    {
        i = i + 1;
    }
    if i == a {
        return None;
    }
    if !(i < n && s[i] == '.') {
        return None;
    }
    if !(i + 1 < n && s[i + 1] == ' ') {
        return None;
    }
    let ghost d = s@.subrange(a as int, i as int);
    proof {
        assert forall|k: int| 0 <= k < d.len() implies '0' <= #[trigger] d[k] <= '9' by {
            assert(d[k] == s@[a + k]);
        }
    }
    let mut v: u32 = 0;
    let mut k = a;
    assert(d.take(0) =~= Seq::<char>::empty());
    while k < i
        invariant
            a <= k <= i,
            i < n,
            n == s@.len(),
            d == s@.subrange(a as int, i as int),
            forall|q: int| 0 <= q < d.len() ==> '0' <= #[trigger] d[q] <= '9',
            v as nat == digits_value(d.take(k - a)),
        decreases i - k,
    {
        let ghost t = d.take(k - a + 1);
        assert(t.drop_last() =~= d.take(k - a));
        assert(t.last() == s@[k as int]);
        let d0 = (s[k] as u32).wrapping_sub('0' as u32);
        assert(d0 as nat == (s@[k as int] as nat - '0' as nat) as nat);
        let m = match v.checked_mul(10) {
            Some(m) => m,
            None => {
                proof {
                    lemma_digits_value_mono(d, k - a + 1);
                }
                return None;
            },
        };
        v = match m.checked_add(d0) {
            Some(x) => x,
            None => {
                proof {
                    lemma_digits_value_mono(d, k - a + 1);
                }
                return None;
            },
        };
        k = k + 1;
    }
    assert(d.take(i - a) =~= d);
    Some((v, i - a + 2))
}

/// A paragraph: consecutive lines at the same indent, joined by spaces;
/// a trailing `\` is a hard break.
fn parse_paragraph(p: &P, pos: usize, indent: usize, diags: &mut Vec<Diagnostic>) -> (r: (Block, usize))
    requires
        p.wf(),
        p.ok(pos),
        p.toks@[pos as int].kind == 0,
        p.toks@[pos as int].indent == indent,
    ensures
        advanced(p, pos, r.1),
{
    let first = &p.toks[pos];
    let mut span = first.span;
    let mut text: Vec<char> = Vec::new();
    let mut hard: Vec<usize> = Vec::new();
    let mut first_line = true;
    let mut pos = pos;
    let ghost pos0 = pos;
    while p.toks[pos].kind == 0
        invariant
            p.wf(),
            p.ok(pos),
            pos0 <= pos,
            first_line ==> pos == pos0,
            !first_line ==> pos0 < pos,
            forall|k: int| 0 <= k < hard@.len() ==> #[trigger] hard@[k] <= text@.len(),
            forall|k: int, j: int| 0 <= k < j < hard@.len() ==> hard@[k] <= hard@[j],
        decreases p.n() - pos,
    {
        let t = &p.toks[pos];
        if t.indent != indent {
            break;
        }
        let line = t.text.as_slice();
        if !first_line && leading_block_sigil(line, indent) {
            break;
        }
        first_line = false;
        if text.len() > 0 {
            text.push(' ');
        }
        let mut end = line.len();
        let is_hard = end > indent && line[end - 1] == '\\';
        if is_hard {
            end = end - 1;
        }
        push_range(&mut text, line, indent, end);
        if is_hard {
            hard.push(text.len());
        }
        span = join(span, t.span);
        pos = pos + 1;
    }
    let base = off(first.span.start, first.indent);
    let mut content: Vec<Inline> = Vec::new();
    if text.len() < usize::MAX {
        let toffs = match crate::text::utf8_len_exec(text.as_slice()) {
            Some(_) => byte_offsets(text.as_slice()),
            None => {
                return (Block::Paragraph { content, span }, pos);
            },
        };
        let mut cursor: usize = 0;
        let mut k: usize = 0;
        while k < hard.len()
            invariant
                k <= hard@.len(),
                cursor <= text@.len(),
                toffs@.len() == text@.len() + 1,
                k < hard@.len() ==> cursor <= hard@[k as int],
                forall|q: int| 0 <= q < hard@.len() ==> #[trigger] hard@[q] <= text@.len(),
                forall|q: int, j: int| 0 <= q < j < hard@.len() ==> hard@[q] <= hard@[j],
            decreases hard@.len() - k,
        {
            let hb = hard[k];
            let mut inl = inline_range(text.as_slice(), cursor, hb, off(base, toffs[cursor]), diags);
            content.append(&mut inl);
            content.push(Inline::HardBreak { span: Span::new(off(base, toffs[hb]) as usize, 1) });
            cursor = hb;
            k = k + 1;
        }
        let mut inl = inline_range(text.as_slice(), cursor, text.len(), off(base, toffs[cursor]), diags);
        content.append(&mut inl);
    }
    (Block::Paragraph { content, span }, pos)
}

/// End of the run of non-space chars of `t` that starts at `i`.
pub open spec fn word_end_at(t: Seq<char>, i: int) -> int
    decreases t.len() - i,
{
    if 0 <= i < t.len() && t[i] != ' ' {
        word_end_at(t, i + 1)
    } else {
        i
    }
}

/// Language tag of a fence info string starting at `a`: its first word,
/// unless there is none or it is an `@attribute`.
pub open spec fn fence_lang(s: Seq<char>, a: int) -> Option<Seq<char>> {
    let i = crate::inline::space_end(s, a);
    if i >= s.len() || s[i] == '@' {
        None
    } else {
        Some(s.subrange(i, word_end_at(s, i)))
    }
}

/// Info string after an opening fence: the language tag and `@attributes`.
fn parse_fence_info(s: &[char], offs: &[usize], a: usize, base: u32, fence_span: Span, diags: &mut Vec<Diagnostic>) -> (r: (Option<String>, CodeAttrs))
    requires
        a <= s@.len(),
        offs@.len() == s@.len() + 1,
        forall|i: int, j: int| 0 <= i <= j <= s@.len() ==> offs@[i] <= offs@[j],
    ensures
        match r.0 {
            Some(l) => fence_lang(s@, a as int) == Some(l@),
            None => fence_lang(s@, a as int) is None,
        },
{
    let mut attrs = CodeAttrs::default();
    let n = s.len();
    let mut i = a;
    while i < n && s[i] == ' '
        invariant
            a <= i <= n,
            n == s@.len(),
            crate::inline::space_end(s@, a as int) == crate::inline::space_end(s@, i as int),
        decreases n - i,
    {
        i = i + 1;
    }
    if i == n {
        return (None, attrs);
    }
    let lang_start = i;
    while i < n && s[i] != ' '
        invariant
            lang_start <= i <= n,
            n == s@.len(),
            word_end_at(s@, lang_start as int) == word_end_at(s@, i as int),
        decreases n - i,
    {
        i = i + 1;
    }
    let lang = if lang_start == i {
        None
    } else if s[lang_start] == '@' {
        i = lang_start;
        None
    } else {
        Some(range_string(s, lang_start, i))
    };
    while i < n
        invariant
            a <= i <= n,
            n == s@.len(),
            offs@.len() == s@.len() + 1,
            forall|x: int, y: int| 0 <= x <= y <= s@.len() ==> offs@[x] <= offs@[y],
        decreases n - i,
    {
        let ghost i0 = i;
        while i < n && s[i] == ' '
            invariant
                a <= i <= n,
                i0 <= i,
                n == s@.len(),
            decreases n - i,
        {
            i = i + 1;
        }
        if i >= n {
            break;
        }
        let tok_start = i;
        while i < n && s[i] != ' '
            invariant
                tok_start <= i <= n,
                n == s@.len(),
            decreases n - i,
        {
            i = i + 1;
        }
        let tok_span = Span::new(
            off(base, offs[tok_start] - offs[a]) as usize,
            offs[i] - offs[tok_start],
        );
        let tok = range_string(s, tok_start, i);
        if s[tok_start] != '@' {
            let mut m: Vec<char> = Vec::new();
            m.push('`');
            push_range(&mut m, s, tok_start, i);
            push_str(&mut m, "` is not a valid code-fence attribute");
            diags.push(
                Diagnostic::new(Code::UnknownCodeAttribute, tok_span).label(
                    chars_to_string(m.as_slice()).as_str(),
                ).help("attributes must be `@`-prefixed identifiers (e.g. `@nominify`)"),
            );
            continue;
        }
        if range_is(s, tok_start + 1, i, "nominify") {
            if attrs.minify || attrs.keep_comments {
                diags.push(
                    Diagnostic::new(Code::ConflictingCodeAttributes, fence_span).label(
                        "`@nominify` conflicts with `@minify`/`@minify-keep-comments`",
                    ),
                );
            }
            attrs.nominify = true;
        } else if range_is(s, tok_start + 1, i, "minify") {
            if attrs.nominify {
                diags.push(
                    Diagnostic::new(Code::ConflictingCodeAttributes, fence_span).label(
                        "`@nominify` and `@minify` cannot both be set",
                    ),
                );
            }
            attrs.minify = true;
        } else if range_is(s, tok_start + 1, i, "minify-keep-comments") {
            if attrs.nominify {
                diags.push(
                    Diagnostic::new(Code::ConflictingCodeAttributes, fence_span).label(
                        "`@nominify` and `@minify-keep-comments` cannot both be set",
                    ),
                );
            }
            attrs.keep_comments = true;
        } else {
            let mut m: Vec<char> = Vec::new();
            push_str(&mut m, "unknown code-fence attribute `");
            push_str(&mut m, tok.as_str());
            m.push('`');
            diags.push(
                Diagnostic::new(Code::UnknownCodeAttribute, tok_span).label(
                    chars_to_string(m.as_slice()).as_str(),
                ).help("v0.3 supports `@nominify`, `@minify`, `@minify-keep-comments`"),
            );
        }
    }
    (lang, attrs)
}

/// A ``` code fence; the body is kept verbatim.
fn parse_code_fence(p: &P, pos: usize, diags: &mut Vec<Diagnostic>) -> (r: (Block, usize))
    requires
        p.wf(),
        p.ok(pos),
        p.toks@[pos as int].kind == 0,
        p.toks@[pos as int].indent + 3 <= p.toks@[pos as int].text@.len(),
    ensures
        advanced(p, pos, r.1),
{
    let open = &p.toks[pos];
    let text = open.text.as_slice();
    let ind = open.indent;
    let after = ind + 3;
    if after < text.len() && text[after] == '`' {
        diags.push(
            Diagnostic::new(Code::UnterminatedFence, open.span).label(
                "opening fence must be exactly three backticks",
            ),
        );
    }
    let info_base = off(open.span.start, open.offs[after]);
    let (lang, attrs) = parse_fence_info(text, open.offs.as_slice(), after, info_base, open.span, diags);
    let mut body: Vec<char> = Vec::new();
    let mut span = open.span;
    let ghost pos0 = pos;
    let mut pos = pos + 1;
    loop
        invariant
            p.wf(),
            p.ok(pos),
            pos0 < pos,
        decreases p.n() - pos,
    {
        let t = &p.toks[pos];
        if t.kind == 2 {
            diags.push(
                Diagnostic::new(Code::UnterminatedFence, open.span).label(
                    "fence opened here is never closed",
                ),
            );
            break;
        }
        if t.kind == 1 {
            body.push('\n');
            span = join(span, t.span);
            pos = pos + 1;
            continue;
        }
        if trimmed_eq(t.text.as_slice(), 0, t.text.len(), "```") {
            span = join(span, t.span);
            pos = pos + 1;
            break;
        }
        push_all(&mut body, t.text.as_slice());
        body.push('\n');
        span = join(span, t.span);
        pos = pos + 1;
    }
    if body.len() > 0 && body[body.len() - 1] == '\n' {
        body.pop();
    }
    (Block::CodeBlock { lang, body: chars_to_string(body.as_slice()), attrs, span }, pos)
}

/// An unordered (`- `) or ordered (`1. `) list at `indent`, with nested
/// blocks indented two more spaces.
/// The token is an item line of a list at `indent`: a line at that indent
/// starting with a number and `. ` (ordered) or with `- ` (bullets).
pub open spec fn list_item_line(t: PTok, indent: usize, ordered: bool) -> bool {
    &&& t.kind == 0
    &&& t.indent == indent
    &&& if ordered {
        ordered_marker(t.text@, indent as int) matches Some((v, _)) && v <= u32::MAX
    } else {
        crate::text::matches_at(t.text@, indent as int, "- "@)
    }
}

fn parse_list(p: &P, pos: usize, indent: usize, ordered: bool, diags: &mut Vec<Diagnostic>) -> (r: (Block, usize))
    requires
        p.wf(),
        p.ok(pos),
        p.toks@[pos as int].kind == 0,
    ensures
        pos <= r.1,
        p.ok(r.1),
        p.toks@[r.1 as int].kind != 1,
        !list_item_line(p.toks@[r.1 as int], indent, ordered),
    decreases p.n() - pos, 1nat,
{
    let start_span = p.toks[pos].span;
    let mut items: Vec<ListItem> = Vec::new();
    let mut expected: u32 = 1;
    let mut pos = pos;
    let ghost pos0 = pos;
    loop
        invariant
            p.wf(),
            p.ok(pos),
            pos0 <= pos,
            p.toks@[pos as int].kind != 1,
        decreases p.n() - pos,
    {
        let t = &p.toks[pos];
        if t.kind != 0 || t.indent != indent {
            break;
        }
        let text = t.text.as_slice();
        proof {
            assert(p.toks@[pos as int].wf());
        }
        let marker_len: usize;
        if ordered {
            match leading_ordered_marker(text, indent) {
                Some((num, ml)) => {
                    if num != expected {
                        let mut m: Vec<char> = Vec::new();
                        push_str(&mut m, "got `");
                        push_usize(&mut m, num as usize);
                        push_str(&mut m, ".`, expected `");
                        push_usize(&mut m, expected as usize);
                        push_str(&mut m, ".`");
                        diags.push(
                            Diagnostic::new(
                                Code::OrderedListSequence,
                                Span::new(off(t.span.start, indent) as usize, ml),
                            ).label(chars_to_string(m.as_slice()).as_str()).help(
                                "ordered lists must number sequentially starting from 1",
                            ),
                        );
                    }
                    expected = expected.saturating_add(1);
                    marker_len = ml;
                },
                None => {
                    break;
                },
            }
        } else {
            if !starts_at_str(text, indent, "- ") {
                break;
            }
            proof {
                reveal_strlit("- ");
            }
            marker_len = 2;
        }
        let after = indent + marker_len;
        let (task, co) = if starts_at_str(text, after, "[x] ") {
            proof {
                reveal_strlit("[x] ");
            }
            (Some(TaskState::Done), 4usize)
        } else if starts_at_str(text, after, "[ ] ") {
            proof {
                reveal_strlit("[ ] ");
            }
            (Some(TaskState::Todo), 4usize)
        } else {
            (None, 0usize)
        };
        let cstart = after + co;
        let content = inline_range(text, cstart, text.len(), off(t.span.start, t.offs[cstart]), diags);
        let item_span = t.span;
        pos = pos + 1;
        let mut children: Vec<Block> = Vec::new();
        pos = skip_blanks(p, pos);
        if p.toks[pos].kind == 0 && p.toks[pos].indent >= indent + 2 {
            let (c, np) = parse_blocks(p, pos, indent + 2, Some(indent + 2), diags);
            children = c;
            pos = np;
        }
        items.push(ListItem { content, children, task, span: item_span });
    }
    let mut span = start_span;
    let mut k: usize = 0;
    while k < items.len()
        decreases items@.len() - k,
    {
        span = join(span, items[k].span);
        k = k + 1;
    }
    (Block::List { ordered, items, span }, pos)
}

/// One `>` line of a blockquote: nesting depth, body text, line span.
pub struct QuoteLine {
    pub depth: usize,
    pub body: Vec<char>,
    pub span: Span,
}

/// Consecutive `>` lines at `indent`, nested by the number of `>`s.
fn parse_blockquote(p: &P, pos: usize, indent: usize, diags: &mut Vec<Diagnostic>) -> (r: (Block, usize))
    requires
        p.wf(),
        p.ok(pos),
        p.toks@[pos as int].kind == 0,
        indent == p.toks@[pos as int].indent,
        indent < p.toks@[pos as int].text@.len(),
        p.toks@[pos as int].text@[indent as int] == '>',
    ensures
        advanced(p, pos, r.1),
{
    let start = p.toks[pos].span;
    let mut lines: Vec<QuoteLine> = Vec::new();
    let mut pos = pos;
    let ghost pos0 = pos;
    loop
        invariant
            p.wf(),
            p.ok(pos),
            pos0 <= pos,
            forall|k: int| 0 <= k < lines@.len() ==> 1 <= (#[trigger] lines@[k]).depth < usize::MAX,
        decreases p.n() - pos,
    {
        let t = &p.toks[pos];
        if t.kind != 0 || t.indent != indent {
            break;
        }
        let text = t.text.as_slice();
        let n = text.len();
        let mut idx = indent;
        while idx < n && text[idx] == '>'
            invariant
                indent <= idx <= n,
                n == text@.len(),
                n + 8 <= usize::MAX,
            decreases n - idx,
        {
            idx = idx + 1;
        }
        let depth = idx - indent;
        if depth == 0 {
            break;
        }
        if !(idx < n && text[idx] == ' ') {
            diags.push(
                Diagnostic::new(Code::BadBlockquote, t.span).label("expected one space after `>`"),
            );
            pos = pos + 1;
            break;
        }
        lines.push(QuoteLine { depth, body: copy_range(text, idx + 1, n), span: t.span });
        pos = pos + 1;
    }
    let (children, span) = build_blockquote(&lines, 0, lines.len(), 1);
    let span = if span == Span::dummy() {
        start
    } else {
        span
    };
    (Block::Blockquote { children, span }, pos)
}

/// Blocks of the quote lines `items[lo..hi]` at nesting `depth`: lines at
/// `depth` become paragraphs, deeper runs nested quotes. Returns the blocks
/// and the span they cover (`Span::dummy()` when none).
fn build_blockquote(items: &Vec<QuoteLine>, lo: usize, hi: usize, depth: usize) -> (r: (Vec<Block>, Span))
    requires
        lo <= hi <= items@.len(),
        forall|k: int| 0 <= k < items@.len() ==> 1 <= (#[trigger] items@[k]).depth < usize::MAX,
    ensures
        lo == hi || items@[lo as int].depth < depth ==> r.0@.len() == 0,
        (forall|k: int| lo <= k < hi ==> (#[trigger] items@[k]).depth == depth) ==> r.0@.len() == hi - lo
            && forall|k: int| 0 <= k < hi - lo ==> (#[trigger] r.0@[k] matches Block::Paragraph { span, .. }
            && span == items@[lo + k].span),
    decreases hi - lo, usize::MAX - depth,
{
    let mut paras: Vec<Block> = Vec::new();
    let mut full = Span::dummy();
    let mut i = lo;
    while i < hi
        invariant
            lo <= i <= hi,
            hi <= items@.len(),
            forall|k: int| 0 <= k < items@.len() ==> 1 <= (#[trigger] items@[k]).depth < usize::MAX,
            i == lo ==> paras@.len() == 0,
            lo < hi && items@[lo as int].depth < depth ==> i == lo,
            (forall|k: int| lo <= k < hi ==> (#[trigger] items@[k]).depth == depth) ==> paras@.len() == i - lo
                && forall|k: int| 0 <= k < i - lo ==> (#[trigger] paras@[k] matches Block::Paragraph { span, .. }
                && span == items@[lo + k].span),
        decreases hi - i,
    {
        let it = &items[i];
        if it.depth < depth {
            break;
        }
        full = if full == Span::dummy() {
            it.span
        } else {
            join(full, it.span)
        };
        if it.depth == depth {
            let (content, _) = parse_inline_range(it.body.as_slice(), it.span.start);
            paras.push(Block::Paragraph { content, span: it.span });
            i = i + 1;
        } else {
            let mut j = i;
            while j < hi && items[j].depth > depth
                invariant
                    i <= j <= hi,
                    hi <= items@.len(),
                decreases hi - j,
            {
                j = j + 1;
            }
            let (children, child_span) = build_blockquote(items, i, j, depth + 1);
            paras.push(Block::Blockquote { children, span: child_span });
            i = j;
        }
    }
    (paras, full)
}

/// Shortcode arguments in `text[a..]`, starting at char `a + rel`; spans in
/// the result are byte offsets from `text[a]`. Returns the arguments (or the
/// diagnostic) and the char position after them, relative to `a`.
fn args_in(text: &[char], a: usize, rel: usize) -> (r: (Result<ShortArgs, Diagnostic>, usize))
    requires
        a + rel <= text@.len(),
    ensures
        r.0 is Ok ==> r.0->Ok_0.keyword.wf(),
        rel <= r.1 <= text@.len() - a,
{
    let chunk = copy_range(text, a, text.len());
    if chunk.len() == usize::MAX {
        return (Ok(ShortArgs::default()), rel);
    }
    match crate::text::utf8_len_exec(chunk.as_slice()) {
        Some(total) => {
            if total > u32::MAX as usize {
                return (Ok(ShortArgs::default()), rel);
            }
        },
        None => {
            return (Ok(ShortArgs::default()), rel);
        },
    }
    let offs = byte_offsets(chunk.as_slice());
    proof {
        crate::text::lemma_utf8_len_mono(chunk@, 0, chunk@.len() as int);
        assert(chunk@.take(chunk@.len() as int) =~= chunk@);
        assert(chunk@.take(0) =~= Seq::<char>::empty());
        assert forall|i: int, j: int| 0 <= i <= j <= chunk@.len() implies offs@[i] <= offs@[j] by {
            crate::text::lemma_utf8_len_mono(chunk@, i, j);
        }
    }
    let src = Src { text: chunk.as_slice(), offs: offs.as_slice(), base: 0 };
    let mut cursor = rel;
    let res = parse_args_at(&src, &mut cursor);
    (res, cursor)
}

/// Number of `|` in `s[from..to]`.
pub open spec fn pipes(s: Seq<char>, from: int, to: int) -> nat
    decreases to - from,
{
    if to <= from {
        0
    } else {
        pipes(s, from, to - 1) + if s[to - 1] == '|' { 1nat } else { 0nat }
    }
}

/// Where the cells of the row `s[a..b]` begin: past its leading `|`.
pub open spec fn row_body(s: Seq<char>, a: int, b: int) -> int {
    if a < b && s[a] == '|' { a + 1 } else { a }
}

/// The row `s[a..b]` holds no backtick and no backslash.
pub open spec fn plain_row(s: Seq<char>, a: int, b: int) -> bool {
    forall|k: int| a <= k < b ==> #[trigger] s[k] != '`' && s[k] != '\\'
}

/// Cell ranges of a table row `s[a..b]` (which starts with `|`), each
/// trimmed, or the char offset (from `a`) of a backtick span that never
/// closes.
pub fn split_cells(s: &[char], a: usize, b: usize) -> (r: (Vec<(usize, usize)>, Option<usize>))
    requires
        a <= b <= s@.len(),
    ensures
        forall|k: int|
            0 <= k < r.0@.len() ==> a <= (#[trigger] r.0@[k]).0 <= r.0@[k].1 <= b,
        r.1 matches Some(x) ==> a + x < b && s@[a + x] == '`',
        (forall|k: int| a <= k < b ==> #[trigger] s@[k] != '`') ==> r.1 is None,
        plain_row(s@, a as int, b as int) ==> r.0@.len() == pipes(s@, row_body(s@, a as int, b as int), b as int)
            + if b > row_body(s@, a as int, b as int) && s@[b - 1] == '|' { 0nat } else { 1nat },
{
    let body_start = if a < b && s[a] == '|' {
        a + 1
    } else {
        a
    };
    let mut cells: Vec<(usize, usize)> = Vec::new();
    let mut cell_start = body_start;
    let mut i = body_start;
    let mut unclosed: Option<usize> = None;
    while i < b
        invariant
            a <= body_start <= cell_start <= i <= b,
            b <= s@.len(),
            unclosed is None,
            forall|k: int|
                0 <= k < cells@.len() ==> body_start <= (#[trigger] cells@[k]).0 <= cells@[k].1 <= b,
            body_start == row_body(s@, a as int, b as int),
            plain_row(s@, a as int, b as int) ==> cells@.len() == pipes(s@, body_start as int, i as int)
                && (cell_start == i <==> (i == body_start || s@[i - 1] == '|')),
        decreases b - i,
    {
        let c = s[i];
        if c == '\\' {
            i = i + 1;
            if i < b {
                i = i + 1;
            }
            continue;
        }
        if c == '`' {
            let ticks: usize = if i + 1 < b && s[i + 1] == '`' {
                2
            } else {
                1
            };
            let open = i;
            let mut j = i + ticks;
            let mut closed = false;
            while j <= b && ticks <= b - j
                invariant
                    i + ticks <= j + 1,
                    j <= b + 1,
                    i < b,
                    b <= s@.len(),
                    ticks == 1 || ticks == 2,
                    !closed,
                decreases b - j,
            {
                if s[j] == '`' && (ticks == 1 || s[j + 1] == '`') {
                    j = j + ticks;
                    closed = true;
                    break;
                }
                j = j + 1;
            }
            if !closed {
                unclosed = Some(open - a);
                break;
            }
            i = if j > i { j } else { i + 1 };
            if i > b {
                i = b;
            }
            continue;
        }
        if c == '|' {
            cells.push((cell_start, i));
            cell_start = i + 1;
            i = i + 1;
            continue;
        }
        i = i + 1;
    }
    assert(plain_row(s@, a as int, b as int) ==> i == b);
    if unclosed.is_none() {
        let empty_last = cell_start == b && cell_start > body_start && s[cell_start - 1] == '|';
        if !empty_last && cell_start <= b {
            cells.push((cell_start, b));
        }
    }
    let mut out: Vec<(usize, usize)> = Vec::new();
    let mut k: usize = 0;
    while k < cells.len()
        invariant
            k <= cells@.len(),
            b <= s@.len(),
            forall|q: int| 0 <= q < cells@.len() ==> a <= (#[trigger] cells@[q]).0 <= cells@[q].1 <= b,
            forall|q: int| 0 <= q < out@.len() ==> a <= (#[trigger] out@[q]).0 <= out@[q].1 <= b,
            out@.len() == k,
        decreases cells@.len() - k,
    {
        let (x, y) = cells[k];
        out.push(trim_bounds(s, x, y));
        k = k + 1;
    }
    (out, unclosed)
}

/// A `@t` table: the directive line (with optional arguments), a header
/// row and body rows, each `|`-separated.
fn parse_table(p: &P, pos: usize, indent: usize, diags: &mut Vec<Diagnostic>) -> (r: (Block, usize))
    requires
        p.wf(),
        p.ok(pos),
        p.toks@[pos as int].kind == 0,
        indent == p.toks@[pos as int].indent,
    ensures
        advanced(p, pos, r.1),
        final(diags)@.len() >= old(diags)@.len(),
        r.0 matches Block::Table { header, rows, .. } ==> forall|k: int|
            0 <= k < rows@.len() && (#[trigger] rows@[k]).cells@.len() != header.cells@.len()
                ==> reported(final(diags)@, old(diags)@.len() as int, Code::TableColumnMismatch, rows@[k].span),
{
    let d = &p.toks[pos];
    let dspan = d.span;
    let dtext = d.text.as_slice();
    let args = if indent + 2 < dtext.len() && dtext[indent + 2] == '(' {
        match args_in(dtext, indent, 2).0 {
            Ok(a) => a,
            Err(e) => {
                diags.push(e);
                ShortArgs::default()
            },
        }
    } else {
        ShortArgs::default()
    };
    let ghost pos0 = pos;
    let mut pos = pos + 1;
    let mut rows: Vec<Row> = Vec::new();
    loop
        invariant
            p.wf(),
            p.ok(pos),
            pos0 < pos,
            diags@.len() >= old(diags)@.len(),
        decreases p.n() - pos,
    {
        let t = &p.toks[pos];
        if t.kind != 0 {
            break;
        }
        let text = t.text.as_slice();
        let n = text.len();
        let mut lead: usize = 0;
        while lead < n && crate::text::char_is_ws(text[lead])
            invariant
                lead <= n,
                n == text@.len(),
            decreases n - lead,
        {
            lead = lead + 1;
        }
        if !(lead < n && text[lead] == '|') {
            break;
        }
        let (cells, unclosed) = split_cells(text, lead, n);
        match unclosed {
            Some(rel) => {
                let abs = off(t.span.start, t.offs[lead + rel]);
                diags.push(
                    Diagnostic::new(Code::UnterminatedCode, Span::new(abs as usize, 1)).label(
                        "inline code span never closed inside a table row",
                    ),
                );
                pos = pos + 1;
                continue;
            },
            None => {},
        }
        let mut parsed: Vec<Vec<Inline>> = Vec::new();
        let mut k: usize = 0;
        while k < cells.len()
            invariant
                k <= cells@.len(),
                n == text@.len(),
                forall|q: int| 0 <= q < cells@.len() ==> lead <= (#[trigger] cells@[q]).0 <= cells@[q].1 <= n,
                diags@.len() >= old(diags)@.len(),
            decreases cells@.len() - k,
        {
            let (x, y) = cells[k];
            let chunk = copy_range(text, x, y);
            let (inl, mut dd) = parse_inline_range(chunk.as_slice(), t.span.start);
            diags.append(&mut dd);
            parsed.push(inl);
            k = k + 1;
        }
        rows.push(Row { cells: parsed, span: t.span });
        pos = pos + 1;
    }
    if rows.len() == 0 {
        diags.push(
            Diagnostic::new(Code::StrayContent, dspan).label(
                "`@t` must be followed by at least a header row",
            ),
        );
        return (Block::Paragraph { content: Vec::new(), span: dspan }, pos);
    }
    let header = rows.remove(0);
    let cols = header.cells.len();
    let mut k: usize = 0;
    while k < rows.len()
        invariant
            k <= rows@.len(),
            cols == header.cells@.len(),
            diags@.len() >= old(diags)@.len(),
            forall|q: int|
                0 <= q < k && (#[trigger] rows@[q]).cells@.len() != cols ==> reported(
                    diags@,
                    old(diags)@.len() as int,
                    Code::TableColumnMismatch,
                    rows@[q].span,
                ),
        decreases rows@.len() - k,
    {
        let r = &rows[k];
        if r.cells.len() != cols {
            let ghost before = diags@;
            diags.push(
                Diagnostic::new(Code::TableColumnMismatch, r.span).label(
                    msg_num2("table row has ", r.cells.len(), " cells, expected ", cols, "").as_str(),
                ),
            );
            proof {
                assert(diags@ == before.push(diags@.last()));
                assert(diags@[before.len() as int].code == Code::TableColumnMismatch);
                assert forall|q: int|
                    0 <= q < k && (#[trigger] rows@[q]).cells@.len() != cols implies reported(
                        diags@,
                        old(diags)@.len() as int,
                        Code::TableColumnMismatch,
                        rows@[q].span,
                    ) by {
                    lemma_reported_push(before, old(diags)@.len() as int, diags@.last(), Code::TableColumnMismatch, rows@[q].span);
                }
            }
        }
        k = k + 1;
    }
    let ghost checked = diags@;
    match args.keyword.get("align") {
        Some(ArgValue::Array(a)) => {
            if a.len() != cols {
                let ghost before = diags@;
                diags.push(
                    Diagnostic::new(Code::AlignArrayLength, dspan).label(
                        msg_num2("`align` has ", a.len(), " entries but table has ", cols, " columns").as_str(),
                    ),
                );
                proof {
                    assert(diags@ == before.push(diags@.last()));
                    assert forall|q: int|
                        0 <= q < rows@.len() && (#[trigger] rows@[q]).cells@.len() != cols implies reported(
                            diags@,
                            old(diags)@.len() as int,
                            Code::TableColumnMismatch,
                            rows@[q].span,
                        ) by {
                        lemma_reported_push(before, old(diags)@.len() as int, diags@.last(), Code::TableColumnMismatch, rows@[q].span);
                    }
                }
            }
        },
        _ => {},
    }
    let mut span = join(dspan, header.span);
    let mut k: usize = 0;
    while k < rows.len()
        decreases rows@.len() - k,
    {
        span = join(span, rows[k].span);
        k = k + 1;
    }
    (Block::Table { args, header, rows, span }, pos)
}

/// A message from text pieces with two numbers between them.
fn msg_num2(a: &str, n: usize, b: &str, m: usize, c: &str) -> (r: String)
    ensures
        r@ == a@ + crate::text::dec(n as nat) + b@ + crate::text::dec(m as nat) + c@,
{
    let mut v: Vec<char> = Vec::new();
    push_str(&mut v, a);
    push_usize(&mut v, n);
    push_str(&mut v, b);
    push_usize(&mut v, m);
    push_str(&mut v, c);
    assert(v@ =~= a@ + crate::text::dec(n as nat) + b@ + crate::text::dec(m as nat) + c@);
    chars_to_string(v.as_slice())
}

/// A definition being collected: its text, the byte offset of its first
/// char, and the span of its lines.
pub struct PendingDef {
    pub text: Vec<char>,
    pub base: u32,
    pub span: Span,
}

/// Close an open definition, pairing it with the pending term.
fn finalize_def(items: &mut Vec<DefinitionItem>, term: &mut Option<(Vec<Inline>, Span)>, def: &mut Option<PendingDef>, diags: &mut Vec<Diagnostic>)
    ensures
        final(def).is_none(),
        final(diags)@.len() >= old(diags)@.len(),
        old(def).is_none() ==> *final(term) == *old(term) && final(items)@ == old(items)@,
        old(def).is_some() ==> final(term).is_none(),
{
    match def.take() {
        Some(pd) => {
            let pair = term.take();
            let (definition, mut dd) = parse_inline_range(pd.text.as_slice(), pd.base);
            diags.append(&mut dd);
            match pair {
                Some((t, tspan)) => {
                    items.push(DefinitionItem { term: t, definition, span: join(tspan, pd.span) });
                },
                None => {},
            }
        },
        None => {},
    }
}

/// A `@dl` definition list: term lines, each followed by a `: ` definition
/// (continued by lines indented two more spaces), closed by `@end`.
fn parse_definition_list(p: &P, pos: usize, indent: usize, diags: &mut Vec<Diagnostic>) -> (r: (Block, usize))
    requires
        p.wf(),
        p.ok(pos),
        p.toks@[pos as int].kind == 0,
        indent == p.toks@[pos as int].indent,
    ensures
        advanced(p, pos, r.1),
        final(diags)@.len() >= old(diags)@.len(),
        r.0 matches Block::DefinitionList { items, .. } && (items@.len() == 0 ==> exists|k: int|
            0 <= k < final(diags)@.len() && (#[trigger] final(diags)@[k]).code == Code::BadDefinitionList),
{
    let d = &p.toks[pos];
    let dspan = d.span;
    let dtext = d.text.as_slice();
    let args = if indent + 3 < dtext.len() && dtext[indent + 3] == '(' {
        match args_in(dtext, indent, 3).0 {
            Ok(a) => a,
            Err(e) => {
                diags.push(e);
                ShortArgs::default()
            },
        }
    } else {
        ShortArgs::default()
    };
    let mut items: Vec<DefinitionItem> = Vec::new();
    let mut term: Option<(Vec<Inline>, Span)> = None;
    let mut def: Option<PendingDef> = None;
    let cont = indent + 2;
    let mut end_span = dspan;
    let ghost pos0 = pos;
    let mut pos = pos + 1;
    loop
        invariant
            p.wf(),
            p.ok(pos),
            pos0 < pos,
            cont == indent + 2,
            diags@.len() >= old(diags)@.len(),
        decreases p.n() - pos,
    {
        let t = &p.toks[pos];
        if t.kind == 2 {
            diags.push(
                Diagnostic::new(Code::UnterminatedBlock, dspan).label(
                    "`@dl` block was never closed with `@end`",
                ),
            );
            break;
        }
        if t.kind == 1 {
            finalize_def(&mut items, &mut term, &mut def, diags);
            pos = pos + 1;
            continue;
        }
        let text = t.text.as_slice();
        let n = text.len();
        if def.is_some() && t.indent == cont {
            let mut pd = def.take().unwrap();
            pd.text.push(' ');
            push_range(&mut pd.text, text, cont, n);
            pd.span = join(pd.span, t.span);
            def = Some(pd);
            pos = pos + 1;
            continue;
        }
        if t.indent != indent {
            pos = pos + 1;
            continue;
        }
        if trimmed_eq(text, indent, n, "@end") {
            finalize_def(&mut items, &mut term, &mut def, diags);
            end_span = t.span;
            pos = pos + 1;
            break;
        }
        if starts_at_str(text, indent, ": ") {
            proof {
                reveal_strlit(": ");
            }
            if term.is_none() && def.is_none() {
                diags.push(
                    Diagnostic::new(Code::BadDefinitionList, t.span).label(
                        "definition without a term",
                    ),
                );
                pos = pos + 1;
                continue;
            }
            if def.is_some() {
                diags.push(
                    Diagnostic::new(Code::BadDefinitionList, t.span).label(
                        "multiple definitions per term are not supported in v0.3",
                    ),
                );
                pos = pos + 1;
                continue;
            }
            let base = off(t.span.start, t.offs[indent + 2]);
            def = Some(PendingDef { text: copy_range(text, indent + 2, n), base, span: t.span });
            pos = pos + 1;
        } else {
            finalize_def(&mut items, &mut term, &mut def, diags);
            match term.take() {
                Some((_t, tspan)) => {
                    diags.push(
                        Diagnostic::new(Code::BadDefinitionList, tspan).label(
                            "term without a definition",
                        ),
                    );
                },
                None => {},
            }
            let base = off(t.span.start, t.offs[indent]);
            let chunk = copy_range(text, indent, n);
            let (tm, mut dd) = parse_inline_range(chunk.as_slice(), base);
            diags.append(&mut dd);
            term = Some((tm, t.span));
            pos = pos + 1;
        }
    }
    finalize_def(&mut items, &mut term, &mut def, diags);
    match term {
        Some((_t, tspan)) => {
            diags.push(
                Diagnostic::new(Code::BadDefinitionList, tspan).label("term without a definition"),
            );
        },
        None => {},
    }
    if items.len() == 0 {
        let mut any = false;
        let mut k: usize = 0;
        while k < diags.len()
            invariant
                k <= diags@.len(),
                any ==> exists|j: int| 0 <= j < diags@.len() && (#[trigger] diags@[j]).code == Code::BadDefinitionList,
            decreases diags@.len() - k,
        {
            if diags[k].code == Code::BadDefinitionList {
                any = true;
            }
            k = k + 1;
        }
        if !any {
            diags.push(
                Diagnostic::new(Code::BadDefinitionList, dspan).label(
                    "`@dl` must contain at least one term/definition pair",
                ),
            );
            assert(diags@[diags@.len() - 1].code == Code::BadDefinitionList);
        }
    }
    (Block::DefinitionList { args, items, span: join(dspan, end_span) }, pos)
}

/// `@name(args)` alone on a line opens a block shortcode closed by `@end`
/// at the same indent; anything else (`None`) is an ordinary line.
fn parse_block_shortcode_or_inline(p: &P, pos: usize, indent: usize, diags: &mut Vec<Diagnostic>) -> (r: Option<(Block, usize)>)
    requires
        p.wf(),
        p.ok(pos),
        p.toks@[pos as int].kind == 0,
        indent == p.toks@[pos as int].indent,
    ensures
        r matches Some((_, np)) ==> advanced(p, pos, np),
        ({
            let tx = p.toks@[pos as int].text@;
            let e = crate::inline::sc_name_end(tx, indent + 1);
            &&& !(indent + 1 < tx.len() && crate::text::is_alpha(tx[indent + 1])) ==> r is None
            &&& indent + 1 < tx.len() && crate::text::is_alpha(tx[indent + 1]) && !(e < tx.len() && tx[e] == '(')
                ==> (r is Some <==> crate::text::skip_ws_fwd(tx, e, tx.len() as int) == tx.len())
                && (r matches Some((Block::BlockShortcode { name, .. }, _)) ==> name@ == tx.subrange(indent + 1, e))
        }),
    decreases p.n() - pos, 1nat,
{
    let t = &p.toks[pos];
    let text = t.text.as_slice();
    let n = text.len();
    let mut cursor = indent + 1;
    if cursor >= n || !crate::text::char_is_alpha(text[cursor]) {
        return None;
    }
    let name_start = cursor;
    while cursor < n && (crate::text::char_is_alpha(text[cursor]) || crate::text::char_is_digit(
        text[cursor],
    ) || text[cursor] == '-')
        invariant
            name_start <= cursor <= n,
            n == text@.len(),
            crate::inline::sc_name_end(text@, name_start as int) == crate::inline::sc_name_end(text@, cursor as int),
        decreases n - cursor,
    {
        cursor = cursor + 1;
    }
    let name = range_string(text, name_start, cursor);
    let mut args = ShortArgs::default();
    if cursor < n && text[cursor] == '(' {
        let (res, after) = args_in(text, indent, cursor - indent);
        match res {
            Ok(a) => {
                args = a;
            },
            Err(e) => {
                diags.push(e);
            },
        }
        cursor = indent + after;
    }
    if !is_blank_range(text, cursor, n) {
        return None;
    }
    let (children, np) = parse_blocks(p, pos + 1, indent, Some(indent), diags);
    let mut np = np;
    let mut end_span = t.span;
    let u = &p.toks[np];
    if u.kind == 0 && u.indent == indent && trimmed_eq(u.text.as_slice(), 0, u.text.len(), "@end") {
        end_span = u.span;
        np = np + 1;
    } else {
        let mut m: Vec<char> = Vec::new();
        push_str(&mut m, "`@");
        push_str(&mut m, name.as_str());
        push_str(&mut m, "` block was never closed with `@end`");
        diags.push(
            Diagnostic::new(Code::UnterminatedBlock, t.span).label(
                chars_to_string(m.as_slice()).as_str(),
            ),
        );
    }
    Some((Block::BlockShortcode { name, args, children, span: join(t.span, end_span) }, np))
}
} // verus!
