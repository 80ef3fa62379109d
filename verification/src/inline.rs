//! Inline parser: text, emphasis (`*bold*`, `_italic_`, `+underline+`,
//! `~strike~`), inline code, escapes, inline shortcodes with link sugar,
//! and the shortcode argument grammar.
use crate::ast::{Inline, ShortArgs};
use crate::diag::{Code, Diagnostic};
use crate::shortcode::ArgValue;
use crate::span::Span;
use crate::text::{byte_offsets, copy_range, chars_to_string, find_chars, range_string, str_chars, utf8_len};
use vstd::prelude::*;

verus! {

/// The text being parsed, with the byte offset of each char and the
/// absolute byte offset of the text in its source.
pub struct Src<'a> {
    pub text: &'a [char],
    pub offs: &'a [usize],
    pub base: u32,
}

impl<'a> Src<'a> {
    /// The byte table matches the text and the text fits in a span.
    pub open spec fn wf(&self) -> bool {
        &&& self.offs@.len() == self.text@.len() + 1
        &&& forall|i: int|
            0 <= i <= self.text@.len() ==> self.offs@[i] == utf8_len(#[trigger] self.text@.take(i))
        &&& self.offs@[0] == 0
        &&& forall|i: int, j: int|
            0 <= i <= j <= self.text@.len() ==> self.offs@[i] <= self.offs@[j]
        &&& self.base + self.offs@[self.text@.len() as int] <= u32::MAX
        &&& self.text@.len() < usize::MAX
    }

    pub open spec fn len(&self) -> int {
        self.text@.len() as int
    }

    /// Span of the chars `a..b`, in absolute bytes.
    fn span(&self, a: usize, b: usize) -> (s: Span)
        requires
            self.wf(),
            a <= b <= self.text@.len(),
        ensures
            s.start == self.base + self.offs@[a as int],
            s.len == self.offs@[b as int] - self.offs@[a as int],
    {
        let start = self.base as usize + self.offs[a];
        Span::new(start, self.offs[b] - self.offs[a])
    }

    fn at(&self, i: usize) -> (r: Option<char>)
        requires
            self.wf(),
        ensures
            i < self.text@.len() ==> r == Some(self.text@[i as int]),
            i >= self.text@.len() ==> r is None,
    {
        if i < self.text.len() {
            Some(self.text[i])
        } else {
            None
        }
    }
}

proof fn lemma_offsets_mono(s: Seq<char>, offs: Seq<usize>)
    requires
        offs.len() == s.len() + 1,
        forall|i: int| 0 <= i <= s.len() ==> offs[i] == utf8_len(#[trigger] s.take(i)),
    ensures
        forall|i: int, j: int| 0 <= i <= j <= s.len() ==> offs[i] <= offs[j],
        offs[0] == 0,
{
    assert forall|i: int, j: int| 0 <= i <= j <= s.len() implies offs[i] <= offs[j] by {
        crate::text::lemma_utf8_len_mono(s, i, j);
    }
    assert(s.take(0) =~= Seq::<char>::empty());
}

/// Text without markup parses to itself: no diagnostics, and one text
/// node holding all of it (none for empty text).
pub open spec fn plain_parse(text: Seq<char>, nodes: Seq<Inline>, diags: Seq<Diagnostic>) -> bool {
    &&& diags.len() == 0
    &&& text.len() == 0 ==> nodes.len() == 0
    &&& text.len() > 0 ==> nodes.len() == 1 && (nodes[0] matches Inline::Text { value, .. } && value@
        == text)
}

/// Parse one line (or joined paragraph text) of inline markup. `base` is
/// the byte offset of `line` in its source, used for spans.
pub fn parse_inline(line: &str, base: u32) -> (r: (Vec<Inline>, Vec<Diagnostic>))
    requires
        base + utf8_len(line@) <= u32::MAX,
    ensures
        plain(line@) ==> plain_parse(line@, r.0@, r.1@),
{
    let text = str_chars(line);
    parse_inline_chars(text.as_slice(), base)
}

/// `parse_inline` on chars.
pub fn parse_inline_chars(text: &[char], base: u32) -> (r: (Vec<Inline>, Vec<Diagnostic>))
    requires
        base + utf8_len(text@) <= u32::MAX,
    ensures
        plain(text@) ==> plain_parse(text@, r.0@, r.1@),
{
    proof {
        crate::text::lemma_utf8_len_mono(text@, 0, text@.len() as int);
        assert(text@.take(text@.len() as int) =~= text@);
    }
    let offs = byte_offsets(text);
    proof {
        lemma_offsets_mono(text@, offs@);
    }
    if text.len() == usize::MAX {
        return (Vec::new(), Vec::new());
    }
    let p = Src { text, offs: offs.as_slice(), base };
    let mut diags: Vec<Diagnostic> = Vec::new();
    assert(text@.subrange(0, text@.len() as int) =~= text@);
    let (nodes, _end) = parse_until(&p, 0, None, &mut diags);
    (nodes, diags)
}

/// Text node for chars `a..b`.
fn text_node(p: &Src, a: usize, b: usize) -> (n: Inline)
    requires
        p.wf(),
        a <= b <= p.len(),
    ensures
        n matches Inline::Text { value, .. } && value@ == p.text@.subrange(a as int, b as int),
{
    Inline::Text { value: range_string(p.text, a, b), span: p.span(a, b) }
}

/// Push the pending text `a..b` if it is not empty.
fn flush_text(p: &Src, out: &mut Vec<Inline>, a: usize, b: usize)
    requires
        p.wf(),
        a <= p.len(),
        b <= p.len(),
    ensures
        a >= b ==> final(out)@ == old(out)@,
        a < b ==> final(out)@.len() == old(out)@.len() + 1 && final(out)@.drop_last() == old(out)@
            && (final(out)@.last() matches Inline::Text { value, .. } && value@ == p.text@.subrange(
            a as int,
            b as int,
        )),
{
    if a < b {
        out.push(text_node(p, a, b));
    }
}

/// `\x`: the escaped char as text, or nothing at end of input. Returns the
/// position after the escape.
fn parse_escape(p: &Src, pos: usize, out: &mut Vec<Inline>) -> (np: usize)
    requires
        p.wf(),
        pos < p.len(),
    ensures
        pos < np <= p.len(),
{
    if pos + 1 < p.text.len() {
        out.push(Inline::Text {
            value: range_string(p.text, pos + 1, pos + 2),
            span: p.span(pos, pos + 2),
        });
        pos + 2
    } else {
        pos + 1
    }
}

/// Sequence of inline nodes from `pos` up to (not including) `terminator`
/// or the end. Returns the nodes and the position reached.
fn parse_until(p: &Src, pos: usize, terminator: Option<char>, diags: &mut Vec<Diagnostic>) -> (r: (
    Vec<Inline>,
    usize,
))
    requires
        p.wf(),
        pos <= p.len(),
    ensures
        pos <= r.1 <= p.len(),
        terminator is None && plain(p.text@.subrange(pos as int, p.len())) ==> {
            &&& final(diags)@ == old(diags)@
            &&& r.1 == p.len()
            &&& pos == p.len() ==> r.0@.len() == 0
            &&& pos < p.len() ==> r.0@.len() == 1 && (r.0@[0] matches Inline::Text { value, .. }
                && value@ == p.text@.subrange(pos as int, p.len()))
        },
    decreases p.len() - pos, 2nat,
{
    let mut out: Vec<Inline> = Vec::new();
    let mut pos = pos;
    let ghost pos0 = pos;
    let ghost simple = terminator is None && plain(p.text@.subrange(pos as int, p.len()));
    let mut text_start = pos;
    while pos < p.text.len()
        invariant
            p.wf(),
            pos0 <= text_start <= pos <= p.len(),
            simple == (terminator is None && plain(p.text@.subrange(pos0 as int, p.len()))),
            simple ==> text_start == pos0 && out@.len() == 0 && diags@ == old(diags)@,
        decreases p.len() - pos,
    {
        proof {
            if simple {
                assert(p.text@[pos as int] == p.text@.subrange(pos0 as int, p.len())[pos - pos0]);
            }
        }
        let c = p.text[pos];
        if Some(c) == terminator {
            break;
        }
        if c == '\\' {
            flush_text(p, &mut out, text_start, pos);
            pos = parse_escape(p, pos, &mut out);
            text_start = pos;
        } else if c == '`' {
            flush_text(p, &mut out, text_start, pos);
            pos = parse_code(p, pos, &mut out, diags);
            text_start = pos;
        } else if c == '@' {
            flush_text(p, &mut out, text_start, pos);
            match try_parse_shortcode(p, pos, &mut out, diags) {
                Some(np) => {
                    pos = np;
                },
                None => {
                    out.push(Inline::Text { value: "@".to_string(), span: p.span(pos, pos + 1) });
                    pos = pos + 1;
                },
            }
            text_start = pos;
        } else if (c == '*' || c == '_' || c == '+' || c == '~') && is_open_marker_at(p.text, pos) {
            flush_text(p, &mut out, text_start, pos);
            pos = parse_emph(p, pos, &mut out, c, diags);
            text_start = pos;
        } else {
            pos = pos + 1;
        }
    }
    flush_text(p, &mut out, text_start, pos);
    (out, pos)
}

/// No char of `s` starts inline markup: no escape, backtick, `@` or
/// emphasis marker.
pub open spec fn plain(s: Seq<char>) -> bool {
    forall|i: int|
        0 <= i < s.len() ==> {
            let c = #[trigger] s[i];
            c != '\\' && c != '`' && c != '@' && c != '*' && c != '_' && c != '+' && c != '~'
        }
}

/// Inline sigils: emphasis markers, backtick, `@`, brackets.
pub open spec fn spec_inline_sigil(b: char) -> bool {
    b == '*' || b == '_' || b == '+' || b == '~' || b == '`' || b == '@' || b == '[' || b == ']'
}

/// Punctuation that may follow a closing emphasis marker.
pub open spec fn spec_punct(b: char) -> bool {
    b == '.' || b == ',' || b == ';' || b == ':' || b == '!' || b == '?' || b == ')' || b == '('
        || b == '"' || b == '\'' || b == '-' || b == '/'
}

pub fn is_inline_sigil(b: char) -> (r: bool)
    ensures
        r == spec_inline_sigil(b),
{
    b == '*' || b == '_' || b == '+' || b == '~' || b == '`' || b == '@' || b == '[' || b == ']'
}

pub fn is_punct(b: char) -> (r: bool)
    ensures
        r == spec_punct(b),
{
    b == '.' || b == ',' || b == ';' || b == ':' || b == '!' || b == '?' || b == ')' || b == '('
        || b == '"' || b == '\'' || b == '-' || b == '/'
}

/// The char at `pos` opens an emphasis span under Brief's flanking rules:
/// a marker not doubled, preceded by start/space/sigil/punctuation and
/// followed by a non-space that is not the marker.
pub open spec fn opens_at(s: Seq<char>, pos: int) -> bool {
    &&& 0 <= pos < s.len()
    &&& (s[pos] == '*' || s[pos] == '_' || s[pos] == '+' || s[pos] == '~')
    &&& !(pos + 1 < s.len() && s[pos + 1] == s[pos])
    &&& !(pos > 0 && s[pos - 1] == s[pos])
    &&& (pos == 0 || s[pos - 1] == ' ' || spec_inline_sigil(s[pos - 1]) || spec_punct(s[pos - 1]))
    &&& pos + 1 < s.len() && s[pos + 1] != ' ' && s[pos + 1] != s[pos]
}

/// The char at `pos` would open an emphasis span.
pub fn is_open_marker_at(s: &[char], pos: usize) -> (r: bool)
    ensures
        r == opens_at(s@, pos as int),
{
    if pos >= s.len() {
        return false;
    }
    let marker = s[pos];
    if !(marker == '*' || marker == '_' || marker == '+' || marker == '~') {
        return false;
    }
    let prev = if pos == 0 {
        None
    } else {
        Some(s[pos - 1])
    };
    let next = if pos + 1 < s.len() {
        Some(s[pos + 1])
    } else {
        None
    };
    if next == Some(marker) || prev == Some(marker) {
        return false;
    }
    let prev_ok = match prev {
        None => true,
        Some(b) => b == ' ' || is_inline_sigil(b) || is_punct(b),
    };
    let next_ok = match next {
        Some(b) => b != ' ' && b != marker,
        None => false,
    };
    prev_ok && next_ok
}

/// The char at `pos` closes an emphasis span opened with `marker`.
pub open spec fn closes_at(s: Seq<char>, pos: int, marker: char) -> bool {
    &&& 0 <= pos < s.len()
    &&& s[pos] == marker
    &&& !(pos + 1 < s.len() && s[pos + 1] == marker)
    &&& pos > 0 && s[pos - 1] != ' '
    &&& (pos + 1 >= s.len() || s[pos + 1] == ' ' || spec_inline_sigil(s[pos + 1]) || spec_punct(
        s[pos + 1],
    ))
}

/// An emphasis marker right after a non-space char, not doubled, and
/// followed by the end of the text, a space, an inline sigil or one of the
/// punctuation chars `. , ; : ! ? ) ( " ' - /` closes a span that the same
/// marker opened: `*word*.` ends the emphasis before the full stop.
pub proof fn law_marker_closes_before_punctuation(s: Seq<char>, pos: int, marker: char)
    requires
        0 < pos < s.len(),
        s[pos] == marker,
        s[pos - 1] != ' ',
        pos + 1 < s.len() ==> s[pos + 1] != marker && {
            let b = s[pos + 1];
            ||| b == ' '
            ||| b == '.' || b == ',' || b == ';' || b == ':' || b == '!' || b == '?'
            ||| b == ')' || b == '(' || b == '"' || b == '\'' || b == '-' || b == '/'
            ||| b == '*' || b == '_' || b == '+' || b == '~' || b == '`' || b == '@' || b == '[' || b == ']'
        },
    ensures
        closes_at(s, pos, marker),
{
}

/// A marker right after a space, or doubled, never closes a span.
pub proof fn law_marker_after_space_does_not_close(s: Seq<char>, pos: int, marker: char)
    requires
        0 <= pos < s.len(),
        pos == 0 || s[pos - 1] == ' ' || (pos + 1 < s.len() && s[pos + 1] == marker),
    ensures
        !closes_at(s, pos, marker),
{
}

fn is_close_marker(s: &[char], pos: usize, marker: char) -> (r: bool)
    ensures
        r == closes_at(s@, pos as int, marker),
{
    if pos >= s.len() || s[pos] != marker {
        return false;
    }
    if pos + 1 < s.len() && s[pos + 1] == marker {
        return false;
    }
    let prev_ok = pos > 0 && s[pos - 1] != ' ';
    let next_ok = if pos + 1 < s.len() {
        let b = s[pos + 1];
        b == ' ' || is_inline_sigil(b) || is_punct(b)
    } else {
        true
    };
    prev_ok && next_ok
}

/// Emphasis span opened by `marker` at `start`. Returns the position after
/// the span (or the end, when unterminated).
fn parse_emph(p: &Src, start: usize, out: &mut Vec<Inline>, marker: char, diags: &mut Vec<Diagnostic>) -> (np: usize)
    requires
        p.wf(),
        start < p.len(),
    ensures
        start < np <= p.len(),
    decreases p.len() - start, 1nat,
{
    let mut pos = start + 1;
    let mut content: Vec<Inline> = Vec::new();
    let mut text_start = pos;
    let mut closed = false;
    while pos < p.text.len()
        invariant
            p.wf(),
            start < text_start <= pos <= p.len(),
        decreases p.len() - pos,
    {
        let c = p.text[pos];
        if c == marker && is_close_marker(p.text, pos, marker) {
            flush_text(p, &mut content, text_start, pos);
            pos = pos + 1;
            closed = true;
            break;
        }
        if c == marker {
            diags.push(
                Diagnostic::new(Code::EmphasisSameMarker, p.span(pos, pos + 1)).label(
                    "inner emphasis re-uses the same marker",
                ).help("use a different emphasis marker for the inner span"),
            );
            pos = pos + 1;
            continue;
        }
        if c == '\\' {
            flush_text(p, &mut content, text_start, pos);
            pos = parse_escape(p, pos, &mut content);
            text_start = pos;
        } else if c == '`' {
            flush_text(p, &mut content, text_start, pos);
            pos = parse_code(p, pos, &mut content, diags);
            text_start = pos;
        } else if c == '@' {
            flush_text(p, &mut content, text_start, pos);
            match try_parse_shortcode(p, pos, &mut content, diags) {
                Some(np) => {
                    pos = np;
                },
                None => {
                    content.push(
                        Inline::Text { value: "@".to_string(), span: p.span(pos, pos + 1) },
                    );
                    pos = pos + 1;
                },
            }
            text_start = pos;
        } else if (c == '*' || c == '_' || c == '+' || c == '~') && c != marker && is_open_marker_at(
            p.text,
            pos,
        ) {
            flush_text(p, &mut content, text_start, pos);
            pos = parse_emph(p, pos, &mut content, c, diags);
            text_start = pos;
        } else {
            pos = pos + 1;
        }
    }
    if !closed {
        let mut m: Vec<char> = Vec::new();
        crate::text::push_str(&mut m, "opened with `");
        m.push(marker);
        m.push('`');
        let msg = chars_to_string(m.as_slice());
        diags.push(
            Diagnostic::new(Code::UnterminatedEmph, p.span(start, start + 1)).label(msg.as_str()),
        );
    }
    let span = p.span(start, pos);
    let node = if marker == '*' {
        Inline::Bold { content, span }
    } else if marker == '_' {
        Inline::Italic { content, span }
    } else if marker == '+' {
        Inline::Underline { content, span }
    } else {
        Inline::Strike { content, span }
    };
    out.push(node);
    pos
}

/// Inline code span (one or two backticks) at `start`.
fn parse_code(p: &Src, start: usize, out: &mut Vec<Inline>, diags: &mut Vec<Diagnostic>) -> (np: usize)
    requires
        p.wf(),
        start < p.len(),
        p.text@[start as int] == '`',
    ensures
        start < np <= p.len(),
{
    let mut pos = start;
    let mut ticks: usize = 0;
    while pos < p.text.len() && p.text[pos] == '`' && ticks < 2
        invariant
            p.wf(),
            start <= pos <= p.len(),
            pos == start + ticks,
            ticks <= 2,
        decreases 2 - ticks,
    {
        pos = pos + 1;
        ticks = ticks + 1;
    }
    if pos < p.text.len() && p.text[pos] == '`' {
        out.push(text_node(p, start, pos));
        return pos;
    }
    let body_start = pos;
    let mut needle: Vec<char> = Vec::new();
    needle.push('`');
    if ticks == 2 {
        needle.push('`');
    }
    match find_chars(p.text, body_start, needle.as_slice()) {
        Some(at) => {
            proof {
                crate::text::lemma_find_from_bounds(p.text@, body_start as int, needle@);
            }
            let end = at + needle.len();
            out.push(Inline::InlineCode {
                value: range_string(p.text, body_start, at),
                span: p.span(start, end),
            });
            end
        },
        None => {
            diags.push(Diagnostic::new(Code::UnterminatedCode, p.span(start, start + ticks)));
            out.push(text_node(p, start, pos));
            pos
        },
    }
}

/// End of a shortcode name of `t` scanned from `i`: letters, digits, `-`.
pub open spec fn sc_name_end(t: Seq<char>, i: int) -> int
    decreases t.len() - i,
{
    if 0 <= i < t.len() && (crate::text::is_alpha(t[i]) || crate::text::is_digit(t[i]) || t[i] == '-') {
        sc_name_end(t, i + 1)
    } else {
        i
    }
}

/// Inline shortcode `@name(args)[content](url)` at `saved`. Returns the
/// position after it, or `None` when `@` does not start one.
fn try_parse_shortcode(p: &Src, saved: usize, out: &mut Vec<Inline>, diags: &mut Vec<Diagnostic>) -> (r: Option<usize>)
    requires
        p.wf(),
        saved < p.len(),
    ensures
        r matches Some(np) ==> saved < np <= p.len(),
        r is None <==> !(p.text@[saved as int] == '@' && saved + 1 < p.len() && crate::text::is_alpha(
            p.text@[saved + 1],
        )),
        r is None ==> final(out)@ == old(out)@,
        r is Some ==> final(out)@.len() == old(out)@.len() + 1 && final(out)@.drop_last() == old(out)@,
        ({
            let e = sc_name_end(p.text@, saved + 1);
            r is Some && !(e < p.len() && (p.text@[e] == '(' || p.text@[e] == '[')) ==> r == Some(e as usize)
                && (final(out)@.last() matches Inline::Shortcode { name, content, .. } && content is None
                && name@ == p.text@.subrange(saved + 1, e))
        }),
    decreases p.len() - saved, 1nat,
{
    let ghost o0 = out@;
    if p.text[saved] != '@' {
        return None;
    }
    let mut cursor = saved + 1;
    match p.at(cursor) {
        Some(b) => {
            if !crate::text::char_is_alpha(b) {
                return None;
            }
        },
        None => {
            return None;
        },
    }
    let name_start = cursor;
    while cursor < p.text.len() && (crate::text::char_is_alpha(p.text[cursor])
        || crate::text::char_is_digit(p.text[cursor]) || p.text[cursor] == '-')
        invariant
            p.wf(),
            saved < name_start <= cursor <= p.len(),
            sc_name_end(p.text@, saved + 1) == sc_name_end(p.text@, cursor as int),
        decreases p.len() - cursor,
    {
        cursor = cursor + 1;
    }
    let name = range_string(p.text, name_start, cursor);
    let mut args = ShortArgs::default();
    if p.at(cursor) == Some('(') {
        match parse_args_at(p, &mut cursor) {
            Ok(a) => {
                args = a;
            },
            Err(d) => {
                diags.push(d.label("in inline shortcode"));
                out.push(text_node(p, saved, cursor));
                assert(out@.drop_last() =~= o0);
                return Some(cursor);
            },
        }
    }
    let mut pos = cursor;
    let mut content: Option<Vec<Inline>> = None;
    if p.at(pos) == Some('[') {
        pos = pos + 1;
        let (inner, np) = parse_until(p, pos, Some(']'), diags);
        pos = np;
        if p.at(pos) == Some(']') {
            pos = pos + 1;
        }
        content = Some(inner);
        if p.at(pos) == Some('(') {
            pos = pos + 1;
            let url_start = pos;
            let mut open_parens: usize = 0;
            while pos < p.text.len()
                invariant
                    p.wf(),
                    url_start <= pos <= p.len(),
                decreases p.len() - pos,
            {
                let b = p.text[pos];
                if b == '(' {
                    if open_parens < usize::MAX {
                        open_parens = open_parens + 1;
                    }
                } else if b == ')' {
                    if open_parens == 0 {
                        break;
                    }
                    open_parens = open_parens - 1;
                }
                pos = pos + 1;
            }
            let url = range_string(p.text, url_start, pos);
            if p.at(pos) == Some(')') {
                pos = pos + 1;
            } else {
                diags.push(
                    Diagnostic::new(Code::BadArgSyntax, p.span(url_start, pos)).label(
                        "`(url)` is never closed",
                    ).help("percent-encode unmatched parentheses in the URL as %28 / %29"),
                );
            }
            args.positional.push(ArgValue::Str(url));
        }
    }
    let span = p.span(saved, pos);
    out.push(Inline::Shortcode { name, args, content, span });
    assert(out@.drop_last() =~= o0);
    Some(pos)
}

/// Parse a parenthesised argument list starting at byte `*cursor` of
/// `src`; on return `*cursor` is just past it. Diagnostic spans are byte
/// offsets into `src`.
#[verifier::spinoff_prover]
#[verifier::rlimit(60)]
pub fn parse_args(src: &str, cursor: &mut usize) -> (r: Result<ShortArgs, Diagnostic>)
    requires
        utf8_len(src@) <= u32::MAX,
    ensures
        src@.len() < usize::MAX && !(exists|k: int| 0 <= k < src@.len() && utf8_len(#[trigger] src@.take(k))
            == *old(cursor) && src@[k] == '(') ==> *final(cursor) == *old(cursor) && (r matches Ok(a)
            && a.positional@.len() == 0 && a.keyword.view_entries().len() == 0),
        forall|k: int|
            0 <= k <= src@.len() && src@.len() < usize::MAX && utf8_len(#[trigger] src@.take(k)) == *old(cursor)
                ==> match r {
                Ok(a) => pa(src@, k) matches Ok((pos, kws, e)) && args_hold(a, pos, kws) && *final(cursor)
                    == utf8_len(src@.take(e)),
                Err(d) => pa(src@, k) matches Err((code, at, len)) && d.code == code && (code == Code::DuplicateKwarg
                    ==> d.span == Span { start: utf8_len(src@.take(at)) as u32, len: len as u32 }),
            },
{
    let text = str_chars(src);
    proof {
        crate::text::lemma_utf8_len_mono(text@, 0, text@.len() as int);
        assert(text@.take(text@.len() as int) =~= text@);
    }
    let offs = byte_offsets(text.as_slice());
    proof {
        lemma_offsets_mono(text@, offs@);
    }
    if text.len() == usize::MAX {
        return Ok(ShortArgs::default());
    }
    let p = Src { text: text.as_slice(), offs: offs.as_slice(), base: 0 };
    // Byte cursor to char index; a cursor inside a char opens no list.
    let mut ci: usize = 0;
    while ci < text.len() && offs[ci] < *cursor
        invariant
            ci <= text@.len(),
            offs@.len() == text@.len() + 1,
            forall|k: int| 0 <= k < ci ==> offs@[k] < *cursor,
        decreases text@.len() - ci,
    {
        ci = ci + 1;
    }
    if offs[ci] != *cursor {
        proof {
            assert forall|k: int| 0 <= k < text@.len() && utf8_len(#[trigger] src@.take(k)) == *old(cursor) implies src@[k] != '(' by {
                assert(src@.take(k) == text@.take(k));
                if k > ci {
                    crate::text::lemma_utf8_len_mono(text@, ci as int, k);
                }
            }
        }
        return Ok(ShortArgs::default());
    }
    assert(p.text@ == src@);
    proof {
        if ci < text@.len() && text@[ci as int] == '(' {
            assert(src@.take(ci as int) == text@.take(ci as int));
            assert(utf8_len(src@.take(ci as int)) == *cursor);
        }
    }
    let ghost c0 = *cursor;
    let ghost ci0 = ci;
    let r = parse_args_at(&p, &mut ci);
    *cursor = offs[ci];
    proof {
        assert forall|k: int|
            0 <= k <= src@.len() && src@.len() < usize::MAX && utf8_len(#[trigger] src@.take(k)) == c0 implies k
            == ci0 by {
            if k < ci0 {
                crate::text::lemma_utf8_len_mono(text@, k, ci0 as int);
            } else if k > ci0 {
                crate::text::lemma_utf8_len_mono(text@, ci0 as int, k);
            }
        }
        match &r {
            Ok(_) => {
                assert(offs@[ci as int] == utf8_len(text@.take(ci as int)));
            },
            Err(d) => {
                if d.code == Code::DuplicateKwarg {
                    let at = pa(src@, ci0 as int)->Err_0.1;
                    assert(offs@[at] == utf8_len(text@.take(at)));
                }
            },
        }
    }
    r
}

/// The value stored under `k` among the keyword arguments `kws`.
pub open spec fn kw_lookup(kws: Seq<(Seq<char>, ArgView)>, k: Seq<char>) -> Option<ArgView>
    decreases kws.len(),
{
    if kws.len() == 0 {
        None
    } else if kws.last().0 == k {
        Some(kws.last().1)
    } else {
        kw_lookup(kws.drop_last(), k)
    }
}

/// `a` holds the positional values `pos` and the keyword values `kws`.
pub open spec fn args_hold(a: ShortArgs, pos: Seq<ArgView>, kws: Seq<(Seq<char>, ArgView)>) -> bool {
    &&& a.positional@.len() == pos.len()
    &&& forall|i: int| 0 <= i < pos.len() ==> val_is(#[trigger] a.positional@[i], pos[i])
    &&& forall|key: Seq<char>|
        #![trigger a.keyword.spec_get(key)]
        #![trigger kw_lookup(kws, key)]
        (a.keyword.spec_get(key) is Some <==> kw_lookup(kws, key) is Some) && (a.keyword.spec_get(key) matches Some(
            v,
        ) ==> val_is(v, kw_lookup(kws, key)->Some_0))
}

/// What an argument list gives: positional values, keyword values and the
/// index after its `)`, or an error code with, for a duplicate keyword,
/// the char position and length of the name.
pub type ArgsResult = Result<(Seq<ArgView>, Seq<(Seq<char>, ArgView)>, int), (Code, int, int)>;

/// The arguments from `c` on (after `pos` and `kws`): each is `name: value`
/// or a value, separated by commas, up to `)`; a keyword given twice is an
/// error, and so is anything else that does not fit.
pub open spec fn pa_loop(t: Seq<char>, c: int, pos: Seq<ArgView>, kws: Seq<(Seq<char>, ArgView)>) -> ArgsResult
    decreases t.len() - c,
{
    let a = space_end(t, c);
    if c < 0 || a < c || a > t.len() {
        Err((Code::BadArgSyntax, 0, 0))
    } else {
        let named = a < t.len() && crate::text::is_alpha(t[a]) && ({
            let b = space_end(t, ident_end(t, a + 1));
            b < t.len() && t[b] == ':'
        });
        let name = t.subrange(a, ident_end(t, a + 1));
        let at = if named { space_end(t, space_end(t, ident_end(t, a + 1)) + 1) } else { a };
        match rv(t, at) {
            None => Err((Code::BadArgSyntax, 0, 0)),
            Some((v, e)) => if named && kw_lookup(kws, name) is Some {
                Err((Code::DuplicateKwarg, a, name.len() as int))
            } else {
                let pos2 = if named { pos } else { pos.push(v) };
                let kws2 = if named { kws.push((name, v)) } else { kws };
                let k = space_end(t, e);
                if k < t.len() && t[k] == ',' {
                    if k + 1 <= c {
                        Err((Code::BadArgSyntax, 0, 0))
                    } else {
                        pa_loop(t, k + 1, pos2, kws2)
                    }
                } else if k < t.len() && t[k] == ')' {
                    Ok((pos2, kws2, k + 1))
                } else {
                    Err((Code::BadArgSyntax, 0, 0))
                }
            },
        }
    }
}

/// The argument list at `c0`: none unless a `(` stands there.
pub open spec fn pa(t: Seq<char>, c0: int) -> ArgsResult {
    if !(0 <= c0 < t.len() && t[c0] == '(') {
        Ok((seq![], seq![], c0))
    } else {
        let c1 = space_end(t, c0 + 1);
        if c1 < t.len() && t[c1] == ')' {
            Ok((seq![], seq![], c1 + 1))
        } else {
            pa_loop(t, c1, seq![], seq![])
        }
    }
}

/// `parse_args` on chars: `*cursor` is a char index.
pub fn parse_args_at(p: &Src, cursor: &mut usize) -> (r: Result<ShortArgs, Diagnostic>)
    requires
        p.wf(),
        *old(cursor) <= p.len(),
    ensures
        match r {
            Ok(a) => pa(p.text@, *old(cursor) as int) matches Ok((pos, kws, e)) && args_hold(a, pos, kws)
                && *final(cursor) == e,
            Err(d) => pa(p.text@, *old(cursor) as int) matches Err((code, at, len)) && d.code == code && (code
                == Code::DuplicateKwarg ==> 0 <= at <= p.len() && d.span == Span { start: p.offs@[at] as u32, len: len as u32 }),
        },
        *old(cursor) <= *final(cursor) <= p.len(),
        r is Ok ==> r->Ok_0.keyword.wf(),
        !(*old(cursor) < p.len() && p.text@[*old(cursor) as int] == '(') ==> *final(cursor) == *old(cursor) && (r matches Ok(
            a,
        ) && a.positional@.len() == 0 && a.keyword.view_entries().len() == 0),
{
    let ghost t = p.text@;
    let ghost c0 = *cursor as int;
    let mut args = ShortArgs::default();
    proof {
        assert(args.positional@.len() == 0);
    }
    if p.at(*cursor) != Some('(') {
        return Ok(args);
    }
    *cursor = *cursor + 1;
    skip_ws(p, cursor);
    if p.at(*cursor) == Some(')') {
        *cursor = *cursor + 1;
        return Ok(args);
    }
    let ghost mut pos: Seq<ArgView> = seq![];
    let ghost mut kws: Seq<(Seq<char>, ArgView)> = seq![];
    loop
        invariant
            p.wf(),
            t == p.text@,
            c0 < *cursor <= p.len(),
            args.keyword.wf(),
            args_hold(args, pos, kws),
            pa(t, c0) == pa_loop(t, *cursor as int, pos, kws),
        decreases p.len() - *cursor,
    {
        let ghost c = *cursor as int;
        skip_ws(p, cursor);
        proof {
            lemma_space_end(t, c);
        }
        let arg_start = *cursor;
        let saved = *cursor;
        let ghost a = arg_start as int;
        let ghost named = a < t.len() && crate::text::is_alpha(t[a]) && ({
            let b = space_end(t, ident_end(t, a + 1));
            b < t.len() && t[b] == ':'
        });
        let ghost nm = t.subrange(a, ident_end(t, a + 1));
        let ghost at = if named { space_end(t, space_end(t, ident_end(t, a + 1)) + 1) } else { a };
        let ghost w: ArgView;
        match read_ident(p, cursor) {
            Some(name) => {
                skip_ws(p, cursor);
                if p.at(*cursor) == Some(':') {
                    *cursor = *cursor + 1;
                    skip_ws(p, cursor);
                    let v = match read_value(p, cursor) {
                        Some(v) => v,
                        None => {
                            return Err(Diagnostic::new(Code::BadArgSyntax, byte_span(p, *cursor)));
                        },
                    };
                    proof {
                        w = rv(t, at)->Some_0.0;
                    }
                    if args.keyword.contains_key(name.as_str()) {
                        let name_len = crate::text::str_chars(name.as_str()).len();
                        return Err(
                            Diagnostic::new(
                                Code::DuplicateKwarg,
                                Span::new(p.offs[arg_start], name_len),
                            ),
                        );
                    }
                    let ghost ok = args.keyword;
                    args.keyword.insert(name, v);
                    proof {
                        assert forall|key: Seq<char>|
                            #![trigger args.keyword.spec_get(key)]
                            #![trigger kw_lookup(kws.push((nm, w)), key)]
                            (args.keyword.spec_get(key) is Some <==> kw_lookup(kws.push((nm, w)), key) is Some) && (
                            args.keyword.spec_get(key) matches Some(x) ==> val_is(x, kw_lookup(kws.push((nm, w)), key)->Some_0)) by {
                            assert(kws.push((nm, w)).drop_last() =~= kws);
                            if key != nm {
                                assert(args.keyword.spec_get(key) == ok.spec_get(key));
                            }
                        }
                        kws = kws.push((nm, w));
                    }
                } else {
                    *cursor = saved;
                    let v = match read_value(p, cursor) {
                        Some(v) => v,
                        None => {
                            return Err(Diagnostic::new(Code::BadArgSyntax, byte_span(p, *cursor)));
                        },
                    };
                    proof {
                        w = rv(t, at)->Some_0.0;
                    }
                    args.positional.push(v);
                    proof {
                        pos = pos.push(w);
                    }
                }
            },
            None => {
                let v = match read_value(p, cursor) {
                    Some(v) => v,
                    None => {
                        return Err(Diagnostic::new(Code::BadArgSyntax, byte_span(p, *cursor)));
                    },
                };
                proof {
                    w = rv(t, at)->Some_0.0;
                }
                args.positional.push(v);
                proof {
                    pos = pos.push(w);
                }
            },
        }
        let ghost e = *cursor as int;
        skip_ws(p, cursor);
        proof {
            lemma_space_end(t, e);
        }
        if p.at(*cursor) == Some(',') {
            *cursor = *cursor + 1;
            continue;
        }
        if p.at(*cursor) == Some(')') {
            *cursor = *cursor + 1;
            break;
        }
        return Err(Diagnostic::new(Code::BadArgSyntax, byte_span(p, *cursor)));
    }
    Ok(args)
}

/// One-byte span at char `i` (relative to the text).
fn byte_span(p: &Src, i: usize) -> (s: Span)
    requires
        p.wf(),
        i <= p.len(),
    ensures
        s.start == p.offs@[i as int],
        s.len == 1,
{
    Span::new(p.offs[i], 1)
}

/// End of the run of spaces of `t` that starts at `i`.
pub open spec fn space_end(t: Seq<char>, i: int) -> int
    decreases t.len() - i,
{
    if 0 <= i < t.len() && t[i] == ' ' {
        space_end(t, i + 1)
    } else {
        i
    }
}

/// End of the run of identifier chars (letters, digits, `-`, `_`) of `t`
/// that starts at `i`.
pub open spec fn ident_end(t: Seq<char>, i: int) -> int
    decreases t.len() - i,
{
    if 0 <= i < t.len() && (crate::text::is_alpha(t[i]) || crate::text::is_digit(t[i]) || t[i] == '-' || t[i]
        == '_') {
        ident_end(t, i + 1)
    } else {
        i
    }
}

fn skip_ws(p: &Src, cursor: &mut usize)
    requires
        p.wf(),
        *old(cursor) <= p.len(),
    ensures
        *old(cursor) <= *final(cursor) <= p.len(),
        *final(cursor) == space_end(p.text@, *old(cursor) as int),
{
    while *cursor < p.text.len() && p.text[*cursor] == ' '
        invariant
            p.wf(),
            *old(cursor) <= *cursor <= p.len(),
            space_end(p.text@, *old(cursor) as int) == space_end(p.text@, *cursor as int),
        decreases p.len() - *cursor,
    {
        *cursor = *cursor + 1;
    }
}

/// Identifier: a letter, then letters, digits, `-`, `_`.
fn read_ident(p: &Src, cursor: &mut usize) -> (r: Option<String>)
    requires
        p.wf(),
        *old(cursor) <= p.len(),
    ensures
        *old(cursor) <= *final(cursor) <= p.len(),
        r is None ==> *final(cursor) == *old(cursor),
        r is Some ==> *final(cursor) > *old(cursor),
        r is None <==> !(*old(cursor) < p.len() && crate::text::is_alpha(p.text@[*old(cursor) as int])),
        r matches Some(name) ==> *final(cursor) == ident_end(p.text@, *old(cursor) + 1) && name@
            == p.text@.subrange(*old(cursor) as int, *final(cursor) as int),
{
    let start = *cursor;
    match p.at(start) {
        Some(c) => {
            if !crate::text::char_is_alpha(c) {
                return None;
            }
        },
        None => {
            return None;
        },
    }
    let mut end = start + 1;
    while end < p.text.len() && (crate::text::char_is_alpha(p.text[end])
        || crate::text::char_is_digit(p.text[end]) || p.text[end] == '-' || p.text[end] == '_')
        invariant
            p.wf(),
            start < end <= p.len(),
            ident_end(p.text@, start + 1) == ident_end(p.text@, end as int),
        decreases p.len() - end,
    {
        end = end + 1;
    }
    *cursor = end;
    Some(range_string(p.text, start, end))
}

/// `d` is a non-empty run of ASCII digits.
pub open spec fn all_digits(d: Seq<char>) -> bool {
    d.len() > 0 && forall|k: int| 0 <= k < d.len() ==> '0' <= #[trigger] d[k] <= '9'
}

/// Value of `s[a..b]` read as `-?[0-9]+`, when it has that form.
pub open spec fn int_value(s: Seq<char>, a: int, b: int) -> Option<int> {
    let neg = a < b && s[a] == '-';
    let st = if neg {
        a + 1
    } else {
        a
    };
    let d = s.subrange(st, b);
    if all_digits(d) {
        Some(
            if neg {
                -(crate::parser::digits_value(d) as int)
            } else {
                crate::parser::digits_value(d) as int
            },
        )
    } else {
        None
    }
}

/// Decimal `-?[0-9]+` at `a..b` as an `i64`, if it fits.
fn parse_i64(s: &[char], a: usize, b: usize) -> (r: Option<i64>)
    requires
        a <= b <= s@.len(),
    ensures
        r matches Some(v) ==> int_value(s@, a as int, b as int) == Some(v as int),
        r is None ==> (int_value(s@, a as int, b as int) matches None || int_value(s@, a as int, b as int)->Some_0
            < i64::MIN || int_value(s@, a as int, b as int)->Some_0 > i64::MAX),
{
    let mut i = a;
    let neg = i < b && s[i] == '-';
    if neg {
        i = i + 1;
    }
    if i >= b {
        return None;
    }
    let st = i;
    let ghost d = s@.subrange(st as int, b as int);
    let mut acc: i64 = 0;
    assert(d.take(0) =~= Seq::<char>::empty());
    while i < b
        invariant
            st <= i <= b,
            a <= st,
            st == if neg { a + 1 } else { a as int },
            neg == (a < b && s@[a as int] == '-'),
            b <= s@.len(),
            d == s@.subrange(st as int, b as int),
            forall|q: int| 0 <= q < i - st ==> '0' <= #[trigger] d[q] <= '9',
            acc as int == if neg {
                -(crate::parser::digits_value(d.take(i - st)) as int)
            } else {
                crate::parser::digits_value(d.take(i - st)) as int
            },
        decreases b - i,
    {
        let c = s[i];
        assert(c == d[i - st]);
        if !('0' <= c && c <= '9') {
            return None;
        }
        let ghost t = d.take(i - st + 1);
        assert(t.drop_last() =~= d.take(i - st));
        assert(t.last() == c);
        proof {
            assert forall|q: int| 0 <= q < t.len() implies '0' <= #[trigger] t[q] <= '9' by {
                assert(t[q] == d[q]);
            }
        }
        let dg = ((c as u32) - ('0' as u32)) as i64;
        assert(dg as int == (c as nat - '0' as nat));
        let m = match acc.checked_mul(10) {
            Some(m) => m,
            None => {
                proof {
                    if all_digits(d) {
                        crate::parser::lemma_digits_value_mono(d, i - st + 1);
                    }
                }
                return None;
            },
        };
        acc = if neg {
            match m.checked_sub(dg) {
                Some(x) => x,
                None => {
                    proof {
                        if all_digits(d) {
                            crate::parser::lemma_digits_value_mono(d, i - st + 1);
                        }
                    }
                    return None;
                },
            }
        } else {
            match m.checked_add(dg) {
                Some(x) => x,
                None => {
                    proof {
                        if all_digits(d) {
                            crate::parser::lemma_digits_value_mono(d, i - st + 1);
                        }
                    }
                    return None;
                },
            }
        };
        i = i + 1;
    }
    assert(d.take(b - st) =~= d);
    Some(acc)
}

/// An argument value as plain values.
pub enum ArgView {
    Ident(Seq<char>),
    Int(int),
    Str(Seq<char>),
    Array(Seq<ArgView>),
}

/// `a` holds the value `w`.
pub open spec fn val_is(a: ArgValue, w: ArgView) -> bool
    decreases a,
{
    match (a, w) {
        (ArgValue::Ident(x), ArgView::Ident(y)) => x@ == y,
        (ArgValue::Int(x), ArgView::Int(y)) => x == y,
        (ArgValue::Str(x), ArgView::Str(y)) => x@ == y,
        (ArgValue::Array(x), ArgView::Array(y)) => x@.len() == y.len() && forall|i: int|
            0 <= i < x@.len() ==> val_is(#[trigger] x@[i], y[i]),
        _ => false,
    }
}

/// The body of a quoted string scanned from `j` after the chars `acc`: a
/// backslash takes the next char literally (a final backslash stays);
/// the text and the index past the closing quote, `None` when unclosed.
pub open spec fn str_lit(t: Seq<char>, j: int, acc: Seq<char>) -> Option<(Seq<char>, int)>
    decreases t.len() - j,
{
    if j < 0 || j >= t.len() {
        None
    } else if t[j] == '"' {
        Some((acc, j + 1))
    } else if t[j] == '\\' {
        if j + 1 < t.len() {
            str_lit(t, j + 2, acc.push(t[j + 1]))
        } else {
            str_lit(t, j + 1, acc.push('\\'))
        }
    } else {
        str_lit(t, j + 1, acc.push(t[j]))
    }
}

/// The argument value at `i0` (after spaces) and the index after it;
/// `None` when there is none.
pub open spec fn rv(t: Seq<char>, i0: int) -> Option<(ArgView, int)>
    decreases t.len() - i0, 1int,
{
    let i = space_end(t, i0);
    if i < i0 || i >= t.len() {
        None
    } else if t[i] == '"' {
        match str_lit(t, i + 1, seq![]) {
            Some((x, e)) => Some((ArgView::Str(x), e)),
            None => None,
        }
    } else if t[i] == '[' {
        let j = space_end(t, i + 1);
        if j <= i0 || j > t.len() {
            None
        } else if j < t.len() && t[j] == ']' {
            Some((ArgView::Array(seq![]), j + 1))
        } else {
            match rv_items(t, j) {
                Some((vs, e)) => Some((ArgView::Array(vs), e)),
                None => None,
            }
        }
    } else if crate::text::is_digit(t[i]) || t[i] == '-' {
        let e = crate::parser::digit_run(t, i + 1);
        match int_value(t, i, e) {
            Some(v) => if i64::MIN <= v <= i64::MAX {
                Some((ArgView::Int(v), e))
            } else {
                None
            },
            None => None,
        }
    } else if crate::text::is_alpha(t[i]) {
        let e = ident_end(t, i + 1);
        Some((ArgView::Ident(t.subrange(i, e)), e))
    } else {
        None
    }
}

/// The items of an array from `j` to its closing `]` (inclusive), separated
/// by commas; `None` when malformed.
pub open spec fn rv_items(t: Seq<char>, j: int) -> Option<(Seq<ArgView>, int)>
    decreases t.len() - j, 2int,
{
    if j < 0 || j > t.len() {
        None
    } else {
        match rv(t, j) {
            None => None,
            Some((v, e)) => {
                let k = space_end(t, e);
                if e <= j || k < e || k > t.len() {
                    None
                } else if k < t.len() && t[k] == ',' {
                    let j2 = space_end(t, k + 1);
                    if j2 <= j || j2 > t.len() {
                        None
                    } else {
                        match rv_items(t, j2) {
                            Some((vs, e2)) => Some((seq![v] + vs, e2)),
                            None => None,
                        }
                    }
                } else if k < t.len() && t[k] == ']' {
                    Some((seq![v], k + 1))
                } else {
                    None
                }
            },
        }
    }
}

/// `space_end` never goes back and stays in bounds.
proof fn lemma_space_end(t: Seq<char>, i: int)
    requires
        0 <= i <= t.len(),
    ensures
        i <= space_end(t, i) <= t.len(),
    decreases t.len() - i,
{
    if i < t.len() && t[i] == ' ' {
        lemma_space_end(t, i + 1);
    }
}

/// One argument value: string, array, integer, or identifier.
fn read_value(p: &Src, cursor: &mut usize) -> (r: Option<ArgValue>)
    requires
        p.wf(),
        *old(cursor) <= p.len(),
    ensures
        *old(cursor) <= *final(cursor) <= p.len(),
        r is Some ==> *final(cursor) > *old(cursor),
        match r {
            Some(v) => rv(p.text@, *old(cursor) as int) matches Some((w, e)) && val_is(v, w) && *final(cursor) == e,
            None => rv(p.text@, *old(cursor) as int) is None,
        },
        ({
            let t = p.text@;
            let st = space_end(t, *old(cursor) as int);
            &&& st >= t.len() ==> r is None
            &&& st < t.len() && crate::text::is_alpha(t[st]) ==> (r matches Some(ArgValue::Ident(name))
                && *final(cursor) == ident_end(t, st + 1) && name@ == t.subrange(st, ident_end(t, st + 1)))
            &&& st < t.len() && (crate::text::is_digit(t[st]) || t[st] == '-') ==> match r {
                Some(ArgValue::Int(v)) => int_value(t, st, crate::parser::digit_run(t, st + 1)) == Some(v as int)
                    && *final(cursor) == crate::parser::digit_run(t, st + 1),
                Some(_) => false,
                None => int_value(t, st, crate::parser::digit_run(t, st + 1)) matches None
                    || int_value(t, st, crate::parser::digit_run(t, st + 1))->Some_0 < i64::MIN
                    || int_value(t, st, crate::parser::digit_run(t, st + 1))->Some_0 > i64::MAX,
            }
            &&& st < t.len() && !(crate::text::is_alpha(t[st]) || crate::text::is_digit(t[st]) || t[st] == '-'
                || t[st] == '"' || t[st] == '[') ==> r is None
        }),
    decreases p.len() - *old(cursor),
{
    skip_ws(p, cursor);
    let start = *cursor;
    let first = match p.at(start) {
        Some(c) => c,
        None => {
            return None;
        },
    };
    if first == '"' {
        *cursor = *cursor + 1;
        let mut s: Vec<char> = Vec::new();
        while *cursor < p.text.len()
            invariant
                p.wf(),
                start < *cursor <= p.len(),
                str_lit(p.text@, start + 1, seq![]) == str_lit(p.text@, *cursor as int, s@),
            decreases p.len() - *cursor,
        {
            let b = p.text[*cursor];
            if b == '"' {
                *cursor = *cursor + 1;
                return Some(ArgValue::Str(chars_to_string(s.as_slice())));
            }
            if b == '\\' {
                if *cursor + 1 < p.text.len() {
                    s.push(p.text[*cursor + 1]);
                    *cursor = *cursor + 2;
                    continue;
                }
                s.push('\\');
                *cursor = *cursor + 1;
                continue;
            }
            s.push(b);
            *cursor = *cursor + 1;
        }
        None
    } else if first == '[' {
        *cursor = *cursor + 1;
        let mut arr: Vec<ArgValue> = Vec::new();
        skip_ws(p, cursor);
        if p.at(*cursor) == Some(']') {
            *cursor = *cursor + 1;
            assert(arr@.len() == 0);
            return Some(ArgValue::Array(arr));
        }
        let ghost j0 = *cursor as int;
        let ghost mut ws: Seq<ArgView> = seq![];
        assert(ws + seq![] =~= ws);
        loop
            invariant
                p.wf(),
                start < *cursor <= p.len(),
                start < j0,
                arr@.len() == ws.len(),
                forall|q: int| 0 <= q < arr@.len() ==> val_is(#[trigger] arr@[q], ws[q]),
                rv_items(p.text@, j0) == match rv_items(p.text@, *cursor as int) {
                    Some((vs, e)) => Some((ws + vs, e)),
                    None => None,
                },
            decreases p.len() - *cursor,
        {
            let ghost c = *cursor as int;
            let v = match read_value(p, cursor) {
                Some(v) => v,
                None => {
                    return None;
                },
            };
            let ghost w = rv(p.text@, c)->Some_0.0;
            let ghost e = *cursor as int;
            arr.push(v);
            skip_ws(p, cursor);
            proof {
                lemma_space_end(p.text@, e);
            }
            let ghost k = *cursor as int;
            if p.at(*cursor) == Some(',') {
                *cursor = *cursor + 1;
                skip_ws(p, cursor);
                proof {
                    lemma_space_end(p.text@, k + 1);
                    match rv_items(p.text@, *cursor as int) {
                        Some((vs, e2)) => {
                            assert(ws + (seq![w] + vs) =~= ws.push(w) + vs);
                        },
                        None => {},
                    }
                    ws = ws.push(w);
                }
            } else if p.at(*cursor) == Some(']') {
                *cursor = *cursor + 1;
                proof {
                    assert(ws + seq![w] =~= ws.push(w));
                    assert forall|q: int| 0 <= q < arr@.len() implies val_is(#[trigger] arr@[q], ws.push(w)[q]) by {
                    }
                }
                return Some(ArgValue::Array(arr));
            } else {
                return None;
            }
        }
    } else if crate::text::char_is_digit(first) || first == '-' {
        // The first char is the sign or the first digit.
        let mut end = start + 1;
        while end < p.text.len() && crate::text::char_is_digit(p.text[end])
            invariant
                p.wf(),
                start < end <= p.len(),
                crate::parser::digit_run(p.text@, start + 1) == crate::parser::digit_run(p.text@, end as int),
            decreases p.len() - end,
        {
            end = end + 1;
        }
        let n = match parse_i64(p.text, start, end) {
            Some(n) => n,
            None => {
                return None;
            },
        };
        *cursor = end;
        Some(ArgValue::Int(n))
    } else if crate::text::char_is_alpha(first) {
        match read_ident(p, cursor) {
            Some(id) => Some(ArgValue::Ident(id)),
            None => None,
        }
    } else {
        None
    }
}

} // verus!
