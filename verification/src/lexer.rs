//! Lexer: splits a source into line tokens and rejects characters Brief
//! does not allow (tabs, a byte-order mark past the start, control
//! characters) and odd indentation outside code fences.
use crate::diag::{Code, Diagnostic, Severity};
use crate::span::{SourceMap, Span};
use crate::text::{range_string, starts_at_str, trimmed_eq};
use crate::token::{Token, TokenKind};
use vstd::prelude::*;

verus! {

/// A token stream the parser can walk: it ends with exactly one `Eof`.
pub open spec fn well_terminated(toks: Seq<Token>) -> bool {
    &&& toks.len() >= 1
    &&& toks.last().kind == TokenKind::Eof
    &&& forall|i: int| 0 <= i < toks.len() - 1 ==> (#[trigger] toks[i]).kind != TokenKind::Eof
}

/// A character the lexer rejects: a tab, a byte-order mark past the start,
/// or a control character other than `\r` (and the line break).
pub open spec fn bad_char(c: char) -> bool {
    c == '\t' || c == '\u{feff}' || ((c as u32) < 0x20 && c != '\r')
}

/// Index of the `\n` ending the line that starts at `i`, or the end of `t`.
pub open spec fn line_end(t: Seq<char>, i: int) -> int
    decreases t.len() - i,
{
    if 0 <= i < t.len() && t[i] != '\n' {
        line_end(t, i + 1)
    } else {
        i
    }
}

/// End of `t[a..e]` without trailing spaces, tabs and carriage returns.
pub open spec fn content_end(t: Seq<char>, a: int, e: int) -> int
    decreases e - a,
{
    if e > a && (t[e - 1] == ' ' || t[e - 1] == '\t' || t[e - 1] == '\r') {
        content_end(t, a, e - 1)
    } else {
        e
    }
}

/// Number of spaces at the start of `t[a..e]`.
pub open spec fn lead_spaces(t: Seq<char>, a: int, e: int) -> int
    decreases e - a,
{
    if a < e && t[a] == ' ' {
        1 + lead_spaces(t, a + 1, e)
    } else {
        0
    }
}

/// The byte span of chars `a..b` of `t`.
pub open spec fn bspan(t: Seq<char>, a: int, b: int) -> Span {
    Span {
        start: crate::text::utf8_len(t.take(a)) as u32,
        len: (crate::text::utf8_len(t.take(b)) - crate::text::utf8_len(t.take(a))) as u32,
    }
}

/// A token as plain values: kind (0 line, 1 blank, 2 end), text, span,
/// indentation.
pub open spec fn tok_view(k: Token) -> (int, Seq<char>, Span, int) {
    (
        match k.kind {
            TokenKind::Line(_) => 0int,
            TokenKind::Blank => 1int,
            TokenKind::Eof => 2int,
        },
        match k.kind {
            TokenKind::Line(s) => s@,
            _ => seq![],
        },
        k.span,
        k.indent as int,
    )
}

/// The line tokens of `t` from the line starting at `ls` (`fence`: inside a
/// code fence), and whether those lines are free of lexical errors: no
/// rejected character and, outside fences, an even indentation.
pub open spec fn lex_from(t: Seq<char>, ls: int, fence: bool) -> (Seq<(int, Seq<char>, Span, int)>, bool)
    decreases t.len() - ls,
{
    if ls < 0 || ls >= t.len() {
        (seq![], true)
    } else {
        let le = line_end(t, ls);
        let te = content_end(t, ls, le);
        let clean = forall|i: int| ls <= i < le ==> !bad_char(#[trigger] t[i]);
        let nxt = if le < t.len() { le + 1 } else { t.len() as int };
        if nxt <= ls {
            (seq![], true)
        } else if te == ls {
            let end = if le > ls && t[le - 1] == '\r' { le - 1 } else { le };
            let r = lex_from(t, nxt, fence);
            (seq![(1int, Seq::<char>::empty(), bspan(t, ls, end), 0int)] + r.0, clean && r.1)
        } else {
            let ind = lead_spaces(t, ls, te);
            let body = ls + ind;
            let nf = if fence {
                crate::text::trimmed(t, body, te) != "```"@
            } else {
                crate::text::matches_at(t, body, "```"@)
            };
            let even = fence || crate::text::matches_at(t, body, "```"@) || ind % 2 == 0;
            let r = lex_from(t, nxt, nf);
            (
                seq![(0int, t.subrange(ls, te), bspan(t, ls, te), if ind > 65535 { 65535int } else { ind })] + r.0,
                clean && even && r.1,
            )
        }
    }
}

/// Where lexing starts: past a leading byte-order mark.
pub open spec fn lex_start(t: Seq<char>) -> int {
    if t.len() > 0 && t[0] == '\u{feff}' { 1 } else { 0 }
}

/// `t` lexes without error.
pub open spec fn lex_ok(t: Seq<char>) -> bool {
    lex_from(t, lex_start(t), false).1
}

/// One line of the lexer, starting at `ls`: its token is pushed, its
/// errors reported, and the fence state updated; returns where the next
/// line starts.
#[verifier::rlimit(40)]
fn lex_line(
    text: &[char],
    offs: &[usize],
    ls: usize,
    in_fence: &mut bool,
    toks: &mut Vec<Token>,
    diags: &mut Vec<Diagnostic>,
) -> (nls: usize)
    requires
        ls < text@.len(),
        offs@.len() == text@.len() + 1,
        forall|i: int| 0 <= i <= text@.len() ==> offs@[i] == crate::text::utf8_len(#[trigger] text@.take(i)),
    ensures
        ls < nls <= text@.len(),
        final(toks)@.len() == old(toks)@.len() + 1,
        final(toks)@.drop_last() == old(toks)@,
        final(toks)@.last().kind != TokenKind::Eof,
        final(diags)@.len() >= old(diags)@.len(),
        forall|i: int| 0 <= i < old(diags)@.len() ==> final(diags)@[i] == old(diags)@[i],
        forall|i: int|
            old(diags)@.len() <= i < final(diags)@.len() ==> (#[trigger] final(diags)@[i]).severity
                == Severity::Error,
        lex_from(text@, ls as int, *old(in_fence)).0 == seq![tok_view(final(toks)@.last())] + lex_from(
            text@,
            nls as int,
            *final(in_fence),
        ).0,
        lex_from(text@, ls as int, *old(in_fence)).1 == (final(diags)@.len() == old(diags)@.len() && lex_from(
            text@,
            nls as int,
            *final(in_fence),
        ).1),
{
    let ghost t = text@;
    let n = text.len();
    let ghost dl0 = diags@.len();
    let ghost f0 = *in_fence;
    let ghost o = toks@;
    // Line end (at `\n` or end of input).
    let mut le = ls;
    while le < n && text[le] != '\n'
        invariant
            ls <= le <= n,
            n == text@.len(),
            offs@.len() == n + 1,
            line_end(t, ls as int) == line_end(t, le as int),
            diags@.len() >= dl0,
            forall|i: int| 0 <= i < dl0 ==> diags@[i] == old(diags)@[i],
            forall|i: int| dl0 <= i < diags@.len() ==> (#[trigger] diags@[i]).severity == Severity::Error,
            (diags@.len() == dl0) == (forall|i: int| ls <= i < le ==> !bad_char(#[trigger] t[i])),
        decreases n - le,
    {
        let c = text[le];
        if c == '\t' {
            diags.push(Diagnostic::new(Code::TabCharacter, Span::new(offs[le], 1)).label("tab character"));
        } else if c == '\u{feff}' {
            diags.push(Diagnostic::new(Code::BomNotAtStart, Span::new(offs[le], 3)));
        } else if (c as u32) < 0x20 && c != '\r' {
            diags.push(Diagnostic::new(Code::UnexpectedChar, Span::new(offs[le], 1)).label("control character"));
        }
        le = le + 1;
    }
    // Content end: trailing whitespace (and a `\r`) removed.
    let mut te = le;
    while te > ls && (text[te - 1] == ' ' || text[te - 1] == '\t' || text[te - 1] == '\r')
        invariant
            ls <= te <= le,
            le <= n,
            n == text@.len(),
            content_end(t, ls as int, le as int) == content_end(t, ls as int, te as int),
        decreases te - ls,
    {
        te = te - 1;
    }
    let ghost dl1 = diags@.len();
    let nls = if le < n {
        le + 1
    } else {
        n
    };
    proof {
        assert(line_end(t, le as int) == le as int);
        assert(content_end(t, ls as int, te as int) == te as int);
        crate::text::lemma_utf8_len_mono(text@, ls as int, te as int);
        crate::text::lemma_utf8_len_mono(text@, ls as int, le as int);
        if le > ls {
            crate::text::lemma_utf8_len_mono(text@, ls as int, le - 1);
        }
    }
    let start = offs[ls];
    if te == ls {
        let end = if le > ls && text[le - 1] == '\r' {
            le - 1
        } else {
            le
        };
        toks.push(Token { kind: TokenKind::Blank, span: Span::new(start, offs[end] - start), indent: 0 });
        proof {
            assert(tok_view(toks@.last()) == (1int, Seq::<char>::empty(), bspan(t, ls as int, end as int), 0int));
        }
    } else {
        let mut ind: usize = 0;
        while ls + ind < te && text[ls + ind] == ' '
            invariant
                ls + ind <= te,
                te <= n,
                n == text@.len(),
                ind + lead_spaces(t, ls + ind, te as int) == lead_spaces(t, ls as int, te as int),
            decreases te - ls - ind,
        {
            ind = ind + 1;
        }
        let body = ls + ind;
        if *in_fence {
            if trimmed_eq(text, body, te, "```") {
                *in_fence = false;
            }
        } else if starts_at_str(text, body, "```") {
            *in_fence = true;
        } else if ind % 2 == 1 {
            diags.push(
                Diagnostic::new(Code::BadIndent, Span::new(start, ind)).label("odd number of leading spaces").help(
                    "indent in steps of two spaces",
                ),
            );
        }
        let indent: u16 = if ind > 65535 {
            65535
        } else {
            ind as u16
        };
        toks.push(
            Token {
                kind: TokenKind::Line(range_string(text, ls, te)),
                span: Span::new(start, offs[te] - start),
                indent,
            },
        );
        proof {
            assert(ind as int == lead_spaces(t, ls as int, te as int));
            assert(tok_view(toks@.last()) == (0int, t.subrange(ls as int, te as int), bspan(
                t,
                ls as int,
                te as int,
            ), if ind > 65535 {
                65535int
            } else {
                ind as int
            }));
        }
    }
    assert(toks@.drop_last() =~= o);
    nls
}

/// Split `src` into line tokens. Errors list every offending character or
/// indentation.
pub fn lex(src: &SourceMap) -> (r: Result<Vec<Token>, Vec<Diagnostic>>)
    requires
        src.wf(),
    ensures
        r matches Ok(toks) ==> well_terminated(toks@),
        r matches Err(d) ==> d@.len() > 0 && forall|i: int| 0 <= i < d@.len() ==> (#[trigger] d@[i]).severity
            == Severity::Error,
        r is Ok <==> lex_ok(src.text()),
        r matches Ok(toks) ==> ({
            let l = lex_from(src.text(), lex_start(src.text()), false).0;
            &&& toks@.len() == l.len() + 1
            &&& forall|i: int| 0 <= i < l.len() ==> tok_view(#[trigger] toks@[i]) == l[i]
            &&& tok_view(toks@.last()) == (2int, Seq::<char>::empty(), Span {
                start: crate::text::utf8_len(src.text()) as u32,
                len: 0u32,
            }, 0int)
        }),
{
    let text = src.source_chars();
    let offs = src.byte_offset_table();
    let n = text.len();
    let ghost t = text@;
    let mut toks: Vec<Token> = Vec::new();
    let mut diags: Vec<Diagnostic> = Vec::new();
    let mut ls: usize = 0;
    if n > 0 && text[0] == '\u{feff}' {
        ls = 1;
    }
    let ghost l0 = lex_from(t, ls as int, false);
    let mut in_fence = false;
    assert(toks@.map_values(|k: Token| tok_view(k)) =~= Seq::<(int, Seq<char>, Span, int)>::empty());
    while ls < n
        invariant
            ls <= n,
            n == text@.len(),
            t == text@,
            offs@.len() == n + 1,
            forall|i: int| 0 <= i < toks@.len() ==> (#[trigger] toks@[i]).kind != TokenKind::Eof,
            forall|i: int| 0 <= i <= text@.len() ==> offs@[i] == crate::text::utf8_len(#[trigger] text@.take(i)),
            toks@.map_values(|k: Token| tok_view(k)) + lex_from(t, ls as int, in_fence).0 == l0.0,
            (diags@.len() == 0 && lex_from(t, ls as int, in_fence).1) == l0.1,
            forall|i: int| 0 <= i < diags@.len() ==> (#[trigger] diags@[i]).severity == Severity::Error,
        decreases n - ls,
    {
        let ghost tm = toks@.map_values(|k: Token| tok_view(k));
        let ghost rest = lex_from(t, ls as int, in_fence);
        let ghost d0 = diags@.len();
        let ghost ot = toks@;
        let nls = lex_line(text, offs, ls, &mut in_fence, &mut toks, &mut diags);
        proof {
            assert(toks@.map_values(|k: Token| tok_view(k)) =~= tm.push(tok_view(toks@.last())));
            assert(tm.push(tok_view(toks@.last())) + lex_from(t, nls as int, in_fence).0 =~= tm + rest.0);
            assert forall|i: int| 0 <= i < toks@.len() implies (#[trigger] toks@[i]).kind != TokenKind::Eof by {
                if i < ot.len() {
                    assert(toks@[i] == toks@.drop_last()[i]);
                }
            }
        }
        ls = nls;
    }
    assert(lex_from(t, n as int, in_fence).0 =~= Seq::<(int, Seq<char>, Span, int)>::empty());
    assert(toks@.map_values(|k: Token| tok_view(k)) =~= l0.0);
    if diags.len() > 0 {
        return Err(diags);
    }
    let ghost before = toks@;
    toks.push(Token { kind: TokenKind::Eof, span: Span::new(offs[n], 0), indent: 0 });
    proof {
        assert(text@.take(n as int) =~= text@);
        assert forall|i: int| 0 <= i < l0.0.len() implies tok_view(#[trigger] toks@[i]) == l0.0[i] by {
            assert(toks@[i] == before[i]);
            assert(before.map_values(|k: Token| tok_view(k))[i] == tok_view(before[i]));
        }
    }
    Ok(toks)
}

} // verus!
