//! Shared building blocks for the C-family minifiers (Rust, Go, JS/TS,
//! Java, C/C++, SQL). Each language module produces a `Vec<Token>` with its
//! own lexer; a shared emitter consumes the stream to produce a minified
//! string with minimal-but-safe whitespace.
use crate::minify::{MinifyError, MinifyOutput, MinifyWarning};
use crate::text::{chars_to_string, push_all, str_chars};
use vstd::prelude::*;

verus! {

/// Lexical class of a token; text-carrying variants hold the token's chars.
#[derive(Debug, Clone)]
pub enum TokenKind {
    /// Identifier, keyword, or numeric literal.
    Word(Vec<char>),
    /// Operator or punctuation, possibly several chars (`===`, `::`, `->`).
    Punct(Vec<char>),
    /// String/char literal, verbatim including delimiters.
    StrLit(Vec<char>),
    /// `// …` line comment body (without `//` and the newline).
    LineComment(Vec<char>),
    /// `/* … */` block comment body (without the delimiters).
    BlockComment(Vec<char>),
    /// JS template literal, verbatim including backticks.
    Template(Vec<char>),
    /// JS regex literal `/…/flags`, verbatim.
    Regex(Vec<char>),
    /// C/C++ preprocessor line including continuations; emitted on its own line.
    Preproc(Vec<char>),
    /// Significant newline.
    Newline,
}

/// A lexed token.
#[derive(Debug, Clone)]
pub struct Token {
    pub kind: TokenKind,
}

impl Token {
    pub fn new(kind: TokenKind) -> (t: Token)
        ensures
            t.kind == kind,
    {
        Token { kind }
    }
}

/// What `char::is_alphanumeric` answers for a char outside ASCII (Unicode
/// `Alphabetic` or `Numeric`).
pub uninterp spec fn unicode_alphanumeric(c: char) -> bool;

/// What `char::is_alphabetic` answers for a char outside ASCII (Unicode
/// `Alphabetic`).
pub uninterp spec fn unicode_alphabetic(c: char) -> bool;

/// `char::is_alphanumeric`: exact on ASCII, Unicode tables beyond.
pub open spec fn alnum(c: char) -> bool {
    if (c as u32) < 128 {
        ('0' <= c && c <= '9') || ('a' <= c && c <= 'z') || ('A' <= c && c <= 'Z')
    } else {
        unicode_alphanumeric(c)
    }
}

/// `char::is_alphabetic`: exact on ASCII, Unicode tables beyond.
pub open spec fn alpha(c: char) -> bool {
    if (c as u32) < 128 {
        ('a' <= c && c <= 'z') || ('A' <= c && c <= 'Z')
    } else {
        unicode_alphabetic(c)
    }
}

/// `char::is_alphanumeric` from the standard library.
///
/// Trusted: std documents it as `is_alphabetic() || is_numeric()`, which on
/// ASCII is exactly the digits and letters; beyond ASCII the answer is named.
#[verifier::external_body]
pub(crate) fn char_is_alphanumeric(c: char) -> (r: bool)
    ensures
        (c as u32) < 128 ==> r == (('0' <= c && c <= '9') || ('a' <= c && c <= 'z') || ('A' <= c
            && c <= 'Z')),
        (c as u32) >= 128 ==> r == unicode_alphanumeric(c),
{
    c.is_alphanumeric()
}

/// `char::is_alphabetic` from the standard library.
///
/// Trusted: std documents it as the Unicode `Alphabetic` property, which on
/// ASCII is exactly the letters; beyond ASCII the answer is named.
#[verifier::external_body]
pub(crate) fn char_is_alphabetic(c: char) -> (r: bool)
    ensures
        (c as u32) < 128 ==> r == (('a' <= c && c <= 'z') || ('A' <= c && c <= 'Z')),
        (c as u32) >= 128 ==> r == unicode_alphabetic(c),
{
    c.is_alphabetic()
}

/// A "word" char: pressed against another word char it would form a
/// different token.
pub open spec fn word_char(c: char) -> bool {
    alnum(c) || c == '_' || c == '$'
}

/// Removing the whitespace between `prev` and `next` would change the
/// token stream.
pub open spec fn spec_needs_space(prev: char, next: char) -> bool {
    (word_char(prev) && word_char(next)) || (prev == '+' && next == '+') || (prev == '-' && next
        == '-') || (prev == '<' && next == '<') || (prev == '>' && next == '>') || (prev == '*'
        && next == '*') || (prev == '/' && next == '/') || (prev == '/' && next == '*') || (prev
        == '*' && next == '/') || (prev == ':' && next == ':') || (prev == '&' && next == '&') || (
    prev == '|' && next == '|') || (next == '=' && (prev == '=' || prev == '!' || prev == '<'
        || prev == '>' || prev == '+' || prev == '-' || prev == '*' || prev == '/' || prev == '%'
        || prev == '&' || prev == '|' || prev == '^')) || (prev == '-' && next == '>') || (prev
        == '=' && next == '>') || (prev == '?' && next == '?') || (prev == '?' && next == '.') || (
    prev == '.' && next == '.')
}

/// True if `c` is a word char: ASCII alnum, `_`, `$`, or any Unicode
/// alphanumeric.
pub fn is_word_char(c: char) -> (r: bool)
    ensures
        r == word_char(c),
{
    char_is_alphanumeric(c) || c == '_' || c == '$'
}

/// True if removing whitespace between two adjacent chars would change the
/// token stream (merge two words or form a multi-char operator/comment).
pub fn needs_space(prev: char, next: char) -> (r: bool)
    ensures
        r == spec_needs_space(prev, next),
{
    if is_word_char(prev) && is_word_char(next) {
        return true;
    }
    (prev == '+' && next == '+') || (prev == '-' && next == '-') || (prev == '<' && next == '<')
        || (prev == '>' && next == '>') || (prev == '*' && next == '*') || (prev == '/' && next
        == '/') || (prev == '/' && next == '*') || (prev == '*' && next == '/') || (prev == ':'
        && next == ':') || (prev == '&' && next == '&') || (prev == '|' && next == '|') || (next
        == '=' && (prev == '=' || prev == '!' || prev == '<' || prev == '>' || prev == '+' || prev
        == '-' || prev == '*' || prev == '/' || prev == '%' || prev == '&' || prev == '|' || prev
        == '^')) || (prev == '-' && next == '>') || (prev == '=' && next == '>') || (prev == '?'
        && next == '?') || (prev == '?' && next == '.') || (prev == '.' && next == '.')
}

/// `s` with every `*/` rewritten to `* /`, scanning left to right.
pub open spec fn defuse_close(s: Seq<char>) -> Seq<char>
    decreases s.len(),
{
    if s.len() >= 2 && s[0] == '*' && s[1] == '/' {
        seq!['*', ' ', '/'] + defuse_close(s.skip(2))
    } else if s.len() >= 1 {
        seq![s[0]] + defuse_close(s.skip(1))
    } else {
        s
    }
}

/// `/*` + body (with `*/` defused) + `*/`.
pub open spec fn spec_safe_block_comment(body: Seq<char>) -> Seq<char> {
    seq!['/', '*'] + defuse_close(body) + seq!['*', '/']
}

/// `s` contains `*/` at index `k`.
pub open spec fn closes_at(s: Seq<char>, k: int) -> bool {
    0 <= k && k + 1 < s.len() && s[k] == '*' && s[k + 1] == '/'
}

proof fn lemma_defuse_close_shape(s: Seq<char>)
    ensures
        forall|k: int| !closes_at(defuse_close(s), k),
        s.len() > 0 ==> defuse_close(s).len() > 0 && (defuse_close(s)[0] == '/' ==> s[0] == '/'),
        s.len() == 0 ==> defuse_close(s).len() == 0,
    decreases s.len(),
{
    if s.len() >= 2 && s[0] == '*' && s[1] == '/' {
        let rest = defuse_close(s.skip(2));
        lemma_defuse_close_shape(s.skip(2));
        let out = seq!['*', ' ', '/'] + rest;
        assert(defuse_close(s) == out);
        assert forall|k: int| closes_at(out, k) implies false by {
            if k >= 3 {
                assert(out[k] == rest[k - 3]);
                assert(out[k + 1] == rest[k - 2]);
                assert(closes_at(rest, k - 3));
            } else if k == 2 {
                assert(out[2] == '/');
            } else {
                assert(out[1] == ' ');
                assert(out[2] == '/');
            }
        }
    } else if s.len() >= 1 {
        let rest = defuse_close(s.skip(1));
        lemma_defuse_close_shape(s.skip(1));
        let out = seq![s[0]] + rest;
        assert(defuse_close(s) == out);
        assert forall|k: int| closes_at(out, k) implies false by {
            if k >= 1 {
                assert(out[k] == rest[k - 1]);
                assert(out[k + 1] == rest[k]);
                assert(closes_at(rest, k - 1));
            } else {
                assert(out[0] == s[0]);
                assert(s[0] == '*');
                assert(rest.len() > 0);
                assert(out[1] == rest[0]);
                assert(rest[0] == '/');
                assert(s.skip(1)[0] == '/');
                assert(s[1] == '/');
            }
        }
    }
}

/// A body wrapped by `safe_block_comment` cannot close the comment early:
/// the defused body holds no `*/`, so the only `*/` after the opener is the
/// final closer.
pub proof fn law_safe_block_comment_closes_once(body: Seq<char>)
    ensures
        forall|k: int| !closes_at(defuse_close(body), k),
        spec_safe_block_comment(body).len() >= 4,
        closes_at(spec_safe_block_comment(body), spec_safe_block_comment(body).len() - 2),
{
    lemma_defuse_close_shape(body);
}

/// Wrap a comment body in `/* … */`, defusing any `*/` inside it.
pub fn safe_block_comment(body: &str) -> (r: String)
    ensures
        r@ == spec_safe_block_comment(body@),
{
    let b = str_chars(body);
    let v = safe_block_comment_chars(b.as_slice());
    chars_to_string(v.as_slice())
}

/// Char-level form of `safe_block_comment`.
pub fn safe_block_comment_chars(body: &[char]) -> (r: Vec<char>)
    ensures
        r@ == spec_safe_block_comment(body@),
{
    let mut out: Vec<char> = Vec::new();
    out.push('/');
    out.push('*');
    let mut i: usize = 0;
    proof {
        assert(body@.skip(0) =~= body@);
    }
    while i < body.len()
        invariant
            i <= body@.len(),
            out@ + defuse_close(body@.skip(i as int)) == seq!['/', '*'] + defuse_close(body@),
        decreases body@.len() - i,
    {
        let ghost before = out@;
        if i + 1 < body.len() && body[i] == '*' && body[i + 1] == '/' {
            out.push('*');
            out.push(' ');
            out.push('/');
            proof {
                assert(body@.skip(i as int).skip(2) =~= body@.skip(i + 2));
                assert(out@ =~= before + seq!['*', ' ', '/']);
            }
            i = i + 2;
        } else {
            out.push(body[i]);
            proof {
                assert(body@.skip(i as int).skip(1) =~= body@.skip(i + 1));
                assert(out@ =~= before + seq![body@[i as int]]);
            }
            i = i + 1;
        }
    }
    proof {
        assert(body@.skip(i as int).len() == 0);
        assert(defuse_close(body@.skip(i as int)) =~= Seq::<char>::empty());
        assert(out@ =~= seq!['/', '*'] + defuse_close(body@));
    }
    out.push('*');
    out.push('/');
    out
}

/// Append `s` to `out`, with a space first if gluing it to the previous
/// token would merge them; returns the new "last emitted char".
pub open spec fn push_spaced(out: Seq<char>, prev: Option<char>, s: Seq<char>) -> (
    Seq<char>,
    Option<char>,
) {
    if s.len() == 0 {
        (out, prev)
    } else {
        let sp = match prev {
            Some(p) => spec_needs_space(p, s[0]),
            None => false,
        };
        (if sp {
            out.push(' ') + s
        } else {
            out + s
        }, Some(s.last()))
    }
}

/// Text of a token that is emitted as-is (words, punctuation, literals).
pub open spec fn plain_text(k: TokenKind) -> Option<Seq<char>> {
    match k {
        TokenKind::Word(s) => Some(s@),
        TokenKind::Punct(s) => Some(s@),
        TokenKind::StrLit(s) => Some(s@),
        TokenKind::Template(s) => Some(s@),
        TokenKind::Regex(s) => Some(s@),
        _ => None,
    }
}

/// Emitter state: text so far, last emitted char, warnings so far.
pub struct EmitState {
    pub out: Seq<char>,
    pub prev: Option<char>,
    pub warns: nat,
}

/// A preprocessor line on its own line.
pub open spec fn put_preproc(out: Seq<char>, s: Seq<char>) -> Seq<char> {
    let o1 = if out.len() > 0 && out.last() != '\n' {
        out.push('\n')
    } else {
        out
    };
    let o2 = o1 + s;
    if s.len() > 0 && s.last() == '\n' {
        o2
    } else {
        o2.push('\n')
    }
}

/// One step of an emitter; `keep_newlines` selects the conservative
/// (newline-preserving) strategy.
pub open spec fn emit_step(st: EmitState, k: TokenKind, keep: bool, keep_newlines: bool) -> EmitState {
    match k {
        TokenKind::Newline => if keep_newlines {
            EmitState {
                out: if st.out.len() > 0 && st.out.last() == '\n' {
                    st.out
                } else {
                    st.out.push('\n')
                },
                prev: None,
                warns: st.warns,
            }
        } else {
            st
        },
        TokenKind::LineComment(b) => if !keep {
            st
        } else {
            let r = push_spaced(st.out, st.prev, spec_safe_block_comment(b@));
            EmitState { out: r.0, prev: r.1, warns: st.warns + 1 }
        },
        TokenKind::BlockComment(b) => if !keep {
            st
        } else {
            let r = push_spaced(st.out, st.prev, spec_safe_block_comment(b@));
            EmitState { out: r.0, prev: r.1, warns: st.warns }
        },
        TokenKind::Preproc(s) => EmitState { out: put_preproc(st.out, s@), prev: None, warns: st.warns },
        TokenKind::Word(s) | TokenKind::Punct(s) | TokenKind::StrLit(s) | TokenKind::Template(s)
        | TokenKind::Regex(s) => {
            let r = push_spaced(st.out, st.prev, s@);
            EmitState { out: r.0, prev: r.1, warns: st.warns }
        },
    }
}

/// The emitter run over a whole token sequence.
pub open spec fn emit_all(toks: Seq<Token>, keep: bool, keep_newlines: bool) -> EmitState
    decreases toks.len(),
{
    if toks.len() == 0 {
        EmitState { out: Seq::empty(), prev: None, warns: 0 }
    } else {
        emit_step(emit_all(toks.drop_last(), keep, keep_newlines), toks.last().kind, keep, keep_newlines)
    }
}

/// Exec form of `push_spaced`.
pub(crate) fn push_with_space(out: &mut Vec<char>, prev: &mut Option<char>, s: &[char])
    ensures
        (final(out)@, *final(prev)) == push_spaced(old(out)@, *old(prev), s@),
{
    if s.len() == 0 {
        return;
    }
    if let Some(p) = *prev {
        if needs_space(p, s[0]) {
            out.push(' ');
        }
    }
    push_all(out, s);
    *prev = Some(s[s.len() - 1]);
}

/// Exec form of `put_preproc`.
fn push_preproc(out: &mut Vec<char>, s: &[char])
    ensures
        final(out)@ == put_preproc(old(out)@, s@),
{
    if out.len() > 0 && out[out.len() - 1] != '\n' {
        out.push('\n');
    }
    push_all(out, s);
    if !(s.len() > 0 && s[s.len() - 1] == '\n') {
        out.push('\n');
    }
}

/// Shared emitter loop.
fn emit_tokens(tokens: &[Token], keep: bool, keep_newlines: bool) -> (r: (Vec<char>, Vec<MinifyWarning>))
    ensures
        r.0@ == emit_all(tokens@, keep, keep_newlines).out,
        r.1@.len() == emit_all(tokens@, keep, keep_newlines).warns,
{
    let mut out: Vec<char> = Vec::new();
    let mut warnings: Vec<MinifyWarning> = Vec::new();
    let mut prev: Option<char> = None;
    let mut i: usize = 0;
    while i < tokens.len()
        invariant
            i <= tokens@.len(),
            out@ == emit_all(tokens@.take(i as int), keep, keep_newlines).out,
            prev == emit_all(tokens@.take(i as int), keep, keep_newlines).prev,
            warnings@.len() == emit_all(tokens@.take(i as int), keep, keep_newlines).warns,
        decreases tokens@.len() - i,
    {
        proof {
            assert(tokens@.take(i + 1).drop_last() =~= tokens@.take(i as int));
        }
        match &tokens[i].kind {
            TokenKind::Newline => {
                if keep_newlines {
                    if !(out.len() > 0 && out[out.len() - 1] == '\n') {
                        out.push('\n');
                    }
                    prev = None;
                }
            },
            TokenKind::LineComment(body) => {
                if keep {
                    let block = safe_block_comment_chars(body.as_slice());
                    push_with_space(&mut out, &mut prev, block.as_slice());
                    warnings.push(MinifyWarning::LineCommentConverted);
                }
            },
            TokenKind::BlockComment(body) => {
                if keep {
                    let block = safe_block_comment_chars(body.as_slice());
                    push_with_space(&mut out, &mut prev, block.as_slice());
                }
            },
            TokenKind::Word(s)
            | TokenKind::Punct(s)
            | TokenKind::StrLit(s)
            | TokenKind::Template(s)
            | TokenKind::Regex(s) => {
                push_with_space(&mut out, &mut prev, s.as_slice());
            },
            TokenKind::Preproc(s) => {
                push_preproc(&mut out, s.as_slice());
                prev = None;
            },
        }
        i = i + 1;
    }
    proof {
        assert(tokens@.take(tokens@.len() as int) =~= tokens@);
    }
    (out, warnings)
}

/// Emit a token stream stripping all whitespace and (by default) all
/// comments. Used by Rust, Java, SQL.
pub fn emit_aggressive(tokens: &[Token], opts_keep_comments: bool) -> (r: Result<
    MinifyOutput,
    MinifyError,
>)
    ensures
        r matches Ok(o) && o.body@ == emit_all(tokens@, opts_keep_comments, false).out
            && o.warnings@.len() == emit_all(tokens@, opts_keep_comments, false).warns,
{
    let (out, warnings) = emit_tokens(tokens, opts_keep_comments, false);
    Ok(MinifyOutput { body: chars_to_string(out.as_slice()), warnings })
}

/// Emit a token stream preserving newlines (JS/TS/Go automatic semicolon
/// insertion). Horizontal whitespace and comments are still stripped.
pub fn emit_conservative(tokens: &[Token], opts_keep_comments: bool) -> (r: Result<
    MinifyOutput,
    MinifyError,
>)
    ensures
        r matches Ok(o) && o.body@ == emit_all(tokens@, opts_keep_comments, true).out
            && o.warnings@.len() == emit_all(tokens@, opts_keep_comments, true).warns,
{
    let (out, warnings) = emit_tokens(tokens, opts_keep_comments, true);
    Ok(MinifyOutput { body: chars_to_string(out.as_slice()), warnings })
}

/// The token is a comment.
pub open spec fn is_comment(k: TokenKind) -> bool {
    k is LineComment || k is BlockComment
}

/// `toks` without its comments, in order.
pub open spec fn without_comments(toks: Seq<Token>) -> Seq<Token>
    decreases toks.len(),
{
    if toks.len() == 0 {
        seq![]
    } else if is_comment(toks.last().kind) {
        without_comments(toks.drop_last())
    } else {
        without_comments(toks.drop_last()).push(toks.last())
    }
}

/// Comments are stripped by default: without `keep`, the emitters give for
/// a token sequence exactly what they give for it with its comments
/// removed.
pub proof fn law_comments_stripped(toks: Seq<Token>, keep_newlines: bool)
    ensures
        emit_all(toks, false, keep_newlines) == emit_all(without_comments(toks), false, keep_newlines),
    decreases toks.len(),
{
    if toks.len() > 0 {
        law_comments_stripped(toks.drop_last(), keep_newlines);
        if !is_comment(toks.last().kind) {
            let w = without_comments(toks.drop_last()).push(toks.last());
            assert(w.drop_last() =~= without_comments(toks.drop_last()));
        }
    }
}

/// The text a token contributes to the output when comments are kept
/// according to `keep` (nothing for a dropped comment or a newline).
pub open spec fn emitted_piece(k: TokenKind, keep: bool) -> Seq<char> {
    match k {
        TokenKind::LineComment(b) => if keep {
            spec_safe_block_comment(b@)
        } else {
            seq![]
        },
        TokenKind::BlockComment(b) => if keep {
            spec_safe_block_comment(b@)
        } else {
            seq![]
        },
        TokenKind::Newline => seq![],
        TokenKind::Preproc(s) => s@,
        TokenKind::Word(s) | TokenKind::Punct(s) | TokenKind::StrLit(s) | TokenKind::Template(s)
        | TokenKind::Regex(s) => s@,
    }
}

/// The aggressive strategy writes everything on one line: without
/// preprocessor lines, it adds no line break of its own, so the output has
/// one only where a token's own text has one.
pub proof fn law_aggressive_single_line(toks: Seq<Token>, keep: bool)
    requires
        forall|i: int| 0 <= i < toks.len() ==> !(#[trigger] toks[i].kind is Preproc),
        forall|i: int| 0 <= i < toks.len() ==> !emitted_piece(#[trigger] toks[i].kind, keep).contains('\n'),
    ensures
        !emit_all(toks, keep, false).out.contains('\n'),
    decreases toks.len(),
{
    if toks.len() > 0 {
        let p = toks.drop_last();
        assert forall|i: int| 0 <= i < p.len() implies !(#[trigger] p[i].kind is Preproc) by {
            assert(p[i] == toks[i]);
        }
        assert forall|i: int| 0 <= i < p.len() implies !emitted_piece(#[trigger] p[i].kind, keep).contains('\n') by {
            assert(p[i] == toks[i]);
        }
        law_aggressive_single_line(p, keep);
        let st = emit_all(p, keep, false);
        let k = toks.last().kind;
        assert(toks.last() == toks[toks.len() - 1]);
        let piece = emitted_piece(k, keep);
        assert(!piece.contains('\n'));
        let r = push_spaced(st.out, st.prev, piece);
        assert(!r.0.contains('\n')) by {
            if piece.len() > 0 {
                let sp = match st.prev {
                    Some(c) => spec_needs_space(c, piece[0]),
                    None => false,
                };
                let base = if sp {
                    st.out.push(' ')
                } else {
                    st.out
                };
                assert(r.0 == base + piece);
                assert forall|j: int| 0 <= j < r.0.len() implies r.0[j] != '\n' by {
                    if j < base.len() {
                        if j < st.out.len() {
                            assert(r.0[j] == st.out[j]);
                        }
                    } else {
                        assert(r.0[j] == piece[j - base.len()]);
                    }
                }
            }
        }
    }
}

} // verus!
