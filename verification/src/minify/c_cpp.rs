//! C and C++ minifier.
//!
//! Preprocessor directives are line-sensitive: each `#`-line (with its
//! `\`-newline continuations) is one `Preproc` token that the emitter puts
//! on its own line. String prefixes `L`, `u8`, `u`, `U` are recognised; C++
//! raw strings `R"d(…)d"` only when `is_cpp` holds. Block comments do not
//! nest. Everything between preprocessor lines is minified aggressively.
use crate::minify::c_common::{
    alnum, alpha, char_is_alphabetic, char_is_alphanumeric, emit_aggressive, emit_all, emit_conservative,
    push_spaced, push_with_space, Token, TokenKind,
};
use crate::minify::{MinifyError, MinifyOptions, MinifyOutput, MinifyWarning};
use crate::text::{chars_to_string, copy_range, matches_at, push_all, starts_at, starts_at_str, str_chars};
use vstd::prelude::*;

verus! {

/// The token's text (if it carries any) is a contiguous piece of `src`.
pub open spec fn token_from(k: TokenKind, src: Seq<char>) -> bool {
    match k {
        TokenKind::Newline => true,
        TokenKind::Word(t) | TokenKind::Punct(t) | TokenKind::StrLit(t) | TokenKind::LineComment(t)
        | TokenKind::BlockComment(t) | TokenKind::Template(t) | TokenKind::Regex(t)
        | TokenKind::Preproc(t) => exists|a: int, b: int|
            0 <= a <= b <= src.len() && t@ == #[trigger] src.subrange(a, b),
    }
}

/// Every token of the stream is a piece of `src`: the lexer never invents
/// text.
pub open spec fn tokens_from(toks: Seq<Token>, src: Seq<char>) -> bool {
    forall|k: int| 0 <= k < toks.len() ==> token_from(#[trigger] toks[k].kind, src)
}

/// `s` holds no quote, backquote or slash: nothing in it can open a
/// literal or a comment that fails to close.
pub open spec fn plain_code(s: Seq<char>) -> bool {
    forall|k: int| 0 <= k < s.len() ==> #[trigger] s[k] != '"' && s[k] != '\'' && s[k] != '/' && s[k] != '`'
}

/// Minify C (`is_cpp == false`) or C++ source.
pub fn minify(source: &str, opts: &MinifyOptions, is_cpp: bool) -> (r: Result<
    MinifyOutput,
    MinifyError,
>)
    ensures
        r matches Ok(o) ==> exists|toks: Seq<Token>|
            tokens_from(toks, source@) && c_lex(source@, 0, true, is_cpp) == Some(ckinds(toks)) && o.body@
                == cpp_output(toks, opts.keep_comments),
        source@.len() < usize::MAX && plain_code(source@) ==> r is Ok,
        source@.len() < usize::MAX ==> (r is Ok <==> c_lex(source@, 0, true, is_cpp) is Some),
{
    let src = str_chars(source);
    if src.len() == usize::MAX {
        return Err(MinifyError::new("source too large"));
    }
    let toks = tokenize(src.as_slice(), is_cpp)?;
    emit(toks.as_slice(), opts.keep_comments)
}

/// Minify a C-family language without a minifier of its own, using the C
/// lexer: aggressively, or keeping newlines when `keep_newlines` holds.
pub fn minify_generic(source: &str, opts: &MinifyOptions, keep_newlines: bool) -> (r: Result<
    MinifyOutput,
    MinifyError,
>)
    ensures
        r matches Ok(o) ==> exists|toks: Seq<Token>|
            tokens_from(toks, source@) && c_lex(source@, 0, true, false) == Some(ckinds(toks)) && o.body@
                == emit_all(toks, opts.keep_comments, keep_newlines).out,
        source@.len() < usize::MAX && plain_code(source@) ==> r is Ok,
        source@.len() < usize::MAX ==> (r is Ok <==> c_lex(source@, 0, true, false) is Some),
{
    let src = str_chars(source);
    if src.len() == usize::MAX {
        return Err(MinifyError::new("source too large"));
    }
    let toks = tokenize(src.as_slice(), false)?;
    if keep_newlines {
        emit_conservative(toks.as_slice(), opts.keep_comments)
    } else {
        emit_aggressive(toks.as_slice(), opts.keep_comments)
    }
}

/// A token as plain values: its class (0 word, 1 punct, 2 string, 3 line
/// comment, 4 block comment, 5 template, 6 regex, 7 preprocessor, 8
/// newline) and its text.
pub open spec fn ckind(k: TokenKind) -> (int, Seq<char>) {
    match k {
        TokenKind::Word(t) => (0int, t@),
        TokenKind::Punct(t) => (1int, t@),
        TokenKind::StrLit(t) => (2int, t@),
        TokenKind::LineComment(t) => (3int, t@),
        TokenKind::BlockComment(t) => (4int, t@),
        TokenKind::Template(t) => (5int, t@),
        TokenKind::Regex(t) => (6int, t@),
        TokenKind::Preproc(t) => (7int, t@),
        TokenKind::Newline => (8int, Seq::<char>::empty()),
    }
}

/// The tokens as plain values.
pub open spec fn ckinds(toks: Seq<Token>) -> Seq<(int, Seq<char>)> {
    toks.map_values(|t: Token| ckind(t.kind))
}

/// End of a preprocessor line scanned from `j`: at the first `\n` not
/// escaped by a `\` (also before `\r\n`), or the end of `s`.
pub open spec fn pp_end(s: Seq<char>, j: int) -> int
    decreases s.len() - j,
{
    if j < 0 || j >= s.len() {
        j
    } else if s[j] == '\\' && j + 1 < s.len() && s[j + 1] == '\n' {
        pp_end(s, j + 2)
    } else if s[j] == '\\' && j + 1 < s.len() && s[j + 1] == '\r' && j + 2 < s.len() && s[j + 2] == '\n' {
        pp_end(s, j + 3)
    } else if s[j] == '\n' {
        j
    } else {
        pp_end(s, j + 1)
    }
}

/// First `\n` of `s` at or after `j`, or the end of `s`.
pub open spec fn nl_from(s: Seq<char>, j: int) -> int
    decreases s.len() - j,
{
    if 0 <= j < s.len() && s[j] != '\n' {
        nl_from(s, j + 1)
    } else {
        j
    }
}

/// Index of the first `*/` of `s` at or after `j`, if any.
pub open spec fn bc_close(s: Seq<char>, j: int) -> Option<int>
    decreases s.len() - j,
{
    if j < 0 || j + 1 >= s.len() {
        None
    } else if s[j] == '*' && s[j + 1] == '/' {
        Some(j)
    } else {
        bc_close(s, j + 1)
    }
}

/// `t` in front of the tokens `r`, if any.
pub open spec fn cons(t: (int, Seq<char>), r: Option<Seq<(int, Seq<char>)>>) -> Option<Seq<(int, Seq<char>)>> {
    match r {
        Some(q) => Some(seq![t] + q),
        None => None,
    }
}

/// The C/C++ tokens of `s` from `i` (`ls`: at the start of a line), or
/// `None` when a literal or a block comment never closes. Spaces, tabs
/// and carriage returns separate tokens; a `#` first on a line takes the
/// line (with `\`-continuations); then comments, string literals (with
/// prefixes, raw strings in C++), char literals, words, punctuation.
pub open spec fn c_lex(s: Seq<char>, i: int, ls: bool, cpp: bool) -> Option<Seq<(int, Seq<char>)>>
    decreases s.len() - i,
{
    if i < 0 || i >= s.len() {
        Some(seq![])
    } else {
        let c = s[i];
        if c == ' ' || c == '\t' || c == '\r' {
            c_lex(s, i + 1, ls, cpp)
        } else if c == '\n' {
            cons((8int, Seq::<char>::empty()), c_lex(s, i + 1, true, cpp))
        } else if ls && c == '#' {
            let e = pp_end(s, i + 1);
            if e <= i || e > s.len() {
                None
            } else {
                cons((7int, s.subrange(i, e)), c_lex(s, e, false, cpp))
            }
        } else if c == '/' && ch(s, i + 1, '/') {
            let e = nl_from(s, i + 2);
            if e <= i || e > s.len() {
                None
            } else {
                cons((3int, s.subrange(i + 2, e)), c_lex(s, e, false, cpp))
            }
        } else if c == '/' && ch(s, i + 1, '*') {
            match bc_close(s, i + 2) {
                Some(j) => if j < i + 2 || j + 2 > s.len() {
                    None
                } else {
                    cons((4int, s.subrange(i + 2, j)), c_lex(s, j + 2, false, cpp))
                },
                None => None,
            }
        } else {
            match str_scan(s, i, cpp) {
                None => None,
                Some(Some(n)) => if n < 1 || i + n > s.len() {
                    None
                } else {
                    cons((2int, s.subrange(i, i + n)), c_lex(s, i + n, false, cpp))
                },
                Some(None) => if c == '\'' {
                    match lit_end(s, i + 1, '\'') {
                        Some(e) => if e <= i || e > s.len() {
                            None
                        } else {
                            cons((2int, s.subrange(i, e)), c_lex(s, e, false, cpp))
                        },
                        None => None,
                    }
                } else if alpha(c) || c == '_' || ('0' <= c <= '9') {
                    let w = word_end(s, i, i, false);
                    let n = if w == i { 1 } else { w - i };
                    if n < 1 || i + n > s.len() {
                        None
                    } else {
                        cons((0int, s.subrange(i, i + n)), c_lex(s, i + n, false, cpp))
                    }
                } else {
                    let n = c_punct_len(s, i);
                    if n < 1 || i + n > s.len() {
                        None
                    } else {
                        cons((1int, s.subrange(i, i + n)), c_lex(s, i + n, false, cpp))
                    }
                },
            }
        }
    }
}

/// The tokens `a` in front of the tokens `r`, if any.
pub open spec fn prepend(a: Seq<(int, Seq<char>)>, r: Option<Seq<(int, Seq<char>)>>) -> Option<
    Seq<(int, Seq<char>)>,
> {
    match r {
        Some(q) => Some(a + q),
        None => None,
    }
}

/// One step of the C/C++ lexer at `i` (not at the end): at most one token
/// pushed; returns where lexing goes on.
#[verifier::rlimit(100)]
#[verifier::spinoff_prover]
fn lex_step(src: &[char], i: usize, ls: &mut bool, is_cpp: bool, out: &mut Vec<Token>) -> (r: Result<
    usize,
    MinifyError,
>)
    requires
        src@.len() < usize::MAX,
        i < src@.len(),
        tokens_from(old(out)@, src@),
    ensures
        tokens_from(final(out)@, src@),
        r matches Ok(ni) ==> i < ni <= src@.len() && ckinds(final(out)@).len() <= ckinds(old(out)@).len() + 1
            && ckinds(old(out)@).len() <= ckinds(final(out)@).len() && ckinds(final(out)@).take(
            ckinds(old(out)@).len() as int,
        ) == ckinds(old(out)@) && c_lex(src@, i as int, *old(ls), is_cpp) == prepend(
            ckinds(final(out)@).skip(ckinds(old(out)@).len() as int),
            c_lex(src@, ni as int, *final(ls), is_cpp),
        ),
        r is Err ==> c_lex(src@, i as int, *old(ls), is_cpp) is None,
        plain_code(src@) ==> r is Ok,
{
    let ghost o = ckinds(out@);
    let mut i = i;
    let c = src[i];
    if c == ' ' || c == '\t' || c == '\r' {
        i = i + 1;
        return Ok(i);
    }
    if c == '\n' {
        out.push(Token::new(TokenKind::Newline));
        assert(ckinds(out@) =~= o.push((8int, Seq::<char>::empty())));
        i = i + 1;
        *ls = true;
        return Ok(i);
    }
    if *ls && c == '#' {
        let start = i;
        let mut j = i + 1;
        while j < src.len()
            invariant
                start < j <= src@.len(),
                pp_end(src@, start + 1) == pp_end(src@, j as int),
            decreases src@.len() - j,
        {
            if src[j] == '\\' && j + 1 < src.len() && src[j + 1] == '\n' {
                j = j + 2;
                continue;
            }
            if src[j] == '\\' && j + 1 < src.len() && src[j + 1] == '\r' && j + 2 < src.len()
                && src[j + 2] == '\n' {
                j = j + 3;
                continue;
            }
            if src[j] == '\n' {
                break;
            }
            j = j + 1;
        }
        push_piece(out, src, start, j, 7);
        i = j;
        *ls = false;
        return Ok(i);
    }
    *ls = false;
    if c == '/' && i + 1 < src.len() && src[i + 1] == '/' {
        let start = i + 2;
        let mut j = start;
        while j < src.len() && src[j] != '\n'
            invariant
                start <= j <= src@.len(),
                nl_from(src@, start as int) == nl_from(src@, j as int),
            decreases src@.len() - j,
        {
            j = j + 1;
        }
        push_piece(out, src, start, j, 3);
        i = j;
        return Ok(i);
    }
    if c == '/' && i + 1 < src.len() && src[i + 1] == '*' {
        let body_start = i + 2;
        let mut j = body_start;
        let mut found = false;
        while j + 1 < src.len()
            invariant
                body_start <= j <= src@.len(),
                !found,
                bc_close(src@, body_start as int) == bc_close(src@, j as int),
            decreases src@.len() - j,
        {
            if src[j] == '*' && src[j + 1] == '/' {
                found = true;
                break;
            }
            j = j + 1;
        }
        if !found || j + 1 >= src.len() {
            return Err(MinifyError::new("unterminated /* */ block comment"));
        }
        push_piece(out, src, body_start, j, 4);
        i = j + 2;
        return Ok(i);
    }
    match try_scan_string(src, i, is_cpp)? {
        Some(n) => {
            push_piece(out, src, i, i + n, 2);
            i = i + n;
            return Ok(i);
        },
        None => {},
    }
    if c == '\'' {
        let n = scan_char_literal(src, i)?;
        push_piece(out, src, i, i + n, 2);
        i = i + n;
        return Ok(i);
    }
    if is_word_start(src, i) {
        let n = scan_word(src, i);
        push_piece(out, src, i, i + n, 0);
        i = i + n;
        return Ok(i);
    }
    let n = scan_multi_punct(src, i);
    push_piece(out, src, i, i + n, 1);
    i = i + n;
    Ok(i)
}

/// Lex C/C++ source into tokens.
pub fn tokenize(src: &[char], is_cpp: bool) -> (r: Result<Vec<Token>, MinifyError>)
    requires
        src@.len() < usize::MAX,
    ensures
        r matches Ok(toks) ==> tokens_from(toks@, src@),
        plain_code(src@) ==> r is Ok,
        match r {
            Ok(toks) => c_lex(src@, 0, true, is_cpp) == Some(ckinds(toks@)),
            Err(_) => c_lex(src@, 0, true, is_cpp) is None,
        },
{
    let ghost full = c_lex(src@, 0, true, is_cpp);
    let mut out: Vec<Token> = Vec::new();
    let mut i: usize = 0;
    let mut at_line_start = true;
    assert(ckinds(out@) =~= Seq::<(int, Seq<char>)>::empty());
    while i < src.len()
        invariant
            i <= src@.len(),
            src@.len() < usize::MAX,
            tokens_from(out@, src@),
            match c_lex(src@, i as int, at_line_start, is_cpp) {
                Some(rest) => full == Some(ckinds(out@) + rest),
                None => full is None,
            },
        decreases src@.len() - i,
    {
        let ghost o = ckinds(out@);
        let ni = lex_step(src, i, &mut at_line_start, is_cpp, &mut out)?;
        proof {
            let a = ckinds(out@).skip(o.len() as int);
            assert(ckinds(out@) =~= o + a);
            match c_lex(src@, ni as int, at_line_start, is_cpp) {
                Some(rest) => {
                    assert(o + (a + rest) =~= (o + a) + rest);
                },
                None => {},
            }
        }
        i = ni;
    }
    assert(ckinds(out@) + Seq::<(int, Seq<char>)>::empty() =~= ckinds(out@));
    Ok(out)
}

/// Push a token of the given class whose text is `src[a..b]`.
/// Classes: 0 word, 1 punct, 2 string, 3 line comment, 4 block comment,
/// 5 template, 6 regex, 7 preprocessor.
pub fn push_piece(out: &mut Vec<Token>, src: &[char], a: usize, b: usize, class: u8)
    requires
        a <= b <= src@.len(),
        tokens_from(old(out)@, src@),
    ensures
        tokens_from(final(out)@, src@),
        final(out)@.len() == old(out)@.len() + 1,
        forall|k: int| 0 <= k < old(out)@.len() ==> final(out)@[k] == old(out)@[k],
        class <= 7 ==> ckinds(final(out)@) == ckinds(old(out)@).push((class as int, src@.subrange(a as int, b as int))),
{
    let t = copy_range(src, a, b);
    let kind = if class == 0 {
        TokenKind::Word(t)
    } else if class == 1 {
        TokenKind::Punct(t)
    } else if class == 2 {
        TokenKind::StrLit(t)
    } else if class == 3 {
        TokenKind::LineComment(t)
    } else if class == 4 {
        TokenKind::BlockComment(t)
    } else if class == 5 {
        TokenKind::Template(t)
    } else if class == 6 {
        TokenKind::Regex(t)
    } else {
        TokenKind::Preproc(t)
    };
    assert(token_from(kind, src@)) by {
        assert(src@.subrange(a as int, b as int) == src@.subrange(a as int, b as int));
    }
    let ghost before = out@;
    out.push(Token::new(kind));
    assert forall|k: int| 0 <= k < out@.len() implies token_from(#[trigger] out@[k].kind, src@) by {
        if k < before.len() {
            assert(out@[k] == before[k]);
        }
    }
    assert(class <= 7 ==> ckinds(out@) =~= ckinds(before).push((class as int, src@.subrange(a as int, b as int))));
}

/// State of the C/C++ emitter: text so far, last emitted char, whether
/// the last thing emitted was a preprocessor line, warnings so far.
pub struct CppEmit {
    pub out: Seq<char>,
    pub prev: Option<char>,
    pub pre: bool,
    pub warns: nat,
}

/// `s` is non-empty and ends with a newline.
pub open spec fn ends_nl(s: Seq<char>) -> bool {
    s.len() > 0 && s.last() == '\n'
}

/// One token of the C/C++ emitter. Whitespace is dropped, except that a
/// preprocessor line stays on a line of its own.
pub open spec fn cpp_step(st: CppEmit, k: TokenKind, keep: bool) -> CppEmit {
    match k {
        TokenKind::Newline => if st.pre && !ends_nl(st.out) {
            CppEmit { out: st.out.push('\n'), prev: None, pre: false, warns: st.warns }
        } else {
            st
        },
        TokenKind::LineComment(b) => if !keep {
            st
        } else {
            let r = push_spaced(st.out, st.prev, crate::minify::c_common::spec_safe_block_comment(b@));
            CppEmit { out: r.0, prev: r.1, pre: st.pre, warns: st.warns + 1 }
        },
        TokenKind::BlockComment(b) => if !keep {
            st
        } else {
            let r = push_spaced(st.out, st.prev, seq!['/', '*'] + b@ + seq!['*', '/']);
            CppEmit { out: r.0, prev: r.1, pre: st.pre, warns: st.warns }
        },
        TokenKind::Preproc(s) => CppEmit {
            out: (if st.out.len() > 0 && st.out.last() != '\n' {
                st.out.push('\n')
            } else {
                st.out
            }) + s@,
            prev: None,
            pre: true,
            warns: st.warns,
        },
        TokenKind::Word(s) | TokenKind::Punct(s) | TokenKind::StrLit(s) | TokenKind::Template(s)
        | TokenKind::Regex(s) => {
            let r = push_spaced(st.out, st.prev, s@);
            CppEmit { out: r.0, prev: r.1, pre: false, warns: st.warns }
        },
    }
}

/// The C/C++ emitter over a token sequence.
pub open spec fn cpp_emit_all(toks: Seq<Token>, keep: bool) -> CppEmit
    decreases toks.len(),
{
    if toks.len() == 0 {
        CppEmit { out: Seq::empty(), prev: None, pre: false, warns: 0 }
    } else {
        cpp_step(cpp_emit_all(toks.drop_last(), keep), toks.last().kind, keep)
    }
}

/// The emitted text: a trailing preprocessor line gets its newline.
pub open spec fn cpp_output(toks: Seq<Token>, keep: bool) -> Seq<char> {
    let st = cpp_emit_all(toks, keep);
    if st.pre && !ends_nl(st.out) {
        st.out.push('\n')
    } else {
        st.out
    }
}

/// The C/C++ emission depends on the tokens only through their classes
/// and texts.
pub proof fn lemma_cpp_output_views(t1: Seq<Token>, t2: Seq<Token>, keep: bool)
    requires
        ckinds(t1) == ckinds(t2),
    ensures
        cpp_emit_all(t1, keep) == cpp_emit_all(t2, keep),
        cpp_output(t1, keep) == cpp_output(t2, keep),
    decreases t1.len(),
{
    assert(t1.len() == ckinds(t1).len());
    if t1.len() > 0 {
        assert(ckinds(t1.drop_last()) =~= ckinds(t1).drop_last());
        assert(ckinds(t2.drop_last()) =~= ckinds(t2).drop_last());
        lemma_cpp_output_views(t1.drop_last(), t2.drop_last(), keep);
        assert(ckind(t1.last().kind) == ckinds(t1)[t1.len() - 1]);
        assert(ckind(t2.last().kind) == ckinds(t2)[t2.len() - 1]);
    }
}

/// The shared emitter depends on the tokens only through their classes
/// and texts.
pub proof fn lemma_emit_all_views(t1: Seq<Token>, t2: Seq<Token>, keep: bool, keep_newlines: bool)
    requires
        ckinds(t1) == ckinds(t2),
    ensures
        emit_all(t1, keep, keep_newlines) == emit_all(t2, keep, keep_newlines),
    decreases t1.len(),
{
    assert(t1.len() == ckinds(t1).len());
    if t1.len() > 0 {
        assert(ckinds(t1.drop_last()) =~= ckinds(t1).drop_last());
        assert(ckinds(t2.drop_last()) =~= ckinds(t2).drop_last());
        lemma_emit_all_views(t1.drop_last(), t2.drop_last(), keep, keep_newlines);
        assert(ckind(t1.last().kind) == ckinds(t1)[t1.len() - 1]);
        assert(ckind(t2.last().kind) == ckinds(t2)[t2.len() - 1]);
    }
}

fn emit(tokens: &[Token], keep_comments: bool) -> (r: Result<MinifyOutput, MinifyError>)
    ensures
        r matches Ok(o) && o.body@ == cpp_output(tokens@, keep_comments)
            && o.warnings@.len() == cpp_emit_all(tokens@, keep_comments).warns,
{
    let mut out: Vec<char> = Vec::new();
    let mut warnings: Vec<MinifyWarning> = Vec::new();
    let mut prev: Option<char> = None;
    let mut last_was_preproc = false;
    let mut i: usize = 0;
    while i < tokens.len()
        invariant
            i <= tokens@.len(),
            out@ == cpp_emit_all(tokens@.take(i as int), keep_comments).out,
            prev == cpp_emit_all(tokens@.take(i as int), keep_comments).prev,
            last_was_preproc == cpp_emit_all(tokens@.take(i as int), keep_comments).pre,
            warnings@.len() == cpp_emit_all(tokens@.take(i as int), keep_comments).warns,
        decreases tokens@.len() - i,
    {
        proof {
            assert(tokens@.take(i + 1).drop_last() =~= tokens@.take(i as int));
        }
        match &tokens[i].kind {
            TokenKind::Newline => {
                if last_was_preproc && !(out.len() > 0 && out[out.len() - 1] == '\n') {
                    out.push('\n');
                    prev = None;
                    last_was_preproc = false;
                }
            },
            TokenKind::LineComment(body) => {
                if keep_comments {
                    let block = crate::minify::c_common::safe_block_comment_chars(body.as_slice());
                    push_with_space(&mut out, &mut prev, block.as_slice());
                    warnings.push(MinifyWarning::LineCommentConverted);
                }
            },
            TokenKind::BlockComment(body) => {
                if keep_comments {
                    let block = plain_block_comment(body.as_slice());
                    push_with_space(&mut out, &mut prev, block.as_slice());
                }
            },
            TokenKind::Word(s)
            | TokenKind::Punct(s)
            | TokenKind::StrLit(s)
            | TokenKind::Template(s)
            | TokenKind::Regex(s) => {
                push_with_space(&mut out, &mut prev, s.as_slice());
                last_was_preproc = false;
            },
            TokenKind::Preproc(s) => {
                if out.len() > 0 && out[out.len() - 1] != '\n' {
                    out.push('\n');
                }
                push_all(&mut out, s.as_slice());
                prev = None;
                last_was_preproc = true;
            },
        }
        i = i + 1;
    }
    proof {
        assert(tokens@.take(tokens@.len() as int) =~= tokens@);
    }
    if last_was_preproc && !(out.len() > 0 && out[out.len() - 1] == '\n') {
        out.push('\n');
    }
    Ok(MinifyOutput { body: chars_to_string(out.as_slice()), warnings })
}

/// `/*` + body + `*/`, verbatim.
fn plain_block_comment(body: &[char]) -> (r: Vec<char>)
    ensures
        r@ == seq!['/', '*'] + body@ + seq!['*', '/'],
{
    let mut v: Vec<char> = Vec::new();
    v.push('/');
    v.push('*');
    push_all(&mut v, body);
    v.push('*');
    v.push('/');
    v
}

/// Step past an escape: two chars on, but not beyond the end.
pub fn skip2(j: usize, n: usize) -> (r: usize)
    requires
        j < n,
    ensures
        j < r <= n,
        j + 2 <= n ==> r == j + 2,
        j + 2 > n ==> r == n,
{
    if n - j >= 2 {
        j + 2
    } else {
        n
    }
}

fn at(src: &[char], i: usize) -> (r: Option<char>)
    requires
        src@.len() < usize::MAX,
    ensures
        i < src@.len() ==> r == Some(src@[i as int]),
        i >= src@.len() ==> r is None,
{
    if i < src.len() {
        Some(src[i])
    } else {
        None
    }
}

/// `s[x]` exists and is `c`.
pub open spec fn ch(s: Seq<char>, x: int, c: char) -> bool {
    0 <= x < s.len() && s[x] == c
}

/// Where the quote (or `R`) of a string literal at `i` stands, past an
/// encoding prefix (`u8`, `L`, `u`, `U`) that is followed by one.
pub open spec fn str_prefix(s: Seq<char>, i: int, cpp: bool) -> int {
    if ch(s, i, 'u') && ch(s, i + 1, '8') {
        if ch(s, i + 2, '"') || (cpp && ch(s, i + 2, 'R') && ch(s, i + 3, '"')) {
            i + 2
        } else {
            i
        }
    } else if ch(s, i, 'L') || ch(s, i, 'u') || ch(s, i, 'U') {
        if ch(s, i + 1, '"') || (cpp && ch(s, i + 1, 'R') && ch(s, i + 2, '"')) {
            i + 1
        } else {
            i
        }
    } else {
        i
    }
}

/// First `(` of `s` at or after `j`, or the end of `s`.
pub open spec fn raw_open(s: Seq<char>, j: int) -> int
    decreases s.len() - j,
{
    if 0 <= j < s.len() && s[j] != '(' {
        raw_open(s, j + 1)
    } else {
        j
    }
}

/// Length (from `i`) of a raw string whose delimiter is `s[ds..de]`, its
/// closing `)delim"` searched from `k`; `None` when it never closes.
pub open spec fn raw_close(s: Seq<char>, k: int, ds: int, de: int, i: int) -> Option<int>
    decreases s.len() - k,
{
    if k < 0 || k >= s.len() {
        None
    } else if s[k] == ')' && de - ds < s.len() - (k + 1) && matches_at(s, k + 1, s.subrange(ds, de)) && s[k
        + 1 + (de - ds)] == '"' {
        Some(k + 1 + (de - ds) + 1 - i)
    } else {
        raw_close(s, k + 1, ds, de, i)
    }
}

/// A string literal at `i`: `Some(Some(n))` of length `n`, `Some(None)`
/// when none starts there, `None` when one starts but never closes.
pub open spec fn str_scan(s: Seq<char>, i: int, cpp: bool) -> Option<Option<int>> {
    let p = str_prefix(s, i, cpp);
    if cpp && ch(s, p, 'R') && ch(s, p + 1, '"') {
        let ds = p + 2;
        let j = raw_open(s, ds);
        if j >= s.len() {
            None
        } else {
            match raw_close(s, j + 1, ds, j, i) {
                Some(n) => Some(Some(n)),
                None => None,
            }
        }
    } else if ch(s, p, '"') {
        match lit_end(s, p + 1, '"') {
            Some(e) => Some(Some(e - i)),
            None => None,
        }
    } else {
        Some(None)
    }
}

/// Length of a (possibly prefixed, possibly raw) string literal at `i`.
fn try_scan_string(src: &[char], i: usize, is_cpp: bool) -> (r: Result<Option<usize>, MinifyError>)
    requires
        src@.len() < usize::MAX,
        i < src@.len(),
    ensures
        r matches Ok(Some(n)) ==> n >= 1 && i + n <= src@.len(),
        src@[i as int] == '"' ==> match r {
            Ok(Some(n)) => lit_end(src@, i + 1, '"') == Some(i + n),
            Ok(None) => false,
            Err(_) => lit_end(src@, i + 1, '"') is None,
        },
        !(src@[i as int] == '"' || src@[i as int] == 'u' || src@[i as int] == 'L'
            || src@[i as int] == 'U' || src@[i as int] == 'R') ==> r matches Ok(None),
        (forall|k: int| i <= k < src@.len() ==> #[trigger] src@[k] != '"') ==> r matches Ok(None),
        match r {
            Ok(Some(n)) => str_scan(src@, i as int, is_cpp) == Some(Some(n as int)),
            Ok(None) => str_scan(src@, i as int, is_cpp) == Some(None::<int>),
            Err(_) => str_scan(src@, i as int, is_cpp) is None,
        },
{
    let mut p = i;
    if at(src, p) == Some('u') && at(src, p + 1) == Some('8') {
        let after = p + 2;
        if at(src, after) == Some('"') || (is_cpp && at(src, after) == Some('R') && at(
            src,
            after + 1,
        ) == Some('"')) {
            p = after;
        }
    } else if at(src, p) == Some('L') || at(src, p) == Some('u') || at(src, p) == Some('U') {
        let after = p + 1;
        if at(src, after) == Some('"') || (is_cpp && at(src, after) == Some('R') && at(
            src,
            after + 1,
        ) == Some('"')) {
            p = after;
        }
    }
    let raw = is_cpp && at(src, p) == Some('R') && at(src, p + 1) == Some('"');
    if raw {
        p = p + 1;
        let delim_start = p + 1;
        let mut j = delim_start;
        while j < src.len() && src[j] != '('
            invariant
                delim_start <= j <= src@.len(),
                raw_open(src@, delim_start as int) == raw_open(src@, j as int),
            decreases src@.len() - j,
        {
            j = j + 1;
        }
        if j >= src.len() {
            return Err(MinifyError::new("malformed raw string"));
        }
        let delim = copy_range(src, delim_start, j);
        let body_start = j + 1;
        let mut k = body_start;
        loop
            invariant
                i < body_start <= k <= src@.len(),
                delim@ == src@.subrange(delim_start as int, j as int),
                raw_close(src@, body_start as int, delim_start as int, j as int, i as int) == raw_close(
                    src@,
                    k as int,
                    delim_start as int,
                    j as int,
                    i as int,
                ),
            decreases src@.len() - k,
        {
            if k >= src.len() {
                return Err(MinifyError::new("unterminated raw string"));
            }
            if src[k] == ')' && delim.len() < src.len() - (k + 1) {
                if starts_at(src, k + 1, delim.as_slice()) && src[k + 1 + delim.len()] == '"' {
                    let total = k + 1 + delim.len() + 1 - i;
                    return Ok(Some(total));
                }
            }
            k = k + 1;
        }
    }
    if at(src, p) == Some('"') {
        return match scan_dq_string(src, p) {
            Ok(n) => Ok(Some(p + n - i)),
            Err(e) => Err(e),
        };
    }
    Ok(None)
}

/// End (one past the closing `q`) of a quoted literal whose body starts at
/// `j`: a backslash escapes the next char; `None` when a line break or the
/// end of `s` comes first.
pub open spec fn lit_end(s: Seq<char>, j: int, q: char) -> Option<int>
    decreases s.len() - j,
{
    if j < 0 || j >= s.len() {
        None
    } else if s[j] == '\\' {
        if j + 2 <= s.len() {
            lit_end(s, j + 2, q)
        } else {
            None
        }
    } else if s[j] == q {
        Some(j + 1)
    } else if s[j] == '\n' {
        None
    } else {
        lit_end(s, j + 1, q)
    }
}

/// End of the word of `s` at `i` scanned from `j`: letters, digits and `_`
/// (and `$` when `dollar`), and a `.` followed by a digit after the first
/// char.
pub open spec fn word_end(s: Seq<char>, i: int, j: int, dollar: bool) -> int
    decreases s.len() - j,
{
    if j < 0 || j >= s.len() {
        j
    } else if alnum(s[j]) || s[j] == '_' || (dollar && s[j] == '$') {
        word_end(s, i, j + 1, dollar)
    } else if s[j] == '.' && j + 1 < s.len() && '0' <= s[j + 1] <= '9' && j > i {
        word_end(s, i, j + 1, dollar)
    } else {
        j
    }
}

/// Length of the double-quoted string starting at `i`.
fn scan_dq_string(src: &[char], i: usize) -> (r: Result<usize, MinifyError>)
    requires
        src@.len() < usize::MAX,
        i < src@.len(),
    ensures
        r matches Ok(n) ==> n >= 2 && i + n <= src@.len() && src@[i + n - 1] == '"',
        match r {
            Ok(n) => lit_end(src@, i + 1, '"') == Some(i + n),
            Err(_) => lit_end(src@, i + 1, '"') is None,
        },
{
    let mut j = i + 1;
    while j < src.len()
        invariant
            i < j <= src@.len(),
            lit_end(src@, i + 1, '"') == lit_end(src@, j as int, '"'),
        decreases src@.len() - j,
    {
        let b = src[j];
        if b == '\\' {
            j = skip2(j, src.len());
        } else if b == '"' {
            return Ok(j + 1 - i);
        } else if b == '\n' {
            return Err(MinifyError::new("newline in string literal"));
        } else {
            j = j + 1;
        }
    }
    Err(MinifyError::new("unterminated string literal"))
}

/// Length of the char literal starting at `i`.
fn scan_char_literal(src: &[char], i: usize) -> (r: Result<usize, MinifyError>)
    requires
        src@.len() < usize::MAX,
        i < src@.len(),
    ensures
        r matches Ok(n) ==> n >= 2 && i + n <= src@.len() && src@[i + n - 1] == '\'',
        match r {
            Ok(n) => lit_end(src@, i + 1, '\'') == Some(i + n),
            Err(_) => lit_end(src@, i + 1, '\'') is None,
        },
{
    let mut j = i + 1;
    while j < src.len()
        invariant
            i < j <= src@.len(),
            lit_end(src@, i + 1, '\'') == lit_end(src@, j as int, '\''),
        decreases src@.len() - j,
    {
        if src[j] == '\\' {
            j = skip2(j, src.len());
            continue;
        }
        if src[j] == '\'' {
            return Ok(j + 1 - i);
        }
        if src[j] == '\n' {
            return Err(MinifyError::new("newline in char literal"));
        }
        j = j + 1;
    }
    Err(MinifyError::new("unterminated char literal"))
}

fn is_word_start(src: &[char], i: usize) -> (r: bool)
    requires
        src@.len() < usize::MAX,
        i < src@.len(),
    ensures
        r == (alpha(src@[i as int]) || src@[i as int] == '_' || ('0' <= src@[i as int] <= '9')),
{
    let c = src[i];
    char_is_alphabetic(c) || c == '_' || ('0' <= c && c <= '9')
}

/// Length of the word starting at `i` (identifier or number, with a decimal
/// point followed by a digit).
fn scan_word(src: &[char], i: usize) -> (n: usize)
    requires
        src@.len() < usize::MAX,
        i < src@.len(),
    ensures
        i + n <= src@.len(),
        n >= 1,
        n == if word_end(src@, i as int, i as int, false) == i {
            1
        } else {
            word_end(src@, i as int, i as int, false) - i
        },
{
    let mut j = i;
    while j < src.len()
        invariant
            i <= j <= src@.len(),
            word_end(src@, i as int, i as int, false) == word_end(src@, i as int, j as int, false),
        decreases src@.len() - j,
    {
        let c = src[j];
        if char_is_alphanumeric(c) || c == '_' {
            j = j + 1;
            continue;
        }
        if c == '.' {
            if j + 1 < src.len() && '0' <= src[j + 1] && src[j + 1] <= '9' && j > i {
                j = j + 1;
                continue;
            }
        }
        break;
    }
    if j == i {
        1
    } else {
        j - i
    }
}

/// The two-char C/C++ operators.
pub open spec fn c_twos() -> Seq<Seq<char>> {
    seq![
        "->"@, "::"@, "=="@, "!="@, "<="@, ">="@, "&&"@, "||"@, "<<"@, ">>"@, "+="@, "-="@, "*="@, "/="@,
        "%="@, "&="@, "|="@, "^="@, "++"@, "--"@, ".*"@,
    ]
}

/// Length of the C/C++ operator at `i`: 3 for `<<=`, `>>=`, `...`, `->*`,
/// 2 for one of `c_twos`, else 1.
pub open spec fn c_punct_len(s: Seq<char>, i: int) -> int {
    if matches_at(s, i, "<<="@) || matches_at(s, i, ">>="@) || matches_at(s, i, "..."@) || matches_at(
        s,
        i,
        "->*"@,
    ) {
        3
    } else if s.len() - i >= 2 && exists|k: int| 0 <= k < c_twos().len() && matches_at(s, i, #[trigger] c_twos()[k]) {
        2
    } else {
        1
    }
}

/// Length of the operator starting at `i` (longest known form, else 1).
fn scan_multi_punct(src: &[char], i: usize) -> (n: usize)
    requires
        src@.len() < usize::MAX,
        i < src@.len(),
    ensures
        1 <= n,
        i + n <= src@.len(),
        n == c_punct_len(src@, i as int),
{
    if starts_at_str(src, i, "<<=") || starts_at_str(src, i, ">>=") || starts_at_str(src, i, "...")
        || starts_at_str(src, i, "->*") {
        proof {
            reveal_strlit("<<=");
            reveal_strlit(">>=");
            reveal_strlit("...");
            reveal_strlit("->*");
        }
        return 3;
    }
    let twos = ["->", "::", "==", "!=", "<=", ">=", "&&", "||", "<<", ">>", "+=", "-=", "*=", "/=",
    "%=", "&=", "|=", "^=", "++", "--", ".*"];
    assert(twos@.len() == c_twos().len());
    assert forall|q: int| 0 <= q < twos@.len() implies (#[trigger] twos@[q])@ == c_twos()[q] by {}
    let mut k: usize = 0;
    while k < twos.len()
        invariant
            i < src@.len(),
            twos@.len() == c_twos().len(),
            forall|q: int| 0 <= q < twos@.len() ==> (#[trigger] twos@[q])@ == c_twos()[q],
            forall|q: int| 0 <= q < k ==> !(src@.len() - i >= 2 && matches_at(src@, i as int, #[trigger] c_twos()[q])),
        decreases twos@.len() - k,
    {
        if src.len() - i >= 2 && starts_at_str(src, i, twos[k]) {
            return 2;
        }
        k = k + 1;
    }
    1
}

} // verus!
