//! JavaScript / TypeScript minifier.
//!
//! Template literals keep their `${…}` interpolations verbatim (recursing
//! into nested templates). A `/` starts a regex literal iff the previous
//! significant token leaves an expression expected; a `}` is classified by
//! what its `{` opened (statement block vs. object literal / arrow body).
//! Newlines are preserved (automatic semicolon insertion), so the emitter
//! is the conservative one.
use crate::minify::c_common::{
    alpha,
    char_is_alphabetic, char_is_alphanumeric, emit_all, emit_conservative, Token, TokenKind,
};
use crate::minify::c_cpp::{lit_end, push_piece, skip2, tokens_from, word_end};
use crate::minify::{MinifyError, MinifyOptions, MinifyOutput};
use crate::text::{chars_eq_str, matches_at, starts_at_str, str_chars};
use vstd::prelude::*;

verus! {

/// Minify JavaScript / TypeScript, keeping newlines.
pub fn minify(source: &str, opts: &MinifyOptions) -> (r: Result<MinifyOutput, MinifyError>)
    ensures
        r matches Ok(o) ==> exists|toks: Seq<Token>|
            tokens_from(toks, source@) && js_lex(source@, 0, seq![], seq![], BraceKind::Block) == Some(
                crate::minify::c_cpp::ckinds(toks),
            ) && o.body@ == emit_all(toks, opts.keep_comments, true).out,
        source@.len() < usize::MAX ==> (r is Ok <==> js_lex(source@, 0, seq![], seq![], BraceKind::Block) is Some),
        source@.len() < usize::MAX && crate::minify::c_cpp::plain_code(source@) ==> r is Ok,
{
    let src = str_chars(source);
    if src.len() == usize::MAX {
        return Err(MinifyError::new("source too large"));
    }
    let toks = tokenize(src.as_slice())?;
    emit_conservative(toks.as_slice(), opts.keep_comments)
}

/// What a `{` opened.
#[derive(Clone, Copy, PartialEq, Eq, Structural)]
pub enum BraceKind {
    Block,
    Object,
}

/// `v[..k]`'s last token that is not a comment or a newline.
pub open spec fn vlast_sig(v: Seq<(int, Seq<char>)>, k: int) -> Option<int>
    decreases k,
{
    if k <= 0 {
        None
    } else if v[k - 1].0 == 3 || v[k - 1].0 == 4 || v[k - 1].0 == 8 {
        vlast_sig(v, k - 1)
    } else {
        Some(k - 1)
    }
}

/// After the tokens `v` (the last `}` having closed a `lc`), a `/` starts a
/// regex literal.
pub open spec fn regex_ok_v(v: Seq<(int, Seq<char>)>, lc: BraceKind) -> bool {
    match vlast_sig(v, v.len() as int) {
        None => true,
        Some(k) => if v[k].0 == 0 {
            expr_keyword(v[k].1, true)
        } else if v[k].0 == 1 {
            if v[k].1 == "}"@ {
                lc == BraceKind::Block
            } else {
                !ends_expr(v[k].1, false)
            }
        } else {
            false
        },
    }
}

/// The last significant token of `v[..m]` is `v[k]` when only comments
/// and line breaks follow it.
proof fn lemma_last_sig_is(v: Seq<(int, Seq<char>)>, k: int, m: int)
    requires
        0 <= k < m <= v.len(),
        v[k].0 != 3 && v[k].0 != 4 && v[k].0 != 8,
        forall|j: int| k < j < v.len() ==> v[j].0 == 3 || v[j].0 == 4 || v[j].0 == 8,
    ensures
        vlast_sig(v, m) == Some(k),
    decreases m,
{
    if m > k + 1 {
        lemma_last_sig_is(v, k, m - 1);
    }
}

/// After a `]` or `)` punctuator, with only comments and line breaks
/// since, an expression has ended: a `/` there is the division operator
/// (or `/=`), never the start of a regex literal, so `a[i] / b` divides.
pub proof fn law_slash_after_closing_bracket_divides(
    s: Seq<char>,
    i: int,
    v: Seq<(int, Seq<char>)>,
    stack: Seq<BraceKind>,
    lc: BraceKind,
    k: int,
)
    requires
        0 <= k < v.len(),
        v[k].0 == 1,
        v[k].1 == "]"@ || v[k].1 == ")"@,
        forall|j: int| k < j < v.len() ==> v[j].0 == 3 || v[j].0 == 4 || v[j].0 == 8,
        0 <= i < s.len(),
        s[i] == '/',
        !(i + 1 < s.len() && (s[i + 1] == '/' || s[i + 1] == '*')),
    ensures
        !regex_ok_v(v, lc),
        js_lex(s, i, v, stack, lc) == (if js_punct_len(s, i) < 1 || i + js_punct_len(s, i) > s.len() {
            None
        } else {
            js_lex(s, i + js_punct_len(s, i), v.push((1int, s.subrange(i, i + js_punct_len(s, i)))), stack, lc)
        }),
{
    lemma_last_sig_is(v, k, v.len() as int);
    reveal_strlit("]");
    reveal_strlit(")");
    reveal_strlit("}");
    assert("]"@[0] != "}"@[0]);
    assert(")"@[0] != "}"@[0]);
    assert("]"@ != "}"@);
    assert(")"@ != "}"@);
    assert(ends_expr(v[k].1, false));
}

/// After the tokens `v`, a `{` opens an object literal.
pub open spec fn obj_v(v: Seq<(int, Seq<char>)>) -> bool {
    match vlast_sig(v, v.len() as int) {
        None => false,
        Some(k) => if v[k].0 == 0 {
            expr_keyword(v[k].1, false)
        } else if v[k].0 == 1 {
            !ends_expr(v[k].1, true)
        } else {
            false
        },
    }
}

/// `last_significant` read through the tokens' plain values.
proof fn lemma_last_sig_views(t: Seq<Token>, k: int)
    requires
        0 <= k <= t.len(),
    ensures
        last_significant(t, k) == vlast_sig(crate::minify::c_cpp::ckinds(t), k),
        last_significant(t, k) matches Some(x) ==> 0 <= x < k,
    decreases k,
{
    if k > 0 {
        lemma_last_sig_views(t, k - 1);
        assert(crate::minify::c_cpp::ckinds(t)[k - 1] == crate::minify::c_cpp::ckind(t[k - 1].kind));
    }
}

/// The JS/TS tokens of `s` from `i`, after the tokens `v`, with the open
/// braces `stack` and `lc` the kind the last `}` closed; `None` when a
/// literal or comment never closes. A `/` is a regex literal exactly when
/// `regex_ok_v` holds.
pub open spec fn js_lex(
    s: Seq<char>,
    i: int,
    v: Seq<(int, Seq<char>)>,
    stack: Seq<BraceKind>,
    lc: BraceKind,
) -> Option<Seq<(int, Seq<char>)>>
    decreases s.len() - i,
{
    if i < 0 || i >= s.len() {
        Some(v)
    } else {
        let c = s[i];
        if c == ' ' || c == '\t' || c == '\r' {
            js_lex(s, i + 1, v, stack, lc)
        } else if c == '\n' {
            js_lex(s, i + 1, v.push((8int, Seq::<char>::empty())), stack, lc)
        } else if c == '/' && i + 1 < s.len() && s[i + 1] == '/' {
            let e = crate::minify::c_cpp::nl_from(s, i + 2);
            if e <= i || e > s.len() {
                None
            } else {
                js_lex(s, e, v.push((3int, s.subrange(i + 2, e))), stack, lc)
            }
        } else if c == '/' && i + 1 < s.len() && s[i + 1] == '*' {
            match crate::minify::c_cpp::bc_close(s, i + 2) {
                Some(j) => if j < i + 2 || j + 2 > s.len() {
                    None
                } else {
                    js_lex(s, j + 2, v.push((4int, s.subrange(i + 2, j))), stack, lc)
                },
                None => None,
            }
        } else if c == '/' && regex_ok_v(v, lc) {
            match regex_end(s, i + 1, false) {
                Some(e) => if e <= i || e > s.len() {
                    None
                } else {
                    js_lex(s, e, v.push((6int, s.subrange(i, e))), stack, lc)
                },
                None => None,
            }
        } else if c == '"' || c == '\'' {
            match lit_end(s, i + 1, c) {
                Some(e) => if e <= i || e > s.len() {
                    None
                } else {
                    js_lex(s, e, v.push((2int, s.subrange(i, e))), stack, lc)
                },
                None => None,
            }
        } else if c == '`' {
            match tpl_scan(s, i + 1) {
                Some(e) => if e <= i || e > s.len() {
                    None
                } else {
                    js_lex(s, e, v.push((5int, s.subrange(i, e))), stack, lc)
                },
                None => None,
            }
        } else if alpha(c) || c == '_' || c == '$' || ('0' <= c <= '9') {
            let w = word_end(s, i, i, true);
            let n = if w == i { 1 } else { w - i };
            if n < 1 || i + n > s.len() {
                None
            } else {
                js_lex(s, i + n, v.push((0int, s.subrange(i, i + n))), stack, lc)
            }
        } else {
            let n = js_punct_len(s, i);
            if n < 1 || i + n > s.len() {
                None
            } else {
                let v2 = v.push((1int, s.subrange(i, i + n)));
                if n == 1 && c == '{' {
                    js_lex(s, i + n, v2, stack.push(if obj_v(v) { BraceKind::Object } else { BraceKind::Block }), lc)
                } else if n == 1 && c == '}' {
                    if stack.len() > 0 {
                        js_lex(s, i + n, v2, stack.drop_last(), stack.last())
                    } else {
                        js_lex(s, i + n, v2, stack, BraceKind::Block)
                    }
                } else {
                    js_lex(s, i + n, v2, stack, lc)
                }
            }
        }
    }
}

/// One step of the JS/TS lexer at `i` (not at the end).
#[verifier::rlimit(100)]
#[verifier::spinoff_prover]
fn js_step(src: &[char], i: usize, out: &mut Vec<Token>, stack: &mut Vec<BraceKind>, last_close: &mut BraceKind) -> (r:
    Result<usize, MinifyError>)
    requires
        src@.len() < usize::MAX,
        i < src@.len(),
        tokens_from(old(out)@, src@),
    ensures
        tokens_from(final(out)@, src@),
        r matches Ok(ni) ==> i < ni <= src@.len() && js_lex(
            src@,
            i as int,
            crate::minify::c_cpp::ckinds(old(out)@),
            old(stack)@,
            *old(last_close),
        ) == js_lex(src@, ni as int, crate::minify::c_cpp::ckinds(final(out)@), final(stack)@, *final(last_close)),
        r is Err ==> js_lex(src@, i as int, crate::minify::c_cpp::ckinds(old(out)@), old(stack)@, *old(last_close))
            is None,
        crate::minify::c_cpp::plain_code(src@) ==> r is Ok,
{
    let ghost o = crate::minify::c_cpp::ckinds(out@);
    proof {
        lemma_last_sig_views(out@, out@.len() as int);
        match last_significant(out@, out@.len() as int) {
            Some(k) => {
                assert(o[k] == crate::minify::c_cpp::ckind(out@[k].kind));
            },
            None => {},
        }
    }
    let mut i = i;
    let c = src[i];
    if c == ' ' || c == '\t' || c == '\r' {
        i = i + 1;
        return Ok(i);
    }
    if c == '\n' {
        out.push(Token::new(TokenKind::Newline));
        assert(crate::minify::c_cpp::ckinds(out@) =~= o.push((8int, Seq::<char>::empty())));
        i = i + 1;
        return Ok(i);
    }
    if c == '/' && i + 1 < src.len() && src[i + 1] == '/' {
        let start = i + 2;
        let mut j = start;
        while j < src.len() && src[j] != '\n'
            invariant
                start <= j <= src@.len(),
                crate::minify::c_cpp::nl_from(src@, start as int) == crate::minify::c_cpp::nl_from(src@, j as int),
            decreases src@.len() - j,
        {
            j = j + 1;
        }
        push_piece(out, src, start, j, 3);
        i = j;
        return Ok(i);
    }
    if c == '/' && i + 1 < src.len() && src[i + 1] == '*' {
        let body_start = i + 2;
        let mut j = body_start;
        let mut found = false;
        while j + 1 < src.len()
            invariant
                body_start <= j <= src@.len(),
                crate::minify::c_cpp::bc_close(src@, body_start as int) == crate::minify::c_cpp::bc_close(
                    src@,
                    j as int,
                ),
            decreases src@.len() - j,
        {
            if src[j] == '*' && src[j + 1] == '/' {
                found = true;
                break;
            }
            j = j + 1;
        }
        if !found || j + 1 >= src.len() {
            return Err(MinifyError::new("unterminated /* */ block comment"));
        }
        push_piece(out, src, body_start, j, 4);
        i = j + 2;
        return Ok(i);
    }
    if c == '/' && regex_is_expected(out.as_slice(), *last_close) {
        let n = scan_regex(src, i)?;
        push_piece(out, src, i, i + n, 6);
        i = i + n;
        return Ok(i);
    }
    if c == '"' || c == '\'' {
        let n = scan_quoted_string(src, i, c)?;
        push_piece(out, src, i, i + n, 2);
        i = i + n;
        return Ok(i);
    }
    if c == '`' {
        let n = scan_template(src, i)?;
        push_piece(out, src, i, i + n, 5);
        i = i + n;
        return Ok(i);
    }
    if is_word_start(src, i) {
        let n = scan_word(src, i);
        push_piece(out, src, i, i + n, 0);
        i = i + n;
        return Ok(i);
    }
    let n = scan_multi_punct(src, i);
    if n == 1 && c == '{' {
        if open_brace_is_object(out.as_slice()) {
            stack.push(BraceKind::Object);
        } else {
            stack.push(BraceKind::Block);
        }
    } else if n == 1 && c == '}' {
        *last_close = match stack.pop() {
            Some(k) => k,
            None => BraceKind::Block,
        };
    }
    push_piece(out, src, i, i + n, 1);
    i = i + n;
    Ok(i)
}

/// Lex JS/TS source into tokens.
pub fn tokenize(src: &[char]) -> (r: Result<Vec<Token>, MinifyError>)
    requires
        src@.len() < usize::MAX,
    ensures
        r matches Ok(toks) ==> tokens_from(toks@, src@),
        crate::minify::c_cpp::plain_code(src@) ==> r is Ok,
        match r {
            Ok(toks) => js_lex(src@, 0, seq![], seq![], BraceKind::Block) == Some(crate::minify::c_cpp::ckinds(toks@)),
            Err(_) => js_lex(src@, 0, seq![], seq![], BraceKind::Block) is None,
        },
{
    let mut out: Vec<Token> = Vec::new();
    let mut brace_stack: Vec<BraceKind> = Vec::new();
    let mut last_close = BraceKind::Block;
    let mut i: usize = 0;
    assert(crate::minify::c_cpp::ckinds(out@) =~= Seq::<(int, Seq<char>)>::empty());
    assert(brace_stack@ =~= Seq::<BraceKind>::empty());
    let ghost full = js_lex(src@, 0, seq![], seq![], BraceKind::Block);
    while i < src.len()
        invariant
            i <= src@.len(),
            src@.len() < usize::MAX,
            tokens_from(out@, src@),
            js_lex(src@, i as int, crate::minify::c_cpp::ckinds(out@), brace_stack@, last_close) == full,
        decreases src@.len() - i,
    {
        i = js_step(src, i, &mut out, &mut brace_stack, &mut last_close)?;
    }
    Ok(out)
}

/// `w` is one of the keywords after which an expression is expected (`do`
/// and `else` too when `with_do_else`).
pub open spec fn expr_keyword(w: Seq<char>, with_do_else: bool) -> bool {
    w == "return"@ || w == "typeof"@ || w == "in"@ || w == "of"@ || w == "delete"@ || w == "void"@ || w == "new"@ || w == "throw"@ || w == "await"@ || w == "yield"@ || w == "instanceof"@ || w == "case"@ || (with_do_else && (w == "do"@ || w
        == "else"@))
}

/// After punctuator `p` an expression has ended (with `with_braces`, also
/// after `}`, `{` and `;`).
pub open spec fn ends_expr(p: Seq<char>, with_braces: bool) -> bool {
    p == ")"@ || p == "]"@ || p == "++"@ || p == "--"@ || (with_braces && (p == "}"@ || p == "{"@ || p == ";"@))
}

/// Index of the last token of `t[..k]` that is not a comment or a line
/// break.
pub open spec fn last_significant(t: Seq<Token>, k: int) -> Option<int>
    decreases k,
{
    if k <= 0 {
        None
    } else {
        match t[k - 1].kind {
            TokenKind::LineComment(_) | TokenKind::BlockComment(_) | TokenKind::Newline => last_significant(t, k - 1),
            _ => Some(k - 1),
        }
    }
}

/// Is `w` one of the keywords after which an expression is expected?
fn is_expr_keyword(w: &[char], with_do_else: bool) -> (r: bool)
    ensures
        r == expr_keyword(w@, with_do_else),
{
    chars_eq_str(w, "return") || chars_eq_str(w, "typeof") || chars_eq_str(w, "in")
        || chars_eq_str(w, "of") || chars_eq_str(w, "delete") || chars_eq_str(w, "void")
        || chars_eq_str(w, "new") || chars_eq_str(w, "throw") || chars_eq_str(w, "await")
        || chars_eq_str(w, "yield") || chars_eq_str(w, "instanceof") || chars_eq_str(w, "case")
        || (with_do_else && (chars_eq_str(w, "do") || chars_eq_str(w, "else")))
}

/// After this punctuator an expression has ended (or a statement starts).
fn ends_expression(p: &[char], with_braces: bool) -> (r: bool)
    ensures
        r == ends_expr(p@, with_braces),
{
    chars_eq_str(p, ")") || chars_eq_str(p, "]") || chars_eq_str(p, "++") || chars_eq_str(p, "--")
        || (with_braces && (chars_eq_str(p, "}") || chars_eq_str(p, "{") || chars_eq_str(p, ";")))
}

/// Is a `{` here an object literal (expression) rather than a statement
/// block? Arrow bodies are grouped with expressions.
fn open_brace_is_object(prev: &[Token]) -> (r: bool)
    ensures
        r == match last_significant(prev@, prev@.len() as int) {
            None => false,
            Some(k) => match prev@[k].kind {
                TokenKind::Word(s) => expr_keyword(s@, false),
                TokenKind::Punct(s) => !ends_expr(s@, true),
                _ => false,
            },
        },
{
    let mut k = prev.len();
    while k > 0
        invariant
            k <= prev@.len(),
            last_significant(prev@, prev@.len() as int) == last_significant(prev@, k as int),
        decreases k,
    {
        k = k - 1;
        match &prev[k].kind {
            TokenKind::LineComment(_) | TokenKind::BlockComment(_) | TokenKind::Newline => {},
            TokenKind::Word(s) => {
                return is_expr_keyword(s.as_slice(), false);
            },
            TokenKind::Punct(s) => {
                return !ends_expression(s.as_slice(), true);
            },
            _ => {
                return false;
            },
        }
    }
    false
}

/// Should a `/` here start a regex literal?
fn regex_is_expected(prev: &[Token], last_close: BraceKind) -> (r: bool)
    ensures
        r == match last_significant(prev@, prev@.len() as int) {
            None => true,
            Some(k) => match prev@[k].kind {
                TokenKind::Word(s) => expr_keyword(s@, true),
                TokenKind::Punct(s) => if s@ == "}"@ {
                    last_close == BraceKind::Block
                } else {
                    !ends_expr(s@, false)
                },
                _ => false,
            },
        },
{
    let mut k = prev.len();
    while k > 0
        invariant
            k <= prev@.len(),
            last_significant(prev@, prev@.len() as int) == last_significant(prev@, k as int),
        decreases k,
    {
        k = k - 1;
        match &prev[k].kind {
            TokenKind::LineComment(_) | TokenKind::BlockComment(_) | TokenKind::Newline => {},
            TokenKind::Word(s) => {
                return is_expr_keyword(s.as_slice(), true);
            },
            TokenKind::Punct(s) => {
                if chars_eq_str(s.as_slice(), "}") {
                    return last_close == BraceKind::Block;
                }
                return !ends_expression(s.as_slice(), false);
            },
            _ => {
                return false;
            },
        }
    }
    true
}

/// End of the run of ASCII letters of `s` from `j` (regex flags).
pub open spec fn flags_end(s: Seq<char>, j: int) -> int
    decreases s.len() - j,
{
    if 0 <= j < s.len() && (('a' <= s[j] <= 'z') || ('A' <= s[j] <= 'Z')) {
        flags_end(s, j + 1)
    } else {
        j
    }
}

/// End (past the flags) of a regex literal whose body is scanned from `j`,
/// `cls` telling whether a `[...]` class is open; `None` when a line break
/// or the end of `s` comes first.
pub open spec fn regex_end(s: Seq<char>, j: int, cls: bool) -> Option<int>
    decreases s.len() - j,
{
    if j < 0 || j >= s.len() {
        None
    } else if s[j] == '\\' {
        if j + 2 <= s.len() {
            regex_end(s, j + 2, cls)
        } else {
            None
        }
    } else if s[j] == '[' {
        regex_end(s, j + 1, true)
    } else if s[j] == ']' && cls {
        regex_end(s, j + 1, false)
    } else if s[j] == '/' && !cls {
        Some(flags_end(s, j + 1))
    } else if s[j] == '\n' {
        None
    } else {
        regex_end(s, j + 1, cls)
    }
}

/// Length of the regex literal (with flags) starting at `i`.
fn scan_regex(src: &[char], i: usize) -> (r: Result<usize, MinifyError>)
    requires
        src@.len() < usize::MAX,
        i < src@.len(),
    ensures
        r matches Ok(n) ==> n >= 2 && i + n <= src@.len(),
        match r {
            Ok(n) => regex_end(src@, i + 1, false) == Some(i + n),
            Err(_) => regex_end(src@, i + 1, false) is None,
        },
{
    let mut j = i + 1;
    let mut in_class = false;
    while j < src.len()
        invariant
            i < j <= src@.len(),
            regex_end(src@, i + 1, false) == regex_end(src@, j as int, in_class),
        decreases src@.len() - j,
    {
        let b = src[j];
        if b == '\\' {
            j = skip2(j, src.len());
            continue;
        }
        if b == '[' {
            in_class = true;
            j = j + 1;
        } else if b == ']' && in_class {
            in_class = false;
            j = j + 1;
        } else if b == '/' && !in_class {
            j = j + 1;
            while j < src.len() && (('a' <= src[j] && src[j] <= 'z') || ('A' <= src[j] && src[j]
                <= 'Z'))
                invariant
                    i + 2 <= j <= src@.len(),
                    regex_end(src@, i + 1, false) == Some(flags_end(src@, j as int)),
                decreases src@.len() - j,
            {
                j = j + 1;
            }
            return Ok(j - i);
        } else if b == '\n' {
            return Err(MinifyError::new("newline in regex literal"));
        } else {
            j = j + 1;
        }
    }
    Err(MinifyError::new("unterminated regex literal"))
}

/// Length of the `quote`-delimited string starting at `i`.
fn scan_quoted_string(src: &[char], i: usize, quote: char) -> (r: Result<usize, MinifyError>)
    requires
        src@.len() < usize::MAX,
        i < src@.len(),
    ensures
        r matches Ok(n) ==> n >= 2 && i + n <= src@.len(),
        match r {
            Ok(n) => lit_end(src@, i + 1, quote) == Some(i + n),
            Err(_) => lit_end(src@, i + 1, quote) is None,
        },
{
    let mut j = i + 1;
    while j < src.len()
        invariant
            i < j <= src@.len(),
            lit_end(src@, i + 1, quote) == lit_end(src@, j as int, quote),
        decreases src@.len() - j,
    {
        if src[j] == '\\' {
            j = skip2(j, src.len());
            continue;
        }
        if src[j] == quote {
            return Ok(j + 1 - i);
        }
        if src[j] == '\n' {
            return Err(MinifyError::new("newline in string literal"));
        }
        j = j + 1;
    }
    Err(MinifyError::new("unterminated string literal"))
}

/// Whether a template body scanned from `j` reaches a `${` before its
/// closing backquote.
pub open spec fn tpl_interp(s: Seq<char>, j: int) -> bool
    decreases s.len() - j,
{
    if j < 0 || j >= s.len() {
        false
    } else if s[j] == '\\' {
        j + 2 <= s.len() && tpl_interp(s, j + 2)
    } else if s[j] == '`' {
        false
    } else if s[j] == '$' && j + 1 < s.len() && s[j + 1] == '{' {
        true
    } else {
        tpl_interp(s, j + 1)
    }
}

/// End (one past the closing backquote) of a template body scanned from
/// `j` that holds no `${`; `None` when the end of `s` comes first.
pub open spec fn tpl_end(s: Seq<char>, j: int) -> Option<int>
    decreases s.len() - j,
{
    if j < 0 || j >= s.len() {
        None
    } else if s[j] == '\\' {
        if j + 2 <= s.len() {
            tpl_end(s, j + 2)
        } else {
            None
        }
    } else if s[j] == '`' {
        Some(j + 1)
    } else {
        tpl_end(s, j + 1)
    }
}

/// Length of the template literal starting at `i`, `${…}` interpolations
/// (and templates nested in them) included.
/// End (one past the closing backquote) of a template literal whose body
/// is scanned from `j`, `${…}` interpolations included; `None` when it
/// never closes.
pub open spec fn tpl_scan(s: Seq<char>, j: int) -> Option<int>
    decreases s.len() - j,
{
    if j < 0 || j >= s.len() {
        None
    } else if s[j] == '\\' {
        if j + 2 <= s.len() {
            tpl_scan(s, j + 2)
        } else {
            None
        }
    } else if s[j] == '`' {
        Some(j + 1)
    } else if s[j] == '$' && j + 1 < s.len() && s[j + 1] == '{' {
        match interp(s, j + 2, 1) {
            Some(e) => if e <= j || e > s.len() {
                None
            } else {
                tpl_scan(s, e)
            },
            None => None,
        }
    } else {
        tpl_scan(s, j + 1)
    }
}

/// Where an interpolation scanned from `j` with `depth` open braces ends
/// (just past its closing `}`); `None` when it never closes. Strings,
/// comments and nested templates inside it are skipped whole.
pub open spec fn interp(s: Seq<char>, j: int, depth: int) -> Option<int>
    decreases s.len() - j,
{
    if depth <= 0 {
        Some(j)
    } else if j < 0 || j >= s.len() {
        None
    } else {
        let d = s[j];
        if d == '{' {
            interp(s, j + 1, if depth < usize::MAX { depth + 1 } else { depth })
        } else if d == '}' {
            interp(s, j + 1, depth - 1)
        } else if d == '`' {
            match tpl_scan(s, j + 1) {
                Some(e) => if e <= j || e > s.len() {
                    None
                } else {
                    interp(s, e, depth)
                },
                None => None,
            }
        } else if d == '"' || d == '\'' {
            match lit_end(s, j + 1, d) {
                Some(e) => if e <= j || e > s.len() {
                    None
                } else {
                    interp(s, e, depth)
                },
                None => None,
            }
        } else if d == '/' && j + 1 < s.len() && s[j + 1] == '/' {
            let e = crate::minify::c_cpp::nl_from(s, j + 2);
            if e <= j || e > s.len() {
                None
            } else {
                interp(s, e, depth)
            }
        } else if d == '/' && j + 1 < s.len() && s[j + 1] == '*' {
            match crate::minify::c_cpp::bc_close(s, j + 2) {
                Some(k) => if k + 2 <= j || k + 2 > s.len() {
                    None
                } else {
                    interp(s, k + 2, depth)
                },
                None => None,
            }
        } else if d == '\\' {
            interp(s, if j + 2 <= s.len() { j + 2 } else { s.len() as int }, depth)
        } else {
            interp(s, j + 1, depth)
        }
    }
}

#[verifier::rlimit(60)]
fn scan_template(src: &[char], i: usize) -> (r: Result<usize, MinifyError>)
    requires
        src@.len() < usize::MAX,
        i < src@.len(),
    ensures
        r matches Ok(n) ==> n >= 2 && i + n <= src@.len(),
        match r {
            Ok(n) => tpl_scan(src@, i + 1) == Some(i + n),
            Err(_) => tpl_scan(src@, i + 1) is None,
        },
        !tpl_interp(src@, i + 1) ==> match r {
            Ok(n) => tpl_end(src@, i + 1) == Some(i + n),
            Err(_) => tpl_end(src@, i + 1) is None,
        },
    decreases src@.len() - i,
{
    let mut j = i + 1;
    while j < src.len()
        invariant
            i < j <= src@.len(),
            !tpl_interp(src@, i + 1) ==> !tpl_interp(src@, j as int) && tpl_end(src@, i + 1)
                == tpl_end(src@, j as int),
            tpl_scan(src@, i + 1) == tpl_scan(src@, j as int),
        decreases src@.len() - j,
    {
        let b = src[j];
        if b == '\\' {
            j = skip2(j, src.len());
        } else if b == '`' {
            return Ok(j + 1 - i);
        } else if b == '$' && j + 1 < src.len() && src[j + 1] == '{' {
            let ghost jd = j;
            j = j + 2;
            let ghost j0 = j;
            let mut depth: usize = 1;
            while j < src.len() && depth > 0
                invariant
                    i < j0 <= j <= src@.len(),
                    j0 == jd + 2,
                    interp(src@, j0 as int, 1) == interp(src@, j as int, depth as int),
                    tpl_scan(src@, i + 1) == tpl_scan(src@, jd as int),
                decreases src@.len() - j,
            {
                let ghost jj = j;
                let d = src[j];
                if d == '{' {
                    if depth < usize::MAX {
                        depth = depth + 1;
                    }
                    j = j + 1;
                } else if d == '}' {
                    depth = depth - 1;
                    j = j + 1;
                } else if d == '`' {
                    let inner = scan_template(src, j)?;
                    j = j + inner;
                } else if d == '"' || d == '\'' {
                    let n = scan_quoted_string(src, j, d)?;
                    j = j + n;
                } else if d == '/' && j + 1 < src.len() && src[j + 1] == '/' {
                    j = j + 2;
                    while j < src.len() && src[j] != '\n'
                        invariant
                            i < j0 <= j <= src@.len(),
                            jj < j,
                            crate::minify::c_cpp::nl_from(src@, jj + 2) == crate::minify::c_cpp::nl_from(
                                src@,
                                j as int,
                            ),
                        decreases src@.len() - j,
                    {
                        j = j + 1;
                    }
                } else if d == '/' && j + 1 < src.len() && src[j + 1] == '*' {
                    j = j + 2;
                    while j + 1 < src.len() && !(src[j] == '*' && src[j + 1] == '/')
                        invariant
                            i < j0 <= j <= src@.len(),
                            jj < j,
                            crate::minify::c_cpp::bc_close(src@, jj + 2) == crate::minify::c_cpp::bc_close(
                                src@,
                                j as int,
                            ),
                        decreases src@.len() - j,
                    {
                        j = j + 1;
                    }
                    if j + 1 >= src.len() {
                        return Err(MinifyError::new("unterminated /* */ inside template"));
                    }
                    j = j + 2;
                } else if d == '\\' {
                    j = skip2(j, src.len());
                } else {
                    j = j + 1;
                }
            }
            if depth != 0 {
                return Err(MinifyError::new("unterminated `${…}` in template"));
            }
        } else {
            j = j + 1;
        }
    }
    Err(MinifyError::new("unterminated template literal"))
}

fn is_word_start(src: &[char], i: usize) -> (r: bool)
    requires
        src@.len() < usize::MAX,
        i < src@.len(),
    ensures
        r == (alpha(src@[i as int]) || src@[i as int] == '_' || src@[i as int] == '$' || ('0' <= src@[i as int]
            <= '9')),
{
    let c = src[i];
    char_is_alphabetic(c) || c == '_' || c == '$' || ('0' <= c && c <= '9')
}

/// Length of the word starting at `i`.
fn scan_word(src: &[char], i: usize) -> (n: usize)
    requires
        src@.len() < usize::MAX,
        i < src@.len(),
    ensures
        n >= 1,
        i + n <= src@.len(),
        n == if word_end(src@, i as int, i as int, true) == i {
            1
        } else {
            word_end(src@, i as int, i as int, true) - i
        },
{
    let mut j = i;
    while j < src.len()
        invariant
            i <= j <= src@.len(),
            word_end(src@, i as int, i as int, true) == word_end(src@, i as int, j as int, true),
        decreases src@.len() - j,
    {
        let c = src[j];
        if char_is_alphanumeric(c) || c == '_' || c == '$' {
            j = j + 1;
            continue;
        }
        if c == '.' {
            if j + 1 < src.len() && '0' <= src[j + 1] && src[j + 1] <= '9' && j > i {
                j = j + 1;
                continue;
            }
        }
        break;
    }
    if j == i {
        1
    } else {
        j - i
    }
}

/// The three-char JS operators.
pub open spec fn js_threes() -> Seq<Seq<char>> {
    seq!["==="@, "!=="@, "..."@, ">>>"@, "**="@, "<<="@, ">>="@, "??="@]
}

/// The two-char JS operators.
pub open spec fn js_twos() -> Seq<Seq<char>> {
    seq!["=>"@, "=="@, "!="@, "<="@, ">="@, "&&"@, "||"@, "??"@, "?."@, "++"@, "--"@, "<<"@, ">>"@, "**"@, "+="@, "-="@, "*="@, "/="@, "%="@, "&="@, "|="@, "^="@]
}

/// Length of the JS operator at `i`: 4 for `>>>=`, 3 for one of
/// `js_threes`, 2 for one of `js_twos`, else 1.
pub open spec fn js_punct_len(s: Seq<char>, i: int) -> int {
    if s.len() - i >= 4 && matches_at(s, i, ">>>="@) {
        4
    } else if s.len() - i >= 3 && exists|k: int| 0 <= k < js_threes().len() && matches_at(s, i, #[trigger] js_threes()[k]) {
        3
    } else if s.len() - i >= 2 && exists|k: int| 0 <= k < js_twos().len() && matches_at(s, i, #[trigger] js_twos()[k]) {
        2
    } else {
        1
    }
}

/// Length of the operator starting at `i` (longest known form, else 1).
fn scan_multi_punct(src: &[char], i: usize) -> (n: usize)
    requires
        src@.len() < usize::MAX,
        i < src@.len(),
    ensures
        1 <= n,
        i + n <= src@.len(),
        n == js_punct_len(src@, i as int),
{
    if src.len() - i >= 4 && starts_at_str(src, i, ">>>=") {
        return 4;
    }
    let threes = ["===", "!==", "...", ">>>", "**=", "<<=", ">>=", "??="];
    assert forall|q: int| 0 <= q < threes@.len() implies (#[trigger] threes@[q])@ == js_threes()[q] by {}
    let mut k: usize = 0;
    while k < threes.len()
        invariant
            i < src@.len(),
            threes@.len() == js_threes().len(),
            !(src@.len() - i >= 4 && matches_at(src@, i as int, ">>>="@)),
            forall|q: int| 0 <= q < threes@.len() ==> (#[trigger] threes@[q])@ == js_threes()[q],
            forall|q: int| 0 <= q < k ==> !(src@.len() - i >= 3 && matches_at(src@, i as int, #[trigger] js_threes()[q])),
        decreases threes@.len() - k,
    {
        if src.len() - i >= 3 && starts_at_str(src, i, threes[k]) {
            return 3;
        }
        k = k + 1;
    }
    let twos = ["=>", "==", "!=", "<=", ">=", "&&", "||", "??", "?.", "++", "--", "<<", ">>", "**",
    "+=", "-=", "*=", "/=", "%=", "&=", "|=", "^="];
    assert forall|q: int| 0 <= q < twos@.len() implies (#[trigger] twos@[q])@ == js_twos()[q] by {}
    let mut k: usize = 0;
    while k < twos.len()
        invariant
            i < src@.len(),
            twos@.len() == js_twos().len(),
            !(src@.len() - i >= 4 && matches_at(src@, i as int, ">>>="@)),
            forall|q: int| 0 <= q < twos@.len() ==> (#[trigger] twos@[q])@ == js_twos()[q],
            forall|q: int| 0 <= q < js_threes().len() ==> !(src@.len() - i >= 3 && matches_at(src@, i as int, #[trigger] js_threes()[q])),
            forall|q: int| 0 <= q < k ==> !(src@.len() - i >= 2 && matches_at(src@, i as int, #[trigger] js_twos()[q])),
        decreases twos@.len() - k,
    {
        if src.len() - i >= 2 && starts_at_str(src, i, twos[k]) {
            return 2;
        }
        k = k + 1;
    }
    1
}

} // verus!
