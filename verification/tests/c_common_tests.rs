use brief::minify::c_common::needs_space;
use brief::minify::c_common::{emit_aggressive, emit_conservative, TokenKind};


#[test]
fn word_word_needs_space() {
    assert!(needs_space('a', 'b'));
    assert!(needs_space('1', 'x'));
    assert!(needs_space('_', 'a'));
}

#[test]
fn word_punct_no_space() {
    assert!(!needs_space('a', '('));
    assert!(!needs_space('1', ';'));
    assert!(!needs_space(')', '{'));
}

#[test]
fn dangerous_pairs_need_space() {
    assert!(needs_space('+', '+'));
    assert!(needs_space('-', '-'));
    assert!(needs_space('/', '/'));
    assert!(needs_space('/', '*'));
    assert!(needs_space('=', '='));
    assert!(needs_space('!', '='));
    assert!(needs_space('<', '='));
    assert!(needs_space(':', ':'));
    assert!(needs_space('&', '&'));
    assert!(needs_space('|', '|'));
    assert!(needs_space('-', '>'));
    assert!(needs_space('=', '>'));
    assert!(needs_space('.', '.'));
}

#[test]
fn safe_punct_pairs_no_space() {
    assert!(!needs_space('(', '{'));
    assert!(!needs_space(',', ' '));
    assert!(!needs_space(';', '}'));
    assert!(!needs_space(')', ';'));
    assert!(!needs_space('+', 'a'));
    assert!(!needs_space('a', ')'));
}


fn tok(k: brief::minify::c_common::TokenKind) -> brief::minify::c_common::Token {
    brief::minify::c_common::Token::new(k)
}

#[test]
fn comments_are_dropped_exactly_as_if_absent() {
    let w = |s: &str| TokenKind::Word(s.chars().collect());
    let with = vec![
        tok(w("a")),
        tok(TokenKind::LineComment(" x".chars().collect())),
        tok(w("b")),
        tok(TokenKind::Newline),
        tok(TokenKind::BlockComment("y".chars().collect())),
        tok(w("c")),
    ];
    let without = vec![tok(w("a")), tok(w("b")), tok(TokenKind::Newline), tok(w("c"))];
    let a1 = emit_aggressive(&with, false).unwrap().body;
    let a2 = emit_aggressive(&without, false).unwrap().body;
    assert_eq!(a1, a2);
    assert_eq!(a1, "a b c");
    let c1 = emit_conservative(&with, false).unwrap().body;
    assert_eq!(c1, emit_conservative(&without, false).unwrap().body);
    assert_eq!(c1, "a b\nc");
}

#[test]
fn aggressive_output_is_one_line_when_no_token_holds_a_newline() {
    let toks = vec![
        tok(TokenKind::Word("x".chars().collect())),
        tok(TokenKind::Newline),
        tok(TokenKind::LineComment(" kept".chars().collect())),
        tok(TokenKind::Newline),
        tok(TokenKind::Punct(";".chars().collect())),
    ];
    let out = emit_aggressive(&toks, true).unwrap();
    assert!(!out.body.contains('\n'));
    assert_eq!(out.body, "x/* kept*/;");
}
