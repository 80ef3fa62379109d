use brief::ast::Inline;
use brief::diag::{Code, Diagnostic};
use brief::inline::{parse_args, parse_inline};
use brief::shortcode::ArgValue;

fn parse(s: &str) -> (Vec<Inline>, Vec<Diagnostic>) {
    parse_inline(s, 0)
}

fn texts(n: &[Inline]) -> String {
    n.iter()
        .filter_map(|x| {
            if let Inline::Text { value, .. } = x {
                Some(value.clone())
            } else {
                None
            }
        })
        .collect()
}

#[test]
fn plain_text() {
    let (n, d) = parse("hello world");
    assert!(d.is_empty());
    assert_eq!(n.len(), 1);
    if let Inline::Text { value, .. } = &n[0] {
        assert_eq!(value, "hello world");
    } else {
        panic!();
    }
}

#[test]
fn bold() {
    let (n, d) = parse("a *bold* b");
    assert!(d.is_empty(), "{:?}", d);
    assert!(matches!(n[1], Inline::Bold { .. }));
}

#[test]
fn snake_case_is_literal() {
    let (n, d) = parse("snake_case_name");
    assert!(d.is_empty());
    assert_eq!(n.len(), 1);
    assert!(matches!(n[0], Inline::Text { .. }));
}

#[test]
fn nested_same_marker_errors() {
    let (_, d) = parse("*outer *inner* outer*");
    assert!(d.iter().any(|x| x.code == Code::EmphasisSameMarker));
}

#[test]
fn link_url_with_balanced_parens() {
    let (n, d) = parse("@link[rust](https://en.wikipedia.org/wiki/Rust_(programming_language)) x");
    assert!(d.is_empty(), "{:?}", d);
    if let Inline::Shortcode { args, .. } = &n[0] {
        assert_eq!(
            args.positional[0].as_str(),
            Some("https://en.wikipedia.org/wiki/Rust_(programming_language)")
        );
    } else {
        panic!("expected shortcode, got {:?}", n[0]);
    }
    if let Inline::Text { value, .. } = &n[1] {
        assert_eq!(value, " x");
    } else {
        panic!("tail must survive as text");
    }
}

#[test]
fn link_url_unterminated_paren_is_b0406() {
    let (_, d) = parse("@link[x](https://e.com/a(b now");
    assert!(d.iter().any(|x| x.code == Code::BadArgSyntax), "{:?}", d);
}

#[test]
fn inline_code() {
    let (n, d) = parse("use `printf` here");
    assert!(d.is_empty());
    assert!(matches!(n[1], Inline::InlineCode { .. }));
}

#[test]
fn double_backtick_code_with_backtick() {
    let (n, d) = parse("``a ` b``");
    assert!(d.is_empty());
    if let Inline::InlineCode { value, .. } = &n[0] {
        assert_eq!(value, "a ` b");
    } else {
        panic!();
    }
}

#[test]
fn shortcode_inline() {
    let (n, d) = parse("see @link[here](https://x)");
    assert!(d.is_empty(), "{:?}", d);
    assert!(matches!(n.last().unwrap(), Inline::Shortcode { .. }));
}

#[test]
fn escape_emphasis() {
    let (n, d) = parse(r"\*literal\*");
    assert!(d.is_empty());
    assert_eq!(texts(&n), "*literal*");
}

#[test]
fn double_marker_not_emphasis() {
    let (n, _d) = parse("**no**");
    assert!(!matches!(n[0], Inline::Bold { .. }));
}

#[test]
fn escape_before_multibyte_char() {
    let (n, d) = parse("a \\é b");
    assert!(d.is_empty(), "{:?}", d);
    assert_eq!(texts(&n), "a é b");
}

#[test]
fn multibyte_text_then_emph() {
    let (n, d) = parse("日本 *bold*");
    assert!(d.is_empty(), "{:?}", d);
    assert!(matches!(n.last().unwrap(), Inline::Bold { .. }));
}

#[test]
fn arg_string_preserves_multibyte() {
    let mut cursor = 0usize;
    let s = "(label: \"日本 🦀\")";
    let args = parse_args(s, &mut cursor).unwrap();
    if let ArgValue::Str(v) = args.keyword.get("label").unwrap() {
        assert_eq!(v, "日本 🦀");
    } else {
        panic!();
    }
}

#[test]
fn escape_at_end_of_input() {
    let (_, _d) = parse("trailing\\");
}

#[test]
fn spans_are_byte_offsets_from_base() {
    let (n, d) = parse_inline("é *b*", 10);
    assert!(d.is_empty(), "{:?}", d);
    if let Inline::Bold { span, .. } = &n[1] {
        assert_eq!(span.start, 13);
        assert_eq!(span.len, 3);
    } else {
        panic!("{:?}", n);
    }
}

#[test]
fn args_cursor_moves_past_the_list() {
    let mut cursor = 2usize;
    let s = "@x(a, b: 2) tail";
    let args = parse_args(s, &mut cursor).unwrap();
    assert_eq!(cursor, 11);
    assert_eq!(args.positional.len(), 1);
    assert_eq!(args.keyword.get("b"), Some(&ArgValue::Int(2)));
}

#[test]
fn args_ident_and_array_keyword() {
    let mut cursor = 0usize;
    let args = parse_args("(x, k: [1, 2])", &mut cursor).unwrap();
    assert_eq!(cursor, 14);
    assert_eq!(args.positional, vec![ArgValue::Ident("x".to_string())]);
    assert_eq!(
        args.keyword.get("k"),
        Some(&ArgValue::Array(vec![ArgValue::Int(1), ArgValue::Int(2)]))
    );
}

#[test]
fn args_duplicate_keyword_span() {
    let mut cursor = 0usize;
    let e = parse_args("(a: 1, a: 2)", &mut cursor).unwrap_err();
    assert_eq!(e.code, brief::diag::Code::DuplicateKwarg);
    assert_eq!(e.span, brief::span::Span::new(7, 1));
}
