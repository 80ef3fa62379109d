use brief::fmt::{check, CheckResult, Opts};
use brief::minify::MinifyOptions;
use brief::parser::split_cells;

fn chars(s: &str) -> Vec<char> {
    s.chars().collect()
}

#[test]
fn plain_c_source_always_minifies() {
    let opts = MinifyOptions { keep_comments: false };
    let r = brief::minify::c_cpp::minify("int x = a + b;\nint y;\n", &opts, false);
    assert!(r.is_ok());
}

#[test]
fn plain_js_source_always_minifies() {
    let opts = MinifyOptions { keep_comments: false };
    let r = brief::minify::javascript::minify("let a = b + c;\nlet d = a * 2;\n", &opts);
    assert!(r.is_ok());
}

#[test]
fn unterminated_string_fails_to_minify() {
    let opts = MinifyOptions { keep_comments: false };
    let r = brief::minify::c_cpp::minify("char *s = \"abc;\n", &opts, false);
    assert!(r.is_err());
}

#[test]
fn empty_source_checks_unchanged() {
    assert_eq!(check("", &Opts::default()), CheckResult::Unchanged);
}

#[test]
fn split_cells_counts_pipes() {
    let s = chars("| a | b |");
    let (cells, open) = split_cells(&s, 0, s.len());
    assert!(open.is_none());
    assert_eq!(cells.len(), 2);
    let s = chars("| a | b");
    let (cells, open) = split_cells(&s, 0, s.len());
    assert!(open.is_none());
    assert_eq!(cells.len(), 2);
    let t: String = s[cells[1].0..cells[1].1].iter().collect();
    assert_eq!(t, "b");
}

#[test]
fn split_cells_reports_unclosed_backtick() {
    let s = chars("| `a | b |");
    let (_, open) = split_cells(&s, 0, s.len());
    assert_eq!(open, Some(2));
}

fn resolve_src(src: &str) -> Vec<brief::diag::Diagnostic> {
    let sm = brief::span::SourceMap::new("t.brf", src);
    let toks = brief::lexer::lex(&sm).expect("lex");
    let (mut doc, _) = brief::parser::parse(toks, &sm);
    let reg = brief::shortcode::Registry::with_builtins();
    brief::resolve::resolve(&mut doc, &reg)
}

#[test]
fn positional_and_named_same_argument_is_reported() {
    let d = resolve_src("see @link(\"https://a.example\", url: \"https://b.example\")[x]\n");
    assert!(d.iter().any(|x| x.code == brief::diag::Code::DuplicateKwarg));
}

#[test]
fn table_align_entries_are_checked() {
    let d = resolve_src("@t(align: [left, middle])\n| a | b\n| 1 | 2\n");
    assert!(d.iter().any(|x| x.code == brief::diag::Code::BadEnumValue));
    let d = resolve_src("@t(align: [left, center])\n| a | b\n| 1 | 2\n");
    assert!(!d.iter().any(|x| x.code == brief::diag::Code::BadEnumValue));
}

#[test]
fn converted_line_comment_cannot_close_early() {
    let opts = MinifyOptions { keep_comments: true };
    let r = brief::minify::c_cpp::minify("// a */ b\nint x;\n", &opts, false).unwrap();
    assert!(r.body.starts_with("/* a * / b*/"));
}

#[test]
fn lex_reports_tab_and_accepts_clean_source() {
    let sm = brief::span::SourceMap::new("t.brf", "a\n\tb\n");
    assert!(brief::lexer::lex(&sm).is_err());
    let sm = brief::span::SourceMap::new("t.brf", "a\n  b\n");
    let toks = brief::lexer::lex(&sm).unwrap();
    assert_eq!(toks.len(), 3);
    assert_eq!(toks[1].indent, 2);
}

#[test]
fn json_accepted_input_minifies() {
    let r = brief::minify::json::minify_json("{ \"a\" : [1, 2] }").unwrap();
    assert_eq!(r.body, "{\"a\":[1,2]}");
}
