use brief::emit::llm::{collapse_newlines, render, Opts};
use brief::lexer::lex;
use brief::parser::parse;
use brief::shortcode::Registry;
use brief::span::SourceMap;

fn llm(input: &str, opts: Opts) -> (String, Vec<String>) {
    let src = SourceMap::new("d.brf", input);
    let toks = lex(&src).unwrap();
    let (mut doc, diags) = parse(toks, &src);
    assert!(diags.is_empty(), "{:?}", diags);
    let reg = Registry::with_builtins();
    let _ = brief::resolve::resolve(&mut doc, &reg);
    render(&doc, &reg, &opts)
}

#[test]
fn collapse_keeps_at_most_two_newlines() {
    let s: Vec<char> = "a\n\n\n\nb\nc\n\n".chars().collect();
    let r: String = collapse_newlines(&s).into_iter().collect();
    assert_eq!(r, "a\n\nb\nc\n\n");
}

#[test]
fn llm_output_never_has_three_newlines() {
    let (out, _) = llm("# A\n\n\n\npara\n\n> q1\n>> q2\n\n---\n", Opts::default());
    assert!(!out.contains("\n\n\n"), "{:?}", out);
    assert!(out.contains("> q1\n"), "{:?}", out);
}

#[test]
fn llm_table_is_padded() {
    let (out, _) = llm("@t\n| A | Bee\n| long | x\n", Opts { keep_table_rule: true, ..Opts::default() });
    assert!(out.contains("| A    | Bee |\n|------|-----|\n| long | x   |\n"), "{:?}", out);
}

#[test]
fn llm_strip_emphasis_and_links() {
    let (out, _) = llm("*b* _i_ @link[t](https://u)\n", Opts { strip_emphasis: true, ..Opts::default() });
    assert!(out.contains("b i [t](https://u)"), "{:?}", out);
    let (out2, _) = llm("*b* _i_\n", Opts::default());
    assert!(out2.contains("*b* _i_"), "{:?}", out2);
}

#[test]
fn llm_lists_and_footnotes() {
    let (out, _) = llm("1. one\n2. two@footnote[note]\n", Opts::default());
    assert!(out.contains("1. one\n2. two[^1]\n"), "{:?}", out);
    assert!(out.contains("[^1]: note\n"), "{:?}", out);
}
