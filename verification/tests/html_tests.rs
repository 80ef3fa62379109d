use brief::ast::{Block, DefinitionItem, Document, Inline, RefMap, ShortArgs};
use brief::emit::html::{escape_html, render};
use brief::lexer::lex;
use brief::parser::parse;
use brief::project::ProjectIndex;
use brief::resolve::{resolve_with_project, ResolveProject};
use brief::shortcode::Registry;
use brief::span::{SourceMap, Span};
use brief::strmap::StrMap;

fn render_html(input: &str) -> String {
    let src = SourceMap::new("d.brf", input);
    let toks = lex(&src).unwrap();
    let (doc, diags) = parse(toks, &src);
    assert!(diags.is_empty(), "{:?}", diags);
    let reg = Registry::with_builtins();
    render(&doc, &reg)
}

fn parse_doc(s: &str) -> Document {
    let src = SourceMap::new("t.brf", s);
    let tokens = lex(&src).expect("lex");
    let (doc, _) = parse(tokens, &src);
    doc
}

fn set_of(items: &[&str]) -> StrMap<()> {
    let mut s = StrMap::new();
    for i in items {
        s.insert(i.to_string(), ());
    }
    s
}

#[test]
fn html_does_not_emit_frontmatter() {
    let out = render_html("+++\ntitle = \"hi\"\n+++\n# Doc\n");
    assert!(!out.contains("+++"), "{}", out);
    assert!(!out.contains("title"), "{}", out);
    assert!(out.contains("<h1>Doc</h1>"));
}

#[test]
fn ref_lowers_to_anchor_using_resolved_refs() {
    let src = "See @ref[other.brf#top](the top).\n".to_string();
    let mut doc = parse_doc(&src);
    let mut idx = ProjectIndex { root: "/tmp/p".to_string(), ..Default::default() };
    idx.anchors.insert("other.brf".to_string(), set_of(&["top"]));
    let p = ResolveProject { index: &idx, current: "here.brf" };
    let reg = Registry::with_builtins();
    let _ = resolve_with_project(&mut doc, &reg, Some(&p));
    let html = render(&doc, &reg);
    assert!(html.contains("<a href=\"other.html#top\">the top</a>"), "got: {}", html);
}

#[test]
fn ref_without_anchor_lowers_to_html_with_no_fragment() {
    let mut doc = parse_doc("See @ref[a/b.brf](title).\n");
    let mut idx = ProjectIndex::default();
    idx.anchors.insert("a/b.brf".to_string(), set_of(&[]));
    let p = ResolveProject { index: &idx, current: "here.brf" };
    let reg = Registry::with_builtins();
    let _ = resolve_with_project(&mut doc, &reg, Some(&p));
    let html = render(&doc, &reg);
    assert!(html.contains("<a href=\"a/b.html\">title</a>"), "got: {}", html);
}

#[test]
fn unresolved_ref_falls_back_to_display_text() {
    let doc = parse_doc("See @ref[any.brf](fallback).\n");
    let reg = Registry::with_builtins();
    let html = render(&doc, &reg);
    assert!(html.contains("fallback"), "got: {}", html);
    assert!(!html.contains("<a "), "must not emit a broken link: {}", html);
}

#[test]
fn dl_renders_as_dl_dt_dd() {
    let doc = Document {
        blocks: vec![Block::DefinitionList {
            args: ShortArgs::default(),
            items: vec![DefinitionItem {
                term: vec![Inline::Text { value: "Term".into(), span: Span::dummy() }],
                definition: vec![Inline::Text { value: "Definition.".into(), span: Span::dummy() }],
                span: Span::dummy(),
            }],
            span: Span::dummy(),
        }],
        metadata: None,
        resolved_refs: RefMap::default(),
    };
    let reg = Registry::with_builtins();
    let out = render(&doc, &reg);
    assert!(out.contains("<dl>"), "got: {}", out);
    assert!(out.contains("<dt>Term</dt>"), "got: {}", out);
    assert!(out.contains("<dd>Definition.</dd>"), "got: {}", out);
    assert!(out.contains("</dl>"), "got: {}", out);
}

#[test]
fn escape_html_replaces_markup_characters() {
    assert_eq!(escape_html("a<b>&\"c'"), "a&lt;b&gt;&amp;&quot;c'");
    assert_eq!(escape_html("plain é"), "plain é");
}

#[test]
fn footnotes_are_numbered_and_listed() {
    let out = render_html("A@footnote[one] and B@footnote[two].\n");
    assert!(out.contains("<sup class=\"fn-ref\"><a id=\"fn-ref-1\" href=\"#fn-1\">1</a></sup>"), "{}", out);
    assert!(out.contains("<li id=\"fn-2\">two"), "{}", out);
    assert!(out.contains("<ol class=\"footnotes\">"), "{}", out);
}

#[test]
fn list_table_and_code_render() {
    let out = render_html("- [x] done\n- todo\n\n@t\n| A | B\n| 1 | 2\n\n```rust\na < b\n```\n");
    assert!(out.contains("<ul class=\"contains-task-list\">"), "{}", out);
    assert!(out.contains("<input type=\"checkbox\" disabled checked> done"), "{}", out);
    assert!(out.contains("<th style=\"text-align:left\">A</th>"), "{}", out);
    assert!(out.contains("<pre><code class=\"language-rust\">a &lt; b</code></pre>"), "{}", out);
}

#[test]
fn template_expansion_escapes_arguments_and_keeps_other_text() {
    let mut args = brief::ast::ShortArgs::default();
    args.keyword.insert("x".to_string(), brief::shortcode::ArgValue::Str("<b>&".to_string()));
    let tpl: Vec<char> = "é[{{ args.x }}|{{content}}|{{args.none}}|{{other}}|{{".chars().collect();
    let content: Vec<char> = "<i>c</i>".chars().collect();
    let mut out = Vec::new();
    brief::emit::html::expand_template(&tpl, &args, &content, &mut out);
    let s: String = out.into_iter().collect();
    assert_eq!(s, "é[&lt;b&gt;&amp;|<i>c</i>|||{{");
    let mut out = Vec::new();
    brief::emit::llm::expand_template_llm(&tpl, &args, &content, &mut out);
    let s: String = out.into_iter().collect();
    assert_eq!(s, "\u{c3}\u{a9}[<b>&|<i>c</i>|||{{");
}

#[test]
fn simple_document_renders_exactly() {
    let src = brief::span::SourceMap::new("d.brf", "# Title {#top}\n\nSome *bold* _it_ `a<b` & x.\n\n---\n");
    let toks = brief::lexer::lex(&src).unwrap();
    let (doc, diags) = brief::parser::parse(toks, &src);
    assert!(diags.is_empty(), "{:?}", diags);
    let out = brief::emit::html::render(&doc, &brief::shortcode::Registry::with_builtins());
    assert_eq!(
        out,
        "<h1 id=\"top\">Title</h1>\n<p>Some <strong>bold</strong> <em>it</em> <code>a&lt;b</code> &amp; x.</p>\n<hr>\n"
    );
}

#[test]
fn plain_blocks_render_exactly() {
    let src = brief::span::SourceMap::new(
        "d.brf",
        "> quoted *text*\n\n@dl\nTerm\n: Def\n@end\n\n---\n",
    );
    let toks = brief::lexer::lex(&src).unwrap();
    let (doc, diags) = brief::parser::parse(toks, &src);
    assert!(diags.is_empty(), "{:?}", diags);
    let out = brief::emit::html::render(&doc, &brief::shortcode::Registry::with_builtins());
    assert_eq!(
        out,
        "<blockquote>\n<p>quoted <strong>text</strong></p>\n</blockquote>\n<dl>\n<dt>Term</dt>\n<dd>Def</dd>\n</dl>\n<hr>\n"
    );
}
