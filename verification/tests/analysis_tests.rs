use brief::analysis::{
    collect_headings, collect_refs, completion_context, heading_anchor_at, heading_span_for_anchor,
    nest_headings, ref_at, rel_path, split_target, CompletionCtx,
};
use brief::ast::Document;
use brief::lexer;
use brief::parser;
use brief::span::SourceMap;

fn parse_doc(src: &str) -> Document {
    let map = SourceMap::new("t.brf", src);
    let tokens = lexer::lex(&map).expect("lex");
    let (doc, _) = parser::parse(tokens, &map);
    doc
}

#[test]
fn ref_at_and_split_target() {
    let src = "Intro text.\n\nSee @ref[docs/other.brf#sec](Other).\n";
    let doc = parse_doc(src);
    let at = src.find("@ref").unwrap() + 2;
    let site = ref_at(&doc, at).expect("ref under cursor");
    assert_eq!(site.target, "docs/other.brf#sec");
    let (p, a) = split_target(&site.target);
    assert_eq!(p, "docs/other.brf");
    assert_eq!(a.as_deref(), Some("sec"));
    assert!(ref_at(&doc, 0).is_none());
}

#[test]
fn collect_refs_reaches_nested_content() {
    let src = "\
- item with @ref[a.brf](A)

> quoted @ref[b.brf#x](B)

@t
| h1 | h2 |
| @ref[c.brf](C) | y |
";
    let doc = parse_doc(src);
    let targets: Vec<String> = collect_refs(&doc).into_iter().map(|r| r.target).collect();
    assert_eq!(targets, vec!["a.brf", "b.brf#x", "c.brf"]);
}

#[test]
fn heading_lookup_by_position_and_anchor() {
    let src = "# Title {#top}\n\nBody.\n\n## Section {#sec}\n";
    let doc = parse_doc(src);
    let (_, anchor) = heading_anchor_at(&doc, 2).expect("cursor on heading");
    assert_eq!(anchor, "top");
    assert!(heading_anchor_at(&doc, src.find("Body").unwrap()).is_none());
    let span = heading_span_for_anchor(&doc, "sec").expect("anchor exists");
    assert_eq!(span.start as usize, src.find("## Section").unwrap());
    assert!(heading_span_for_anchor(&doc, "nope").is_none());
}

// -- symbols --------------------------------------------------------------

#[test]
fn heading_outline_nests_by_level() {
    let src = "# A\n\n## A1\n\n### A1a\n\n## A2\n\n# B\n";
    let doc = parse_doc(src);
    let headings = collect_headings(&doc);
    assert_eq!(headings.len(), 5);
    assert_eq!(headings[0].text, "A");
    let tree = nest_headings(&headings);
    assert_eq!(tree.len(), 2); // A, B
    assert_eq!(tree[0].children.len(), 2); // A1, A2
    assert_eq!(tree[0].children[0].children.len(), 1); // A1a
    assert!(tree[1].children.is_empty());
}

#[test]
fn skipped_levels_still_nest() {
    let src = "## Deep Start\n\n# Top\n\n### Jump\n";
    let doc = parse_doc(src);
    let tree = nest_headings(&collect_headings(&doc));
    assert_eq!(tree.len(), 2); // "Deep Start" and "Top" are both roots
    assert_eq!(tree[1].children.len(), 1); // "Jump" nests under "Top"
}

#[test]
fn heading_text_flattens_inline_markup() {
    let src = "# The *bold* `code` _title_\n";
    let doc = parse_doc(src);
    let headings = collect_headings(&doc);
    assert_eq!(headings[0].text, "The bold code title");
}

// -- completion context ----------------------------------------------------

#[test]
fn completion_context_detection() {
    assert_eq!(
        completion_context("some text @"),
        Some(CompletionCtx::ShortcodeName {
            prefix: String::new()
        })
    );
    assert_eq!(
        completion_context("@cal"),
        Some(CompletionCtx::ShortcodeName {
            prefix: "cal".into()
        })
    );
    assert_eq!(
        completion_context("see @ref["),
        Some(CompletionCtx::RefPath {
            prefix: String::new()
        })
    );
    assert_eq!(
        completion_context("see @ref[docs/ot"),
        Some(CompletionCtx::RefPath {
            prefix: "docs/ot".into()
        })
    );
    assert_eq!(
        completion_context("see @ref[docs/other.brf#"),
        Some(CompletionCtx::RefAnchor {
            path: "docs/other.brf".into(),
            prefix: String::new()
        })
    );
    assert_eq!(
        completion_context("see @ref[docs/other.brf#se"),
        Some(CompletionCtx::RefAnchor {
            path: "docs/other.brf".into(),
            prefix: "se".into()
        })
    );
    // Closed ref target: no longer completing inside it.
    assert_eq!(completion_context("see @ref[done.brf]"), None);
    // Emails and mid-word @ must not trigger.
    assert_eq!(completion_context("mail me user@host"), None);
    assert_eq!(completion_context("plain text"), None);
}

#[test]
fn rel_path_is_component_wise() {
    assert_eq!(rel_path("/p/root", "/p/root/docs/deep.brf").as_deref(), Some("docs/deep.brf"));
    assert_eq!(rel_path("/p/root/", "/p/root//a/./b.brf").as_deref(), Some("a/b.brf"));
    assert!(rel_path("/p/root", "/elsewhere/x.brf").is_none());
    assert!(rel_path("/p/root", "/p/rootless/x.brf").is_none());
}

#[test]
fn ref_and_heading_lookups_take_the_first_match() {
    let src = "# A {#a}\n\n## B {#b}\n\nSee @ref[x.brf](X) and *@ref[y.brf#z](Y)*.\n";
    let doc = parse_doc(src);
    let refs = brief::analysis::collect_refs(&doc);
    assert_eq!(refs.len(), 2);
    assert_eq!(refs[0].target, "x.brf");
    assert_eq!(refs[1].target, "y.brf#z");
    let at = src.find("y.brf").unwrap();
    assert_eq!(brief::analysis::ref_at(&doc, at).unwrap().target, "y.brf#z");
    assert!(brief::analysis::ref_at(&doc, 0).is_none());
    assert_eq!(
        brief::analysis::heading_span_for_anchor(&doc, "b").unwrap().start as usize,
        src.find("## B").unwrap()
    );
    let hs = brief::analysis::collect_headings(&doc);
    assert_eq!(hs.len(), 2);
    assert_eq!(hs[1].anchor.as_deref(), Some("b"));
}

#[test]
fn each_heading_owns_deeper_followers_until_a_shallower_one() {
    let mk = |level: u8| brief::analysis::HeadingInfo {
        level,
        text: String::new(),
        anchor: None,
        span: brief::span::Span::dummy(),
    };
    let headings = vec![mk(2), mk(3), mk(1), mk(2), mk(3), mk(2)];
    let tree = nest_headings(&headings);
    let idx: Vec<usize> = tree.iter().map(|n| n.idx).collect();
    assert_eq!(idx, vec![0, 2]);
    assert_eq!(tree[0].children.len(), 1);
    assert_eq!(tree[0].children[0].idx, 1);
    let under_top: Vec<usize> = tree[1].children.iter().map(|n| n.idx).collect();
    assert_eq!(under_top, vec![3, 5]);
    assert_eq!(tree[1].children[0].children[0].idx, 4);
    assert!(nest_headings(&Vec::new()).is_empty());
}

#[test]
fn rel_path_compares_components() {
    assert_eq!(rel_path("/r", "/r/./a//b.brf").as_deref(), Some("a/b.brf"));
    assert_eq!(rel_path("/r/", "/r").as_deref(), Some(""));
    assert!(rel_path("/r/x", "/r").is_none());
    assert!(rel_path("/ra", "/r/a").is_none());
    assert!(rel_path("a", "/a/b").is_none());
}
