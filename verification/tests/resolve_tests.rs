use brief::ast::Document;
use brief::diag::{Code, Diagnostic, Severity};
use brief::lexer;
use brief::parser;
use brief::project::ProjectIndex;
use brief::resolve::{resolve, resolve_with_project, ResolveProject};
use brief::shortcode::Registry;
use brief::span::SourceMap;
use brief::strmap::StrMap;

fn parse_only(src: &str) -> Document {
    let src = SourceMap::new("t.brf", src);
    let tokens = lexer::lex(&src).expect("lex");
    let (doc, _) = parser::parse(tokens, &src);
    doc
}

fn set_of(items: &[&str]) -> StrMap<()> {
    let mut s = StrMap::new();
    for i in items {
        s.insert(i.to_string(), ());
    }
    s
}

fn run_resolve(brief: &str, current: &str, files: &[(&str, &[&str])]) -> (Document, Vec<Diagnostic>) {
    let mut doc = parse_only(brief);
    let mut idx = ProjectIndex { root: "/tmp/p".to_string(), ..Default::default() };
    for (path, anchors) in files {
        idx.anchors.insert(path.to_string(), set_of(anchors));
    }
    let project = ResolveProject { index: &idx, current };
    let reg = Registry::with_builtins();
    let diags = resolve_with_project(&mut doc, &reg, Some(&project));
    (doc, diags)
}

fn has(diags: &[Diagnostic], c: Code) -> bool {
    diags.iter().any(|d| d.code == c)
}

#[test]
fn resolved_refs_starts_empty() {
    let doc = parse_only("hello\n");
    assert!(doc.resolved_refs.is_empty());
}

#[test]
fn unknown_keyword_arg_is_b0409() {
    let mut doc = parse_only("@details(summary: \"s\", bogus: 1)\nx\n@end\n");
    let reg = Registry::with_builtins();
    let diags = resolve(&mut doc, &reg);
    assert!(
        diags.iter().any(|d| d.code == Code::UnknownArg),
        "diags: {:?}",
        diags
    );
}

#[test]
fn declared_keyword_arg_passes() {
    let mut doc = parse_only("@details(summary: \"s\")\nx\n@end\n");
    let reg = Registry::with_builtins();
    let diags = resolve(&mut doc, &reg);
    assert!(
        diags.iter().all(|d| d.code != Code::UnknownArg),
        "diags: {:?}",
        diags
    );
}

#[test]
fn resolve_project_records_valid_ref() {
    let mut doc = parse_only("See @ref[other.brf#x](Other).\n");
    let mut idx = ProjectIndex {
        root: "/tmp/proj".to_string(),
        ..Default::default()
    };
    idx.anchors.insert("other.brf".to_string(), set_of(&["x"]));
    let project = ResolveProject {
        index: &idx,
        current: "here.brf",
    };
    let reg = Registry::with_builtins();
    let diags = resolve_with_project(&mut doc, &reg, Some(&project));
    assert!(
        diags
            .iter()
            .all(|d| d.severity != Severity::Error),
        "diags: {:?}",
        diags,
    );
    assert_eq!(doc.resolved_refs.len(), 1);
}


#[test]
fn ref_to_unknown_file_is_b0601() {
    let (_, diags) = run_resolve(
        "See @ref[missing.brf#x](Foo).\n",
        "here.brf",
        &[("here.brf", &[])],
    );
    assert!(has(&diags, Code::RefMissingFile), "{:?}", diags);
}

#[test]
fn ref_to_unknown_anchor_is_b0602() {
    let (_, diags) = run_resolve(
        "See @ref[other.brf#missing](Foo).\n",
        "here.brf",
        &[("other.brf", &["present"])],
    );
    assert!(has(&diags, Code::RefMissingAnchor), "{:?}", diags);
}

#[test]
fn ref_with_dot_dot_is_b0603() {
    let (_, diags) = run_resolve(
        "See @ref[../escape.brf](Foo).\n",
        "here.brf",
        &[("here.brf", &[])],
    );
    assert!(has(&diags, Code::RefBadTarget), "{:?}", diags);
}

#[test]
fn ref_without_brf_extension_is_b0603() {
    let (_, diags) = run_resolve(
        "See @ref[no-extension](Foo).\n",
        "here.brf",
        &[("here.brf", &[])],
    );
    assert!(has(&diags, Code::RefBadTarget), "{:?}", diags);
}

#[test]
fn resolve_ref_outside_project_is_b0604() {
    let mut doc = parse_only("@ref[a.brf](X)\n");
    let reg = Registry::with_builtins();
    let diags = resolve_with_project(&mut doc, &reg, None);
    assert!(has(&diags, Code::RefNoProject), "{:?}", diags);
}

#[test]
fn valid_ref_records_in_resolved_refs() {
    let (doc, diags) = run_resolve(
        "See @ref[other.brf#x](Other).\n",
        "here.brf",
        &[("other.brf", &["x"])],
    );
    assert!(diags.iter().all(|d| d.code != Code::RefMissingFile
        && d.code != Code::RefMissingAnchor
        && d.code != Code::RefBadTarget
        && d.code != Code::RefNoProject));
    assert_eq!(doc.resolved_refs.len(), 1);
    let (_span, rr) = &doc.resolved_refs.entries()[0];
    assert_eq!(rr.target_path, "other.brf");
    assert_eq!(rr.target_anchor.as_deref(), Some("x"));
    assert_eq!(rr.display, "Other");
}

#[test]
fn ref_to_self_is_allowed_when_anchor_exists() {
    let (doc, diags) = run_resolve(
        "## Top {#top}\n\nSee @ref[here.brf#top](Top).\n",
        "here.brf",
        &[("here.brf", &["top"])],
    );
    assert!(
        diags
            .iter()
            .all(|d| d.severity != Severity::Error),
        "diags: {:?}",
        diags,
    );
    assert_eq!(doc.resolved_refs.len(), 1);
}

#[test]
fn ref_with_no_anchor_resolves_against_file_only() {
    let (doc, diags) = run_resolve(
        "See @ref[other.brf](Other).\n",
        "here.brf",
        &[("other.brf", &[])],
    );
    assert!(
        diags
            .iter()
            .all(|d| d.severity != Severity::Error),
        "{:?}",
        diags
    );
    assert_eq!(doc.resolved_refs.len(), 1);
    let (_span, rr) = &doc.resolved_refs.entries()[0];
    assert!(rr.target_anchor.is_none());
}

#[test]
fn empty_ref_body_outside_project_is_b0604_not_b0603() {
    let mut doc = parse_only("@ref[](X)\n");
    let reg = Registry::with_builtins();
    let diags = resolve_with_project(&mut doc, &reg, None);
    assert!(
        has(&diags, Code::RefNoProject),
        "expected B0604 first; got {:?}",
        diags
    );
    assert!(
        !has(&diags, Code::RefBadTarget),
        "B0603 should not fire when there is no project: {:?}",
        diags
    );
}

