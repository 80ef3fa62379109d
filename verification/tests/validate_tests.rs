use brief::diag::{Code, Severity};
use brief::lexer::lex;
use brief::parser::parse;
use brief::resolve::{parse_target, resolve};
use brief::shortcode::{ArgValue, Registry};
use brief::span::SourceMap;
use brief::validate::{validate, ValidateOpts};
use brief::ast::{Block, Inline};

fn doc_of(s: &str) -> (brief::ast::Document, SourceMap) {
    let src = SourceMap::new("v.brf", s);
    let toks = lex(&src).unwrap();
    let (doc, d) = parse(toks, &src);
    assert!(d.is_empty(), "{:?}", d);
    (doc, src)
}

#[test]
fn heading_jump_reported_only_when_strict() {
    let (doc, src) = doc_of("# A\n### C\n");
    let strict = ValidateOpts { strict_heading_levels: true };
    let d = validate(&doc, &strict, &src);
    assert_eq!(d.len(), 1);
    assert_eq!(d[0].code, Code::HeadingMonotonic);
    assert_eq!(d[0].label.as_deref(), Some("heading level jumps from 1 to 3"));
    assert!(validate(&doc, &ValidateOpts::default(), &src).is_empty());
}

#[test]
fn duplicate_anchor_names_first_line() {
    let (doc, src) = doc_of("# A {#x}\n\n## B {#x}\n");
    let d = validate(&doc, &ValidateOpts::default(), &src);
    assert_eq!(d.len(), 1);
    assert_eq!(d[0].code, Code::DuplicateHeadingAnchor);
    assert_eq!(d[0].label.as_deref(), Some("anchor `x` already used at line 1"));
}

#[test]
fn parse_target_splits_path_and_anchor() {
    assert_eq!(parse_target(" a/b.brf#top "), Ok(("a/b.brf".to_string(), Some("top".to_string()))));
    assert_eq!(parse_target("a.brf"), Ok(("a.brf".to_string(), None)));
    assert!(parse_target("/abs.brf").is_err());
    assert!(parse_target("a\\b.brf").is_err());
    assert!(parse_target("a//b.brf").is_err());
    assert!(parse_target("./b.brf").is_err());
    assert!(parse_target("a.brf#").is_err());
    assert!(parse_target("a.brf#Bad").is_err());
    assert!(parse_target("a.txt").is_err());
    assert!(parse_target("   ").is_err());
}

#[test]
fn callout_info_is_rewritten_to_note_with_warning() {
    let (mut doc, _src) = doc_of("@callout(kind: info)\nbody\n@end\n");
    let reg = Registry::with_builtins();
    let d = resolve(&mut doc, &reg);
    assert!(d.iter().any(|x| x.code == Code::DeprecatedCalloutKind && x.severity == Severity::Warning), "{:?}", d);
    if let Block::BlockShortcode { args, .. } = &doc.blocks[0] {
        assert_eq!(args.keyword.get("kind"), Some(&ArgValue::Str("note".to_string())));
    } else {
        panic!();
    }
}

#[test]
fn positional_argument_binds_to_declared_position() {
    let (mut doc, _src) = doc_of("@link[here](https://x)\n");
    let reg = Registry::with_builtins();
    let d = resolve(&mut doc, &reg);
    assert!(d.is_empty(), "{:?}", d);
    if let Block::Paragraph { content, .. } = &doc.blocks[0] {
        if let Inline::Shortcode { args, .. } = &content[0] {
            assert!(args.positional.is_empty());
            assert_eq!(args.keyword.get("url"), Some(&ArgValue::Str("https://x".to_string())));
        } else {
            panic!("{:?}", content);
        }
    } else {
        panic!();
    }
}

#[test]
fn unknown_shortcode_and_br_are_reported() {
    let (mut doc, _src) = doc_of("x @nosuch[y] @br z\n");
    let reg = Registry::with_builtins();
    let d = resolve(&mut doc, &reg);
    assert_eq!(d.iter().filter(|x| x.code == Code::UnknownShortcode).count(), 2, "{:?}", d);
}

#[test]
fn heading_jump_points_at_the_deeper_heading() {
    let (doc, src) = doc_of("# A\n### C\n## D\n#### E\n");
    let strict = ValidateOpts { strict_heading_levels: true };
    let d = validate(&doc, &strict, &src);
    assert_eq!(d.len(), 2);
    let spans: Vec<_> = doc
        .blocks
        .iter()
        .filter_map(|b| match b {
            Block::Heading { span, .. } => Some(*span),
            _ => None,
        })
        .collect();
    assert_eq!(d[0].span, spans[1]);
    assert_eq!(d[1].span, spans[3]);
}
