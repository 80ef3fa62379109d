use brief::ast::{Block, CodeAttrs, Document, Inline};
use brief::diag::{Code, Diagnostic};
use brief::lexer::lex;
use brief::parser::parse;
use brief::span::SourceMap;

fn p(s: &str) -> (Document, Vec<Diagnostic>) {
    let src = SourceMap::new("d.brf", s);
    let toks = lex(&src).unwrap();
    parse(toks, &src)
}

#[test]
fn parser_heading_levels() {
    let (doc, d) = p("# A\n## B\n");
    assert!(d.is_empty(), "{:?}", d);
    assert_eq!(doc.blocks.len(), 2);
    if let Block::Heading { level, .. } = doc.blocks[0] {
        assert_eq!(level, 1);
    }
    if let Block::Heading { level, .. } = doc.blocks[1] {
        assert_eq!(level, 2);
    }
}

#[test]
fn heading_too_deep() {
    let (_, d) = p("####### x\n");
    assert!(d.iter().any(|x| x.code == Code::HeadingTooDeep));
}

#[test]
fn ordered_sequence() {
    let (_, d) = p("1. one\n3. three\n");
    assert!(d.iter().any(|x| x.code == Code::OrderedListSequence));
}

#[test]
fn ordered_ok() {
    let (doc, d) = p("1. one\n2. two\n");
    assert!(d.is_empty(), "{:?}", d);
    assert!(matches!(doc.blocks[0], Block::List { ordered: true, .. }));
}

#[test]
fn unordered_nested() {
    let (doc, d) = p("- a\n  - a1\n- b\n");
    assert!(d.is_empty(), "{:?}", d);
    if let Block::List { items, .. } = &doc.blocks[0] {
        assert_eq!(items.len(), 2);
        assert_eq!(items[0].children.len(), 1);
    } else {
        panic!();
    }
}

#[test]
fn paragraph_join() {
    let (doc, d) = p("one\ntwo\n");
    assert!(d.is_empty());
    if let Block::Paragraph { content, .. } = &doc.blocks[0] {
        if let Inline::Text { value, .. } = &content[0] {
            assert_eq!(value, "one two");
        }
    }
}

#[test]
fn code_block() {
    let (doc, d) = p("```rust\nfn x() {}\n```\n");
    assert!(d.is_empty(), "{:?}", d);
    if let Block::CodeBlock {
        lang, body, attrs, ..
    } = &doc.blocks[0]
    {
        assert_eq!(lang.as_deref(), Some("rust"));
        assert_eq!(body, "fn x() {}");
        assert_eq!(*attrs, CodeAttrs::default());
    } else {
        panic!();
    }
}

#[test]
fn code_fence_nominify_attr() {
    let (doc, d) = p("```json @nominify\n{\"a\":1}\n```\n");
    assert!(d.is_empty(), "{:?}", d);
    if let Block::CodeBlock { lang, attrs, .. } = &doc.blocks[0] {
        assert_eq!(lang.as_deref(), Some("json"));
        assert!(attrs.nominify);
        assert!(!attrs.minify);
    } else {
        panic!();
    }
}

#[test]
fn code_fence_minify_attr() {
    let (doc, d) = p("```rust @minify\nfn x() {}\n```\n");
    assert!(d.is_empty(), "{:?}", d);
    if let Block::CodeBlock { lang, attrs, .. } = &doc.blocks[0] {
        assert_eq!(lang.as_deref(), Some("rust"));
        assert!(attrs.minify);
    } else {
        panic!();
    }
}

#[test]
fn code_fence_unknown_attr_errors() {
    let (_, d) = p("```json @bogus\n{}\n```\n");
    assert!(
        d.iter().any(|x| x.code == Code::UnknownCodeAttribute),
        "{:?}",
        d
    );
}

#[test]
fn code_fence_attr_without_at_sigil_errors() {
    let (_, d) = p("```json bogus\n{}\n```\n");
    assert!(
        d.iter().any(|x| x.code == Code::UnknownCodeAttribute),
        "{:?}",
        d
    );
}

#[test]
fn code_fence_conflicting_attrs() {
    let (_, d) = p("```json @nominify @minify\n{}\n```\n");
    assert!(
        d.iter().any(|x| x.code == Code::ConflictingCodeAttributes),
        "{:?}",
        d
    );
}

#[test]
fn code_fence_attr_only_no_lang() {
    // An attribute on the first non-whitespace position means the block
    // has no language; the attribute still parses.
    let (doc, d) = p("``` @nominify\nbody\n```\n");
    assert!(d.is_empty(), "{:?}", d);
    if let Block::CodeBlock { lang, attrs, .. } = &doc.blocks[0] {
        assert!(lang.is_none());
        assert!(attrs.nominify);
    } else {
        panic!();
    }
}

#[test]
fn table_basic() {
    let (doc, d) = p("@t\n| A | B\n| 1 | 2\n");
    assert!(d.is_empty(), "{:?}", d);
    if let Block::Table { rows, .. } = &doc.blocks[0] {
        assert_eq!(rows.len(), 1);
    } else {
        panic!("{:?}", doc.blocks);
    }
}

#[test]
fn table_column_mismatch() {
    let (_, d) = p("@t\n| A | B | C\n| 1 | 2\n");
    assert!(d.iter().any(|x| x.code == Code::TableColumnMismatch));
}

#[test]
fn table_pipe_inside_inline_code_span_is_not_a_separator() {
    // Production report issue #2: documenting `|>` should not blow up
    // the row's column count.
    let (doc, d) = p("@t\n| Op | Meaning\n| `|>` | pipeline\n");
    assert!(d.is_empty(), "{:?}", d);
    if let Block::Table { rows, .. } = &doc.blocks[0] {
        assert_eq!(rows.len(), 1, "{:?}", rows);
        assert_eq!(rows[0].cells.len(), 2);
    } else {
        panic!("expected table");
    }
}

#[test]
fn table_pipe_inside_double_backtick_span_is_not_a_separator() {
    let (doc, d) = p("@t\n| A | B\n| ``a ` b | c`` | d\n");
    assert!(d.is_empty(), "{:?}", d);
    if let Block::Table { rows, .. } = &doc.blocks[0] {
        assert_eq!(rows.len(), 1);
        assert_eq!(rows[0].cells.len(), 2);
    } else {
        panic!();
    }
}

#[test]
fn table_unclosed_backtick_in_row_reports_unterminated_code_not_column_mismatch() {
    let (_doc, d) = p("@t\n| A | B\n| `oops | c\n");
    assert!(
        d.iter().any(|x| x.code == Code::UnterminatedCode),
        "{:?}",
        d
    );
    assert!(
        !d.iter().any(|x| x.code == Code::TableColumnMismatch),
        "{:?}",
        d
    );
}

#[test]
fn table_unclosed_backtick_with_indented_row_diagnostic_anchors_correctly() {
    // Two-space-indented `@t` (legal — tables can appear inside
    // indented contexts). Diagnostic offset must include the leading
    // whitespace, not just the post-trim column.
    let (_doc, d) = p("  @t\n  | A | B\n  | `oops | c\n");
    let unterm: Vec<_> = d
        .iter()
        .filter(|x| x.code == Code::UnterminatedCode)
        .collect();
    assert_eq!(unterm.len(), 1, "{:?}", d);
}

#[test]
fn block_shortcode() {
    let (doc, d) = p("@callout(kind: warning)\nbody\n@end\n");
    assert!(d.is_empty(), "{:?}", d);
    assert!(matches!(doc.blocks[0], Block::BlockShortcode { .. }));
}

#[test]
fn hr() {
    let (doc, _) = p("---\n");
    assert!(matches!(doc.blocks[0], Block::HorizontalRule { .. }));
}

#[test]
fn frontmatter_basic() {
    let input = "+++\ntitle = \"hi\"\nn = 3\n+++\n# Doc\n";
    let (doc, d) = p(input);
    assert!(d.is_empty(), "{:?}", d);
    let meta = doc.metadata.as_ref().expect("metadata present");
    assert_eq!(meta.get("title").and_then(|v| v.as_str()), Some("hi"));
    assert_eq!(meta.get("n").and_then(|v| v.as_integer()), Some(3));
    assert_eq!(doc.blocks.len(), 1);
    assert!(matches!(doc.blocks[0], Block::Heading { level: 1, .. }));
}

#[test]
fn frontmatter_empty_table() {
    let (doc, d) = p("+++\n+++\n");
    assert!(d.is_empty(), "{:?}", d);
    let meta = doc.metadata.as_ref().expect("metadata present");
    assert!(meta.is_empty());
    assert!(doc.blocks.is_empty());
}

#[test]
fn frontmatter_unterminated() {
    let (_, d) = p("+++\nfoo = 1\n");
    assert!(
        d.iter().any(|x| x.code == Code::UnterminatedFrontmatter),
        "{:?}",
        d
    );
}

#[test]
fn frontmatter_bad_toml() {
    let (_, d) = p("+++\nfoo === 1\n+++\n");
    assert!(d.iter().any(|x| x.code == Code::FrontmatterToml), "{:?}", d);
}

#[test]
fn frontmatter_only_first_line() {
    // Leading blank line means the document does not start with `+++`,
    // so this is a stray paragraph, not frontmatter.
    let (doc, _d) = p("\n+++\nfoo = 1\n+++\n");
    assert!(doc.metadata.is_none());
}

#[test]
fn frontmatter_indented_is_not_frontmatter() {
    // Leading spaces on the opening line mean it's not a delimiter.
    let (doc, _d) = p("  +++\nfoo = 1\n+++\n");
    assert!(doc.metadata.is_none());
}

#[test]
fn frontmatter_no_open_means_none() {
    let (doc, _d) = p("# Heading\n");
    assert!(doc.metadata.is_none());
}

#[test]
fn frontmatter_crlf() {
    let input = "+++\r\ntitle = \"hi\"\r\n+++\r\n# Doc\r\n";
    let (doc, d) = p(input);
    assert!(d.is_empty(), "{:?}", d);
    let meta = doc.metadata.as_ref().expect("metadata present");
    assert_eq!(meta.get("title").and_then(|v| v.as_str()), Some("hi"));
}

#[test]
fn dl_basic_two_pairs() {
    let (doc, d) = p("@dl\nTerm 1\n: Definition 1.\nTerm 2\n: Definition 2.\n@end\n");
    assert!(d.is_empty(), "{:?}", d);
    let dl = match &doc.blocks[0] {
        Block::DefinitionList { items, .. } => items,
        other => panic!("expected DefinitionList, got {:?}", other),
    };
    assert_eq!(dl.len(), 2);
    let term0 = match &dl[0].term[0] {
        Inline::Text { value, .. } => value.as_str(),
        _ => panic!("expected Text in term"),
    };
    let def0 = match &dl[0].definition[0] {
        Inline::Text { value, .. } => value.as_str(),
        _ => panic!("expected Text in definition"),
    };
    assert_eq!(term0, "Term 1");
    assert_eq!(def0, "Definition 1.");
    let term1 = match &dl[1].term[0] {
        Inline::Text { value, .. } => value.as_str(),
        _ => panic!("expected Text in term"),
    };
    assert_eq!(term1, "Term 2");
}

#[test]
fn dl_continuation_joins_with_space() {
    let input = "@dl\nTerm\n: Definition that\n  spans two lines.\n@end\n";
    let (doc, d) = p(input);
    assert!(d.is_empty(), "{:?}", d);
    let items = match &doc.blocks[0] {
        Block::DefinitionList { items, .. } => items,
        other => panic!("expected DefinitionList, got {:?}", other),
    };
    assert_eq!(items.len(), 1);
    let def_text = match &items[0].definition[0] {
        Inline::Text { value, .. } => value.as_str(),
        _ => panic!("expected Text"),
    };
    assert_eq!(def_text, "Definition that spans two lines.");
}

#[test]
fn dl_definition_without_term_is_b0505() {
    let (_, d) = p("@dl\n: Stray definition.\nTerm\n: Def.\n@end\n");
    assert!(
        d.iter().any(|x| x.code == Code::BadDefinitionList),
        "{:?}",
        d
    );
}

#[test]
fn dl_term_without_definition_is_b0505() {
    let (_, d) = p("@dl\nLonely term\n@end\n");
    assert!(
        d.iter().any(|x| x.code == Code::BadDefinitionList),
        "{:?}",
        d
    );
}

#[test]
fn dl_multiple_definitions_per_term_is_b0505() {
    let (_, d) = p("@dl\nTerm\n: First def.\n: Second def.\n@end\n");
    assert!(
        d.iter().any(|x| x.code == Code::BadDefinitionList),
        "{:?}",
        d
    );
}

#[test]
fn dl_empty_body_is_b0505() {
    let (_, d) = p("@dl\n@end\n");
    assert!(
        d.iter().any(|x| x.code == Code::BadDefinitionList),
        "{:?}",
        d
    );
}

#[test]
fn dl_unterminated_is_b0306() {
    let (_, d) = p("@dl\nTerm\n: Def.\n");
    assert!(
        d.iter().any(|x| x.code == Code::UnterminatedBlock),
        "{:?}",
        d
    );
}


#[test]
fn empty_definition_list_is_reported() {
    let (doc, diags) = p("@dl\n@end\n");
    assert!(matches!(doc.blocks[0], Block::DefinitionList { ref items, .. } if items.is_empty()));
    assert!(diags.iter().any(|d| d.code == Code::BadDefinitionList));
}
