use brief::diag::{render, Code, Diagnostic};
use brief::span::{SourceMap, Span};

#[test]
fn renders_with_caret() {
    let src = SourceMap::new("doc.brf", "abc\nhello world\n");
    let span = Span::new(4, 5);
    let d = Diagnostic::new(Code::UnexpectedChar, span).label("here");
    let out = render(&d, &src);
    assert!(out.contains("error[B0104]"));
    assert!(out.contains("doc.brf:2:1"));
    assert!(out.contains("hello world"));
    assert!(out.contains("^^^^^"));
}

#[test]
fn ref_codes_render_with_correct_prefix() {
    assert_eq!(Code::RefMissingFile.as_str(), "B0601");
    assert_eq!(Code::RefMissingAnchor.as_str(), "B0602");
    assert_eq!(Code::RefBadTarget.as_str(), "B0603");
    assert_eq!(Code::RefNoProject.as_str(), "B0604");
    assert!(Code::RefMissingFile.message().contains("file"));
    assert!(Code::RefMissingAnchor.message().contains("anchor"));
    assert!(Code::RefBadTarget.message().contains("target"));
    assert!(Code::RefNoProject.message().contains("brief.toml"));
}

#[test]
fn bad_definition_list_code_renders() {
    assert_eq!(Code::BadDefinitionList.as_str(), "B0505");
    assert!(Code::BadDefinitionList.message().contains("definition list"));
}

#[test]
fn every_code_number_is_distinct() {
    let all = Code::all();
    for i in 0..all.len() {
        for j in (i + 1)..all.len() {
            assert_ne!(all[i].as_str(), all[j].as_str());
        }
    }
}

#[test]
fn span_join_covers_both() {
    let a = Span::new(3, 4);
    let b = Span::new(10, 2);
    let j = a.join(b);
    assert_eq!(j.start, 3);
    assert_eq!(j.len, 9);
    assert_eq!(b.join(a), j);
}

#[test]
fn line_col_and_line_text() {
    let src = SourceMap::new("d.brf", "ab\ncdé\r\nx");
    assert_eq!(src.line_col(0), (1, 1));
    assert_eq!(src.line_col(4), (2, 2));
    assert_eq!(src.line_text(2), "cdé");
    assert_eq!(src.line_text(3), "x");
}

#[test]
fn render_is_exact_with_label_and_help() {
    let src = SourceMap::new("doc.brf", "abc\nhello world\n");
    let d = Diagnostic::new(Code::UnexpectedChar, Span::new(10, 20))
        .label("here")
        .help("fix it");
    assert_eq!(
        render(&d, &src),
        "error[B0104]: unexpected character\n  --> doc.brf:2:7\n   |\n  2 | hello world\n   |       ^^^^^ here\n   |\n   = help: fix it\n"
    );
    let w = Diagnostic::warning(Code::TabCharacter, Span::new(1, 0));
    assert_eq!(
        render(&w, &src),
        "warning[B0102]: tab character is not allowed; use two spaces\n  --> doc.brf:1:2\n   |\n  1 | abc\n   |  ^ \n"
    );
}

#[test]
fn render_all_clamped_moves_late_spans_to_the_end() {
    let src = SourceMap::new("d.brf", "ab\n");
    let d = Diagnostic::new(Code::EmptyDocument, Span::new(50, 1));
    let out = brief::diag::render_all_clamped(&vec![d.clone(), d], &src);
    let one = "error[B0309]: document is empty\n  --> d.brf:2:1\n   |\n  2 | \n   | ^ \n";
    assert_eq!(out, format!("{}\n{}", one, one));
}

#[test]
fn messages_and_explanations_are_fixed_texts() {
    assert_eq!(Code::HeadingTooDeep.message(), "heading level exceeds maximum of 6");
    assert!(Code::TabCharacter.explain().starts_with("Tabs are forbidden"));
}
