use brief::fmt::{compare, CheckResult, Opts};

#[test]
fn compare_is_equality() {
    assert_eq!(compare("a\n", "a\n"), CheckResult::Unchanged);
    assert_eq!(compare("a\n", "a"), CheckResult::WouldChange);
}

#[test]
fn output_ends_with_single_newline_and_no_cr() {
    for src in ["a", "a\r\n\r\n\r\n", "\u{feff}x\ry", "  \n\n", "```\r\nq\r\n```"] {
        let out = brief::fmt::format(src, &Opts::default());
        assert!(out.is_empty() || out.ends_with('\n'), "{:?}", out);
        assert!(!out.contains('\r'), "{:?}", out);
    }
}

#[test]
fn table_cells_are_aligned_last_unpadded() {
    assert_eq!(brief::fmt::format("@t\n|a|bb|c\n|dddd|e|f\n", &Opts::default()), "@t\n| a    | bb | c\n| dddd | e  | f\n");
}

#[test]
fn formatted_text_has_only_line_feeds() {
    let src = "# T\r\n\r\n\r\ntext  \r\n```\r\ncode\r\n```\r\n| a |b|\r\n";
    let out = brief::fmt::format(src, &brief::fmt::Opts::default());
    assert!(!out.contains('\r'), "{:?}", out);
    assert!(out.ends_with('\n'));
}
