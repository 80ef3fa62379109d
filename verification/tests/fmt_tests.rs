use brief::fmt::{check, CheckResult, Opts};

fn fmt(s: &str) -> String {
    brief::fmt::format(s, &Opts::default())
}

#[test]
fn empty_input_stays_empty() {
    assert_eq!(fmt(""), "");
}

#[test]
fn single_line_gains_trailing_newline() {
    assert_eq!(fmt("hello"), "hello\n");
}

#[test]
fn strips_trailing_whitespace() {
    assert_eq!(fmt("hello   \nworld\t \n"), "hello\nworld\n");
}

#[test]
fn collapses_runs_of_blank_lines() {
    assert_eq!(fmt("a\n\n\n\nb\n"), "a\n\nb\n");
}

#[test]
fn trims_leading_and_trailing_blank_lines() {
    assert_eq!(fmt("\n\nhello\n\n\n"), "hello\n");
}

#[test]
fn normalizes_crlf_to_lf() {
    assert_eq!(fmt("a\r\nb\r\n"), "a\nb\n");
}

#[test]
fn normalizes_bare_cr_to_lf() {
    assert_eq!(fmt("a\rb\r"), "a\nb\n");
}

#[test]
fn strips_leading_bom() {
    assert_eq!(fmt("\u{feff}hello\n"), "hello\n");
}

#[test]
fn replaces_leading_tabs_with_two_spaces() {
    assert_eq!(fmt("\t- item\n"), "  - item\n");
    assert_eq!(fmt("\t\t- item\n"), "    - item\n");
}

#[test]
fn preserves_emphasis_markers_verbatim() {
    let src = "*bold* and _underline_ and /italic/ and ~strike~\n";
    assert_eq!(fmt(src), src);
}

#[test]
fn preserves_inline_shortcode_arg_order() {
    let src = "see @link(href: \"x\", title: \"Y\")\n";
    assert_eq!(fmt(src), src);
}

#[test]
fn preserves_code_fence_body_verbatim() {
    let src = "```rust\n  fn  x  (  )  {  }   \n```\n";
    // Body line preserved including its weird interior spacing AND its
    // trailing whitespace (lexer strips trailing ws anyway, so this
    // stays as-is).
    let out = fmt(src);
    assert!(out.contains("  fn  x  (  )  {  }   "));
}

#[test]
fn aligns_table_columns() {
    let src = "@t\n| Header | B\n| longcell | y\n| z | other\n";
    let out = fmt(src);
    let expected = "\
@t
| Header   | B
| longcell | y
| z        | other
";
    assert_eq!(out, expected);
}

#[test]
fn table_alignment_handles_indent() {
    let src = "  @t\n  | A | B\n  | longer | y\n";
    let out = fmt(src);
    let expected = "  @t\n  | A      | B\n  | longer | y\n";
    assert_eq!(out, expected);
}

#[test]
fn table_with_args() {
    let src = "@t(align: [\"left\", \"right\"])\n| A | B\n| 1 | 22\n";
    let out = fmt(src);
    let expected = "@t(align: [\"left\", \"right\"])\n| A | B\n| 1 | 22\n";
    assert_eq!(out, expected);
}

#[test]
fn frontmatter_passthrough_by_default() {
    let src = "+++\nz = 1\na = 2\n+++\n# Doc\n";
    assert_eq!(fmt(src), src);
}

#[test]
fn frontmatter_sort_when_opted_in() {
    let opts = Opts {
        sort_frontmatter: true,
    };
    let src = "+++\nz = 1\na = 2\n+++\n# Doc\n";
    let out = brief::fmt::format(src, &opts);
    // Sorted: a then z.
    let header_end = out.find("+++\n").unwrap() + 4;
    let between = &out[header_end..];
    let close = between.find("+++").unwrap();
    let body = &between[..close];
    let a_pos = body.find("a = ").unwrap();
    let z_pos = body.find("z = ").unwrap();
    assert!(a_pos < z_pos, "frontmatter not sorted: {:?}", body);
}

#[test]
fn frontmatter_with_invalid_toml_unchanged_body() {
    let opts = Opts {
        sort_frontmatter: true,
    };
    let src = "+++\nfoo === 1\n+++\n";
    let out = brief::fmt::format(src, &opts);
    // Bad TOML: body preserved (don't drop data).
    assert!(out.contains("foo === 1"));
}

#[test]
fn frontmatter_unterminated_left_alone() {
    // Without a closing +++, fmt treats the opening line as Default
    // content so the parse error is still visible at compile time.
    let src = "+++\nfoo = 1\n";
    let out = fmt(src);
    assert!(out.contains("+++"));
    assert!(out.contains("foo = 1"));
}

#[test]
fn block_comment_body_preserved() {
    let src = "/*\n  multi\n  line\n*/\nbody\n";
    let out = fmt(src);
    assert!(out.contains("  multi"));
    assert!(out.contains("  line"));
}

#[test]
fn does_not_collapse_blank_lines_inside_code_fence() {
    let src = "```rust\nfn x() {\n\n\n}\n```\n";
    let out = fmt(src);
    // Three newlines between `{` and `}` (i.e. two blank lines).
    assert!(out.contains("fn x() {\n\n\n}"));
}

#[test]
fn does_not_reorder_paragraphs() {
    let src = "third\n\nfirst\n\nsecond\n";
    assert_eq!(fmt(src), src);
}

#[test]
fn idempotent_on_already_formatted() {
    let src = "# Hello\n\nThis is a paragraph.\n\n@t\n| A | B\n| 1 | 2\n";
    let once = fmt(src);
    let twice = fmt(&once);
    assert_eq!(once, twice);
}

#[test]
fn idempotent_on_unformatted() {
    let inputs = [
        "  # heading   \n\n\n\nbody\n",
        "@t\n| a | b\n| longercell | y\n",
        "+++\nz = 1\na = 2\n+++\n# x\n",
        "```rust\n  fn x() {}\n```\n",
        "/*\n comment\n*/\n# heading\n",
        "\thello\n\t\tworld\n",
        "",
    ];
    for src in &inputs {
        let once = fmt(src);
        let twice = fmt(&once);
        assert_eq!(once, twice, "not idempotent for: {:?}", src);
    }
}

#[test]
fn idempotent_with_sort_frontmatter() {
    let opts = Opts {
        sort_frontmatter: true,
    };
    let src = "+++\nz = 1\na = 2\nm = \"x\"\n+++\nbody\n";
    let once = brief::fmt::format(src, &opts);
    let twice = brief::fmt::format(&once, &opts);
    assert_eq!(once, twice);
}

#[test]
fn check_returns_unchanged_for_canonical_input() {
    let src = "hello\n";
    assert_eq!(check(src, &Opts::default()), CheckResult::Unchanged);
}

#[test]
fn check_returns_would_change_for_dirty_input() {
    let src = "hello   \n";
    assert_eq!(check(src, &Opts::default()), CheckResult::WouldChange);
}

#[test]
fn nested_list_indentation_preserved() {
    let src = "- top\n  - nested\n    - deeper\n";
    assert_eq!(fmt(src), src);
}

#[test]
fn hard_break_backslash_preserved_after_trailing_ws_strip() {
    // Trailing spaces after the `\` are stripped; the `\` itself stays.
    let src = "line one \\   \nline two\n";
    let out = fmt(src);
    assert_eq!(out, "line one \\\nline two\n");
}

#[test]
fn empty_table_row_handled() {
    let src = "@t\n|\n";
    let out = fmt(src);
    // Single empty cell: `|` followed by ` ` then nothing (last cell),
    // so we render `| ` — but since the cell is empty and is the last
    // column, no trailing pad. `|` alone with one space.
    assert!(out.starts_with("@t\n|"));
}

#[test]
fn unicode_in_table_cells_aligns_by_codepoint() {
    // Codepoint-based alignment; users with East Asian wide chars will
    // still see slight visual misalignment in monospace fonts. Documented.
    let src = "@t\n| α | b\n| longer | y\n";
    let out = fmt(src);
    assert!(out.contains("| α      | b"));
    assert!(out.contains("| longer | y"));
}

#[test]
fn comment_lines_stay_in_place() {
    let src = "// a comment\n# heading\n";
    // Single-line `//` comments are not classified as a region (they're
    // Default content); they pass through unchanged.
    assert_eq!(fmt(src), src);
}

#[test]
fn block_shortcode_unchanged() {
    let src = "@callout(kind: warning)\nhello\n@end\n";
    assert_eq!(fmt(src), src);
}

#[test]
fn fmt_idempotent_on_dl_example() {
    let src = "@dl\nTerm 1\n: Definition of term 1.\nTerm 2\n: Definition of term 2.\n@end\n";
    let once = fmt(src);
    let twice = fmt(&once);
    assert_eq!(once, twice, "fmt is not idempotent on @dl");
    // Canonical input shouldn't be rewritten.
    assert_eq!(once, src, "fmt rewrote canonical @dl source");
}

