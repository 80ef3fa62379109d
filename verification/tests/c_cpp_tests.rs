use brief::minify::c_cpp::minify;
use brief::minify::MinifyOptions;


fn min_c(s: &str) -> String {
    minify(s, &MinifyOptions::default(), false).unwrap().body
}
fn min_cpp(s: &str) -> String {
    minify(s, &MinifyOptions::default(), true).unwrap().body
}

#[test]
fn c_basic() {
    let src = "int main() {\n    return 0;\n}\n";
    assert_eq!(min_c(src), "int main(){return 0;}");
}

#[test]
fn c_cpp_c_preprocessor_kept_on_own_line() {
    let src = "#include <stdio.h>\nint main() { return 0; }\n";
    let out = min_c(src);
    assert!(
        out.starts_with("#include <stdio.h>\n"),
        "preproc on own line: {:?}",
        out
    );
    assert!(out.contains("int main(){return 0;}"));
}

#[test]
fn c_multiple_preprocessor_lines() {
    let src = "#include <stdio.h>\n#include <stdlib.h>\nint x;\n";
    let out = min_c(src);
    assert_eq!(out, "#include <stdio.h>\n#include <stdlib.h>\nint x;");
}

#[test]
fn c_define_with_continuation() {
    let src = "#define FOO(x) \\\n    do { x; } while (0)\nint y = 1;\n";
    let out = min_c(src);
    // The whole `#define` line, including its `\<nl>` continuations,
    // is one Preproc token; the next `int y = 1;` is on a new line.
    assert!(out.starts_with("#define FOO(x) \\\n    do { x; } while (0)\n"));
    assert!(out.ends_with("int y=1;"));
}

#[test]
fn c_strips_line_comment() {
    let src = "// hi\nint x;\n";
    assert_eq!(min_c(src), "int x;");
}

#[test]
fn c_strips_block_comment() {
    let src = "/* hi */ int x;\n";
    assert_eq!(min_c(src), "int x;");
}

#[test]
fn cpp_template_double_close() {
    // C++11+ parsers correctly disambiguate `>>` in template contexts
    // from the right-shift operator, so collapsing the source `>> ` to
    // `>>` is safe. The lexer emits `>>` as one Punct because the
    // source already had them adjacent.
    let src = "vector<vector<int>> v;";
    let out = min_cpp(src);
    assert_eq!(out, "vector<vector<int>>v;");
}

#[test]
fn cpp_template_with_space_at_close() {
    // If the source separated the closing `> >` with a space, the
    // lexer sees them as two separate Puncts; the emitter then injects
    // a space because `>` `>` is in the dangerous-pair table.
    let src = "vector<vector<int> > v;";
    let out = min_cpp(src);
    assert!(out.contains("> >"), "got: {}", out);
}

#[test]
fn cpp_raw_string() {
    let src = r#"const char* s = R"x(hi)x";"#;
    let out = min_cpp(src);
    assert!(out.contains(r#"R"x(hi)x""#), "got: {}", out);
}

#[test]
fn cpp_wide_string() {
    let src = "const wchar_t* s = L\"hi\";";
    let out = min_cpp(src);
    assert!(out.contains("L\"hi\""));
}

#[test]
fn cpp_u8_string() {
    let src = "const char* s = u8\"hi\";";
    let out = min_cpp(src);
    assert!(out.contains("u8\"hi\""));
}

#[test]
fn cpp_arrow_member() {
    let src = "p->x = 1;";
    let out = min_cpp(src);
    assert_eq!(out, "p->x=1;");
}

#[test]
fn cpp_scope_resolution() {
    let src = "std::string s;";
    let out = min_cpp(src);
    assert_eq!(out, "std::string s;");
}

#[test]
fn c_keep_comments() {
    let src = "// hi\nint x;\n";
    let r = minify(
        src,
        &MinifyOptions {
            keep_comments: true,
        },
        false,
    )
    .unwrap();
    assert!(r.body.starts_with("/* hi*/"));
    assert_eq!(r.warnings.len(), 1);
}

#[test]
fn c_unterminated_block_comment() {
    assert!(minify("/* unterminated", &MinifyOptions::default(), false).is_err());
}

#[test]
fn c_unterminated_string() {
    assert!(minify("char* s = \"oops", &MinifyOptions::default(), false).is_err());
}

