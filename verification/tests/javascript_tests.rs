use brief::minify::javascript::minify;
use brief::minify::MinifyOptions;


fn min(s: &str) -> String {
    minify(s, &MinifyOptions::default()).unwrap().body
}

#[test]
fn basic_function() {
    let src = "function add(a, b) {\n    return a + b;\n}\n";
    let out = min(src);
    // Newlines preserved (ASI), horizontal ws stripped.
    assert_eq!(out, "function add(a,b){\nreturn a+b;\n}\n");
}

#[test]
fn strips_line_comment() {
    let src = "// hi\nlet x = 1;\n";
    let out = min(src);
    assert_eq!(out, "\nlet x=1;\n");
}

#[test]
fn strips_block_comment_inline() {
    let src = "let x = /* y */ 1;\n";
    let out = min(src);
    assert_eq!(out, "let x=1;\n");
}

#[test]
fn template_literal() {
    let src = "const s = `hello, ${name}!`;\n";
    let out = min(src);
    assert!(out.contains("`hello, ${name}!`"), "got: {}", out);
}

#[test]
fn nested_template() {
    let src = "const s = `a${`b${c}d`}e`;\n";
    let out = min(src);
    assert!(out.contains("`a${`b${c}d`}e`"), "got: {}", out);
}

#[test]
fn template_with_string_in_interpolation() {
    let src = "const s = `${\"hi\"}`;\n";
    let out = min(src);
    assert!(out.contains("`${\"hi\"}`"), "got: {}", out);
}

#[test]
fn regex_literal() {
    let src = "const re = /[a-z]+/gi;\n";
    let out = min(src);
    assert_eq!(out, "const re=/[a-z]+/gi;\n");
}

#[test]
fn regex_after_return() {
    let src = "function f() { return /\\d+/.test(x); }\n";
    let out = min(src);
    assert!(out.contains("/\\d+/"), "got: {}", out);
}

#[test]
fn division_after_value() {
    let src = "const x = a / b;\n";
    let out = min(src);
    assert_eq!(out, "const x=a/b;\n");
}

#[test]
fn division_after_paren() {
    let src = "const x = (a + b) / c;\n";
    let out = min(src);
    assert_eq!(out, "const x=(a+b)/c;\n");
}

#[test]
fn return_then_object_preserves_newline() {
    // ASI hazard: `return\n{x:1}` returns undefined. Stripping the
    // newline would change behavior. Conservative emitter preserves.
    let src = "function f() {\n    return\n    {x: 1};\n}\n";
    let out = min(src);
    assert!(
        out.contains("return\n"),
        "newline preserved after return: {:?}",
        out
    );
}

#[test]
fn arrow_function() {
    let src = "const f = (x) => x + 1;\n";
    let out = min(src);
    assert_eq!(out, "const f=(x)=>x+1;\n");
}

#[test]
fn nullish_coalescing() {
    let src = "const x = a ?? b;\n";
    let out = min(src);
    assert_eq!(out, "const x=a??b;\n");
}

#[test]
fn optional_chaining() {
    let src = "const x = obj?.prop;\n";
    let out = min(src);
    assert_eq!(out, "const x=obj?.prop;\n");
}

#[test]
fn strict_equality() {
    let src = "if (a === b) {}\n";
    let out = min(src);
    assert_eq!(out, "if(a===b){}\n");
}

#[test]
fn typescript_type_annotation() {
    let src = "function f(x: number): string { return String(x); }\n";
    let out = min(src);
    // Newline-free single-line input → single-line output.
    assert_eq!(out, "function f(x:number):string{return String(x);}\n");
}

#[test]
fn typescript_generic() {
    let src = "function f<T>(x: T): T { return x; }\n";
    let out = min(src);
    assert_eq!(out, "function f<T>(x:T):T{return x;}\n");
}

#[test]
fn double_quoted_string_with_escape() {
    let src = "const s = \"a\\\"b\";\n";
    let out = min(src);
    assert_eq!(out, "const s=\"a\\\"b\";\n");
}

#[test]
fn dollar_in_identifier() {
    let src = "const $foo = 1;\n";
    let out = min(src);
    assert_eq!(out, "const $foo=1;\n");
}

#[test]
fn keep_comments_converts_line() {
    let src = "// hi\nlet x = 1;\n";
    let r = minify(
        src,
        &MinifyOptions {
            keep_comments: true,
        },
    )
    .unwrap();
    assert!(r.body.contains("/* hi*/"));
    assert_eq!(r.warnings.len(), 1);
}

#[test]
fn unterminated_string() {
    assert!(minify("const s = \"oops", &MinifyOptions::default()).is_err());
}

#[test]
fn unterminated_template() {
    assert!(minify("const s = `oops", &MinifyOptions::default()).is_err());
}

#[test]
fn unterminated_regex() {
    assert!(minify("const r = /oops", &MinifyOptions::default()).is_err());
}

#[test]
fn regex_after_statement_block_brace() {
    // A `}` closing a statement block may be followed by a regex; the
    // whitespace inside it must survive.
    let src = "if (c) { g() } /foo  bar/.exec(s)\n";
    let out = min(src);
    assert!(out.contains("/foo  bar/"), "got: {}", out);
}

#[test]
fn regex_after_else_block_brace() {
    let src = "if (c) { g() } else { h() } /foo  bar/.exec(s)\n";
    let out = min(src);
    assert!(out.contains("/foo  bar/"), "got: {}", out);
}

#[test]
fn division_after_object_literal_brace() {
    // A `}` closing an object literal ends an expression; `/` here is
    // division and must not swallow code as a regex body.
    let src = "const x = {a: 1} / b / c;\n";
    let out = min(src);
    assert_eq!(out, "const x={a:1}/b/c;\n");
}

#[test]
fn nested_blocks_and_object_braces() {
    let src = "function f() { const o = {a: 1}; if (o) { g() } } /re  x/.test(s)\n";
    let out = min(src);
    assert!(out.contains("/re  x/"), "got: {}", out);
}

#[test]
fn regex_with_class() {
    let src = "const r = /[/]/g;\n";
    let out = min(src);
    assert!(out.contains("/[/]/g"), "got: {}", out);
}

#[test]
fn regex_at_start_of_file() {
    let src = "/abc/.test(s)\n";
    let out = min(src);
    assert!(out.starts_with("/abc/"), "got: {}", out);
}

