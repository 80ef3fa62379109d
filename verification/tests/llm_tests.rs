use brief::ast::{Block, DefinitionItem, Document, Inline, RefMap, ShortArgs};
use brief::emit::llm::{render, Opts};
use brief::lexer;
use brief::lexer::lex;
use brief::parser;
use brief::parser::parse;
use brief::project::ProjectIndex;
use brief::resolve::{resolve_with_project, ResolveProject};
use brief::shortcode::Registry;
use brief::span::{SourceMap, Span};
use brief::strmap::StrMap;

fn set_of(items: &[&str]) -> StrMap<()> {
    let mut s = StrMap::new();
    for i in items {
        s.insert(i.to_string(), ());
    }
    s
}

fn render_with(input: &str, opts: Opts) -> (String, Vec<String>) {
    let src = SourceMap::new("d.brf", input);
    let toks = lex(&src).unwrap();
    let (doc, diags) = parse(toks, &src);
    assert!(diags.is_empty(), "{:?}", diags);
    let reg = Registry::with_builtins();
    render(&doc, &reg, &opts)
}

fn render_default(input: &str) -> String {
    render_with(input, Opts::default()).0
}

fn opts_with_keep_metadata() -> Opts {
    Opts {
        keep_metadata: true,
        ..Opts::default()
    }
}

#[test]
fn llm_strips_frontmatter_by_default() {
    let out = render_default("+++\ntitle = \"hi\"\n+++\n# Doc\n");
    assert!(!out.contains("+++"), "{}", out);
    assert!(!out.contains("title"), "{}", out);
    assert!(out.contains("# Doc"));
}

#[test]
fn llm_keeps_frontmatter_with_flag() {
    let (out, _) = render_with(
        "+++\ntitle = \"hi\"\n+++\n# Doc\n",
        opts_with_keep_metadata(),
    );
    assert!(
        out.starts_with("+++\n"),
        "starts with: {:?}",
        &out[..20.min(out.len())]
    );
    assert!(out.contains("title"));
    assert!(out.contains("# Doc"));
    let close_pos = out.find("\n+++\n").expect("closing +++ missing");
    let doc_pos = out.find("# Doc").expect("body missing");
    assert!(close_pos < doc_pos, "closing +++ must precede body");
    assert!(
        out.contains("+++\n\n"),
        "blank line after closing +++ missing"
    );
}

#[test]
fn llm_keep_metadata_no_op_when_no_metadata() {
    let (out, _) = render_with("# Doc\n", opts_with_keep_metadata());
    assert!(!out.contains("+++"), "{}", out);
    assert!(out.contains("# Doc"));
}

#[test]
fn json_block_minified_by_default() {
    let (out, w) = render_with(
        "```json\n{\n  \"a\": 1,\n  \"b\": [1, 2, 3]\n}\n```\n",
        Opts::default(),
    );
    assert!(w.is_empty(), "unexpected warnings: {:?}", w);
    assert!(out.contains("{\"a\":1,\"b\":[1,2,3]}"), "{}", out);
    assert!(
        out.contains("```json"),
        "fence preserved by default: {}",
        out
    );
}

#[test]
fn json_block_with_nominify_kept_verbatim() {
    let src = "```json @nominify\n{\n  \"a\": 1\n}\n```\n";
    let (out, w) = render_with(src, Opts::default());
    assert!(w.is_empty());
    assert!(
        out.contains("\"a\": 1"),
        "must preserve whitespace: {}",
        out
    );
}

#[test]
fn invalid_json_falls_back_with_warning() {
    let src = "```json\n{ not valid }\n```\n";
    let (out, w) = render_with(src, Opts::default());
    assert!(out.contains("{ not valid }"), "verbatim body: {}", out);
    assert_eq!(w.len(), 1, "expected one B0701 warning");
    assert!(w[0].contains("B0701"));
}

#[test]
fn jsonl_block_minified() {
    let src = "```jsonl\n{\"a\": 1}\n{\"b\": 2}\n```\n";
    let (out, w) = render_with(src, Opts::default());
    assert!(w.is_empty(), "{:?}", w);
    assert!(out.contains("{\"a\":1}\n{\"b\":2}"), "{}", out);
}

#[test]
fn rust_block_minified_in_v0_3() {
    let src = "```rust\nfn x() {\n    // hi\n    1\n}\n```\n";
    let (out, w) = render_with(src, Opts::default());
    assert!(w.is_empty(), "{:?}", w);
    assert!(out.contains("fn x(){1}"), "minified rust: {}", out);
    assert!(!out.contains("// hi"), "comment dropped: {}", out);
}

#[test]
fn js_block_preserves_newlines() {
    let src = "```javascript\nfunction add(a, b) {\n    return a + b;\n}\n```\n";
    let (out, w) = render_with(src, Opts::default());
    assert!(w.is_empty(), "{:?}", w);
    assert!(
        out.contains("function add(a,b){\nreturn a+b;\n}"),
        "got: {}",
        out
    );
}

#[test]
fn ts_alias_minifies() {
    let src = "```ts\nfunction f(x: number): string { return String(x); }\n```\n";
    let (out, w) = render_with(src, Opts::default());
    assert!(w.is_empty(), "{:?}", w);
    assert!(
        out.contains("function f(x:number):string{return String(x);}"),
        "got: {}",
        out
    );
}

#[test]
fn sql_block_minified() {
    let src = "```sql\nSELECT *\nFROM users\nWHERE id = 1;\n```\n";
    let (out, w) = render_with(src, Opts::default());
    assert!(w.is_empty(), "{:?}", w);
    assert!(
        out.contains("SELECT*FROM users WHERE id=1;"),
        "got: {}",
        out
    );
}

#[test]
fn llm_c_preprocessor_kept_on_own_line() {
    let src = "```c\n#include <stdio.h>\nint main() { return 0; }\n```\n";
    let (out, w) = render_with(src, Opts::default());
    assert!(w.is_empty(), "{:?}", w);
    assert!(
        out.contains("#include <stdio.h>\nint main(){return 0;}"),
        "got: {}",
        out
    );
}

#[test]
fn cpp_alias_minifies_with_raw_string() {
    let src = "```cpp\nconst char* s = R\"x(hi)x\";\n```\n";
    let (out, w) = render_with(src, Opts::default());
    assert!(w.is_empty(), "{:?}", w);
    assert!(out.contains("R\"x(hi)x\""), "got: {}", out);
}

#[test]
fn java_block_minified() {
    let src = "```java\npublic class Foo {\n    @Override public void f() {}\n}\n```\n";
    let (out, w) = render_with(src, Opts::default());
    assert!(w.is_empty(), "{:?}", w);
    assert!(
        out.contains("public class Foo{@Override public void f(){}}"),
        "got: {}",
        out
    );
}

#[test]
fn go_block_preserves_newlines() {
    let src = "```go\nfunc add(a, b int) int {\n    return a + b\n}\n```\n";
    let (out, w) = render_with(src, Opts::default());
    assert!(w.is_empty(), "{:?}", w);
    assert!(
        out.contains("func add(a,b int)int{\nreturn a+b\n}"),
        "got: {}",
        out
    );
}

#[test]
fn keep_comments_emits_b0703() {
    let src = "```rust @minify-keep-comments\nfn x() {\n    // hi\n    1\n}\n```\n";
    let (out, w) = render_with(src, Opts::default());
    assert!(out.contains("/* hi*/"), "comment preserved: {}", out);
    assert!(
        w.iter().any(|s| s.contains("B0703")),
        "B0703 warning emitted: {:?}",
        w
    );
}

#[test]
fn refused_language_emits_b0704() {
    // `python` is permanently refused (significant whitespace). With
    // `@minify` forcing the attempt, the LLM emit pass surfaces a
    // B0704 error and falls back to verbatim output.
    let src = "```python @minify\ndef f(x):\n    return x\n```\n";
    let (out, w) = render_with(src, Opts::default());
    assert!(out.contains("def f(x):\n    return x"), "verbatim: {}", out);
    assert!(
        w.iter().any(|s| s.contains("B0704")),
        "B0704 emitted: {:?}",
        w
    );
}

#[test]
fn refused_language_silent_without_optin() {
    // No `@minify`, default allowlist excludes python — no warning.
    let opts = Opts {
        // Make sure python is NOT in the allowlist (default already
        // excludes it but be explicit for the test's intent).
        minify_languages: vec!["json".into()],
        ..Opts::default()
    };
    let src = "```python\nx = 1\n```\n";
    let (_out, w) = render_with(src, opts);
    assert!(w.is_empty(), "no warning expected: {:?}", w);
}

#[test]
fn long_block_emits_b0702() {
    // Build a 60-line JSON block (each line is its own array element).
    let mut body = String::from("[\n");
    for i in 0..60 {
        body.push_str(&format!("  {}", i));
        if i < 59 {
            body.push(',');
        }
        body.push('\n');
    }
    body.push(']');
    let src = format!("```json\n{}\n```\n", body);
    let (_out, w) = render_with(&src, Opts::default());
    assert!(
        w.iter().any(|s| s.contains("B0702")),
        "B0702 emitted for long block: {:?}",
        w
    );
}

#[test]
fn frontmatter_minify_code_false_disables() {
    let src = "+++\nminify_code = false\n+++\n```json\n{\"a\": 1}\n```\n";
    let (out, _) = render_with(src, Opts::default());
    // Whitespace between key and value is preserved; the minifier did
    // not run.
    assert!(out.contains("\"a\": 1"), "verbatim under override: {}", out);
}

#[test]
fn frontmatter_override_can_be_force_minified() {
    // `@minify` on a block overrides the document-level disable.
    let src = "+++\nminify_code = false\n+++\n```json @minify\n{\"a\": 1}\n```\n";
    let (out, _) = render_with(src, Opts::default());
    assert!(out.contains("{\"a\":1}"), "minified anyway: {}", out);
}

#[test]
fn config_disable_minification_globally() {
    let src = "```json\n{\"a\": 1}\n```\n";
    let opts = Opts {
        minify_code_blocks: false,
        ..Opts::default()
    };
    let (out, _) = render_with(src, opts);
    assert!(out.contains("\"a\": 1"), "disabled globally: {}", out);
}

#[test]
fn drop_fence_with_preserve_false() {
    let src = "```json\n{\"a\": 1}\n```\n";
    let opts = Opts {
        preserve_code_fences: false,
        ..Opts::default()
    };
    let (out, _) = render_with(src, opts);
    assert!(!out.contains("```"), "fence dropped: {}", out);
    assert!(out.contains("{\"a\":1}"));
}

#[test]
fn ref_renders_display_text_only_in_llm_mode() {
    // Parse + resolve with project so resolved_refs is populated.
    let src = "See @ref[other.brf#x](the spec).\n";
    let mut doc = {
        let s = SourceMap::new("t.brf", src);
        let tokens = lexer::lex(&s).expect("lex");
        let (d, _) = parser::parse(tokens, &s);
        d
    };
    let mut idx = ProjectIndex::default();
    idx.anchors.insert("other.brf".to_string(), set_of(&["x"]));
    let p = ResolveProject {
        index: &idx,
        current: "here.brf",
    };
    let reg = Registry::with_builtins();
    let _ = resolve_with_project(&mut doc, &reg, Some(&p));

    let opts = Opts::default();
    let (out, _warnings) = render(&doc, &reg, &opts);
    assert!(out.contains("the spec"), "got: {}", out);
    assert!(
        !out.contains("other.brf"),
        "url must be dropped in LLM mode: {}",
        out
    );
    assert!(
        !out.contains("#x"),
        "anchor must be dropped in LLM mode: {}",
        out
    );
}

#[test]
fn unresolved_ref_in_llm_falls_back_to_display_text() {
    let doc = {
        let s = SourceMap::new("t.brf", "See @ref[a.brf](just text).\n");
        let tokens = lexer::lex(&s).expect("lex");
        let (d, _) = parser::parse(tokens, &s);
        d
    };
    let reg = Registry::with_builtins();
    let opts = Opts::default();
    let (out, _) = render(&doc, &reg, &opts);
    assert!(out.contains("just text"), "got: {}", out);
    assert!(!out.contains("a.brf"));
}

#[test]
fn dl_renders_verbatim_brief_form() {
    let doc = Document {
        blocks: vec![Block::DefinitionList {
            args: ShortArgs::default(),
            items: vec![
                DefinitionItem {
                    term: vec![Inline::Text {
                        value: "Term1".into(),
                        span: Span::dummy(),
                    }],
                    definition: vec![Inline::Text {
                        value: "Def1.".into(),
                        span: Span::dummy(),
                    }],
                    span: Span::dummy(),
                },
                DefinitionItem {
                    term: vec![Inline::Text {
                        value: "Term2".into(),
                        span: Span::dummy(),
                    }],
                    definition: vec![Inline::Text {
                        value: "Def2.".into(),
                        span: Span::dummy(),
                    }],
                    span: Span::dummy(),
                },
            ],
            span: Span::dummy(),
        }],
        metadata: None,
        resolved_refs: RefMap::default(),
    };
    let reg = Registry::with_builtins();
    let opts = Opts::default();
    let (out, _w) = render(&doc, &reg, &opts);
    assert!(out.contains("@dl\n"), "got: {}", out);
    assert!(out.contains("Term1\n: Def1.\n"), "got: {}", out);
    assert!(out.contains("Term2\n: Def2.\n"), "got: {}", out);
    assert!(out.contains("@end\n"), "got: {}", out);
}


#[test]
fn simple_document_renders_exactly_in_llm_form() {
    let input = "# Title\n\nSome *bold* _it_ `a<b` x.\n\n---\n";
    let (out, warnings) = render_with(input, Opts::default());
    assert!(warnings.is_empty());
    assert_eq!(out, "# Title\nSome *bold* _it_ `a<b` x.\n---\n");
    let mut strip = Opts::default();
    strip.strip_emphasis = true;
    let (out, warnings) = render_with(input, strip);
    assert!(warnings.is_empty());
    assert_eq!(out, "# Title\nSome bold it `a<b` x.\n---\n");
}
