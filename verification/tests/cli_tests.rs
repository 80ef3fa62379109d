use brief::cli::{
    compile_output_path, default_output_path, explain, front_end, render_target, strict_self_test,
    target_of, token_estimate, with_extension, FrontEnd, Target,
};
use brief::config::{registry_from, Config};
use brief::emit::llm;
use brief::shortcode::{Registry, ShortKindOpt, Shortcode};
use brief::span::SourceMap;
use brief::validate::ValidateOpts;

#[test]
fn rejects_brief_that_does_not_compile() {
    let broken = "@t\n| A | B | C\n| only one\n";
    let err = strict_self_test(broken, "t.brf").expect_err("must reject");
    assert!(err.contains("B0502"), "{}", err);
}

#[test]
fn accepts_clean_brief() {
    let clean = "# Title\n\nA paragraph.\n";
    strict_self_test(clean, "t.brf").expect("must accept");
}

#[test]
fn compile_output_paths_follow_the_target() {
    assert_eq!(compile_output_path("doc.brf", "llm"), "doc.txt");
    assert_eq!(compile_output_path("dir/doc.brf", "html"), "dir/doc.html");
    assert_eq!(compile_output_path("doc.brf", "json"), "doc.json");
    assert_eq!(compile_output_path("doc.brf", "other"), "doc.out");
    assert_eq!(compile_output_path("noext", "html"), "noext.html");
}

#[test]
fn convert_output_paths_swap_extensions() {
    assert_eq!(default_output_path("notes.md"), "notes.brf");
    assert_eq!(default_output_path("a/b/notes.brf"), "a/b/notes.md");
    assert_eq!(default_output_path("readme.txt"), "readme.txt.brf");
    assert_eq!(default_output_path("README"), "README.brf");
}

#[test]
fn with_extension_edge_cases() {
    assert_eq!(with_extension(".hidden", "md"), ".hidden.md");
    assert_eq!(with_extension("a.b.c", "d"), "a.b.d");
    assert_eq!(with_extension("dir.x/file", "y"), "dir.x/file.y");
    assert_eq!(with_extension("file.txt", ""), "file");
    assert_eq!(with_extension("dir/", "y"), "dir/");
}

#[test]
fn targets_by_name() {
    assert_eq!(target_of("html"), Some(Target::Html));
    assert_eq!(target_of("llm"), Some(Target::Llm));
    assert_eq!(target_of("json"), Some(Target::Json));
    assert_eq!(target_of("pdf"), None);
}

#[test]
fn token_estimate_rounds_up() {
    assert_eq!(token_estimate(0), 0);
    assert_eq!(token_estimate(1), 1);
    assert_eq!(token_estimate(4), 1);
    assert_eq!(token_estimate(5), 2);
}

#[test]
fn explain_known_and_unknown_codes() {
    let text = explain("B0601").expect("known code");
    assert!(text.starts_with("error[B0601]: "), "{}", text);
    assert!(text.contains("\n\n"));
    assert!(explain("B9999").is_none());
    assert!(explain("b0601").is_none());
}

#[test]
fn front_end_reports_errors_and_accepts_clean_input() {
    let reg = Registry::with_builtins();
    let opts = ValidateOpts { strict_heading_levels: false };
    let bad = SourceMap::new("t.brf", "@t\n| A | B |\n| one\n");
    match front_end(&bad, &reg, &opts, None) {
        FrontEnd::Failed(s) => assert!(s.contains("B0502"), "{}", s),
        FrontEnd::Checked(..) => panic!("must fail"),
    }
    let good = SourceMap::new("t.brf", "# Title\n\nText.\n");
    match front_end(&good, &reg, &opts, None) {
        FrontEnd::Checked(doc, warnings) => {
            assert!(warnings.is_empty());
            let (html, _) = render_target(&doc, &reg, Target::Html, &llm::Opts::default()).unwrap();
            assert!(html.contains("Title"));
            assert!(render_target(&doc, &reg, Target::Json, &llm::Opts::default()).is_none());
        }
        FrontEnd::Failed(s) => panic!("{}", s),
    }
}

#[test]
fn front_end_strict_heading_levels() {
    let reg = Registry::with_builtins();
    let src = SourceMap::new("t.brf", "# A\n\n### C\n");
    let strict = ValidateOpts { strict_heading_levels: true };
    assert!(matches!(front_end(&src, &reg, &strict, None), FrontEnd::Failed(_)));
    let lax = ValidateOpts { strict_heading_levels: false };
    assert!(matches!(front_end(&src, &reg, &lax, None), FrontEnd::Checked(..)));
}

#[test]
fn project_shortcode_replaces_builtin() {
    let mut cfg = Config::default();
    let mut sc = Shortcode::default();
    sc.kind = ShortKindOpt::Block;
    sc.template_html = Some("<x>{{body}}</x>".to_string());
    cfg.shortcodes.insert("kbd".to_string(), sc.clone());
    cfg.shortcodes.insert("note".to_string(), sc);
    let reg = registry_from(&cfg);
    let kbd = reg.get("kbd").expect("kbd");
    assert!(matches!(kbd.kind, ShortKindOpt::Block));
    assert!(reg.get("note").is_some());
    assert!(reg.get("ref").is_some());
    assert!(reg.get("nosuch").is_none());
}

#[test]
fn every_ref_outside_a_project_is_refused() {
    let reg = Registry::with_builtins();
    let opts = ValidateOpts { strict_heading_levels: false };
    let src = SourceMap::new(
        "t.brf",
        "- item @ref[a.brf](A)\n\n> quoted *@ref[b.brf#x](B)*\n",
    );
    match front_end(&src, &reg, &opts, None) {
        FrontEnd::Failed(s) => assert_eq!(s.matches("B0604").count(), 2, "{}", s),
        FrontEnd::Checked(..) => panic!("a @ref outside a project must not compile"),
    }
}
