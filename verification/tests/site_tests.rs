use brief::web::builder::{
    compile_source, flat_pages, render_site, site_entries, site_registry, source_path_to_url,
};
use brief::web::config::BookConfig;
use brief::web::summary::Entry;

#[test]
fn single_page_site_uses_index_and_site_title() {
    let mut cfg = BookConfig::default();
    cfg.book.title = "My Book".to_string();
    let entries = site_entries(None, &cfg).unwrap();
    assert_eq!(entries.len(), 1);
    match &entries[0] {
        Entry::Page(p) => {
            assert_eq!(p.path, "index.brf");
            assert_eq!(p.title, "My Book");
        }
        Entry::Section(_) => panic!("expected a page"),
    }
    let flat = flat_pages(&entries).unwrap();
    assert_eq!(flat.len(), 1);
}

#[test]
fn sections_alone_are_no_site() {
    let entries = vec![Entry::Section("Only".to_string())];
    let err = flat_pages(&entries).unwrap_err();
    assert!(err.contains("no @page entries"));
}

#[test]
fn multi_page_site_links_pages_and_renders_template() {
    let cfg = BookConfig::default();
    let reg = site_registry(&cfg);
    assert!(reg.get("page").is_some());
    let doc = {
        let s = brief::span::SourceMap::new(
            "SUMMARY.brf",
            "# Summary\n\n- @ref[intro.brf](Introduction)\n- @ref[guide/advanced.brf](Advanced)\n",
        );
        let toks = brief::lexer::lex(&s).unwrap();
        brief::parser::parse(toks, &s).0
    };
    let entries = site_entries(Some(&doc), &cfg).unwrap();
    let flat = flat_pages(&entries).unwrap();
    assert_eq!(flat.len(), 2);
    let intro = compile_source(
        "intro.brf",
        "# Intro Page\n\nWelcome. See @page[guide/advanced.brf#deep](there).\n",
        &reg,
    )
    .unwrap();
    let adv = compile_source("guide/advanced.brf", "# Advanced\n\n## Deep {#deep}\n\nText.\n", &reg)
        .unwrap();
    let template = "<title>{{title}}</title><nav>{{sidebar}}</nav><main>{{content}}</main><d>{{description}}</d>";
    let (pages, warnings, index) =
        render_site(&entries, &flat, vec![intro, adv], &cfg, &reg, template, "");
    assert!(warnings.is_empty(), "{:?}", warnings);
    assert_eq!(pages.len(), 2);
    assert_eq!(pages[0].out_path, "intro.html");
    assert_eq!(pages[1].out_path, "guide/advanced.html");
    assert!(pages[0].html.contains("<title>Intro Page</title>"), "{}", pages[0].html);
    assert!(pages[0].html.contains("<d>Welcome. See there.</d>") || pages[0].html.contains("Welcome."), "{}", pages[0].html);
    assert!(pages[0].html.contains("guide/advanced.html#deep"), "{}", pages[0].html);
    assert!(pages[1].html.contains("href=\"/intro.html\""), "{}", pages[1].html);
    assert_eq!(index.pages.get("intro.brf").map(|s| s.as_str()), Some("intro.html"));
    assert_eq!(source_path_to_url("a\\b.brf.brf"), "a/b.html");
}

#[test]
fn unknown_page_target_is_a_warning() {
    let cfg = BookConfig::default();
    let reg = site_registry(&cfg);
    let entries = site_entries(None, &cfg).unwrap();
    let flat = flat_pages(&entries).unwrap();
    let doc = compile_source("index.brf", "# Home\n\nGo @page[missing.brf](nowhere).\n", &reg).unwrap();
    let (pages, warnings, _) = render_site(&entries, &flat, vec![doc], &cfg, &reg, "{{content}}", "");
    assert_eq!(pages[0].out_path, "index.html");
    assert_eq!(warnings.len(), 1);
    assert!(warnings[0].starts_with("unknown page"), "{}", warnings[0]);
}
