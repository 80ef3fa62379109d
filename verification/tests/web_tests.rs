use brief::lexer;
use brief::parser;
use brief::shortcode::Registry;
use brief::span::SourceMap;
use brief::strmap::StrMap;
use brief::web::builder::{compile_source, derive_page_title, first_paragraph_text, render_sidebar, source_path_to_url};
use brief::web::page::{normalize, register, resolve_target, rewrite, PageErrorKind, SiteIndex};
use brief::web::server::{mime_for, strip_query};
use brief::web::summary::{extract, Entry, PageEntry};
use brief::web::theme::{asset_url, render_page, PageContext};
use brief::web::watch::default_watch_paths;

fn parse(src: &str) -> brief::ast::Document {
    let s = SourceMap::new("SUMMARY.brf", src);
    let tokens = lexer::lex(&s).expect("lex");
    let (d, _) = parser::parse(tokens, &s);
    d
}

#[test]
fn render_page_escapes_title_and_description() {
    let template = "<title>{{ title }} — {{ site_title }}</title>\n<meta content=\"{{ description }}\">\n<main>{{ content }}</main>";
    let ctx = PageContext {
        title: "x <script>alert(1)</script>",
        description: "a \"quoted\" & <desc>",
        site_title: "S<b>",
        content_html: "<p>real html stays</p>",
        sidebar_html: "",
        base_url: "/",
        stylesheet_path: "/style.css",
        reload_script: "",
    };
    let out = render_page(template, &ctx);
    assert!(!out.contains("<script>alert(1)</script>"), "{}", out);
    assert!(out.contains("x &lt;script&gt;alert(1)&lt;/script&gt;"), "{}", out);
    assert!(out.contains("a &quot;quoted&quot; &amp; &lt;desc&gt;"), "{}", out);
    assert!(out.contains("S&lt;b&gt;"), "{}", out);
    assert!(out.contains("<p>real html stays</p>"), "{}", out);
}

#[test]
fn extract_finds_pages_via_ref_shortcode() {
    let doc = parse("# Summary\n\n- @ref[intro.brf](Introduction)\n- @ref[advanced.brf](Advanced)\n");
    let entries = extract(&doc).unwrap();
    let pages: Vec<&PageEntry> = entries
        .iter()
        .filter_map(|e| if let Entry::Page(p) = e { Some(p) } else { None })
        .collect();
    assert_eq!(pages.len(), 2);
    assert_eq!(pages[0].path, "intro.brf");
    assert_eq!(pages[0].title, "Introduction");
    assert_eq!(pages[1].path, "advanced.brf");
    assert_eq!(pages[1].title, "Advanced");
}

#[test]
fn template_keeps_unknown_and_unclosed_placeholders() {
    let ctx = PageContext {
        title: "T",
        description: "",
        site_title: "",
        content_html: "",
        sidebar_html: "",
        base_url: "",
        stylesheet_path: "",
        reload_script: "",
    };
    assert_eq!(render_page("a {{ nope }} b {{title}} {{ open", &ctx), "a {{ nope }} b T {{ open");
}

#[test]
fn asset_url_and_watch_paths() {
    assert_eq!(asset_url("/", "style.css"), "/style.css");
    assert_eq!(asset_url("/docs", "style.css"), "/docs/style.css");
    assert_eq!(default_watch_paths("proj", "proj/src", Some("proj/theme")), vec!["proj/src", "proj/book.toml", "proj/theme"]);
    assert_eq!(default_watch_paths("proj/", "s", None), vec!["s", "proj/book.toml"]);
}

#[test]
fn server_helpers() {
    assert_eq!(mime_for("a/b.html"), "text/html; charset=utf-8");
    assert_eq!(mime_for("x.woff2"), "font/woff2");
    assert_eq!(mime_for(".bashrc"), "application/octet-stream");
    assert_eq!(mime_for("noext"), "application/octet-stream");
    assert_eq!(strip_query("/a/b.css?v=3"), "/a/b.css");
    assert_eq!(strip_query("/plain"), "/plain");
}

#[test]
fn page_urls_and_targets() {
    assert_eq!(source_path_to_url("docs/intro.brf"), "docs/intro.html");
    assert_eq!(source_path_to_url("index.brf"), "index.html");
    assert_eq!(source_path_to_url("a\\b.brf"), "a/b.html");
    assert_eq!(normalize("a/./b/../c.brf"), "a/c.brf");
    let mut idx = SiteIndex::default();
    idx.base_url = "/site".to_string();
    idx.pages.insert("docs/b.brf".to_string(), "docs/b.html".to_string());
    let mut anchors = StrMap::new();
    anchors.insert("top".to_string(), ());
    idx.anchors.insert("docs/b.brf".to_string(), anchors);
    assert_eq!(resolve_target(&idx, "docs/a.brf", "b.brf#top"), Ok("/site/docs/b.html#top".to_string()));
    assert_eq!(resolve_target(&idx, "docs/a.brf", "../docs/b.brf"), Ok("/site/docs/b.html".to_string()));
    assert_eq!(resolve_target(&idx, "docs/a.brf", "b.brf#nope"), Err(PageErrorKind::UnknownAnchor));
    assert_eq!(resolve_target(&idx, "docs/a.brf", "c.brf"), Err(PageErrorKind::UnknownPage));
}

#[test]
fn page_shortcode_becomes_link() {
    let mut reg = Registry::with_builtins();
    register(&mut reg);
    let mut doc = compile_source("docs/a.brf", "# Title\n\nGo to @page[b.brf](Bee) now.\n", &reg).unwrap();
    let mut idx = SiteIndex::default();
    idx.base_url = "/".to_string();
    idx.pages.insert("docs/b.brf".to_string(), "docs/b.html".to_string());
    let errs = rewrite(&mut doc, &idx, "docs/a.brf");
    assert!(errs.is_empty());
    let html = brief::emit::html::render(&doc, &reg);
    assert!(html.contains("<a href=\"/docs/b.html\">Bee</a>"), "{}", html);
    assert_eq!(derive_page_title(&doc, "fallback"), "Title");
    assert_eq!(first_paragraph_text(&doc), "Go to Bee now.");
}

#[test]
fn sidebar_lists_sections_and_pages() {
    let entries = vec![
        Entry::Section("Guide".to_string()),
        Entry::Page(PageEntry {
            path: "a.brf".to_string(),
            title: "A".to_string(),
            children: vec![PageEntry { path: "b.brf".to_string(), title: "B".to_string(), children: vec![] }],
        }),
    ];
    let mut titles = StrMap::new();
    titles.insert("a.brf".to_string(), "Alpha".to_string());
    let html = render_sidebar(&entries, &titles);
    assert_eq!(
        html,
        "<nav aria-label=\"site navigation\">\n<h3>Guide</h3>\n<ul>\n<li><a href=\"/a.html\">Alpha</a><ul><li><a href=\"/b.html\">B</a></li>\n</ul></li>\n</ul>\n</nav>\n"
    );
}

#[test]
fn normalize_folds_dot_segments() {
    assert_eq!(normalize("a/./b/../c"), "a/c");
    assert_eq!(normalize("/x//y/.."), "/x");
    assert_eq!(normalize("../a"), "a");
    assert_eq!(normalize(""), "");
}

#[test]
fn mime_for_uses_the_last_components_extension() {
    assert_eq!(mime_for(".bashrc"), "application/octet-stream");
    assert_eq!(mime_for("dir.d/file"), "application/octet-stream");
    assert_eq!(mime_for("a/b."), "application/octet-stream");
    assert_eq!(mime_for("x.HTML"), "application/octet-stream");
    assert_eq!(mime_for("a.tar.gz"), "application/octet-stream");
    assert_eq!(mime_for("img/logo.svg"), "image/svg+xml");
    assert_eq!(mime_for("a/.b.jpeg"), "image/jpeg");
}

#[test]
fn page_error_message_names_kind_target_and_source() {
    let e = brief::web::page::PageError {
        source_path: "guide/a.brf".to_string(),
        target: "b.brf#x".to_string(),
        kind: PageErrorKind::UnknownAnchor,
    };
    assert_eq!(e.message(), "unknown anchor: @page[b.brf#x] in guide/a.brf");
}

#[test]
fn extract_keeps_sections_and_pages_in_order() {
    let doc = parse("# Book\n\n- @ref[a.brf](A)\n\n## Part Two\n\n- @ref[b.brf](B)\n- plain item\n");
    let entries = extract(&doc).unwrap();
    assert_eq!(entries.len(), 3);
    match &entries[0] {
        Entry::Page(p) => assert_eq!((p.path.as_str(), p.title.as_str()), ("a.brf", "A")),
        _ => panic!("{:?}", entries),
    }
    match &entries[1] {
        Entry::Section(t) => assert_eq!(t, "Part Two"),
        _ => panic!("{:?}", entries),
    }
    match &entries[2] {
        Entry::Page(p) => assert_eq!((p.path.as_str(), p.title.as_str()), ("b.brf", "B")),
        _ => panic!("{:?}", entries),
    }
}
