//! The parts of a site build that compute: compiling one page's source,
//! page titles and descriptions, output URLs and the sidebar.
use crate::analysis::{inline_text, texts_of};
use crate::ast::{Block, Document};
use crate::resolve::ref_spans_blocks;
use crate::shortcode::Registry;
use crate::span::{SourceMap, Span};
use crate::strmap::StrMap;
use crate::text::{char_width, chars_to_string, push_all, push_range, push_str, range_string, str_chars, trim_bounds, trimmed};
use crate::validate::ValidateOpts;
use crate::web::config::BookConfig;
use crate::web::page::SiteIndex;
use crate::web::summary::{Entry, PageEntry};
use vstd::prelude::*;

verus! {

/// What a build produced: the number of pages, warnings, the site index.
pub struct BuildOutcome {
    pub pages_built: usize,
    pub warnings: Vec<String>,
    pub site_index: SiteIndex,
}

/// Compile one page: lex, parse, resolve (no project) and validate; any
/// error fails the page with its diagnostics rendered. A compiled page has
/// no `@ref` (outside a project each one is an error).
pub fn compile_source(path: &str, text: &str, registry: &Registry) -> (r: Result<Document, String>)
    ensures
        r matches Ok(doc) ==> ref_spans_blocks(doc.blocks@).len() == 0 && forall|k: Span|
            doc.resolved_refs.spec_get(k) is None,
{
    let body = crate::project::strip_bom(text);
    let bc = str_chars(body.as_str());
    let fits = match crate::text::utf8_len_exec(bc.as_slice()) {
        Some(n) => n < u32::MAX as usize,
        None => false,
    };
    if !fits {
        return Err(String::from_str("source too large"));
    }
    let src = SourceMap::new(path, body.as_str());
    match crate::cli::front_end(&src, registry, &ValidateOpts::default(), None) {
        crate::cli::FrontEnd::Checked(doc, _) => Ok(doc),
        crate::cli::FrontEnd::Failed(rendered) => Err(rendered),
    }
}

/// `p` with every `\` turned into `/`.
pub open spec fn slashed(p: Seq<char>) -> Seq<char> {
    Seq::new(p.len(), |i: int| if p[i] == '\\' { '/' } else { p[i] })
}

/// `v` with every trailing `.brf` removed.
pub open spec fn trim_brf(v: Seq<char>) -> Seq<char>
    decreases v.len(),
{
    if v.len() >= 4 && v.subrange(v.len() - 4, v.len() as int) == seq!['.', 'b', 'r', 'f'] {
        trim_brf(v.subrange(0, v.len() - 4))
    } else {
        v
    }
}

/// Output URL of a source path: `\` turned into `/`, every trailing `.brf`
/// dropped, `.html` appended.
pub open spec fn url_spec(path: Seq<char>) -> Seq<char> {
    trim_brf(slashed(path)) + ".html"@
}

/// Output URL of a source path (see `url_spec`).
pub fn source_path_to_url(path: &str) -> (r: String)
    ensures
        r@ == url_spec(path@),
{
    let p = str_chars(path);
    let mut v: Vec<char> = Vec::new();
    let mut i: usize = 0;
    while i < p.len()
        invariant
            v@.len() == i,
            i <= p@.len(),
            forall|j: int| 0 <= j < i ==> #[trigger] v@[j] == slashed(p@)[j],
        decreases p@.len() - i,
    {
        v.push(if p[i] == '\\' {
            '/'
        } else {
            p[i]
        });
        i = i + 1;
    }
    assert(v@ =~= slashed(p@));
    let mut e = v.len();
    assert(v@.subrange(0, e as int) =~= v@);
    while e >= 4 && v[e - 4] == '.' && v[e - 3] == 'b' && v[e - 2] == 'r' && v[e - 1] == 'f'
        invariant
            e <= v@.len(),
            trim_brf(v@.subrange(0, e as int)) == trim_brf(v@),
        decreases e,
    {
        let ghost w = v@.subrange(0, e as int);
        assert(w.subrange(w.len() - 4, w.len() as int) =~= seq!['.', 'b', 'r', 'f']);
        assert(w.subrange(0, w.len() - 4) =~= v@.subrange(0, e - 4));
        e = e - 4;
    }
    let mut out: Vec<char> = Vec::new();
    push_range(&mut out, v.as_slice(), 0, e);
    proof {
        let w = v@.subrange(0, e as int);
        if w.len() >= 4 {
            assert(w.subrange(w.len() - 4, w.len() as int) != seq!['.', 'b', 'r', 'f']) by {
                let t = w.subrange(w.len() - 4, w.len() as int);
                assert(t[0] == v@[e - 4] && t[1] == v@[e - 3] && t[2] == v@[e - 2] && t[3] == v@[e - 1]);
            }
        }
        assert(out@ =~= w);
    }
    push_str(&mut out, ".html");
    chars_to_string(out.as_slice())
}

/// The entity text of `c` in element content: `&`, `<` and `>` escaped.
pub open spec fn text_escape_char(c: char) -> Seq<char> {
    if c == '&' {
        "&amp;"@
    } else if c == '<' {
        "&lt;"@
    } else if c == '>' {
        "&gt;"@
    } else {
        seq![c]
    }
}

/// `s` with `text_escape_char` applied to each char.
pub open spec fn text_escaped(s: Seq<char>) -> Seq<char>
    decreases s.len(),
{
    if s.len() == 0 {
        seq![]
    } else {
        text_escaped(s.drop_last()) + text_escape_char(s.last())
    }
}

/// `&`, `<` and `>` as entities.
pub fn escape_html(s: &str) -> (r: String)
    ensures
        r@ == text_escaped(s@),
{
    let c = str_chars(s);
    let mut out: Vec<char> = Vec::new();
    let mut i: usize = 0;
    while i < c.len()
        invariant
            i <= c@.len(),
            c@ == s@,
            out@ == text_escaped(c@.take(i as int)),
        decreases c@.len() - i,
    {
        assert(c@.take(i + 1).drop_last() =~= c@.take(i as int));
        if c[i] == '&' {
            push_str(&mut out, "&amp;");
        } else if c[i] == '<' {
            push_str(&mut out, "&lt;");
        } else if c[i] == '>' {
            push_str(&mut out, "&gt;");
        } else {
            out.push(c[i]);
        }
        i = i + 1;
    }
    assert(c@.take(c@.len() as int) =~= c@);
    chars_to_string(out.as_slice())
}

/// `&`, `<`, `>` and `"` as entities.
pub fn escape_attr(s: &str) -> (r: String)
    ensures
        r@ == crate::emit::html::escaped(s@),
{
    crate::emit::html::escape_html(s)
}

/// `s` trimmed of surrounding whitespace.
pub open spec fn trim_all(s: Seq<char>) -> Seq<char> {
    trimmed(s, 0, s.len() as int)
}

/// The title of a page with these top-level blocks: the first level-1
/// heading whose text, trimmed, is not empty, else `fallback`.
pub open spec fn title_from(blocks: Seq<Block>, fallback: Seq<char>) -> Seq<char>
    decreases blocks.len(),
{
    if blocks.len() == 0 {
        fallback
    } else {
        match blocks[0] {
            Block::Heading { level, content, .. } => if level == 1 && trim_all(texts_of(content@)).len() > 0 {
                trim_all(texts_of(content@))
            } else {
                title_from(blocks.drop_first(), fallback)
            },
            _ => title_from(blocks.drop_first(), fallback),
        }
    }
}

/// The page title (see `title_from`).
pub fn derive_page_title(doc: &Document, fallback: &str) -> (r: String)
    ensures
        r@ == title_from(doc.blocks@, fallback@),
{
    let mut i: usize = 0;
    assert(doc.blocks@.skip(0) =~= doc.blocks@);
    while i < doc.blocks.len()
        invariant
            i <= doc.blocks@.len(),
            title_from(doc.blocks@, fallback@) == title_from(doc.blocks@.skip(i as int), fallback@),
        decreases doc.blocks@.len() - i,
    {
        assert(doc.blocks@.skip(i as int).drop_first() =~= doc.blocks@.skip(i + 1));
        assert(doc.blocks@.skip(i as int)[0] == doc.blocks@[i as int]);
        match &doc.blocks[i] {
            Block::Heading { content, level, .. } => {
                if *level == 1 {
                    let t = inline_text(content);
                    let tc = str_chars(t.as_str());
                    let (a, b) = trim_bounds(tc.as_slice(), 0, tc.len());
                    if a < b {
                        return range_string(tc.as_slice(), a, b);
                    }
                }
            },
            _ => {},
        }
        i = i + 1;
    }
    fallback.to_string()
}

/// The first `n` bytes' worth of whole chars of `s`, and whether any char
/// was left out.
pub open spec fn cut_bytes(s: Seq<char>, n: int) -> (Seq<char>, bool)
    decreases s.len(),
{
    if s.len() == 0 {
        (seq![], false)
    } else if char_width(s[0]) > n {
        (seq![], true)
    } else {
        let r = cut_bytes(s.drop_first(), n - char_width(s[0]));
        (seq![s[0]] + r.0, r.1)
    }
}

/// A page description from a paragraph text: trimmed, cut to 200 bytes
/// with `…` appended when cut.
pub open spec fn description_of(t: Seq<char>) -> Seq<char> {
    let c = cut_bytes(trim_all(t), 200);
    if c.1 {
        c.0.push('\u{2026}')
    } else {
        c.0
    }
}

/// The description of a page with these top-level blocks: that of the
/// first paragraph whose text, trimmed, is not empty, escaped for an
/// attribute; empty when there is none.
pub open spec fn description_from(blocks: Seq<Block>) -> Seq<char>
    decreases blocks.len(),
{
    if blocks.len() == 0 {
        seq![]
    } else {
        match blocks[0] {
            Block::Paragraph { content, .. } => if trim_all(texts_of(content@)).len() > 0 {
                crate::emit::html::escaped(description_of(texts_of(content@)))
            } else {
                description_from(blocks.drop_first())
            },
            _ => description_from(blocks.drop_first()),
        }
    }
}

/// The page description (see `description_from`).
pub fn first_paragraph_text(doc: &Document) -> (r: String)
    ensures
        r@ == description_from(doc.blocks@),
{
    let mut i: usize = 0;
    assert(doc.blocks@.skip(0) =~= doc.blocks@);
    while i < doc.blocks.len()
        invariant
            i <= doc.blocks@.len(),
            description_from(doc.blocks@) == description_from(doc.blocks@.skip(i as int)),
        decreases doc.blocks@.len() - i,
    {
        assert(doc.blocks@.skip(i as int).drop_first() =~= doc.blocks@.skip(i + 1));
        assert(doc.blocks@.skip(i as int)[0] == doc.blocks@[i as int]);
        match &doc.blocks[i] {
            Block::Paragraph { content, .. } => {
                let t = inline_text(content);
                let tc = str_chars(t.as_str());
                let (a, b) = trim_bounds(tc.as_slice(), 0, tc.len());
                if a < b {
                    let ghost tt = tc@.subrange(a as int, b as int);
                    let mut v: Vec<char> = Vec::new();
                    let mut bytes: usize = 0;
                    let mut k = a;
                    let mut cut = false;
                    while k < b
                        invariant
                            a <= k <= b,
                            b <= tc@.len(),
                            bytes <= 200,
                            !cut,
                            tt == tc@.subrange(a as int, b as int),
                            cut_bytes(tt, 200) == ({
                                let r = cut_bytes(tc@.subrange(k as int, b as int), 200 - bytes);
                                (v@ + r.0, r.1)
                            }),
                        decreases b - k,
                    {
                        let w = crate::text::char_len_utf8(tc[k]);
                        if bytes > 200 || w > 200 - bytes {
                            cut = true;
                            break;
                        }
                        proof {
                            let rest = tc@.subrange(k as int, b as int);
                            assert(rest.drop_first() =~= tc@.subrange(k + 1, b as int));
                            assert(rest[0] == tc@[k as int]);
                            assert(v@.push(tc@[k as int]) + cut_bytes(tc@.subrange(k + 1, b as int), 200 - bytes - w).0 =~= v@ + (seq![tc@[k as int]] + cut_bytes(tc@.subrange(k + 1, b as int), 200 - bytes - w).0));
                        }
                        bytes = bytes + w;
                        v.push(tc[k]);
                        k = k + 1;
                    }
                    proof {
                        if !cut {
                            assert(tc@.subrange(k as int, b as int).len() == 0);
                            assert(v@ + Seq::<char>::empty() =~= v@);
                        }
                    }
                    if cut {
                        v.push('\u{2026}');
                    }
                    let s = chars_to_string(v.as_slice());
                    return escape_attr(s.as_str());
                }
            },
            _ => {},
        }
        i = i + 1;
    }
    String::new()
}

/// Title shown for a page: its entry in `titles`, else its SUMMARY title.
pub open spec fn shown_title(p: PageEntry, titles: StrMap<String>) -> Seq<char> {
    match titles.spec_get(p.path@) {
        Some(t) => t@,
        None => p.title@,
    }
}

/// A page as `<li>`: a link to its URL with its shown title, its
/// sub-pages as a nested `<ul>` when it has any.
pub open spec fn page_li_html(p: PageEntry, titles: StrMap<String>) -> Seq<char>
    decreases p, 1nat,
{
    "<li><a href=\""@ + crate::emit::html::escaped(seq!['/'] + url_spec(p.path@)) + "\">"@ + text_escaped(
        shown_title(p, titles),
    ) + "</a>"@ + (if p.children@.len() > 0 {
        "<ul>"@ + pages_li_html(p.children@, titles) + "</ul>"@
    } else {
        seq![]
    }) + "</li>\n"@
}

/// `page_li_html` of each page, in order.
pub open spec fn pages_li_html(v: Seq<PageEntry>, titles: StrMap<String>) -> Seq<char>
    decreases v, 0nat,
{
    if v.len() == 0 {
        seq![]
    } else {
        pages_li_html(v.drop_last(), titles) + page_li_html(v.last(), titles)
    }
}

/// The navigation items of `v` and whether a page list is left open: a
/// section closes an open list and stands as `<h3>`; a page opens a list
/// when none is open and stands as `page_li_html`.
pub open spec fn sidebar_items(v: Seq<Entry>, titles: StrMap<String>) -> (Seq<char>, bool)
    decreases v.len(),
{
    if v.len() == 0 {
        (seq![], false)
    } else {
        let (s, open) = sidebar_items(v.drop_last(), titles);
        match v.last() {
            Entry::Section(name) => ((if open {
                s + "</ul>\n"@
            } else {
                s
            }) + "<h3>"@ + text_escaped(name@) + "</h3>\n"@, false),
            Entry::Page(p) => ((if open {
                s
            } else {
                s + "<ul>\n"@
            }) + page_li_html(p, titles), true),
        }
    }
}

/// The whole navigation: `sidebar_items` inside `<nav>`, a list left open
/// being closed.
pub open spec fn sidebar_html(v: Seq<Entry>, titles: StrMap<String>) -> Seq<char> {
    let (s, open) = sidebar_items(v, titles);
    "<nav aria-label=\"site navigation\">\n"@ + s + (if open {
        "</ul>\n"@
    } else {
        seq![]
    }) + "</nav>\n"@
}

/// The site navigation: sections as `<h3>`, runs of pages as `<ul>` lists
/// (nested for sub-pages), each linking to its page's URL with its title
/// from `titles` (else the SUMMARY title).
pub fn render_sidebar(entries: &Vec<Entry>, titles: &StrMap<String>) -> (r: String)
    ensures
        r@ == sidebar_html(entries@, *titles),
{
    let mut out: Vec<char> = Vec::new();
    push_str(&mut out, "<nav aria-label=\"site navigation\">\n");
    let ghost head = out@;
    let mut in_list = false;
    let mut i: usize = 0;
    assert(entries@.take(0) =~= Seq::<Entry>::empty());
    assert(out@ =~= head + sidebar_items(entries@.take(0), *titles).0);
    while i < entries.len()
        invariant
            i <= entries@.len(),
            out@ == head + sidebar_items(entries@.take(i as int), *titles).0,
            in_list == sidebar_items(entries@.take(i as int), *titles).1,
        decreases entries@.len() - i,
    {
        let ghost t = entries@.take(i + 1);
        assert(t.drop_last() =~= entries@.take(i as int));
        assert(t.last() == entries@[i as int]);
        let ghost prev = out@;
        match &entries[i] {
            Entry::Section(name) => {
                if in_list {
                    push_str(&mut out, "</ul>\n");
                    in_list = false;
                }
                push_str(&mut out, "<h3>");
                push_str(&mut out, escape_html(name.as_str()).as_str());
                push_str(&mut out, "</h3>\n");
            },
            Entry::Page(p) => {
                if !in_list {
                    push_str(&mut out, "<ul>\n");
                    in_list = true;
                }
                render_page_li(p, titles, &mut out);
            },
        }
        assert(out@ =~= head + sidebar_items(t, *titles).0);
        i = i + 1;
    }
    assert(entries@.take(entries@.len() as int) =~= entries@);
    if in_list {
        push_str(&mut out, "</ul>\n");
    }
    push_str(&mut out, "</nav>\n");
    assert(out@ =~= sidebar_html(entries@, *titles));
    chars_to_string(out.as_slice())
}

/// One page as `<li>`, with its sub-pages as a nested `<ul>`
/// (`page_li_html`).
pub fn render_page_li(p: &PageEntry, titles: &StrMap<String>, out: &mut Vec<char>)
    ensures
        final(out)@ == old(out)@ + page_li_html(*p, *titles),
    decreases p,
{
    let ghost o = out@;
    let title: &str = match titles.get(p.path.as_str()) {
        Some(t) => t.as_str(),
        None => p.title.as_str(),
    };
    assert(title@ == shown_title(*p, *titles));
    push_str(out, "<li><a href=\"");
    let mut url: Vec<char> = Vec::new();
    url.push('/');
    push_str(&mut url, source_path_to_url(p.path.as_str()).as_str());
    push_str(out, escape_attr(chars_to_string(url.as_slice()).as_str()).as_str());
    push_str(out, "\">");
    push_str(out, escape_html(title).as_str());
    push_str(out, "</a>");
    let ghost mid = out@;
    if p.children.len() > 0 {
        push_str(out, "<ul>");
        let ghost o1 = out@;
        let mut c: usize = 0;
        assert(p.children@.take(0) =~= Seq::<PageEntry>::empty());
        while c < p.children.len()
            invariant
                c <= p.children@.len(),
                out@ == o1 + pages_li_html(p.children@.take(c as int), *titles),
            decreases p.children@.len() - c,
        {
            proof {
                assert(decreases_to!(*p => p.children@[c as int]));
            }
            let ghost t = p.children@.take(c + 1);
            assert(t.drop_last() =~= p.children@.take(c as int));
            assert(t.last() == p.children@[c as int]);
            render_page_li(&p.children[c], titles, out);
            assert(out@ =~= o1 + pages_li_html(t, *titles));
            c = c + 1;
        }
        assert(p.children@.take(p.children@.len() as int) =~= p.children@);
        push_str(out, "</ul>");
    }
    push_str(out, "</li>\n");
    assert(out@ =~= o + page_li_html(*p, *titles));
}

/// The registry of a site: the built-ins, the site's own shortcodes, and
/// `@page`.
pub fn site_registry(config: &BookConfig) -> (r: Registry)
    ensures
        r.map.spec_get("page"@) is Some,
{
    let mut cfg = crate::config::Config::default();
    cfg.shortcodes = config.shortcodes.clone();
    let mut reg = crate::config::registry_from(&cfg);
    crate::web::page::register(&mut reg);
    reg
}

/// The navigation of a build: the entries of `SUMMARY.brf` when there is
/// one, else a single page `index.brf` titled with the site title.
pub fn site_entries(summary: Option<&Document>, config: &BookConfig) -> (r: Result<Vec<Entry>, String>)
    ensures
        summary is Some ==> r is Ok,
        summary is None ==> (r matches Ok(e) && e@.len() == 1 && (e@[0] matches Entry::Page(p)
            && p.path@ == "index.brf"@ && p.title@ == crate::web::theme::site_title_spec(config)
            && p.children@.len() == 0)),
{
    match summary {
        Some(doc) => crate::web::summary::extract(doc),
        None => {
            let mut v: Vec<Entry> = Vec::new();
            v.push(
                Entry::Page(
                    PageEntry {
                        path: String::from_str("index.brf"),
                        title: crate::web::theme::site_title(config).to_string(),
                        children: Vec::new(),
                    },
                ),
            );
            Ok(v)
        },
    }
}

/// Every page of the navigation, sub-pages after their parent; an error
/// when there is none.
pub fn flat_pages(entries: &Vec<Entry>) -> (r: Result<Vec<PageEntry>, String>)
    ensures
        r is Err <==> forall|i: int| 0 <= i < entries@.len() ==> (#[trigger] entries@[i]) is Section,
        r matches Ok(v) ==> v@.len() > 0,
{
    let mut flat: Vec<PageEntry> = Vec::new();
    let mut i: usize = 0;
    while i < entries.len()
        invariant
            i <= entries@.len(),
            flat@.len() == 0 <==> forall|j: int| 0 <= j < i ==> (#[trigger] entries@[j]) is Section,
        decreases entries@.len() - i,
    {
        match &entries[i] {
            Entry::Page(p) => {
                let ps = p.flatten();
                let mut k: usize = 0;
                while k < ps.len()
                    invariant
                        k <= ps@.len(),
                        ps@.len() >= 1,
                        k > 0 ==> flat@.len() > 0,
                    decreases ps@.len() - k,
                {
                    flat.push(ps[k].clone());
                    k = k + 1;
                }
            },
            Entry::Section(_) => {},
        }
        i = i + 1;
    }
    if flat.len() == 0 {
        Err(String::from_str("SUMMARY.brf contains no @page entries"))
    } else {
        Ok(flat)
    }
}

/// `m` maps the source path `k` to its output URL.
pub open spec fn maps_to_url(m: StrMap<String>, k: Seq<char>) -> bool {
    m.spec_get(k) matches Some(u) && u@ == url_spec(k)
}

/// One rendered page: its output path (relative to the output directory)
/// and its HTML.
pub struct RenderedPage {
    pub out_path: String,
    pub html: String,
}

/// The page HTML `html` is the template filled from `ctx`, whose title and
/// description come from the page's (rewritten, `@page`-free) document
/// `d`, whose content is the HTML of `d` (stated for documents of plain
/// blocks), and whose sidebar, base URL and reload script are the given
/// ones.
pub open spec fn rendered_as(
    html: Seq<char>,
    template: Seq<char>,
    ctx: &crate::web::theme::PageContext,
    d: Document,
    fallback_title: Seq<char>,
    sidebar: Seq<char>,
    base_url: Seq<char>,
    reload: Seq<char>,
) -> bool {
    &&& html == crate::web::theme::fill_from(template, 0, ctx)
    &&& crate::web::page::no_page_blocks(d.blocks@)
    &&& ctx.title@ == title_from(d.blocks@, fallback_title)
    &&& ctx.description@ == description_from(d.blocks@)
    &&& (crate::emit::html::plain_blocks(d.blocks@) ==> ctx.content_html@ == crate::emit::html::html_blocks(
        d.blocks@,
    ))
    &&& ctx.sidebar_html@ == sidebar
    &&& ctx.base_url@ == base_url
    &&& ctx.reload_script@ == reload
}

/// `html` is a page rendered as `rendered_as` says, for some context and
/// some `@page`-free document.
pub open spec fn page_rendered(
    html: Seq<char>,
    template: Seq<char>,
    fallback_title: Seq<char>,
    sidebar: Seq<char>,
    base_url: Seq<char>,
    reload: Seq<char>,
) -> bool {
    exists|ctx: crate::web::theme::PageContext, d: Document|
        rendered_as(html, template, &ctx, d, fallback_title, sidebar, base_url, reload)
}

/// Every title in `titles` is the derived title of a page of `flat` with
/// that path, from its compiled document.
pub open spec fn titles_of(titles: StrMap<String>, flat: Seq<PageEntry>, docs: Seq<Document>) -> bool {
    forall|k: Seq<char>|
        #[trigger] titles.spec_get(k) matches Some(t) ==> exists|j: int|
            0 <= j < flat.len() && flat[j].path@ == k && t@ == title_from(docs[j].blocks@, flat[j].title@)
}

/// Everything a site build computes once the pages are compiled: the site
/// index (each page's URL and anchors), the `@page` rewriting (its
/// failures as warnings), and each page's HTML in the theme template with
/// the sidebar, title and description. `docs[i]` is the compiled
/// `flat[i]`.
pub fn render_site(
    entries: &Vec<Entry>,
    flat: &Vec<PageEntry>,
    docs: Vec<Document>,
    config: &BookConfig,
    registry: &Registry,
    page_template: &str,
    reload_script: &str,
) -> (r: (Vec<RenderedPage>, Vec<String>, SiteIndex))
    requires
        docs@.len() == flat@.len(),
    ensures
        r.0@.len() == flat@.len(),
        forall|i: int| 0 <= i < flat@.len() ==> (#[trigger] r.0@[i]).out_path@ == url_spec(flat@[i].path@),
        forall|i: int| 0 <= i < flat@.len() ==> #[trigger] maps_to_url(r.2.pages, flat@[i].path@),
        r.2.base_url@ == config.site.base_url@,
        exists|titles: StrMap<String>|
            titles_of(titles, flat@, docs@) && forall|i: int|
                0 <= i < flat@.len() ==> page_rendered(
                    #[trigger] r.0@[i].html@,
                    page_template@,
                    flat@[i].title@,
                    sidebar_html(entries@, titles),
                    config.site.base_url@,
                    reload_script@,
                ),
{
    let ghost docs0 = docs@;
    let mut index = SiteIndex::default();
    index.base_url = config.site.base_url.clone();
    let mut i: usize = 0;
    while i < flat.len()
        invariant
            i <= flat@.len(),
            docs@.len() == flat@.len(),
            index.base_url@ == config.site.base_url@,
            forall|j: int| 0 <= j < i ==> #[trigger] maps_to_url(index.pages, flat@[j].path@),
        decreases flat@.len() - i,
    {
        let ghost start = index.pages;
        let anchors = crate::project::collect_doc_anchors(&docs[i]);
        index.anchors.insert(flat[i].path.clone(), anchors);
        assert(index.pages == start);
        let url = source_path_to_url(flat[i].path.as_str());
        let key = flat[i].path.clone();
        assert(key@ == flat@[i as int].path@);
        let ghost before = index.pages;
        index.pages.insert(key, url);
        assert(maps_to_url(index.pages, flat@[i as int].path@));
        assert forall|j: int| 0 <= j < i + 1 implies #[trigger] maps_to_url(index.pages, flat@[j].path@) by {
            if flat@[j].path@ != flat@[i as int].path@ {
                assert(maps_to_url(start, flat@[j].path@));
                assert(index.pages.spec_get(flat@[j].path@) == before.spec_get(flat@[j].path@));
            }
        }
        i = i + 1;
    }
    let mut titles: StrMap<String> = StrMap::new();
    let mut i: usize = 0;
    while i < flat.len()
        invariant
            docs@.len() == flat@.len(),
            docs@ == docs0,
            i <= flat@.len(),
            forall|k: Seq<char>|
                #[trigger] titles.spec_get(k) matches Some(t) ==> exists|j: int|
                    0 <= j < i && flat@[j].path@ == k && t@ == title_from(docs0[j].blocks@, flat@[j].title@),
        decreases flat@.len() - i,
    {
        let key = flat[i].path.clone();
        let tt = derive_page_title(&docs[i], flat[i].title.as_str());
        let ghost old_t = titles;
        titles.insert(key, tt);
        proof {
            assert forall|k: Seq<char>| #[trigger] titles.spec_get(k) is Some implies exists|j: int|
                0 <= j < i + 1 && flat@[j].path@ == k && titles.spec_get(k).unwrap()@ == title_from(
                    docs0[j].blocks@,
                    flat@[j].title@,
                ) by {
                if k == flat@[i as int].path@ {
                    assert(flat@[i as int].path@ == k);
                } else {
                    assert(titles.spec_get(k) == old_t.spec_get(k));
                }
            }
        }
        i = i + 1;
    }
    let sidebar = render_sidebar(entries, &titles);
    let stylesheet = crate::web::theme::asset_url(config.site.base_url.as_str(), "style.css");
    let site_title = crate::web::theme::site_title(config);
    let mut warnings: Vec<String> = Vec::new();
    let mut pages: Vec<RenderedPage> = Vec::new();
    let mut docs = docs;
    let ghost sb = sidebar@;
    assert(sb == sidebar_html(entries@, titles));
    let mut i: usize = 0;
    while i < flat.len()
        invariant
            i <= flat@.len(),
            docs@.len() == flat@.len() - i,
            pages@.len() == i,
            sb == sidebar@,
            forall|j: int| 0 <= j < i ==> (#[trigger] pages@[j]).out_path@ == url_spec(flat@[j].path@),
            forall|j: int|
                0 <= j < i ==> page_rendered(#[trigger] pages@[j].html@, page_template@, flat@[j].title@, sb, config.site.base_url@, reload_script@),
        decreases flat@.len() - i,
    {
        let mut doc = docs.remove(0);
        let errs = crate::web::page::rewrite(&mut doc, &index, flat[i].path.as_str());
        let mut k: usize = 0;
        while k < errs.len()
            decreases errs@.len() - k,
        {
            warnings.push(errs[k].message());
            k = k + 1;
        }
        let body = crate::emit::html::render(&doc, registry);
        let title = derive_page_title(&doc, flat[i].title.as_str());
        let description = first_paragraph_text(&doc);
        let ctx = crate::web::theme::PageContext {
            title: title.as_str(),
            description: description.as_str(),
            site_title,
            content_html: body.as_str(),
            sidebar_html: sidebar.as_str(),
            base_url: config.site.base_url.as_str(),
            stylesheet_path: stylesheet.as_str(),
            reload_script,
        };
        let html = crate::web::theme::render_page(page_template, &ctx);
        assert(rendered_as(html@, page_template@, &ctx, doc, flat@[i as int].title@, sb, config.site.base_url@, reload_script@));
        assert(exists|c: crate::web::theme::PageContext, d: Document| rendered_as(html@, page_template@, &c, d, flat@[i as int].title@, sb, config.site.base_url@, reload_script@));
        let ghost before = pages@;
        pages.push(RenderedPage { out_path: source_path_to_url(flat[i].path.as_str()), html });
        proof {
            assert forall|j: int|
                0 <= j < i + 1 implies page_rendered(#[trigger] pages@[j].html@, page_template@, flat@[j].title@, sb, config.site.base_url@, reload_script@) by {
                if j < i {
                    assert(pages@[j] == before[j]);
                    assert(pages@[j].html@ == before[j].html@);
                } else {
                    assert(pages@[j].html@ == html@);
                    assert(rendered_as(
                        pages@[j].html@,
                        page_template@,
                        &ctx,
                        doc,
                        flat@[j].title@,
                        sb,
                        config.site.base_url@,
                        reload_script@,
                    ));
                }
            }
        }
        i = i + 1;
    }
    assert(titles_of(titles, flat@, docs0));
    assert(sb == sidebar_html(entries@, titles));
    (pages, warnings, index)
}

} // verus!
