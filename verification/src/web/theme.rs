//! Page templates: `{{ name }}` placeholders filled from a page context,
//! text values escaped at this one boundary.
use crate::emit::html::{escape_html_into, escaped};
use crate::text::{chars_to_string, find_from, find_str, lemma_find_from_bounds, push_all, push_range, push_str, str_chars, str_eq, trim_bounds, trimmed};
use crate::web::config::BookConfig;
use vstd::prelude::*;

verus! {

/// A theme: the page template and the stylesheet.
pub struct Theme {
    pub page_template: String,
    pub stylesheet: String,
}

/// Values substituted into a page template. `content_html`,
/// `sidebar_html` and `reload_script` are trusted HTML; the others are
/// text and are escaped.
pub struct PageContext<'a> {
    pub title: &'a str,
    pub description: &'a str,
    pub site_title: &'a str,
    pub content_html: &'a str,
    pub sidebar_html: &'a str,
    pub base_url: &'a str,
    pub stylesheet_path: &'a str,
    pub reload_script: &'a str,
}

/// `s` escaped for element text and double-quoted attributes.
pub fn escape_text(s: &str) -> (r: Vec<char>)
    ensures
        r@ == escaped(s@),
{
    let c = str_chars(s);
    let mut out: Vec<char> = Vec::new();
    escape_html_into(&mut out, c.as_slice());
    out
}

/// The value of placeholder `key` in `ctx`: the text values escaped, the
/// HTML values as they are; `None` for an unknown key.
pub open spec fn placeholder(ctx: &PageContext, key: Seq<char>) -> Option<Seq<char>> {
    if key == "title"@ {
        Some(escaped(ctx.title@))
    } else if key == "description"@ {
        Some(escaped(ctx.description@))
    } else if key == "site_title"@ {
        Some(escaped(ctx.site_title@))
    } else if key == "base_url"@ {
        Some(escaped(ctx.base_url@))
    } else if key == "stylesheet"@ {
        Some(escaped(ctx.stylesheet_path@))
    } else if key == "content"@ {
        Some(ctx.content_html@)
    } else if key == "sidebar"@ {
        Some(ctx.sidebar_html@)
    } else if key == "reload_script"@ {
        Some(ctx.reload_script@)
    } else {
        None
    }
}

/// `t[rest..]` with its placeholders filled: each `{{ key }}` (key trimmed)
/// replaced by its value, an unknown one kept as it is, and an unclosed
/// `{{` copied with what follows.
pub open spec fn fill_from(t: Seq<char>, rest: int, ctx: &PageContext) -> Seq<char>
    decreases t.len() + 1 - rest,
{
    if rest < 0 || rest > t.len() {
        seq![]
    } else {
        match find_from(t, rest, "{{"@) {
            None => t.subrange(rest, t.len() as int),
            Some(open) => {
                proof {
                    lemma_find_from_bounds(t, rest, "{{"@);
                    lemma_find_from_bounds(t, open + 2, "}}"@);
                    reveal_strlit("{{");
                    reveal_strlit("}}");
                }
                match find_from(t, open + 2, "}}"@) {
                    None => t.subrange(rest, t.len() as int),
                    Some(close) => t.subrange(rest, open) + match placeholder(ctx, trimmed(t, open + 2, close)) {
                        Some(v) => v,
                        None => t.subrange(open, close + 2),
                    } + fill_from(t, close + 2, ctx),
                }
            },
        }
    }
}

/// The value for placeholder `key`, if it names one.
fn lookup<'a>(key: &str, esc: &'a Vec<Vec<char>>, raw: &'a Vec<Vec<char>>, ctx: &PageContext) -> (r: Option<&'a [char]>)
    requires
        esc@.len() == 5,
        raw@.len() == 3,
        esc@[0]@ == escaped(ctx.title@),
        esc@[1]@ == escaped(ctx.description@),
        esc@[2]@ == escaped(ctx.site_title@),
        esc@[3]@ == escaped(ctx.base_url@),
        esc@[4]@ == escaped(ctx.stylesheet_path@),
        raw@[0]@ == ctx.content_html@,
        raw@[1]@ == ctx.sidebar_html@,
        raw@[2]@ == ctx.reload_script@,
    ensures
        r matches Some(v) ==> placeholder(ctx, key@) == Some(v@),
        r is None ==> placeholder(ctx, key@) is None,
{
    if str_eq(key, "title") {
        Some(esc[0].as_slice())
    } else if str_eq(key, "description") {
        Some(esc[1].as_slice())
    } else if str_eq(key, "site_title") {
        Some(esc[2].as_slice())
    } else if str_eq(key, "base_url") {
        Some(esc[3].as_slice())
    } else if str_eq(key, "stylesheet") {
        Some(esc[4].as_slice())
    } else if str_eq(key, "content") {
        Some(raw[0].as_slice())
    } else if str_eq(key, "sidebar") {
        Some(raw[1].as_slice())
    } else if str_eq(key, "reload_script") {
        Some(raw[2].as_slice())
    } else {
        None
    }
}

/// Fill the placeholders of `template` from `ctx` (see `fill_from`).
pub fn render_page(template: &str, ctx: &PageContext) -> (r: String)
    ensures
        r@ == fill_from(template@, 0, ctx),
{
    let mut esc: Vec<Vec<char>> = Vec::new();
    esc.push(escape_text(ctx.title));
    esc.push(escape_text(ctx.description));
    esc.push(escape_text(ctx.site_title));
    esc.push(escape_text(ctx.base_url));
    esc.push(escape_text(ctx.stylesheet_path));
    let mut raw: Vec<Vec<char>> = Vec::new();
    raw.push(str_chars(ctx.content_html));
    raw.push(str_chars(ctx.sidebar_html));
    raw.push(str_chars(ctx.reload_script));
    let t = str_chars(template);
    let n = t.len();
    let mut out: Vec<char> = Vec::new();
    let mut rest: usize = 0;
    proof {
        reveal_strlit("{{");
        reveal_strlit("}}");
    }
    while rest <= n
        invariant
            n == t@.len(),
            t@ == template@,
            esc@.len() == 5,
            raw@.len() == 3,
            esc@[0]@ == escaped(ctx.title@),
            esc@[1]@ == escaped(ctx.description@),
            esc@[2]@ == escaped(ctx.site_title@),
            esc@[3]@ == escaped(ctx.base_url@),
            esc@[4]@ == escaped(ctx.stylesheet_path@),
            raw@[0]@ == ctx.content_html@,
            raw@[1]@ == ctx.sidebar_html@,
            raw@[2]@ == ctx.reload_script@,
            rest <= n ==> out@ + fill_from(t@, rest as int, ctx) == fill_from(t@, 0, ctx),
            rest > n ==> out@ == fill_from(t@, 0, ctx),
        decreases n + 1 - rest,
    {
        let open = match find_str(t.as_slice(), rest, "{{") {
            Some(o) => o,
            None => {
                break;
            },
        };
        proof {
            crate::text::lemma_find_from_bounds(t@, rest as int, "{{"@);
        }
        let ghost before = out@;
        push_range(&mut out, t.as_slice(), rest, open);
        let after = open + 2;
        match find_str(t.as_slice(), after, "}}") {
            Some(close) => {
                proof {
                    crate::text::lemma_find_from_bounds(t@, after as int, "}}"@);
                }
                let (ka, kb) = trim_bounds(t.as_slice(), after, close);
                let key = crate::text::range_string(t.as_slice(), ka, kb);
                let ghost mid = out@;
                match lookup(key.as_str(), &esc, &raw, ctx) {
                    Some(v) => push_all(&mut out, v),
                    None => {
                        push_str(&mut out, "{{");
                        push_range(&mut out, t.as_slice(), after, close);
                        push_str(&mut out, "}}");
                        proof {
                            assert(t@.subrange(open as int, close + 2) =~= t@.subrange(open as int, after as int) + t@.subrange(after as int, close as int) + t@.subrange(close as int, close + 2));
                            assert(t@.subrange(open as int, after as int) =~= "{{"@);
                            assert(t@.subrange(close as int, close + 2) =~= "}}"@);
                            assert(out@ =~= mid + t@.subrange(open as int, close + 2));
                        }
                    },
                }
                proof {
                    let piece = match placeholder(ctx, trimmed(t@, after as int, close as int)) {
                        Some(v) => v,
                        None => t@.subrange(open as int, close + 2),
                    };
                    assert(out@ =~= before + t@.subrange(rest as int, open as int) + piece);
                }
                rest = close + 2;
            },
            None => {
                push_str(&mut out, "{{");
                push_range(&mut out, t.as_slice(), after, n);
                proof {
                    assert(t@.subrange(open as int, after as int) =~= "{{"@);
                    assert(out@ =~= before + t@.subrange(rest as int, n as int));
                }
                rest = n;
                return chars_to_string(out.as_slice());
            },
        }
    }
    if rest <= n {
        push_range(&mut out, t.as_slice(), rest, n);
    }
    chars_to_string(out.as_slice())
}

/// URL of a built-in asset under `base_url` (one `/` between).
pub fn asset_url(base_url: &str, name: &str) -> (r: String)
    ensures
        base_url@.len() > 0 && base_url@.last() == '/' ==> r@ == base_url@ + name@,
        !(base_url@.len() > 0 && base_url@.last() == '/') ==> r@ == base_url@ + seq!['/'] + name@,
{
    let b = str_chars(base_url);
    let mut out: Vec<char> = Vec::new();
    push_all(&mut out, b.as_slice());
    if !(b.len() > 0 && b[b.len() - 1] == '/') {
        out.push('/');
    }
    push_str(&mut out, name);
    chars_to_string(out.as_slice())
}

/// The site title: the configured one, or `Brief site` when it is empty.
pub open spec fn site_title_spec(cfg: &BookConfig) -> Seq<char> {
    if cfg.book.title@.len() == 0 {
        "Brief site"@
    } else {
        cfg.book.title@
    }
}

/// The site title (see `site_title_spec`).
pub fn site_title(cfg: &BookConfig) -> (r: &str)
    ensures
        r@ == site_title_spec(cfg),
{
    let t = cfg.book.title.as_str();
    if str_chars(t).len() == 0 {
        "Brief site"
    } else {
        t
    }
}

} // verus!
