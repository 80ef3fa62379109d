//! `@page[path#anchor](title)`: links between the site's pages. After a
//! page is compiled, each use is rewritten into a `@link` to the target's
//! URL, checked against the site index.
use crate::ast::{Block, Document, Inline, ShortArgs};
use crate::shortcode::{ArgSpec, ArgType, ArgValue, Registry, ShortKindOpt, Shortcode};
use crate::span::Span;
use crate::strmap::StrMap;
use crate::text::{
    chars_to_string, join_segs, path_segments, push_all, push_range, push_str, range_string, segments, str_chars, str_eq,
    trim_bounds, trimmed, views,
};
use vstd::prelude::*;

verus! {

/// Register the inline `@page` shortcode (one optional `title`, bound to
/// position 1) so the resolver accepts it.
pub fn register(reg: &mut Registry)
    ensures
        final(reg).map.spec_get("page"@) is Some,
{
    let mut args: StrMap<ArgSpec> = StrMap::new();
    args.insert(String::from_str("title"), ArgSpec { ty: ArgType::String, required: false, position: Some(1), oneof: None });
    reg.map.insert(
        String::from_str("page"),
        Shortcode { kind: ShortKindOpt::Inline, arguments: args, template_html: None, template_llm: None },
    );
    proof {
        reveal_strlit("page");
    }
}

/// The site's pages: source path to output URL (relative to `base_url`),
/// and source path to the anchors the page defines.
#[derive(Clone, Debug)]
pub struct SiteIndex {
    pub pages: StrMap<String>,
    pub anchors: StrMap<StrMap<()>>,
    pub base_url: String,
}

impl Default for SiteIndex {
    fn default() -> (s: SiteIndex)
        ensures
            s.pages.view_entries().len() == 0,
            s.anchors.view_entries().len() == 0,
            s.base_url@.len() == 0,
    {
        SiteIndex { pages: StrMap::new(), anchors: StrMap::new(), base_url: String::new() }
    }
}

/// A `@page` that could not be resolved.
#[derive(Debug)]
pub struct PageError {
    pub source_path: String,
    pub target: String,
    pub kind: PageErrorKind,
}

/// Why a `@page` failed.
#[derive(Debug, Clone, Copy, PartialEq, Eq, Structural)]
pub enum PageErrorKind {
    UnknownPage,
    UnknownAnchor,
}

impl PageError {
    /// `unknown page: @page[TARGET] in SOURCE` (or `unknown anchor: ...`).
    pub fn message(&self) -> (r: String)
        ensures
            r@ == (match self.kind {
                PageErrorKind::UnknownPage => "unknown page"@,
                PageErrorKind::UnknownAnchor => "unknown anchor"@,
            }) + ": @page["@ + self.target@ + "] in "@ + self.source_path@,
    {
        let mut v: Vec<char> = Vec::new();
        match self.kind {
            PageErrorKind::UnknownPage => push_str(&mut v, "unknown page"),
            PageErrorKind::UnknownAnchor => push_str(&mut v, "unknown anchor"),
        }
        push_str(&mut v, ": @page[");
        push_str(&mut v, self.target.as_str());
        push_str(&mut v, "] in ");
        push_str(&mut v, self.source_path.as_str());
        chars_to_string(v.as_slice())
    }
}

/// No `@page` shortcode in `n`, at any depth.
pub open spec fn no_page(n: Inline) -> bool
    decreases n, 1nat,
{
    match n {
        Inline::Shortcode { name, content, .. } => name@ != "page"@ && match content {
            Some(c) => no_page_seq(c@),
            None => true,
        },
        Inline::Bold { content, .. } => no_page_seq(content@),
        Inline::Italic { content, .. } => no_page_seq(content@),
        Inline::Underline { content, .. } => no_page_seq(content@),
        Inline::Strike { content, .. } => no_page_seq(content@),
        _ => true,
    }
}

/// No `@page` in any node of `v`.
pub open spec fn no_page_seq(v: Seq<Inline>) -> bool
    decreases v, 0nat,
{
    forall|i: int| 0 <= i < v.len() ==> no_page(#[trigger] v[i])
}

/// No `@page` in any cell.
pub open spec fn no_page_cells(v: Seq<Vec<Inline>>) -> bool {
    forall|i: int| 0 <= i < v.len() ==> no_page_seq(#[trigger] v[i]@)
}

/// No `@page` anywhere in `b`.
pub open spec fn no_page_block(b: Block) -> bool
    decreases b,
{
    match b {
        Block::Heading { content, .. } => no_page_seq(content@),
        Block::Paragraph { content, .. } => no_page_seq(content@),
        Block::List { items, .. } => no_page_items(items@),
        Block::Blockquote { children, .. } => no_page_blocks(children@),
        Block::BlockShortcode { children, .. } => no_page_blocks(children@),
        Block::Table { header, rows, .. } => no_page_cells(header.cells@) && forall|r: int|
            0 <= r < rows@.len() ==> no_page_cells(#[trigger] rows@[r].cells@),
        Block::DefinitionList { items, .. } => forall|k: int|
            0 <= k < items@.len() ==> no_page_seq((#[trigger] items@[k]).term@) && no_page_seq(items@[k].definition@),
        _ => true,
    }
}

/// No `@page` in any block of `v`.
pub open spec fn no_page_blocks(v: Seq<Block>) -> bool
    decreases v,
{
    v.len() == 0 || (no_page_blocks(v.drop_last()) && no_page_block(v.last()))
}

/// No `@page` in any list item of `v`.
pub open spec fn no_page_items(v: Seq<crate::ast::ListItem>) -> bool
    decreases v,
{
    v.len() == 0 || (no_page_items(v.drop_last()) && no_page_item(v.last()))
}

/// No `@page` in a list item's text or blocks.
pub open spec fn no_page_item(it: crate::ast::ListItem) -> bool
    decreases it,
{
    no_page_seq(it.content@) && no_page_blocks(it.children@)
}

proof fn lemma_no_page_blocks(v: Seq<Block>)
    requires
        forall|i: int| 0 <= i < v.len() ==> no_page_block(#[trigger] v[i]),
    ensures
        no_page_blocks(v),
    decreases v.len(),
{
    if v.len() > 0 {
        let d = v.drop_last();
        assert forall|i: int| 0 <= i < d.len() implies no_page_block(#[trigger] d[i]) by {
            assert(d[i] == v[i]);
        }
        lemma_no_page_blocks(d);
    }
}

proof fn lemma_no_page_items(v: Seq<crate::ast::ListItem>)
    requires
        forall|i: int| 0 <= i < v.len() ==> no_page_item(#[trigger] v[i]),
    ensures
        no_page_items(v),
    decreases v.len(),
{
    if v.len() > 0 {
        let d = v.drop_last();
        assert forall|i: int| 0 <= i < d.len() implies no_page_item(#[trigger] d[i]) by {
            assert(d[i] == v[i]);
        }
        lemma_no_page_items(d);
    }
}

/// Rewrite every `@page` of `doc` into a `@link` (or plain text when it
/// does not resolve); `source` is the page's source path.
pub fn rewrite(doc: &mut Document, index: &SiteIndex, source: &str) -> (r: Vec<PageError>)
    ensures
        final(doc).blocks@.len() == old(doc).blocks@.len(),
        no_page_blocks(final(doc).blocks@),
{
    let mut errs: Vec<PageError> = Vec::new();
    let n = doc.blocks.len();
    let mut i: usize = 0;
    while i < n
        invariant
            n == doc.blocks@.len(),
            i <= n,
            forall|j: int| 0 <= j < i ==> no_page_block(#[trigger] doc.blocks@[j]),
        decreases n - i,
    {
        rewrite_block(&mut doc.blocks[i], index, source, &mut errs);
        i = i + 1;
    }
    proof {
        lemma_no_page_blocks(doc.blocks@);
    }
    errs
}

fn rewrite_blocks(v: &mut Vec<Block>, idx: &SiteIndex, source: &str, errs: &mut Vec<PageError>)
    ensures
        final(v)@.len() == old(v)@.len(),
        no_page_blocks(final(v)@),
    decreases *old(v), 1nat,
{
    let n = v.len();
    let mut i: usize = 0;
    while i < n
        invariant
            n == v@.len(),
            n == old(v)@.len(),
            i <= n,
            forall|j: int| i <= j < n ==> v@[j] == old(v)@[j],
            forall|j: int| 0 <= j < i ==> no_page_block(#[trigger] v@[j]),
        decreases n - i,
    {
        proof {
            assert(decreases_to!(*old(v) => old(v)@[i as int]));
        }
        rewrite_block(&mut v[i], idx, source, errs);
        i = i + 1;
    }
    proof {
        lemma_no_page_blocks(v@);
    }
}

fn rewrite_seq(v: &mut Vec<Inline>, idx: &SiteIndex, source: &str, errs: &mut Vec<PageError>)
    ensures
        final(v)@.len() == old(v)@.len(),
        no_page_seq(final(v)@),
    decreases *old(v), 1nat,
{
    let n = v.len();
    let mut i: usize = 0;
    while i < n
        invariant
            n == v@.len(),
            n == old(v)@.len(),
            i <= n,
            forall|j: int| i <= j < n ==> v@[j] == old(v)@[j],
            forall|j: int| 0 <= j < i ==> no_page(#[trigger] v@[j]),
        decreases n - i,
    {
        proof {
            assert(decreases_to!(*old(v) => old(v)@[i as int]));
        }
        rewrite_inline(&mut v[i], idx, source, errs);
        i = i + 1;
    }
}

fn rewrite_block(block: &mut Block, idx: &SiteIndex, source: &str, errs: &mut Vec<PageError>)
    ensures
        no_page_block(*final(block)),
    decreases *old(block), 2nat,
{
    match block {
        Block::Heading { content, .. } => rewrite_seq(content, idx, source, errs),
        Block::Paragraph { content, .. } => rewrite_seq(content, idx, source, errs),
        Block::List { items, .. } => {
            let ghost oi = *items;
            proof {
                assert(decreases_to!(*old(block) => oi));
            }
            let n = items.len();
            let mut k: usize = 0;
            while k < n
                invariant
                    n == items@.len(),
                    n == oi@.len(),
                    forall|j: int| k <= j < n ==> items@[j] == oi@[j],
                    forall|j: int| 0 <= j < k ==> no_page_item(#[trigger] items@[j]),
                decreases n - k,
            {
                rewrite_seq(&mut items[k].content, idx, source, errs);
                proof {
                    assert(decreases_to!(oi => oi@[k as int]));
                    assert(decreases_to!(oi@[k as int] => oi@[k as int].children));
                }
                rewrite_blocks(&mut items[k].children, idx, source, errs);
                assert(no_page_item(items@[k as int]));
                k = k + 1;
            }
            proof {
                lemma_no_page_items(items@);
            }
        },
        Block::Blockquote { children, .. } => rewrite_blocks(children, idx, source, errs),
        Block::BlockShortcode { children, .. } => rewrite_blocks(children, idx, source, errs),
        Block::Table { header, rows, .. } => {
            let n = header.cells.len();
            let mut c: usize = 0;
            while c < n
                invariant
                    n == header.cells@.len(),
                    forall|j: int| 0 <= j < c ==> no_page_seq(#[trigger] header.cells@[j]@),
                decreases n - c,
            {
                rewrite_seq(&mut header.cells[c], idx, source, errs);
                c = c + 1;
            }
            let m = rows.len();
            let mut r: usize = 0;
            while r < m
                invariant
                    m == rows@.len(),
                    no_page_cells(header.cells@),
                    forall|j: int| 0 <= j < r ==> no_page_cells(#[trigger] rows@[j].cells@),
                decreases m - r,
            {
                let n = rows[r].cells.len();
                let mut c: usize = 0;
                while c < n
                    invariant
                        m == rows@.len(),
                        r < m,
                        n == rows@[r as int].cells@.len(),
                        no_page_cells(header.cells@),
                        forall|j: int| 0 <= j < r ==> no_page_cells(#[trigger] rows@[j].cells@),
                        forall|j: int| 0 <= j < c ==> no_page_seq(#[trigger] rows@[r as int].cells@[j]@),
                    decreases n - c,
                {
                    rewrite_seq(&mut rows[r].cells[c], idx, source, errs);
                    c = c + 1;
                }
                r = r + 1;
            }
        },
        Block::DefinitionList { items, .. } => {
            let n = items.len();
            let mut k: usize = 0;
            while k < n
                invariant
                    n == items@.len(),
                    forall|j: int| 0 <= j < k ==> no_page_seq((#[trigger] items@[j]).term@) && no_page_seq(
                        items@[j].definition@,
                    ),
                decreases n - k,
            {
                rewrite_seq(&mut items[k].term, idx, source, errs);
                rewrite_seq(&mut items[k].definition, idx, source, errs);
                k = k + 1;
            }
        },
        Block::CodeBlock { .. } => {},
        Block::HorizontalRule { .. } => {},
    }
}

/// What a `@page` becomes: a link to the resolved URL, or its title as text.
enum PageRewrite {
    Link { url: String, title: String },
    Text { title: String, target: String, kind: PageErrorKind },
}

fn rewrite_inline(node: &mut Inline, idx: &SiteIndex, source: &str, errs: &mut Vec<PageError>)
    ensures
        no_page(*final(node)),
    decreases *old(node), 2nat,
{
    let action: Option<PageRewrite> = match &*node {
        Inline::Shortcode { name, args, content, .. } => {
            if str_eq(name.as_str(), "page") {
                let target = match content {
                    Some(c) => crate::analysis::inline_text(c),
                    None => String::new(),
                };
                let title = title_text(args, content);
                match resolve_target(idx, source, target.as_str()) {
                    Ok(url) => Some(PageRewrite::Link { url, title }),
                    Err(kind) => Some(PageRewrite::Text { title, target, kind }),
                }
            } else {
                None
            }
        },
        _ => None,
    };
    match action {
        Some(PageRewrite::Link { url, title }) => {
            let span = match &*node {
                Inline::Shortcode { span, .. } => *span,
                _ => Span::new(0, 0),
            };
            let mut new_args = ShortArgs::default();
            new_args.keyword.insert(String::from_str("url"), ArgValue::Str(url));
            let mut body: Vec<Inline> = Vec::new();
            body.push(Inline::Text { value: title, span: Span::new(0, 0) });
            let name = String::from_str("link");
            proof {
                reveal_strlit("link");
                reveal_strlit("page");
                assert(name@[0] == 'l' && "page"@[0] == 'p');
                assert(name@ != "page"@);
                assert(no_page_seq(body@));
            }
            *node = Inline::Shortcode { name, args: new_args, content: Some(body), span };
        },
        Some(PageRewrite::Text { title, target, kind }) => {
            errs.push(PageError { source_path: source.to_string(), target, kind });
            *node = Inline::Text { value: title, span: Span::new(0, 0) };
        },
        None => match node {
            Inline::Shortcode { content, .. } => match content {
                Some(c) => rewrite_seq(c, idx, source, errs),
                None => {},
            },
            Inline::Bold { content, .. } => rewrite_seq(content, idx, source, errs),
            Inline::Italic { content, .. } => rewrite_seq(content, idx, source, errs),
            Inline::Underline { content, .. } => rewrite_seq(content, idx, source, errs),
            Inline::Strike { content, .. } => rewrite_seq(content, idx, source, errs),
            _ => {},
        },
    }
}

/// The title a `@page` shows: its `title` argument, else its first
/// positional argument (when a string or identifier), else the text of its
/// content, else nothing.
pub open spec fn title_spec(args: ShortArgs, content: Option<Vec<Inline>>) -> Seq<char> {
    if args.keyword.spec_get("title"@) matches Some(v) && crate::shortcode::spec_as_str(v) is Some {
        crate::shortcode::spec_as_str(args.keyword.spec_get("title"@)->Some_0)->Some_0
    } else if args.positional@.len() > 0 && crate::shortcode::spec_as_str(args.positional@[0]) is Some {
        crate::shortcode::spec_as_str(args.positional@[0])->Some_0
    } else {
        match content {
            Some(c) => crate::analysis::texts_of(c@),
            None => seq![],
        }
    }
}

/// Title of a `@page`: the `title` argument, the first positional one, or
/// the body's text.
fn title_text(args: &ShortArgs, content: &Option<Vec<Inline>>) -> (r: String)
    ensures
        r@ == title_spec(*args, *content),
{
    match args.keyword.get("title") {
        Some(v) => match v.as_str() {
            Some(s) => {
                let r = s.to_string();
                proof {
                    vstd::string::to_string_from_display_ensures_for_str(s, r);
                }
                return r;
            },
            None => {},
        },
        None => {},
    }
    if args.positional.len() > 0 {
        match args.positional[0].as_str() {
            Some(s) => {
                let r = s.to_string();
                proof {
                    vstd::string::to_string_from_display_ensures_for_str(s, r);
                }
                return r;
            },
            None => {},
        }
    }
    match content {
        Some(c) => crate::analysis::inline_text(c),
        None => String::new(),
    }
}

/// Components with `.` dropped and each `..` removing the one before it
/// (nothing when there is none).
pub open spec fn fold_dots(segs: Seq<Seq<char>>) -> Seq<Seq<char>>
    decreases segs.len(),
{
    if segs.len() == 0 {
        seq![]
    } else {
        let k = fold_dots(segs.drop_last());
        let s = segs.last();
        if s == seq!['.', '.'] {
            if k.len() > 0 {
                k.drop_last()
            } else {
                k
            }
        } else if s == seq!['.'] {
            k
        } else {
            k.push(s)
        }
    }
}

/// `p` normalized: its components with `.` and `..` folded, joined with
/// `/`, behind a `/` when `p` starts with one.
pub open spec fn normalize_spec(p: Seq<char>) -> Seq<char> {
    (if p.len() > 0 && p[0] == '/' {
        seq!['/']
    } else {
        seq![]
    }) + join_segs(fold_dots(path_segments(p)))
}

/// `path` with `.` segments dropped and each `..` removing the segment
/// before it; a leading `/` is kept (see `normalize_spec`).
pub fn normalize(path: &str) -> (r: String)
    ensures
        r@ == normalize_spec(path@),
{
    let p = str_chars(path);
    let absolute = p.len() > 0 && p[0] == '/';
    let segs = segments(p.as_slice());
    let mut kept: Vec<Vec<char>> = Vec::new();
    let mut i: usize = 0;
    while i < segs.len()
        invariant
            i <= segs@.len(),
            views(segs@) == path_segments(p@),
            views(kept@) == fold_dots(views(segs@).take(i as int)),
        decreases segs@.len() - i,
    {
        let ghost before = views(kept@);
        let ghost vs = views(segs@);
        assert(vs.take(i + 1).drop_last() =~= vs.take(i as int));
        assert(vs.take(i + 1).last() == segs@[i as int]@);
        let s = segs[i].as_slice();
        if s.len() == 2 && s[0] == '.' && s[1] == '.' {
            assert(segs@[i as int]@ =~= seq!['.', '.']);
            kept.pop();
            proof {
                if before.len() > 0 {
                    assert(views(kept@) =~= before.drop_last());
                } else {
                    assert(views(kept@) =~= before);
                }
            }
        } else if !(s.len() == 1 && s[0] == '.') {
            proof {
                if segs@[i as int]@ == seq!['.', '.'] {
                    assert(s@.len() == 2 && s@[0] == '.' && s@[1] == '.');
                }
                if segs@[i as int]@ == seq!['.'] {
                    assert(s@.len() == 1 && s@[0] == '.');
                }
            }
            kept.push(crate::text::copy_range(s, 0, s.len()));
            assert(s@.subrange(0, s@.len() as int) =~= s@);
            assert(views(kept@) =~= before.push(segs@[i as int]@));
        } else {
            assert(segs@[i as int]@ =~= seq!['.']);
        }
        i = i + 1;
    }
    assert(views(segs@).take(segs@.len() as int) =~= views(segs@));
    let mut out: Vec<char> = Vec::new();
    if absolute {
        out.push('/');
    }
    let ghost head = out@;
    let mut k: usize = 0;
    while k < kept.len()
        invariant
            k <= kept@.len(),
            out@ == head + join_segs(views(kept@).take(k as int)),
        decreases kept@.len() - k,
    {
        let ghost vk = views(kept@);
        assert(vk.take(k + 1).drop_last() =~= vk.take(k as int));
        assert(vk.take(k + 1).last() == kept@[k as int]@);
        if k > 0 {
            out.push('/');
        }
        push_all(&mut out, kept[k].as_slice());
        proof {
            if k == 0 {
                assert(out@ =~= head + join_segs(vk.take(1)));
            } else {
                assert(out@ =~= head + join_segs(vk.take(k as int)) + seq!['/'] + kept@[k as int]@);
            }
        }
        k = k + 1;
    }
    assert(views(kept@).take(kept@.len() as int) =~= views(kept@));
    chars_to_string(out.as_slice())
}

/// Length of the directory part of `source` (through its last `/`).
pub open spec fn dir_len(source: Seq<char>) -> int
    decreases source.len(),
{
    if source.len() == 0 {
        0
    } else if source.last() == '/' {
        source.len() as int
    } else {
        dir_len(source.drop_last())
    }
}

fn after_last_slash(source: &[char]) -> (r: usize)
    ensures
        r <= source@.len(),
        r == dir_len(source@),
{
    let mut k = source.len();
    assert(source@.take(k as int) =~= source@);
    while k > 0 && source[k - 1] != '/'
        invariant
            k <= source@.len(),
            dir_len(source@) == dir_len(source@.take(k as int)),
        decreases k,
    {
        assert(source@.take(k as int).drop_last() =~= source@.take(k - 1));
        k = k - 1;
    }
    k
}

/// Index of the first `#` of `t` at or after `i`, or its length.
pub open spec fn first_hash_from(t: Seq<char>, i: int) -> int
    decreases t.len() - i,
{
    if i >= t.len() {
        t.len() as int
    } else if t[i] == '#' {
        i
    } else {
        first_hash_from(t, i + 1)
    }
}

/// The source path a `@page` target names: `source` itself for an empty
/// path, else the path (trimmed) joined to the directory of `source` (an
/// absolute path replaces it) and normalized.
pub open spec fn target_page(source: Seq<char>, t: Seq<char>) -> Seq<char> {
    let path = trimmed(t, 0, first_hash_from(t, 0));
    if path.len() == 0 {
        source
    } else {
        normalize_spec(
            (if path[0] != '/' {
                source.subrange(0, dir_len(source))
            } else {
                seq![]
            }) + path,
        )
    }
}

/// A page URL as linked: itself when absolute (`/...` or with `://`),
/// else under `base` with one `/` between.
pub open spec fn full_url(base: Seq<char>, u: Seq<char>) -> Seq<char> {
    if (u.len() > 0 && u[0] == '/') || crate::text::find_from(u, 0, "://"@) is Some {
        u
    } else {
        base + (if base.len() > 0 && base.last() == '/' {
            seq![]
        } else {
            seq!['/']
        }) + u
    }
}

/// What a `@page` target resolves to: the page's full URL (with `#anchor`
/// when the target names a non-empty one), or why it does not resolve.
pub open spec fn target_result(idx: SiteIndex, source: Seq<char>, t: Seq<char>) -> Result<Seq<char>, PageErrorKind> {
    let cand = target_page(source, t);
    let h = first_hash_from(t, 0);
    match idx.pages.spec_get(cand) {
        None => Err(PageErrorKind::UnknownPage),
        Some(u) => if h + 1 < t.len() {
            let a = t.subrange(h + 1, t.len() as int);
            if idx.anchors.spec_get(cand) matches Some(set) && set.spec_get(a) is Some {
                Ok(full_url(idx.base_url@, u@) + seq!['#'] + a)
            } else {
                Err(PageErrorKind::UnknownAnchor)
            }
        } else {
            Ok(full_url(idx.base_url@, u@))
        },
    }
}

/// URL of a `@page` target `path#anchor`, resolved against the directory
/// of `source` (see `target_result`).
#[verifier::rlimit(30)]
pub fn resolve_target(idx: &SiteIndex, source: &str, target: &str) -> (r: Result<String, PageErrorKind>)
    ensures
        r matches Ok(u) ==> target_result(*idx, source@, target@) == Ok::<Seq<char>, PageErrorKind>(u@),
        r matches Err(k) ==> target_result(*idx, source@, target@) == Err::<Seq<char>, PageErrorKind>(k),
{
    let t = str_chars(target);
    let mut h: usize = 0;
    while h < t.len() && t[h] != '#'
        invariant
            h <= t@.len(),
            first_hash_from(t@, 0) == first_hash_from(t@, h as int),
        decreases t@.len() - h,
    {
        h = h + 1;
    }
    assert(h == first_hash_from(t@, 0));
    let (pa, pb) = trim_bounds(t.as_slice(), 0, h);
    let candidate: String = if pa == pb {
        source.to_string()
    } else {
        // The source's directory joined with the path, as `Path::join`
        // does; `normalize` then folds `.` and `..`.
        let s = str_chars(source);
        let k = after_last_slash(s.as_slice());
        let mut joined: Vec<char> = Vec::new();
        if t[pa] != '/' {
            push_range(&mut joined, s.as_slice(), 0, k);
        }
        push_range(&mut joined, t.as_slice(), pa, pb);
        proof {
            let path = t@.subrange(pa as int, pb as int);
            assert(path[0] == t@[pa as int]);
            let dir = if path[0] != '/' { s@.subrange(0, k as int) } else { Seq::<char>::empty() };
            assert(joined@ =~= dir + path);
        }
        normalize(chars_to_string(joined.as_slice()).as_str())
    };
    let url = match idx.pages.get(candidate.as_str()) {
        Some(u) => u,
        None => {
            return Err(PageErrorKind::UnknownPage);
        },
    };
    assert(candidate@ == target_page(source@, t@));
    let uc = str_chars(url.as_str());
    let mut full: Vec<char> = Vec::new();
    let abs = (uc.len() > 0 && uc[0] == '/') || crate::text::find_str(uc.as_slice(), 0, "://").is_some();
    if abs {
        push_all(&mut full, uc.as_slice());
    } else {
        let b = str_chars(idx.base_url.as_str());
        push_all(&mut full, b.as_slice());
        if !(b.len() > 0 && b[b.len() - 1] == '/') {
            full.push('/');
        }
        push_all(&mut full, uc.as_slice());
    }
    if h < t.len() && h + 1 < t.len() {
        let anchor = range_string(t.as_slice(), h + 1, t.len());
        let set = match idx.anchors.get(candidate.as_str()) {
            Some(s) => s,
            None => {
                return Err(PageErrorKind::UnknownAnchor);
            },
        };
        if !set.contains_key(anchor.as_str()) {
            return Err(PageErrorKind::UnknownAnchor);
        }
        full.push('#');
        push_range(&mut full, t.as_slice(), h + 1, t.len());
    }
    assert(full@ =~= match target_result(*idx, source@, t@) {
        Ok(x) => x,
        Err(_) => full@,
    });
    Ok(chars_to_string(full.as_slice()))
}

} // verus!
