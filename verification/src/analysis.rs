//! Editor support on a parsed document: headings and their outline,
//! `@ref` sites and what lies under a cursor, project-relative paths, and
//! what the user is in the middle of typing.
use crate::ast::{Block, DefinitionItem, Document, Inline, ListItem, Row};
use crate::span::Span;
use crate::text::{
    chars_to_string, copy_range, join_segs, path_segments, push_range, push_str, range_string, segments, str_chars, str_eq,
    trim_bounds, views,
};
use vstd::prelude::*;

verus! {

/// A heading, in document order.
pub struct HeadingInfo {
    pub level: u8,
    pub text: String,
    pub anchor: Option<String>,
    pub span: Span,
}

/// A heading as plain values: level, text, anchor, span.
pub open spec fn heading_view(h: HeadingInfo) -> (u8, Seq<char>, Option<Seq<char>>, Span) {
    (h.level, h.text@, match h.anchor {
        Some(a) => Some(a@),
        None => None,
    }, h.span)
}

/// The views of a sequence of headings.
pub open spec fn heading_views(v: Seq<HeadingInfo>) -> Seq<(u8, Seq<char>, Option<Seq<char>>, Span)> {
    Seq::new(v.len(), |i: int| heading_view(v[i]))
}

/// The headings of a block, in document order: a heading itself, and those
/// nested in quotes, list items' blocks and block shortcodes.
pub open spec fn headings_block(b: Block) -> Seq<(u8, Seq<char>, Option<Seq<char>>, Span)>
    decreases b, 1nat,
{
    match b {
        Block::Heading { level, content, anchor, span } => seq![
            (level, texts_of(content@), match anchor {
                Some(a) => Some(a@),
                None => None,
            }, span),
        ],
        Block::Blockquote { children, .. } => headings_blocks(children@),
        Block::BlockShortcode { children, .. } => headings_blocks(children@),
        Block::List { items, .. } => headings_items(items@),
        _ => seq![],
    }
}

/// `headings_block` over a sequence of blocks.
pub open spec fn headings_blocks(v: Seq<Block>) -> Seq<(u8, Seq<char>, Option<Seq<char>>, Span)>
    decreases v, 0nat,
{
    if v.len() == 0 {
        seq![]
    } else {
        headings_blocks(v.drop_last()) + headings_block(v.last())
    }
}

/// The headings in the nested blocks of list items.
pub open spec fn headings_items(v: Seq<ListItem>) -> Seq<(u8, Seq<char>, Option<Seq<char>>, Span)>
    decreases v, 0nat,
{
    if v.len() == 0 {
        seq![]
    } else {
        headings_items(v.drop_last()) + headings_blocks(v.last().children@)
    }
}

/// The headings of `doc` (also inside quotes, list items and block
/// shortcodes), in document order.
pub fn collect_headings(doc: &Document) -> (r: Vec<HeadingInfo>)
    ensures
        heading_views(r@) == headings_blocks(doc.blocks@),
{
    let mut out: Vec<HeadingInfo> = Vec::new();
    let mut i: usize = 0;
    while i < doc.blocks.len()
        invariant
            i <= doc.blocks@.len(),
            heading_views(out@) == headings_blocks(doc.blocks@.take(i as int)),
        decreases doc.blocks@.len() - i,
    {
        collect_headings_block(&doc.blocks[i], &mut out);
        assert(doc.blocks@.take(i + 1).drop_last() =~= doc.blocks@.take(i as int));
        i = i + 1;
    }
    assert(doc.blocks@.take(doc.blocks@.len() as int) =~= doc.blocks@);
    out
}

fn collect_headings_block(b: &Block, out: &mut Vec<HeadingInfo>)
    ensures
        heading_views(final(out)@) == heading_views(old(out)@) + headings_block(*b),
    decreases b, 1nat,
{
    let ghost o = heading_views(out@);
    match b {
        Block::Heading { level, content, anchor, span } => {
            let a = match anchor {
                Some(x) => Some(x.clone()),
                None => None,
            };
            out.push(HeadingInfo { level: *level, text: inline_text(content), anchor: a, span: *span });
            assert(heading_views(out@) =~= o + headings_block(*b));
        },
        Block::Blockquote { children, .. } => collect_headings_in(b, children, out),
        Block::BlockShortcode { children, .. } => collect_headings_in(b, children, out),
        Block::List { items, .. } => {
            let mut k: usize = 0;
            while k < items.len()
                invariant
                    k <= items@.len(),
                    heading_views(out@) == o + headings_items(items@.take(k as int)),
                decreases items@.len() - k,
            {
                proof {
                    assert(decreases_to!(*b => items@[k as int]));
                    assert(decreases_to!(items@[k as int] => items@[k as int].children));
                }
                collect_headings_in(b, &items[k].children, out);
                assert(items@.take(k + 1).drop_last() =~= items@.take(k as int));
                k = k + 1;
            }
            assert(items@.take(items@.len() as int) =~= items@);
        },
        _ => {
            assert(heading_views(out@) =~= o + headings_block(*b));
        },
    }
}

fn collect_headings_in(parent: &Block, v: &Vec<Block>, out: &mut Vec<HeadingInfo>)
    requires
        decreases_to!(*parent => *v),
    ensures
        heading_views(final(out)@) == heading_views(old(out)@) + headings_blocks(v@),
    decreases parent, 0nat,
{
    let mut i: usize = 0;
    while i < v.len()
        invariant
            i <= v@.len(),
            decreases_to!(*parent => *v),
            heading_views(out@) == heading_views(old(out)@) + headings_blocks(v@.take(i as int)),
        decreases v@.len() - i,
    {
        proof {
            assert(decreases_to!(*v => v@[i as int]));
        }
        collect_headings_block(&v[i], out);
        assert(v@.take(i + 1).drop_last() =~= v@.take(i as int));
        i = i + 1;
    }
    assert(v@.take(v@.len() as int) =~= v@);
}

/// The plain text of one inline node: text and code kept, markup dropped,
/// a hard break as a space, a shortcode by its content.
pub open spec fn text_of(n: Inline) -> Seq<char>
    decreases n, 1nat,
{
    match n {
        Inline::Text { value, .. } => value@,
        Inline::InlineCode { value, .. } => value@,
        Inline::HardBreak { .. } => seq![' '],
        Inline::Bold { content, .. } => texts_of(content@),
        Inline::Italic { content, .. } => texts_of(content@),
        Inline::Underline { content, .. } => texts_of(content@),
        Inline::Strike { content, .. } => texts_of(content@),
        Inline::Shortcode { content, .. } => match content {
            Some(c) => texts_of(c@),
            None => seq![],
        },
    }
}

/// The plain text of an inline sequence: its nodes' texts in order.
pub open spec fn texts_of(v: Seq<Inline>) -> Seq<char>
    decreases v, 0nat,
{
    if v.len() == 0 {
        seq![]
    } else {
        texts_of(v.drop_last()) + text_of(v.last())
    }
}

/// Inline content flattened to plain text (see `texts_of`).
pub fn inline_text(nodes: &Vec<Inline>) -> (r: String)
    ensures
        r@ == texts_of(nodes@),
{
    let mut out: Vec<char> = Vec::new();
    let mut i: usize = 0;
    while i < nodes.len()
        invariant
            i <= nodes@.len(),
            out@ == texts_of(nodes@.take(i as int)),
        decreases nodes@.len() - i,
    {
        push_inline_text(&nodes[i], &mut out);
        assert(nodes@.take(i + 1).drop_last() =~= nodes@.take(i as int));
        i = i + 1;
    }
    assert(nodes@.take(nodes@.len() as int) =~= nodes@);
    chars_to_string(out.as_slice())
}

fn push_inline_text(n: &Inline, out: &mut Vec<char>)
    ensures
        final(out)@ == old(out)@ + text_of(*n),
    decreases n, 1nat,
{
    match n {
        Inline::Text { value, .. } => push_str(out, value.as_str()),
        Inline::InlineCode { value, .. } => push_str(out, value.as_str()),
        Inline::Bold { content, .. } => push_text_in(n, content, out),
        Inline::Italic { content, .. } => push_text_in(n, content, out),
        Inline::Underline { content, .. } => push_text_in(n, content, out),
        Inline::Strike { content, .. } => push_text_in(n, content, out),
        Inline::HardBreak { .. } => out.push(' '),
        Inline::Shortcode { content, .. } => match content {
            Some(c) => {
                proof {
                    assert(decreases_to!(*n => *c));
                }
                push_text_in(n, c, out);
            },
            None => {},
        },
    }
}

fn push_text_in(parent: &Inline, v: &Vec<Inline>, out: &mut Vec<char>)
    requires
        decreases_to!(*parent => *v),
    ensures
        final(out)@ == old(out)@ + texts_of(v@),
    decreases parent, 0nat,
{
    let mut i: usize = 0;
    while i < v.len()
        invariant
            i <= v@.len(),
            decreases_to!(*parent => *v),
            out@ == old(out)@ + texts_of(v@.take(i as int)),
        decreases v@.len() - i,
    {
        proof {
            assert(decreases_to!(*v => v@[i as int]));
        }
        push_inline_text(&v[i], out);
        assert(v@.take(i + 1).drop_last() =~= v@.take(i as int));
        i = i + 1;
    }
    assert(v@.take(v@.len() as int) =~= v@);
}

/// A `@ref` use: its span and raw target text.
pub struct RefSite {
    pub span: Span,
    pub target: String,
}

/// A `@ref` site as a span and target text.
pub open spec fn site_view(r: RefSite) -> (Span, Seq<char>) {
    (r.span, r.target@)
}

/// The views of a sequence of sites.
pub open spec fn site_views(v: Seq<RefSite>) -> Seq<(Span, Seq<char>)> {
    Seq::new(v.len(), |i: int| site_view(v[i]))
}

/// The `@ref`s with a plain-text body that an inline node holds, as
/// (span, target): inside emphasis and other shortcodes' content, not
/// inside an `@ref`'s own body.
pub open spec fn plain_refs_inline(n: Inline) -> Seq<(Span, Seq<char>)>
    decreases n, 1nat,
{
    match n {
        Inline::Bold { content, .. } => plain_refs_inlines(content@),
        Inline::Italic { content, .. } => plain_refs_inlines(content@),
        Inline::Underline { content, .. } => plain_refs_inlines(content@),
        Inline::Strike { content, .. } => plain_refs_inlines(content@),
        Inline::Shortcode { name, content, span, .. } => if name@ == "ref"@ {
            match content {
                Some(c) => if c@.len() == 1 {
                    match c@[0] {
                        Inline::Text { value, .. } => seq![(span, value@)],
                        _ => seq![],
                    }
                } else {
                    seq![]
                },
                None => seq![],
            }
        } else {
            match content {
                Some(c) => plain_refs_inlines(c@),
                None => seq![],
            }
        },
        _ => seq![],
    }
}

/// `plain_refs_inline` over a sequence, in order.
pub open spec fn plain_refs_inlines(v: Seq<Inline>) -> Seq<(Span, Seq<char>)>
    decreases v, 0nat,
{
    if v.len() == 0 {
        seq![]
    } else {
        plain_refs_inlines(v.drop_last()) + plain_refs_inline(v.last())
    }
}

/// Plain-body `@ref`s of table cells.
pub open spec fn plain_refs_cells(v: Seq<Vec<Inline>>) -> Seq<(Span, Seq<char>)>
    decreases v.len(),
{
    if v.len() == 0 {
        seq![]
    } else {
        plain_refs_cells(v.drop_last()) + plain_refs_inlines(v.last()@)
    }
}

/// Plain-body `@ref`s of table rows.
pub open spec fn plain_refs_rows(v: Seq<Row>) -> Seq<(Span, Seq<char>)>
    decreases v.len(),
{
    if v.len() == 0 {
        seq![]
    } else {
        plain_refs_rows(v.drop_last()) + plain_refs_cells(v.last().cells@)
    }
}

/// Plain-body `@ref`s of definition-list items (term, then definition).
pub open spec fn plain_refs_defs(v: Seq<DefinitionItem>) -> Seq<(Span, Seq<char>)>
    decreases v.len(),
{
    if v.len() == 0 {
        seq![]
    } else {
        plain_refs_defs(v.drop_last()) + plain_refs_inlines(v.last().term@) + plain_refs_inlines(
            v.last().definition@,
        )
    }
}

/// The plain-body `@ref`s of a block, in document order.
pub open spec fn plain_refs_block(b: Block) -> Seq<(Span, Seq<char>)>
    decreases b, 1nat,
{
    match b {
        Block::Heading { content, .. } => plain_refs_inlines(content@),
        Block::Paragraph { content, .. } => plain_refs_inlines(content@),
        Block::List { items, .. } => plain_refs_items(items@),
        Block::Blockquote { children, .. } => plain_refs_blocks(children@),
        Block::BlockShortcode { children, .. } => plain_refs_blocks(children@),
        Block::Table { header, rows, .. } => plain_refs_cells(header.cells@) + plain_refs_rows(rows@),
        Block::DefinitionList { items, .. } => plain_refs_defs(items@),
        _ => seq![],
    }
}

/// `plain_refs_block` over a sequence of blocks.
pub open spec fn plain_refs_blocks(v: Seq<Block>) -> Seq<(Span, Seq<char>)>
    decreases v, 0nat,
{
    if v.len() == 0 {
        seq![]
    } else {
        plain_refs_blocks(v.drop_last()) + plain_refs_block(v.last())
    }
}

/// Plain-body `@ref`s of list items: each item's text, then its blocks.
pub open spec fn plain_refs_items(v: Seq<ListItem>) -> Seq<(Span, Seq<char>)>
    decreases v, 0nat,
{
    if v.len() == 0 {
        seq![]
    } else {
        plain_refs_items(v.drop_last()) + plain_refs_inlines(v.last().content@) + plain_refs_blocks(
            v.last().children@,
        )
    }
}

/// Every `@ref` whose body is plain text, in document order.
pub fn collect_refs(doc: &Document) -> (r: Vec<RefSite>)
    ensures
        site_views(r@) == plain_refs_blocks(doc.blocks@),
{
    let mut out: Vec<RefSite> = Vec::new();
    let mut i: usize = 0;
    while i < doc.blocks.len()
        invariant
            i <= doc.blocks@.len(),
            site_views(out@) == plain_refs_blocks(doc.blocks@.take(i as int)),
        decreases doc.blocks@.len() - i,
    {
        collect_refs_block(&doc.blocks[i], &mut out);
        assert(doc.blocks@.take(i + 1).drop_last() =~= doc.blocks@.take(i as int));
        i = i + 1;
    }
    assert(doc.blocks@.take(doc.blocks@.len() as int) =~= doc.blocks@);
    out
}

fn refs_seq(v: &Vec<Inline>, out: &mut Vec<RefSite>)
    ensures
        site_views(final(out)@) == site_views(old(out)@) + plain_refs_inlines(v@),
{
    let mut i: usize = 0;
    while i < v.len()
        invariant
            i <= v@.len(),
            site_views(out@) == site_views(old(out)@) + plain_refs_inlines(v@.take(i as int)),
        decreases v@.len() - i,
    {
        collect_refs_inline(&v[i], out);
        assert(v@.take(i + 1).drop_last() =~= v@.take(i as int));
        i = i + 1;
    }
    assert(v@.take(v@.len() as int) =~= v@);
}

fn collect_refs_block(b: &Block, out: &mut Vec<RefSite>)
    ensures
        site_views(final(out)@) == site_views(old(out)@) + plain_refs_block(*b),
    decreases b, 1nat,
{
    let ghost o = site_views(out@);
    match b {
        Block::Heading { content, .. } => refs_seq(content, out),
        Block::Paragraph { content, .. } => refs_seq(content, out),
        Block::List { items, .. } => {
            let mut k: usize = 0;
            while k < items.len()
                invariant
                    k <= items@.len(),
                    site_views(out@) == o + plain_refs_items(items@.take(k as int)),
                decreases items@.len() - k,
            {
                refs_seq(&items[k].content, out);
                proof {
                    assert(decreases_to!(*b => items@[k as int]));
                    assert(decreases_to!(items@[k as int] => items@[k as int].children));
                }
                collect_refs_in(b, &items[k].children, out);
                assert(items@.take(k + 1).drop_last() =~= items@.take(k as int));
                k = k + 1;
            }
            assert(items@.take(items@.len() as int) =~= items@);
        },
        Block::Blockquote { children, .. } => collect_refs_in(b, children, out),
        Block::BlockShortcode { children, .. } => collect_refs_in(b, children, out),
        Block::Table { header, rows, .. } => {
            let mut c: usize = 0;
            while c < header.cells.len()
                invariant
                    c <= header.cells@.len(),
                    site_views(out@) == o + plain_refs_cells(header.cells@.take(c as int)),
                decreases header.cells@.len() - c,
            {
                refs_seq(&header.cells[c], out);
                assert(header.cells@.take(c + 1).drop_last() =~= header.cells@.take(c as int));
                c = c + 1;
            }
            assert(header.cells@.take(header.cells@.len() as int) =~= header.cells@);
            let ghost oh = site_views(out@);
            let mut r: usize = 0;
            while r < rows.len()
                invariant
                    r <= rows@.len(),
                    site_views(out@) == oh + plain_refs_rows(rows@.take(r as int)),
                decreases rows@.len() - r,
            {
                let ghost orow = site_views(out@);
                let mut c: usize = 0;
                while c < rows[r].cells.len()
                    invariant
                        c <= rows@[r as int].cells@.len(),
                        site_views(out@) == orow + plain_refs_cells(rows@[r as int].cells@.take(c as int)),
                    decreases rows@[r as int].cells@.len() - c,
                {
                    refs_seq(&rows[r].cells[c], out);
                    let ghost cs = rows@[r as int].cells@;
                    assert(cs.take(c + 1).drop_last() =~= cs.take(c as int));
                    c = c + 1;
                }
                let ghost cs = rows@[r as int].cells@;
                assert(cs.take(cs.len() as int) =~= cs);
                assert(rows@.take(r + 1).drop_last() =~= rows@.take(r as int));
                r = r + 1;
            }
            assert(rows@.take(rows@.len() as int) =~= rows@);
        },
        Block::DefinitionList { items, .. } => {
            let mut k: usize = 0;
            while k < items.len()
                invariant
                    k <= items@.len(),
                    site_views(out@) == o + plain_refs_defs(items@.take(k as int)),
                decreases items@.len() - k,
            {
                refs_seq(&items[k].term, out);
                refs_seq(&items[k].definition, out);
                assert(items@.take(k + 1).drop_last() =~= items@.take(k as int));
                k = k + 1;
            }
            assert(items@.take(items@.len() as int) =~= items@);
        },
        Block::CodeBlock { .. } => {},
        Block::HorizontalRule { .. } => {},
    }
}

fn collect_refs_in(parent: &Block, v: &Vec<Block>, out: &mut Vec<RefSite>)
    requires
        decreases_to!(*parent => *v),
    ensures
        site_views(final(out)@) == site_views(old(out)@) + plain_refs_blocks(v@),
    decreases parent, 0nat,
{
    let mut i: usize = 0;
    while i < v.len()
        invariant
            i <= v@.len(),
            decreases_to!(*parent => *v),
            site_views(out@) == site_views(old(out)@) + plain_refs_blocks(v@.take(i as int)),
        decreases v@.len() - i,
    {
        proof {
            assert(decreases_to!(*v => v@[i as int]));
        }
        collect_refs_block(&v[i], out);
        assert(v@.take(i + 1).drop_last() =~= v@.take(i as int));
        i = i + 1;
    }
    assert(v@.take(v@.len() as int) =~= v@);
}

fn collect_refs_inline(n: &Inline, out: &mut Vec<RefSite>)
    ensures
        site_views(final(out)@) == site_views(old(out)@) + plain_refs_inline(*n),
    decreases n, 1nat,
{
    proof {
        reveal_strlit("ref");
    }
    let ghost o = site_views(out@);
    match n {
        Inline::Bold { content, .. } => refs_in(n, content, out),
        Inline::Italic { content, .. } => refs_in(n, content, out),
        Inline::Underline { content, .. } => refs_in(n, content, out),
        Inline::Strike { content, .. } => refs_in(n, content, out),
        Inline::Shortcode { name, content, span, .. } => {
            if str_eq(name.as_str(), "ref") {
                match content {
                    Some(c) => {
                        if c.len() == 1 {
                            match &c[0] {
                                Inline::Text { value, .. } => {
                                    let t = value.clone();
                                    out.push(RefSite { span: *span, target: t });
                                    assert(site_views(out@) =~= o + seq![(*span, value@)]);
                                },
                                _ => {
                                    assert(site_views(out@) =~= o + Seq::<(Span, Seq<char>)>::empty());
                                },
                            }
                        } else {
                            assert(site_views(out@) =~= o + Seq::<(Span, Seq<char>)>::empty());
                        }
                    },
                    None => {
                        assert(site_views(out@) =~= o + Seq::<(Span, Seq<char>)>::empty());
                    },
                }
            } else {
                match content {
                    Some(c) => {
                        proof {
                            assert(decreases_to!(*n => *c));
                        }
                        refs_in(n, c, out);
                    },
                    None => {
                        assert(site_views(out@) =~= o + Seq::<(Span, Seq<char>)>::empty());
                    },
                }
            }
        },
        _ => {
            assert(site_views(out@) =~= o + Seq::<(Span, Seq<char>)>::empty());
        },
    }
}

fn refs_in(parent: &Inline, v: &Vec<Inline>, out: &mut Vec<RefSite>)
    requires
        decreases_to!(*parent => *v),
    ensures
        site_views(final(out)@) == site_views(old(out)@) + plain_refs_inlines(v@),
    decreases parent, 0nat,
{
    let mut i: usize = 0;
    while i < v.len()
        invariant
            i <= v@.len(),
            decreases_to!(*parent => *v),
            site_views(out@) == site_views(old(out)@) + plain_refs_inlines(v@.take(i as int)),
        decreases v@.len() - i,
    {
        proof {
            assert(decreases_to!(*v => v@[i as int]));
        }
        collect_refs_inline(&v[i], out);
        assert(v@.take(i + 1).drop_last() =~= v@.take(i as int));
        i = i + 1;
    }
    assert(v@.take(v@.len() as int) =~= v@);
}

/// Does `span` contain byte `byte` (its end included)?
pub open spec fn spec_span_contains(span: Span, byte: usize) -> bool {
    span.start <= byte && byte <= span.start + span.len
}

pub fn span_contains(span: Span, byte: usize) -> (r: bool)
    ensures
        r == spec_span_contains(span, byte),
{
    let s = span.start as u64;
    let e = s + span.len as u64;
    (byte as u64) >= s && (byte as u64) <= e
}

/// The first `@ref` whose span contains `byte`.
pub fn ref_at(doc: &Document, byte: usize) -> (r: Option<RefSite>)
    ensures
        r matches Some(site) ==> exists|i: int|
            0 <= i < plain_refs_blocks(doc.blocks@).len() && plain_refs_blocks(doc.blocks@)[i]
                == site_view(site) && spec_span_contains(site.span, byte) && forall|j: int|
                0 <= j < i ==> !spec_span_contains(#[trigger] plain_refs_blocks(doc.blocks@)[j].0, byte),
        r is None ==> forall|i: int|
            0 <= i < plain_refs_blocks(doc.blocks@).len() ==> !spec_span_contains(
                #[trigger] plain_refs_blocks(doc.blocks@)[i].0,
                byte,
            ),
{
    let mut refs = collect_refs(doc);
    let ghost pr = plain_refs_blocks(doc.blocks@);
    let mut i: usize = 0;
    while i < refs.len()
        invariant
            i <= refs@.len(),
            site_views(refs@) == pr,
            forall|j: int| 0 <= j < i ==> !spec_span_contains(#[trigger] pr[j].0, byte),
        decreases refs@.len() - i,
    {
        assert(pr[i as int] == site_view(refs@[i as int]));
        if span_contains(refs[i].span, byte) {
            let ghost at = i as int;
            let site = refs.remove(i);
            assert(pr[at] == site_view(site));
            return Some(site);
        }
        i = i + 1;
    }
    None
}

/// The first anchored heading whose span contains `byte`: its span and
/// anchor.
pub fn heading_anchor_at(doc: &Document, byte: usize) -> (r: Option<(Span, String)>)
    ensures
        r matches Some((sp, a)) ==> exists|i: int|
            0 <= i < headings_blocks(doc.blocks@).len() && headings_blocks(doc.blocks@)[i].3 == sp
                && headings_blocks(doc.blocks@)[i].2 == Some(a@) && spec_span_contains(sp, byte)
                && forall|j: int|
                0 <= j < i ==> !(#[trigger] headings_blocks(doc.blocks@)[j].2 is Some && spec_span_contains(
                    headings_blocks(doc.blocks@)[j].3,
                    byte,
                )),
        r is None ==> forall|i: int|
            0 <= i < headings_blocks(doc.blocks@).len() ==> !(#[trigger] headings_blocks(doc.blocks@)[i].2 is Some
                && spec_span_contains(headings_blocks(doc.blocks@)[i].3, byte)),
{
    let hs = collect_headings(doc);
    let ghost hv = headings_blocks(doc.blocks@);
    let mut i: usize = 0;
    while i < hs.len()
        invariant
            i <= hs@.len(),
            heading_views(hs@) == hv,
            forall|j: int| 0 <= j < i ==> !(#[trigger] hv[j].2 is Some && spec_span_contains(hv[j].3, byte)),
        decreases hs@.len() - i,
    {
        assert(hv[i as int] == heading_view(hs@[i as int]));
        match &hs[i].anchor {
            Some(a) => {
                if span_contains(hs[i].span, byte) {
                    return Some((hs[i].span, a.clone()));
                }
            },
            None => {},
        }
        i = i + 1;
    }
    None
}

/// Span of the first heading declaring `anchor`.
pub fn heading_span_for_anchor(doc: &Document, anchor: &str) -> (r: Option<Span>)
    ensures
        r matches Some(sp) ==> exists|i: int|
            0 <= i < headings_blocks(doc.blocks@).len() && headings_blocks(doc.blocks@)[i].3 == sp
                && headings_blocks(doc.blocks@)[i].2 == Some(anchor@) && forall|j: int|
                0 <= j < i ==> #[trigger] headings_blocks(doc.blocks@)[j].2 != Some(anchor@),
        r is None ==> forall|i: int|
            0 <= i < headings_blocks(doc.blocks@).len() ==> #[trigger] headings_blocks(doc.blocks@)[i].2 != Some(
                anchor@,
            ),
{
    let hs = collect_headings(doc);
    let ghost hv = headings_blocks(doc.blocks@);
    let mut i: usize = 0;
    while i < hs.len()
        invariant
            i <= hs@.len(),
            heading_views(hs@) == hv,
            forall|j: int| 0 <= j < i ==> #[trigger] hv[j].2 != Some(anchor@),
        decreases hs@.len() - i,
    {
        assert(hv[i as int] == heading_view(hs@[i as int]));
        match &hs[i].anchor {
            Some(a) => {
                if str_eq(a.as_str(), anchor) {
                    return Some(hs[i].span);
                }
            },
            None => {},
        }
        i = i + 1;
    }
    None
}

/// A raw `@ref` target (trimmed) split at its first `#` into path and
/// anchor.
pub fn split_target(target: &str) -> (r: (String, Option<String>))
    ensures
        r.1 is None ==> r.0@ == crate::text::trimmed(target@, 0, target@.len() as int),
        r.1 matches Some(a) ==> r.0@ + seq!['#'] + a@ == crate::text::trimmed(target@, 0, target@.len() as int),
        forall|i: int| 0 <= i < r.0@.len() ==> r.0@[i] != '#',
{
    let c = str_chars(target);
    let (a, b) = trim_bounds(c.as_slice(), 0, c.len());
    let mut k = a;
    while k < b && c[k] != '#'
        invariant
            a <= k <= b,
            b <= c@.len(),
            forall|j: int| a <= j < k ==> c@[j] != '#',
        decreases b - k,
    {
        k = k + 1;
    }
    let path = range_string(c.as_slice(), a, k);
    proof {
        assert forall|i: int| 0 <= i < path@.len() implies path@[i] != '#' by {
            assert(path@[i] == c@[a + i]);
        }
    }
    if k < b {
        let anchor = range_string(c.as_slice(), k + 1, b);
        proof {
            assert(c@.subrange(a as int, b as int) == c@.subrange(a as int, k as int) + seq!['#'] + c@.subrange(k + 1, b as int));
        }
        (path, Some(anchor))
    } else {
        (path, None)
    }
}

/// A heading outline node: the heading's index and the deeper headings it
/// owns.
pub struct SymbolNode {
    pub idx: usize,
    pub children: Vec<SymbolNode>,
}

/// Heading indices `a..b`, in order.
pub open spec fn index_range(a: int, b: int) -> Seq<usize> {
    Seq::new((b - a) as nat, |i: int| (a + i) as usize)
}

/// Heading indices of a node and its descendants, in preorder.
pub open spec fn flatten_node(n: SymbolNode) -> Seq<usize>
    decreases n, 1nat,
{
    seq![n.idx] + flatten_nodes(n.children@)
}

/// `flatten_node` over a forest, in order.
pub open spec fn flatten_nodes(v: Seq<SymbolNode>) -> Seq<usize>
    decreases v, 0nat,
{
    if v.len() == 0 {
        seq![]
    } else {
        flatten_nodes(v.drop_last()) + flatten_node(v.last())
    }
}

/// `n` is a heading of level at least `min` that owns exactly the headings
/// after it of a deeper level, up to the next heading of its level or
/// shallower (or the end), its children nested the same way.
pub open spec fn node_ok(n: SymbolNode, hs: Seq<HeadingInfo>, min: int) -> bool
    decreases n, 1nat,
{
    let end = n.idx + flatten_node(n).len();
    &&& n.idx < hs.len()
    &&& hs[n.idx as int].level >= min
    &&& nodes_ok(n.children@, hs, hs[n.idx as int].level + 1)
    &&& (end == hs.len() || (end < hs.len() && hs[end].level <= hs[n.idx as int].level))
}

/// `node_ok` for each node of a forest.
pub open spec fn nodes_ok(v: Seq<SymbolNode>, hs: Seq<HeadingInfo>, min: int) -> bool
    decreases v, 0nat,
{
    v.len() == 0 || (nodes_ok(v.drop_last(), hs, min) && node_ok(v.last(), hs, min))
}

/// Headings as a forest: each heading owns the following headings of a
/// deeper level, up to the next heading of its level or shallower. Every
/// heading occurs once, in document order.
pub fn nest_headings(headings: &Vec<HeadingInfo>) -> (r: Vec<SymbolNode>)
    ensures
        flatten_nodes(r@) == index_range(0, headings@.len() as int),
        nodes_ok(r@, headings@, 0),
{
    let mut pos: usize = 0;
    nest_from(headings, &mut pos, 0)
}

fn nest_from(headings: &Vec<HeadingInfo>, pos: &mut usize, min_level: u16) -> (r: Vec<SymbolNode>)
    requires
        *old(pos) <= headings@.len(),
    ensures
        *old(pos) <= *final(pos) <= headings@.len(),
        flatten_nodes(r@) == index_range(*old(pos) as int, *final(pos) as int),
        nodes_ok(r@, headings@, min_level as int),
        *final(pos) == headings@.len() || headings@[*final(pos) as int].level < min_level,
    decreases headings@.len() - *old(pos),
{
    let mut out: Vec<SymbolNode> = Vec::new();
    proof {
        assert(flatten_nodes(out@) =~= index_range(*old(pos) as int, *pos as int));
    }
    while *pos < headings.len()
        invariant
            *old(pos) <= *pos <= headings@.len(),
            flatten_nodes(out@) == index_range(*old(pos) as int, *pos as int),
            nodes_ok(out@, headings@, min_level as int),
        decreases headings@.len() - *pos,
    {
        let level = headings[*pos].level;
        if (level as u16) < min_level {
            break;
        }
        let idx = *pos;
        *pos = *pos + 1;
        let children = nest_from(headings, pos, (level as u16) + 1);
        let node = SymbolNode { idx, children };
        proof {
            assert(flatten_node(node) =~= index_range(idx as int, *pos as int));
            assert(node_ok(node, headings@, min_level as int));
        }
        let ghost before = out@;
        out.push(node);
        proof {
            assert(out@.drop_last() =~= before);
            assert(flatten_nodes(out@) =~= index_range(*old(pos) as int, *pos as int));
        }
    }
    out
}

/// What is being typed at the end of a line.
#[derive(Debug, PartialEq, Eq)]
pub enum CompletionCtx {
    /// `@` and part of a shortcode name (`prefix` without the `@`).
    ShortcodeName { prefix: String },
    /// Inside an unclosed `@ref[`, before any `#`.
    RefPath { prefix: String },
    /// Inside `@ref[PATH#`, `prefix` being the partial anchor.
    RefAnchor { path: String, prefix: String },
}

/// A shortcode-name char: lowercase ASCII letter, digit, `-` or `_`.
pub open spec fn name_char(c: char) -> bool {
    ('a' <= c && c <= 'z') || ('0' <= c && c <= '9') || c == '-' || c == '_'
}

/// Start of the last `@ref[` of `s` that begins before index `k`.
pub open spec fn last_ref_open(s: Seq<char>, k: int) -> Option<int>
    decreases k,
{
    if k <= 0 {
        None
    } else if crate::text::matches_at(s, k - 1, "@ref["@) {
        Some(k - 1)
    } else {
        last_ref_open(s, k - 1)
    }
}

/// Start of the run of shortcode-name chars of `s` that ends at `i`.
pub open spec fn name_start(s: Seq<char>, i: int) -> int
    decreases i,
{
    if i > 0 && name_char(s[i - 1]) {
        name_start(s, i - 1)
    } else {
        i
    }
}

/// `s` has an unclosed `@ref[`: its last one has no `]` after it.
pub open spec fn ref_unclosed(s: Seq<char>) -> bool {
    last_ref_open(s, s.len() as int) matches Some(f) && forall|q: int| f + 5 <= q < s.len() ==> s[q] != ']'
}

/// The completion context of `line_prefix` (the line up to the cursor):
/// an unclosed `@ref[` target (path, or anchor after `#`), else an `@`
/// that starts a word followed by shortcode-name chars.
pub fn completion_context(line_prefix: &str) -> (r: Option<CompletionCtx>)
    ensures
        r matches Some(CompletionCtx::ShortcodeName { prefix }) ==> {
            &&& forall|i: int| 0 <= i < prefix@.len() ==> name_char(#[trigger] prefix@[i])
            &&& line_prefix@.len() >= prefix@.len() + 1
            &&& line_prefix@.subrange(line_prefix@.len() - prefix@.len() - 1, line_prefix@.len() as int) == seq!['@'] + prefix@
        },
        r matches Some(CompletionCtx::RefPath { prefix }) ==> {
            &&& forall|i: int| 0 <= i < prefix@.len() ==> #[trigger] prefix@[i] != ']' && prefix@[i] != '#'
            &&& line_prefix@.len() >= prefix@.len()
            &&& line_prefix@.subrange(line_prefix@.len() - prefix@.len(), line_prefix@.len() as int) == prefix@
        },
        ({
            let s = line_prefix@;
            let f = last_ref_open(s, s.len() as int)->Some_0;
            let h = crate::resolve::first_hash(s, f + 5);
            let i = name_start(s, s.len() as int);
            if ref_unclosed(s) {
                if h < s.len() {
                    r matches Some(CompletionCtx::RefAnchor { path, prefix }) && path@ == s.subrange(f + 5, h)
                        && prefix@ == s.subrange(h + 1, s.len() as int)
                } else {
                    r matches Some(CompletionCtx::RefPath { prefix }) && prefix@ == s.subrange(f + 5, s.len() as int)
                }
            } else if i > 0 && s[i - 1] == '@' && !(i >= 2 && (crate::text::is_alpha(s[i - 2]) || crate::text::is_digit(
                s[i - 2],
            ))) {
                r matches Some(CompletionCtx::ShortcodeName { prefix }) && prefix@ == s.subrange(i, s.len() as int)
            } else {
                r is None
            }
        }),
{
    let c = str_chars(line_prefix);
    let n = c.len();
    let open = str_chars("@ref[");
    // Last `@ref[`.
    let mut k = n;
    let mut found: Option<usize> = None;
    assert(c@ == line_prefix@);
    while k > 0
        invariant
            k <= n,
            n == c@.len(),
            c@ == line_prefix@,
            open@ == "@ref["@,
            found is None,
            last_ref_open(c@, n as int) == last_ref_open(c@, k as int),
        decreases k,
    {
        k = k - 1;
        if crate::text::starts_at(c.as_slice(), k, open.as_slice()) {
            proof {
                reveal_strlit("@ref[");
            }
            assert(last_ref_open(c@, k + 1) == Some(k as int));
            assert(last_ref_open(c@, n as int) == Some(k as int));
            found = Some(k);
            break;
        }
    }
    assert(found is None ==> last_ref_open(c@, n as int) is None);
    assert(found matches Some(f) ==> last_ref_open(c@, n as int) == Some(f as int));
    match found {
        Some(idx) => {
            let after = idx + 5;
            let mut j = after;
            let mut closed = false;
            while j < n
                invariant
                    after <= j <= n,
                    n == c@.len(),
                    !closed ==> forall|q: int| after <= q < j ==> c@[q] != ']',
                    closed ==> j < n && c@[j as int] == ']',
                decreases n - j,
            {
                if c[j] == ']' {
                    closed = true;
                    break;
                }
                j = j + 1;
            }
            proof {
                if closed {
                    assert(c@[j as int] == ']');
                    assert(!ref_unclosed(c@));
                } else {
                    assert(ref_unclosed(c@));
                }
            }
            if !closed {
                let mut h = after;
                while h < n && c[h] != '#'
                    invariant
                        after <= h <= n,
                        n == c@.len(),
                        forall|q: int| after <= q < h ==> c@[q] != '#',
                        crate::resolve::first_hash(c@, after as int) == crate::resolve::first_hash(c@, h as int),
                    decreases n - h,
                {
                    h = h + 1;
                }
                if h < n {
                    return Some(CompletionCtx::RefAnchor {
                        path: range_string(c.as_slice(), after, h),
                        prefix: range_string(c.as_slice(), h + 1, n),
                    });
                }
                let prefix = range_string(c.as_slice(), after, n);
                proof {
                    assert forall|i: int| 0 <= i < prefix@.len() implies #[trigger] prefix@[i] != ']' && prefix@[i] != '#' by {
                        assert(prefix@[i] == c@[after + i]);
                    }
                    assert(line_prefix@.subrange(line_prefix@.len() - prefix@.len(), line_prefix@.len() as int) == prefix@);
                }
                return Some(CompletionCtx::RefPath { prefix });
            }
        },
        None => {},
    }
    assert(!ref_unclosed(c@));
    let mut i = n;
    while i > 0 && (('a' <= c[i - 1] && c[i - 1] <= 'z') || ('0' <= c[i - 1] && c[i - 1] <= '9') || c[i - 1] == '-' || c[i - 1] == '_')
        invariant
            i <= n,
            n == c@.len(),
            forall|q: int| i <= q < n ==> name_char(#[trigger] c@[q]),
            name_start(c@, n as int) == name_start(c@, i as int),
        decreases i,
    {
        i = i - 1;
    }
    if i > 0 && c[i - 1] == '@' {
        if i >= 2 && (crate::text::char_is_alpha(c[i - 2]) || crate::text::char_is_digit(c[i - 2])) {
            return None;
        }
        let prefix = range_string(c.as_slice(), i, n);
        proof {
            assert forall|q: int| 0 <= q < prefix@.len() implies name_char(#[trigger] prefix@[q]) by {
                assert(prefix@[q] == c@[i + q]);
            }
            assert(line_prefix@.subrange(line_prefix@.len() - prefix@.len() - 1, line_prefix@.len() as int) == seq!['@'] + prefix@);
        }
        return Some(CompletionCtx::ShortcodeName { prefix });
    }
    None
}

/// `segs` without its `.` pieces, in order.
pub open spec fn drop_dots(segs: Seq<Seq<char>>) -> Seq<Seq<char>>
    decreases segs.len(),
{
    if segs.len() == 0 {
        seq![]
    } else if segs.last() == seq!['.'] {
        drop_dots(segs.drop_last())
    } else {
        drop_dots(segs.drop_last()).push(segs.last())
    }
}

/// Components of a `/`-separated path: a leading `/` as a component of its
/// own, then the non-empty pieces between `/`s other than `.`.
pub open spec fn path_components(p: Seq<char>) -> Seq<Seq<char>> {
    (if p.len() > 0 && p[0] == '/' {
        seq![seq!['/']]
    } else {
        seq![]
    }) + drop_dots(path_segments(p))
}

/// The components of `doc_path` past those of `root`, joined with `/`,
/// when the components of `root` begin those of `doc_path`.
pub open spec fn rel_path_spec(root: Seq<char>, doc_path: Seq<char>) -> Option<Seq<char>> {
    let r = path_components(root);
    let d = path_components(doc_path);
    if r.len() <= d.len() && d.take(r.len() as int) == r {
        Some(join_segs(d.skip(r.len() as int)))
    } else {
        None
    }
}

/// Components of a `/`-separated path (see `path_components`).
fn components(p: &str) -> (r: Vec<Vec<char>>)
    ensures
        views(r@) == path_components(p@),
{
    let c = str_chars(p);
    let segs = segments(c.as_slice());
    let mut out: Vec<Vec<char>> = Vec::new();
    if c.len() > 0 && c[0] == '/' {
        let mut root: Vec<char> = Vec::new();
        root.push('/');
        out.push(root);
        assert(views(out@) =~= seq![seq!['/']]);
    } else {
        assert(views(out@) =~= Seq::<Seq<char>>::empty());
    }
    let ghost head = views(out@);
    let mut i: usize = 0;
    while i < segs.len()
        invariant
            i <= segs@.len(),
            views(segs@) == path_segments(c@),
            views(out@) == head + drop_dots(views(segs@).take(i as int)),
        decreases segs@.len() - i,
    {
        let ghost vs = views(segs@);
        let ghost before = views(out@);
        assert(vs.take(i + 1).drop_last() =~= vs.take(i as int));
        assert(vs.take(i + 1).last() == segs@[i as int]@);
        let s = segs[i].as_slice();
        if !(s.len() == 1 && s[0] == '.') {
            proof {
                if segs@[i as int]@ == seq!['.'] {
                    assert(s@.len() == 1 && s@[0] == '.');
                }
            }
            out.push(copy_range(s, 0, s.len()));
            assert(s@.subrange(0, s@.len() as int) =~= s@);
            assert(views(out@) =~= before.push(segs@[i as int]@));
        } else {
            assert(segs@[i as int]@ =~= seq!['.']);
        }
        i = i + 1;
    }
    assert(views(segs@).take(segs@.len() as int) =~= views(segs@));
    out
}

/// Path of `doc_path` relative to `root`, components joined with `/`;
/// `None` when `doc_path` is not under `root` (compared component-wise).
/// Both paths are taken as given (canonicalising them is the caller's job).
pub fn rel_path(root: &str, doc_path: &str) -> (r: Option<String>)
    ensures
        match r {
            Some(s) => rel_path_spec(root@, doc_path@) == Some(s@),
            None => rel_path_spec(root@, doc_path@) is None,
        },
{
    let r = components(root);
    let d = components(doc_path);
    let ghost vr = views(r@);
    let ghost vd = views(d@);
    if r.len() > d.len() {
        return None;
    }
    let mut i: usize = 0;
    while i < r.len()
        invariant
            r@.len() <= d@.len(),
            i <= r@.len(),
            vr == views(r@),
            vd == views(d@),
            vd.take(i as int) == vr.take(i as int),
        decreases r@.len() - i,
    {
        if !crate::text::chars_eq(r[i].as_slice(), d[i].as_slice()) {
            proof {
                assert(vd.take(r@.len() as int)[i as int] == vd[i as int]);
                assert(vr.take(r@.len() as int) =~= vr);
            }
            return None;
        }
        assert(vd.take(i + 1) =~= vd.take(i as int).push(vd[i as int]));
        assert(vr.take(i + 1) =~= vr.take(i as int).push(vr[i as int]));
        i = i + 1;
    }
    assert(vr.take(r@.len() as int) =~= vr);
    let ghost rest = vd.skip(r@.len() as int);
    let mut out: Vec<char> = Vec::new();
    let mut k = r.len();
    assert(rest.take(0) =~= Seq::<Seq<char>>::empty());
    while k < d.len()
        invariant
            r@.len() <= k <= d@.len(),
            vd == views(d@),
            rest == vd.skip(r@.len() as int),
            out@ == join_segs(rest.take(k - r@.len())),
        decreases d@.len() - k,
    {
        let ghost j = k - r@.len();
        assert(rest.take(j + 1).drop_last() =~= rest.take(j));
        assert(rest.take(j + 1).last() == d@[k as int]@);
        if k > r.len() {
            out.push('/');
        }
        crate::text::push_all(&mut out, d[k].as_slice());
        proof {
            if j == 0 {
                assert(out@ =~= join_segs(rest.take(1)));
            } else {
                assert(out@ =~= join_segs(rest.take(j)) + seq!['/'] + d@[k as int]@);
            }
        }
        k = k + 1;
    }
    assert(rest.take(d@.len() - r@.len()) =~= rest);
    Some(chars_to_string(out.as_slice()))
}

} // verus!
