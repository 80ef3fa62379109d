//! HTML emitter: blocks and inlines to HTML, shortcodes through their
//! registered templates or the built-in forms, footnotes numbered in
//! document order and listed at the end.
use crate::ast::{clone_inlines, Block, Document, Inline, ListItem, RefMap, Row, ShortArgs, TaskState};
use crate::shortcode::{ArgValue, Registry};
use crate::text::{chars_to_string, dec, find_from, find_str, lemma_find_from_bounds, push_all, push_range, push_str, push_usize, range_string, str_chars, str_eq, trim_bounds, trimmed};
use vstd::prelude::*;

verus! {

/// HTML text for `c`: the four markup characters become entities.
pub open spec fn escape_char(c: char) -> Seq<char> {
    if c == '&' {
        seq!['&', 'a', 'm', 'p', ';']
    } else if c == '<' {
        seq!['&', 'l', 't', ';']
    } else if c == '>' {
        seq!['&', 'g', 't', ';']
    } else if c == '"' {
        seq!['&', 'q', 'u', 'o', 't', ';']
    } else {
        seq![c]
    }
}

/// `s` with `&`, `<`, `>` and `"` replaced by their entities.
pub open spec fn escaped(s: Seq<char>) -> Seq<char>
    decreases s.len(),
{
    if s.len() == 0 {
        Seq::empty()
    } else {
        escaped(s.drop_last()) + escape_char(s.last())
    }
}

/// Escaped text holds no `<`, `>` or `"`: it cannot open a tag or close an
/// attribute value.
pub proof fn law_escaped_has_no_markup(s: Seq<char>)
    ensures
        forall|i: int| 0 <= i < escaped(s).len() ==> {
            let c = #[trigger] escaped(s)[i];
            c != '<' && c != '>' && c != '"'
        },
    decreases s.len(),
{
    if s.len() > 0 {
        law_escaped_has_no_markup(s.drop_last());
        let a = escaped(s.drop_last());
        let b = escape_char(s.last());
        assert forall|i: int| 0 <= i < escaped(s).len() implies {
            let c = #[trigger] escaped(s)[i];
            c != '<' && c != '>' && c != '"'
        } by {
            if i >= a.len() {
                assert(escaped(s)[i] == b[i - a.len()]);
            } else {
                assert(escaped(s)[i] == a[i]);
            }
        }
    }
}

/// Escaping leaves text without markup characters unchanged.
pub proof fn law_escaped_plain_is_identity(s: Seq<char>)
    requires
        forall|i: int| 0 <= i < s.len() ==> {
            let c = #[trigger] s[i];
            c != '&' && c != '<' && c != '>' && c != '"'
        },
    ensures
        escaped(s) == s,
    decreases s.len(),
{
    if s.len() > 0 {
        let t = s.drop_last();
        assert forall|i: int| 0 <= i < t.len() implies {
            let c = #[trigger] t[i];
            c != '&' && c != '<' && c != '>' && c != '"'
        } by {
            assert(t[i] == s[i]);
        }
        law_escaped_plain_is_identity(t);
        assert(s == t.push(s.last()));
    }
}

proof fn lemma_escaped_push(s: Seq<char>, c: char)
    ensures
        escaped(s.push(c)) == escaped(s) + escape_char(c),
{
    assert(s.push(c).drop_last() == s);
}

/// Append the escaped form of `s` to `out`.
pub fn escape_html_into(out: &mut Vec<char>, s: &[char])
    ensures
        final(out)@ == old(out)@ + escaped(s@),
{
    let ghost o = out@;
    let mut i: usize = 0;
    while i < s.len()
        invariant
            i <= s@.len(),
            out@ == o + escaped(s@.take(i as int)),
        decreases s@.len() - i,
    {
        let c = s[i];
        proof {
            lemma_escaped_push(s@.take(i as int), c);
            assert(s@.take(i + 1) == s@.take(i as int).push(c));
            reveal_strlit("&amp;");
            reveal_strlit("&lt;");
            reveal_strlit("&gt;");
            reveal_strlit("&quot;");
        }
        if c == '&' {
            push_str(out, "&amp;");
        } else if c == '<' {
            push_str(out, "&lt;");
        } else if c == '>' {
            push_str(out, "&gt;");
        } else if c == '"' {
            push_str(out, "&quot;");
        } else {
            out.push(c);
        }
        i = i + 1;
    }
    assert(s@.take(s@.len() as int) == s@);
}

/// Append the escaped form of the string `s`.
fn escape_str_into(out: &mut Vec<char>, s: &str)
    ensures
        final(out)@ == old(out)@ + escaped(s@),
{
    let v = str_chars(s);
    escape_html_into(out, v.as_slice());
}

/// `s` escaped for HTML text or attribute values.
pub fn escape_html(s: &str) -> (r: String)
    ensures
        r@ == escaped(s@),
{
    let mut out: Vec<char> = Vec::new();
    escape_str_into(&mut out, s);
    assert(out@ == escaped(s@));
    chars_to_string(out.as_slice())
}

/// Rendering state: the registry, the footnote counter, whether a footnote
/// body is being rendered, and the resolved `@ref`s.
pub struct Ctx<'a> {
    pub reg: &'a Registry,
    pub counter: u32,
    pub in_footnote: bool,
    pub refs: &'a RefMap,
}

/// The inline node holds no shortcode, at any depth.
pub open spec fn markup_only(n: Inline) -> bool
    decreases n, 1nat,
{
    match n {
        Inline::Bold { content, .. } => markup_only_seq(content@),
        Inline::Italic { content, .. } => markup_only_seq(content@),
        Inline::Underline { content, .. } => markup_only_seq(content@),
        Inline::Strike { content, .. } => markup_only_seq(content@),
        Inline::Shortcode { .. } => false,
        _ => true,
    }
}

/// No node of the sequence holds a shortcode.
pub open spec fn markup_only_seq(v: Seq<Inline>) -> bool
    decreases v, 0nat,
{
    if v.len() == 0 {
        true
    } else {
        markup_only_seq(v.drop_last()) && markup_only(v.last())
    }
}

/// HTML of a shortcode-free inline node: text escaped, emphasis as
/// `strong`, `em`, `u` and `s`, code as `code`, a hard break as `br`.
pub open spec fn html_inline(n: Inline) -> Seq<char>
    decreases n, 1nat,
{
    match n {
        Inline::Text { value, .. } => escaped(value@),
        Inline::HardBreak { .. } => "<br>"@,
        Inline::Bold { content, .. } => "<strong>"@ + html_inlines(content@) + "</strong>"@,
        Inline::Italic { content, .. } => "<em>"@ + html_inlines(content@) + "</em>"@,
        Inline::Underline { content, .. } => "<u>"@ + html_inlines(content@) + "</u>"@,
        Inline::Strike { content, .. } => "<s>"@ + html_inlines(content@) + "</s>"@,
        Inline::InlineCode { value, .. } => "<code>"@ + escaped(value@) + "</code>"@,
        Inline::Shortcode { .. } => seq![],
    }
}

/// `html_inline` over a sequence, in order.
pub open spec fn html_inlines(v: Seq<Inline>) -> Seq<char>
    decreases v, 0nat,
{
    if v.len() == 0 {
        seq![]
    } else {
        html_inlines(v.drop_last()) + html_inline(v.last())
    }
}

/// A heading, a paragraph or a rule whose text holds no shortcode.
pub open spec fn simple_block(b: Block) -> bool {
    match b {
        Block::Heading { content, .. } => markup_only_seq(content@),
        Block::Paragraph { content, .. } => markup_only_seq(content@),
        Block::HorizontalRule { .. } => true,
        _ => false,
    }
}

/// Every block is simple.
pub open spec fn simple_blocks(v: Seq<Block>) -> bool {
    forall|i: int| 0 <= i < v.len() ==> simple_block(#[trigger] v[i])
}

/// A block without tables or shortcodes at any depth: a heading, paragraph,
/// rule or code block, a quote of such blocks, a list whose items hold
/// such blocks, or a definition list; its text holds no shortcode.
pub open spec fn plain_block(b: Block) -> bool
    decreases b,
{
    match b {
        Block::Heading { content, .. } => markup_only_seq(content@),
        Block::Paragraph { content, .. } => markup_only_seq(content@),
        Block::HorizontalRule { .. } => true,
        Block::CodeBlock { .. } => true,
        Block::Blockquote { children, .. } => plain_blocks(children@),
        Block::List { items, .. } => plain_items(items@),
        Block::DefinitionList { items, .. } => forall|k: int|
            0 <= k < items@.len() ==> markup_only_seq((#[trigger] items@[k]).term@) && markup_only_seq(
                items@[k].definition@,
            ),
        _ => false,
    }
}

/// Every block of `v` is plain.
pub open spec fn plain_blocks(v: Seq<Block>) -> bool
    decreases v,
{
    v.len() == 0 || (plain_blocks(v.drop_last()) && plain_block(v.last()))
}

/// Every item of `v` is plain.
pub open spec fn plain_items(v: Seq<ListItem>) -> bool
    decreases v,
{
    v.len() == 0 || (plain_items(v.drop_last()) && plain_item(v.last()))
}

/// A list item whose text holds no shortcode and whose blocks are plain.
pub open spec fn plain_item(it: ListItem) -> bool
    decreases it,
{
    markup_only_seq(it.content@) && plain_blocks(it.children@)
}

/// Some item of `v` is a task.
pub open spec fn has_tasks(v: Seq<ListItem>) -> bool {
    exists|k: int| 0 <= k < v.len() && (#[trigger] v[k]).task is Some
}

/// HTML of a plain block: `h1`..`h6` (with the anchor as `id`), `p`
/// (nothing for an empty paragraph), `hr`, `pre`/`code` (with the language
/// as class), `blockquote`, `ul`/`ol` (marked when it holds tasks), `dl`;
/// each ending its line.
pub open spec fn html_block(b: Block) -> Seq<char>
    decreases b,
{
    match b {
        Block::Heading { level, content, anchor, .. } => "<h"@ + dec(level as nat) + match anchor {
            Some(a) => " id=\""@ + escaped(a@) + "\">"@,
            None => ">"@,
        } + html_inlines(content@) + "</h"@ + dec(level as nat) + ">\n"@,
        Block::Paragraph { content, .. } => if content@.len() == 0 {
            seq![]
        } else {
            "<p>"@ + html_inlines(content@) + "</p>\n"@
        },
        Block::HorizontalRule { .. } => "<hr>\n"@,
        Block::CodeBlock { lang, body, .. } => (match lang {
            Some(l) => "<pre><code class=\"language-"@ + escaped(l@) + "\">"@,
            None => "<pre><code>"@,
        }) + escaped(body@) + "</code></pre>\n"@,
        Block::Blockquote { children, .. } => "<blockquote>\n"@ + html_blocks(children@) + "</blockquote>\n"@,
        Block::List { ordered, items, .. } => {
            let name = if ordered {
                "ol"@
            } else {
                "ul"@
            };
            (if has_tasks(items@) {
                seq!['<'] + name + " class=\"contains-task-list\">\n"@
            } else {
                seq!['<'] + name + seq!['>'] + seq!['\n']
            }) + html_items(items@) + seq!['<', '/'] + name + seq!['>'] + seq!['\n']
        },
        Block::DefinitionList { items, .. } => "<dl>\n"@ + html_dl(items@) + "</dl>\n"@,
        _ => seq![],
    }
}

/// `html_block` over a sequence, in order.
pub open spec fn html_blocks(v: Seq<Block>) -> Seq<char>
    decreases v,
{
    if v.len() == 0 {
        seq![]
    } else {
        html_blocks(v.drop_last()) + html_block(v.last())
    }
}

/// `html_item` over a sequence, in order.
pub open spec fn html_items(v: Seq<ListItem>) -> Seq<char>
    decreases v,
{
    if v.len() == 0 {
        seq![]
    } else {
        html_items(v.drop_last()) + html_item(v.last())
    }
}

/// A list item as `li` (with a disabled checkbox for a task), its text,
/// then its blocks on the following lines.
pub open spec fn html_item(it: ListItem) -> Seq<char>
    decreases it,
{
    (match it.task {
        None => "<li>"@,
        Some(st) => "<li class=\"task-list-item\"><input type=\"checkbox\" disabled"@ + (if st == TaskState::Done {
            " checked"@
        } else {
            seq![]
        }) + "> "@,
    }) + html_inlines(it.content@) + (if it.children@.len() > 0 {
        seq!['\n'] + html_blocks(it.children@)
    } else {
        seq![]
    }) + "</li>\n"@
}

/// Definition-list items as `dt`/`dd` pairs, in order.
pub open spec fn html_dl(v: Seq<crate::ast::DefinitionItem>) -> Seq<char>
    decreases v.len(),
{
    if v.len() == 0 {
        seq![]
    } else {
        html_dl(v.drop_last()) + "<dt>"@ + html_inlines(v.last().term@) + "</dt>\n<dd>"@ + html_inlines(
            v.last().definition@,
        ) + "</dd>\n"@
    }
}

/// Each block of a plain sequence is plain.
pub(crate) proof fn lemma_plain_blocks_at(v: Seq<Block>, i: int)
    requires
        plain_blocks(v),
        0 <= i < v.len(),
    ensures
        plain_block(v[i]),
    decreases v.len(),
{
    if i < v.len() - 1 {
        lemma_plain_blocks_at(v.drop_last(), i);
    }
}

/// Each item of a plain sequence is plain.
proof fn lemma_plain_items_at(v: Seq<ListItem>, i: int)
    requires
        plain_items(v),
        0 <= i < v.len(),
    ensures
        plain_item(v[i]),
    decreases v.len(),
{
    if i < v.len() - 1 {
        lemma_plain_items_at(v.drop_last(), i);
    }
}

/// Render a document to HTML.
pub fn render(doc: &Document, reg: &Registry) -> (r: String)
    ensures
        plain_blocks(doc.blocks@) ==> r@ == html_blocks(doc.blocks@),
{
    let footnotes = collect_footnotes(doc);
    let mut ctx = Ctx { reg, counter: 0, in_footnote: false, refs: &doc.resolved_refs };
    let mut out: Vec<char> = Vec::new();
    let ghost plain = plain_blocks(doc.blocks@);
    let mut i: usize = 0;
    while i < doc.blocks.len()
        invariant
            i <= doc.blocks@.len(),
            plain ==> out@ == html_blocks(doc.blocks@.take(i as int)),
        decreases doc.blocks@.len() - i,
    {
        proof {
            if plain {
                lemma_plain_blocks_at(doc.blocks@, i as int);
            }
        }
        render_block(&doc.blocks[i], &mut ctx, &mut out);
        assert(doc.blocks@.take(i + 1).drop_last() =~= doc.blocks@.take(i as int));
        i = i + 1;
    }
    assert(doc.blocks@.take(doc.blocks@.len() as int) =~= doc.blocks@);
    if footnotes.len() > 0 {
        emit_footnotes_section(&footnotes, reg, &doc.resolved_refs, &mut out);
    }
    chars_to_string(out.as_slice())
}

/// Append `<tag>` or `</tag>` followed by a newline when `nl`.
fn tag(out: &mut Vec<char>, closing: bool, name: &str, nl: bool)
    ensures
        final(out)@ == old(out)@ + (if closing { seq!['<', '/'] } else { seq!['<'] }) + name@ + seq!['>']
            + (if nl { seq!['\n'] } else { Seq::empty() }),
{
    out.push('<');
    if closing {
        out.push('/');
    }
    push_str(out, name);
    out.push('>');
    if nl {
        out.push('\n');
    }
}

fn render_block(block: &Block, ctx: &mut Ctx, out: &mut Vec<char>)
    ensures
        plain_block(*block) ==> final(out)@ == old(out)@ + html_block(*block),
    decreases block, 3nat,
{
    let ghost o = out@;
    match block {
        Block::Heading { level, content, anchor, .. } => {
            push_str(out, "<h");
            push_usize(out, *level as usize);
            let ghost o1 = out@;
            match anchor {
                Some(a) => {
                    push_str(out, " id=\"");
                    escape_str_into(out, a.as_str());
                    push_str(out, "\">");
                },
                None => {
                    push_str(out, ">");
                },
            }
            let ghost mid = match anchor {
                Some(a) => " id=\""@ + escaped(a@) + "\">"@,
                None => ">"@,
            };
            assert(out@ =~= o1 + mid);
            let ghost o2 = out@;
            render_inline_seq(content, ctx, out);
            let ghost o3 = out@;
            push_str(out, "</h");
            push_usize(out, *level as usize);
            push_str(out, ">\n");
            proof {
                if plain_block(*block) {
                    assert(o3 == o2 + html_inlines(content@));
                    assert(out@ =~= old(out)@ + ("<h"@ + dec(*level as nat) + mid + html_inlines(content@)
                        + "</h"@ + dec(*level as nat) + ">\n"@));
                }
            }
        },
        Block::Paragraph { content, .. } => {
            if content.len() == 0 {
                return;
            }
            push_str(out, "<p>");
            render_inline_seq(content, ctx, out);
            push_str(out, "</p>\n");
        },
        Block::List { ordered, items, .. } => {
            render_list(block, *ordered, items, ctx, out);
        },
        Block::Blockquote { children, .. } => {
            push_str(out, "<blockquote>\n");
            render_blocks_in(block, children, ctx, out);
            push_str(out, "</blockquote>\n");
            assert(plain_block(*block) ==> out@ =~= o + html_block(*block));
        },
        Block::CodeBlock { lang, body, .. } => {
            match lang {
                Some(l) => {
                    push_str(out, "<pre><code class=\"language-");
                    escape_str_into(out, l.as_str());
                    push_str(out, "\">");
                },
                None => {
                    push_str(out, "<pre><code>");
                },
            }
            escape_str_into(out, body.as_str());
            push_str(out, "</code></pre>\n");
            assert(out@ =~= o + html_block(*block));
        },
        Block::Table { args, header, rows, .. } => {
            render_table(args, header, rows, ctx, out);
        },
        Block::DefinitionList { items, .. } => {
            render_dl(items, ctx, out);
        },
        Block::HorizontalRule { .. } => {
            push_str(out, "<hr>\n");
        },
        Block::BlockShortcode { name, args, children, .. } => {
            let mut inner: Vec<char> = Vec::new();
            render_blocks_in(block, children, ctx, &mut inner);
            render_shortcode_html(name.as_str(), args, Some(inner.as_slice()), ctx, out);
        },
    }
}

/// A list (`render_block` of `parent`, the list with `ordered` and
/// `items`).
#[verifier::spinoff_prover]
#[verifier::rlimit(40)]
fn render_list(parent: &Block, ordered: bool, items: &Vec<ListItem>, ctx: &mut Ctx, out: &mut Vec<char>)
    requires
        parent matches Block::List { ordered: o, items: its, .. } && o == ordered && its == *items,
    ensures
        plain_block(*parent) ==> final(out)@ == old(out)@ + html_block(*parent),
    decreases parent, 2nat,
{
    let ghost o = out@;
    let name = if ordered {
        "ol"
    } else {
        "ul"
    };
    let mut has_task = false;
    let mut k: usize = 0;
    while k < items.len()
        invariant
            k <= items@.len(),
            has_task == exists|j: int| 0 <= j < k && (#[trigger] items@[j]).task is Some,
        decreases items@.len() - k,
    {
        if items[k].task.is_some() {
            has_task = true;
        }
        k = k + 1;
    }
    assert(has_task == has_tasks(items@));
    let ghost nm = name@;
    let ghost plain = plain_block(*parent);
    if has_task {
        out.push('<');
        push_str(out, name);
        push_str(out, " class=\"contains-task-list\">\n");
    } else {
        tag(out, false, name, true);
    }
    let ghost o1 = out@;
    let mut k: usize = 0;
    assert(items@.take(0) =~= Seq::<ListItem>::empty());
    while k < items.len()
        invariant
            k <= items@.len(),
            plain == plain_block(*parent),
            plain ==> out@ == o1 + html_items(items@.take(k as int)),
        decreases items@.len() - k,
    {
        proof {
            assert(decreases_to!(*parent => items@[k as int]));
            if plain {
                lemma_plain_items_at(items@, k as int);
            }
            assert(items@.take(k + 1).drop_last() =~= items@.take(k as int));
        }
        render_item(parent, &items[k], ctx, out);
        k = k + 1;
    }
    assert(items@.take(items@.len() as int) =~= items@);
    tag(out, true, name, true);
    assert(plain ==> out@ =~= o + html_block(*parent));
}

/// Definition-list items as `dt`/`dd` pairs inside `dl`.
#[verifier::spinoff_prover]
#[verifier::rlimit(40)]
fn render_dl(items: &Vec<crate::ast::DefinitionItem>, ctx: &mut Ctx, out: &mut Vec<char>)
    ensures
        (forall|j: int| 0 <= j < items@.len() ==> markup_only_seq((#[trigger] items@[j]).term@) && markup_only_seq(
            items@[j].definition@,
        )) ==> final(out)@ == old(out)@ + "<dl>\n"@ + html_dl(items@) + "</dl>\n"@,
{
    let ghost o = out@;
    push_str(out, "<dl>\n");
    let ghost o1 = out@;
    let ghost plain = forall|j: int| 0 <= j < items@.len() ==> markup_only_seq((#[trigger] items@[j]).term@) && markup_only_seq(items@[j].definition@);
    let mut k: usize = 0;
    while k < items.len()
        invariant
            k <= items@.len(),
            plain == (forall|j: int| 0 <= j < items@.len() ==> markup_only_seq((#[trigger] items@[j]).term@) && markup_only_seq(items@[j].definition@)),
            plain ==> out@ == o1 + html_dl(items@.take(k as int)),
        decreases items@.len() - k,
    {
        let ghost ok = out@;
        push_str(out, "<dt>");
        render_inline_seq(&items[k].term, ctx, out);
        push_str(out, "</dt>\n<dd>");
        render_inline_seq(&items[k].definition, ctx, out);
        push_str(out, "</dd>\n");
        proof {
            let t = items@.take(k + 1);
            assert(t.drop_last() =~= items@.take(k as int));
            assert(t.last() == items@[k as int]);
            if plain {
                assert(markup_only_seq(items@[k as int].term@));
                assert(out@ =~= o1 + html_dl(t));
            }
        }
        k = k + 1;
    }
    assert(items@.take(items@.len() as int) =~= items@);
    push_str(out, "</dl>\n");
    assert(plain ==> out@ =~= o + "<dl>\n"@ + html_dl(items@) + "</dl>\n"@);
}

/// Render the child blocks `v` of `parent`.
fn render_blocks_in(parent: &Block, v: &Vec<Block>, ctx: &mut Ctx, out: &mut Vec<char>)
    requires
        decreases_to!(*parent => *v),
    ensures
        plain_blocks(v@) ==> final(out)@ == old(out)@ + html_blocks(v@),
    decreases parent, 0nat,
{
    let ghost o = out@;
    let ghost plain = plain_blocks(v@);
    let mut i: usize = 0;
    assert(v@.take(0) =~= Seq::<Block>::empty());
    while i < v.len()
        invariant
            i <= v@.len(),
            decreases_to!(*parent => *v),
            plain == plain_blocks(v@),
            plain ==> out@ == o + html_blocks(v@.take(i as int)),
        decreases v@.len() - i,
    {
        proof {
            assert(decreases_to!(*v => v@[i as int]));
            if plain {
                lemma_plain_blocks_at(v@, i as int);
            }
            assert(v@.take(i + 1).drop_last() =~= v@.take(i as int));
        }
        render_block(&v[i], ctx, out);
        i = i + 1;
    }
    assert(v@.take(v@.len() as int) =~= v@);
}

#[verifier::spinoff_prover]
#[verifier::rlimit(40)]
fn render_item(parent: &Block, it: &ListItem, ctx: &mut Ctx, out: &mut Vec<char>)
    requires
        decreases_to!(*parent => *it),
    ensures
        plain_item(*it) ==> final(out)@ == old(out)@ + html_item(*it),
    decreases parent, 1nat,
{
    let ghost o = out@;
    match it.task {
        None => {
            push_str(out, "<li>");
        },
        Some(state) => {
            push_str(out, "<li class=\"task-list-item\"><input type=\"checkbox\" disabled");
            if state == TaskState::Done {
                push_str(out, " checked");
            }
            push_str(out, "> ");
        },
    }
    render_inline_seq(&it.content, ctx, out);
    if it.children.len() > 0 {
        out.push('\n');
        proof {
            assert(decreases_to!(*it => it.children));
        }
        render_blocks_in(parent, &it.children, ctx, out);
    }
    push_str(out, "</li>\n");
    assert(plain_item(*it) ==> out@ =~= o + html_item(*it));
}

/// Alignment of column `i`: the `align` array's entry when it is `left`,
/// `right` or `center`, `left` otherwise.
pub open spec fn align_spec(args: ShortArgs, i: int) -> Seq<char> {
    match args.keyword.spec_get("align"@) {
        Some(ArgValue::Array(a)) => if i < a@.len() {
            match crate::shortcode::spec_as_str(a@[i]) {
                Some(t) => if t == "right"@ {
                    "right"@
                } else if t == "center"@ {
                    "center"@
                } else {
                    "left"@
                },
                None => "left"@,
            }
        } else {
            "left"@
        },
        _ => "left"@,
    }
}

/// Table cells as `<tag style="text-align:A">text</tag>`, `A` from
/// `align_spec`.
pub open spec fn html_cells(cells: Seq<Vec<Inline>>, args: ShortArgs, tag: Seq<char>) -> Seq<char>
    decreases cells.len(),
{
    if cells.len() == 0 {
        seq![]
    } else {
        html_cells(cells.drop_last(), args, tag) + seq!['<'] + tag + " style=\"text-align:"@ + align_spec(
            args,
            cells.len() - 1,
        ) + "\">"@ + html_inlines(cells.last()@) + seq!['<', '/'] + tag + seq!['>']
    }
}

/// Every cell's text holds no shortcode.
pub open spec fn cells_markup_only(cells: Seq<Vec<Inline>>) -> bool {
    forall|j: int| 0 <= j < cells.len() ==> markup_only_seq(#[trigger] cells[j]@)
}

/// Body rows as `<tr>` lines.
pub open spec fn html_rows(rows: Seq<Row>, args: ShortArgs) -> Seq<char>
    decreases rows.len(),
{
    if rows.len() == 0 {
        seq![]
    } else {
        html_rows(rows.drop_last(), args) + "<tr>"@ + html_cells(rows.last().cells@, args, "td"@) + "</tr>\n"@
    }
}

fn align_of(args: &ShortArgs, i: usize) -> (r: &'static str)
    ensures
        r@ == "left"@ || r@ == "right"@ || r@ == "center"@,
        r@ == align_spec(*args, i as int),
{
    match args.keyword.get("align") {
        Some(ArgValue::Array(a)) => {
            if i < a.len() {
                match a[i].as_str() {
                    Some(s) => {
                        if str_eq(s, "right") {
                            return "right";
                        } else if str_eq(s, "center") {
                            return "center";
                        }
                    },
                    None => {},
                }
            }
            "left"
        },
        _ => "left",
    }
}

#[verifier::spinoff_prover]
#[verifier::rlimit(40)]
fn render_row_cells(cells: &Vec<Vec<Inline>>, args: &ShortArgs, cell_tag: &str, ctx: &mut Ctx, out: &mut Vec<char>)
    ensures
        cells_markup_only(cells@) ==> final(out)@ == old(out)@ + html_cells(cells@, *args, cell_tag@),
{
    let ghost o = out@;
    let ghost plain = cells_markup_only(cells@);
    let mut i: usize = 0;
    assert(cells@.take(0) =~= Seq::<Vec<Inline>>::empty());
    while i < cells.len()
        invariant
            i <= cells@.len(),
            plain == cells_markup_only(cells@),
            plain ==> out@ == o + html_cells(cells@.take(i as int), *args, cell_tag@),
        decreases cells@.len() - i,
    {
        let ghost t = cells@.take(i + 1);
        assert(t.drop_last() =~= cells@.take(i as int));
        assert(t.last() == cells@[i as int]);
        let ghost before = out@;
        proof {
            if plain {
                assert(markup_only_seq(cells@[i as int]@));
            }
        }
        out.push('<');
        push_str(out, cell_tag);
        push_str(out, " style=\"text-align:");
        push_str(out, align_of(args, i));
        push_str(out, "\">");
        render_inline_seq(&cells[i], ctx, out);
        tag(out, true, cell_tag, false);
        assert(plain ==> out@ =~= o + html_cells(t, *args, cell_tag@));
        i = i + 1;
    }
    assert(cells@.take(cells@.len() as int) =~= cells@);
}

fn render_table(args: &ShortArgs, header: &Row, rows: &Vec<Row>, ctx: &mut Ctx, out: &mut Vec<char>)
    ensures
        cells_markup_only(header.cells@) && (forall|k: int| 0 <= k < rows@.len() ==> cells_markup_only(
            #[trigger] rows@[k].cells@,
        )) ==> final(out)@ == old(out)@ + "<table>\n<thead><tr>"@ + html_cells(header.cells@, *args, "th"@)
            + "</tr></thead>\n<tbody>\n"@ + html_rows(rows@, *args) + "</tbody>\n</table>\n"@,
{
    let ghost o = out@;
    let ghost plain = cells_markup_only(header.cells@) && (forall|k: int| 0 <= k < rows@.len() ==> cells_markup_only(
        #[trigger] rows@[k].cells@,
    ));
    push_str(out, "<table>\n<thead><tr>");
    render_row_cells(&header.cells, args, "th", ctx, out);
    push_str(out, "</tr></thead>\n<tbody>\n");
    let ghost o1 = out@;
    let mut r: usize = 0;
    assert(rows@.take(0) =~= Seq::<Row>::empty());
    while r < rows.len()
        invariant
            r <= rows@.len(),
            plain == (cells_markup_only(header.cells@) && (forall|k: int| 0 <= k < rows@.len() ==> cells_markup_only(
                #[trigger] rows@[k].cells@,
            ))),
            plain ==> out@ == o1 + html_rows(rows@.take(r as int), *args),
        decreases rows@.len() - r,
    {
        let ghost t = rows@.take(r + 1);
        assert(t.drop_last() =~= rows@.take(r as int));
        assert(t.last() == rows@[r as int]);
        proof {
            if plain {
                assert(cells_markup_only(rows@[r as int].cells@));
            }
        }
        push_str(out, "<tr>");
        render_row_cells(&rows[r].cells, args, "td", ctx, out);
        push_str(out, "</tr>\n");
        assert(plain ==> out@ =~= o1 + html_rows(t, *args));
        r = r + 1;
    }
    assert(rows@.take(rows@.len() as int) =~= rows@);
    push_str(out, "</tbody>\n</table>\n");
    assert(plain ==> out@ =~= o + "<table>\n<thead><tr>"@ + html_cells(header.cells@, *args, "th"@)
        + "</tr></thead>\n<tbody>\n"@ + html_rows(rows@, *args) + "</tbody>\n</table>\n"@);
}

/// Render an inline sequence.
fn render_inline_seq(seq: &Vec<Inline>, ctx: &mut Ctx, out: &mut Vec<char>)
    ensures
        markup_only_seq(seq@) ==> final(out)@ == old(out)@ + html_inlines(seq@),
        text_or_fn_refs(seq@) && !old(ctx).in_footnote && old(ctx).counter + count_fn_refs(seq@) <= u32::MAX
            ==> final(out)@ == old(out)@ + html_fn_seq(seq@, old(ctx).counter as nat) && final(ctx).counter
            == old(ctx).counter + count_fn_refs(seq@),
        final(ctx).in_footnote == old(ctx).in_footnote,
        !old(ctx).in_footnote && old(ctx).counter + fn_refs_seq(seq@) <= u32::MAX ==> final(ctx).counter
            == old(ctx).counter + fn_refs_seq(seq@),
{
    let ghost tf = text_or_fn_refs(seq@) && !old(ctx).in_footnote && old(ctx).counter + count_fn_refs(seq@)
        <= u32::MAX;
    let ghost c0 = old(ctx).counter as nat;
    let mut i: usize = 0;
    while i < seq.len()
        invariant
            i <= seq@.len(),
            tf == (text_or_fn_refs(seq@) && !old(ctx).in_footnote && old(ctx).counter + count_fn_refs(seq@)
                <= u32::MAX),
            c0 == old(ctx).counter,
            tf ==> out@ == old(out)@ + html_fn_seq(seq@.take(i as int), c0) && ctx.counter == c0 + count_fn_refs(
                seq@.take(i as int),
            ),
            markup_only_seq(seq@) ==> out@ == old(out)@ + html_inlines(seq@.take(i as int)),
            ctx.in_footnote == old(ctx).in_footnote,
            !old(ctx).in_footnote && old(ctx).counter + fn_refs_seq(seq@) <= u32::MAX ==> ctx.counter
                == old(ctx).counter + fn_refs_seq(seq@.take(i as int)),
        decreases seq@.len() - i,
    {
        proof {
            lemma_fn_refs_prefix(seq@, i + 1);
            assert(seq@.take(i + 1).drop_last() =~= seq@.take(i as int));
            assert(seq@.take(i + 1).last() == seq@[i as int]);
            if tf {
                lemma_count_prefix(seq@, i + 1);
                assert(markup_only(seq@[i as int]) || fn_ref_node(seq@[i as int]));
                if !fn_ref_node(seq@[i as int]) {
                    lemma_markup_only_no_refs(seq@[i as int]);
                }
            }
        }
        proof {
            if markup_only_seq(seq@) {
                lemma_markup_only_at(seq@, i as int);
            }
        }
        render_inline(&seq[i], ctx, out);
        assert(seq@.take(i + 1).drop_last() =~= seq@.take(i as int));
        i = i + 1;
    }
    assert(seq@.take(seq@.len() as int) =~= seq@);
}

fn render_inlines_in(parent: &Inline, v: &Vec<Inline>, ctx: &mut Ctx, out: &mut Vec<char>)
    requires
        decreases_to!(*parent => *v),
    ensures
        markup_only_seq(v@) ==> final(out)@ == old(out)@ + html_inlines(v@),
        final(ctx).in_footnote == old(ctx).in_footnote,
        !old(ctx).in_footnote && old(ctx).counter + fn_refs_seq(v@) <= u32::MAX ==> final(ctx).counter
            == old(ctx).counter + fn_refs_seq(v@),
    decreases parent, 1nat,
{
    let mut i: usize = 0;
    while i < v.len()
        invariant
            i <= v@.len(),
            decreases_to!(*parent => *v),
            markup_only_seq(v@) ==> out@ == old(out)@ + html_inlines(v@.take(i as int)),
            ctx.in_footnote == old(ctx).in_footnote,
            !old(ctx).in_footnote && old(ctx).counter + fn_refs_seq(v@) <= u32::MAX ==> ctx.counter
                == old(ctx).counter + fn_refs_seq(v@.take(i as int)),
        decreases v@.len() - i,
    {
        proof {
            lemma_fn_refs_prefix(v@, i + 1);
            assert(v@.take(i + 1).drop_last() =~= v@.take(i as int));
        }
        proof {
            assert(decreases_to!(*v => v@[i as int]));
            if markup_only_seq(v@) {
                lemma_markup_only_at(v@, i as int);
            }
        }
        render_inline(&v[i], ctx, out);
        assert(v@.take(i + 1).drop_last() =~= v@.take(i as int));
        i = i + 1;
    }
    assert(v@.take(v@.len() as int) =~= v@);
}

/// `path` with its last four chars (the `.brf` extension) replaced by
/// `.html`.
fn html_target(path: &str) -> (r: Vec<char>)
    ensures
        path@.len() >= 4 ==> r@ == path@.take(path@.len() - 4) + ".html"@,
        path@.len() < 4 ==> r@ == path@,
{
    let p = str_chars(path);
    let mut v: Vec<char> = Vec::new();
    if p.len() >= 4 {
        push_range(&mut v, p.as_slice(), 0, p.len() - 4);
        push_str(&mut v, ".html");
    } else {
        push_all(&mut v, p.as_slice());
    }
    v
}

/// The HTML of a reference to footnote `n`: its number, linking to the
/// note `fn-n`, with the id `fn-ref-n` for the way back.
pub open spec fn fn_ref_html(n: nat) -> Seq<char> {
    "<sup class=\"fn-ref\"><a id=\"fn-ref-"@ + dec(n) + "\" href=\"#fn-"@ + dec(n) + "\">"@ + dec(n)
        + "</a></sup>"@
}

fn render_inline(node: &Inline, ctx: &mut Ctx, out: &mut Vec<char>)
    ensures
        markup_only(*node) ==> final(out)@ == old(out)@ + html_inline(*node),
        (node matches Inline::Shortcode { name, content, .. } && name@ == "footnote"@ && content is Some)
            && !old(ctx).in_footnote && old(ctx).counter < u32::MAX ==> final(ctx).counter == old(ctx).counter + 1
            && final(out)@ == old(out)@ + fn_ref_html((old(ctx).counter + 1) as nat),
        final(ctx).in_footnote == old(ctx).in_footnote,
        !old(ctx).in_footnote && old(ctx).counter + fn_refs(*node) <= u32::MAX ==> final(ctx).counter
            == old(ctx).counter + fn_refs(*node),
    decreases node, 2nat,
{
    match node {
        Inline::Text { value, .. } => {
            escape_str_into(out, value.as_str());
        },
        Inline::HardBreak { .. } => {
            push_str(out, "<br>");
        },
        Inline::Bold { content, .. } => {
            push_str(out, "<strong>");
            render_inlines_in(node, content, ctx, out);
            push_str(out, "</strong>");
        },
        Inline::Italic { content, .. } => {
            push_str(out, "<em>");
            render_inlines_in(node, content, ctx, out);
            push_str(out, "</em>");
        },
        Inline::Underline { content, .. } => {
            push_str(out, "<u>");
            render_inlines_in(node, content, ctx, out);
            push_str(out, "</u>");
        },
        Inline::Strike { content, .. } => {
            push_str(out, "<s>");
            render_inlines_in(node, content, ctx, out);
            push_str(out, "</s>");
        },
        Inline::InlineCode { value, .. } => {
            push_str(out, "<code>");
            escape_str_into(out, value.as_str());
            push_str(out, "</code>");
        },
        Inline::Shortcode { name, args, content, span } => {
            proof {
                reveal_strlit("ref");
                reveal_strlit("footnote");
                assert("ref"@.len() != "footnote"@.len());
            }
            if str_eq(name.as_str(), "ref") {
                render_ref(args, span, ctx, out);
                return;
            }
            if str_eq(name.as_str(), "footnote") {
                match content {
                    None => {
                        return;
                    },
                    Some(c) => {
                        if ctx.in_footnote {
                            out.push('[');
                            proof {
                                assert(decreases_to!(*node => *c));
                            }
                            render_inlines_in(node, c, ctx, out);
                            out.push(']');
                            return;
                        }
                    },
                }
                ctx.counter = ctx.counter.wrapping_add(1);
                let n = ctx.counter as usize;
                push_str(out, "<sup class=\"fn-ref\"><a id=\"fn-ref-");
                push_usize(out, n);
                push_str(out, "\" href=\"#fn-");
                push_usize(out, n);
                push_str(out, "\">");
                push_usize(out, n);
                push_str(out, "</a></sup>");
                proof {
                    reveal_strlit("<sup class=\"fn-ref\"><a id=\"fn-ref-");
                    reveal_strlit("\" href=\"#fn-");
                    reveal_strlit("\">");
                    reveal_strlit("</a></sup>");
                    if old(ctx).counter < u32::MAX {
                        assert(n == old(ctx).counter + 1);
                        assert(out@ =~= old(out)@ + fn_ref_html((old(ctx).counter + 1) as nat));
                    }
                }
                return;
            }
            match content {
                Some(c) => {
                    let mut inner: Vec<char> = Vec::new();
                    proof {
                        assert(decreases_to!(*node => *c));
                    }
                    render_inlines_in(node, c, ctx, &mut inner);
                    render_shortcode_html(name.as_str(), args, Some(inner.as_slice()), ctx, out);
                },
                None => {
                    render_shortcode_html(name.as_str(), args, None, ctx, out);
                },
            }
        },
    }
}

/// The URL of a page path: its `.brf` ending written `.html`.
pub open spec fn html_target_spec(p: Seq<char>) -> Seq<char> {
    if p.len() >= 4 {
        p.take(p.len() - 4) + ".html"@
    } else {
        p
    }
}

/// The text of an unresolved `@ref`: its `title` argument, else its first
/// positional argument (when strings or identifiers), else nothing.
pub open spec fn ref_fallback(args: ShortArgs) -> Seq<char> {
    if args.keyword.spec_get("title"@) matches Some(v) && crate::shortcode::spec_as_str(v) is Some {
        crate::shortcode::spec_as_str(args.keyword.spec_get("title"@)->Some_0)->Some_0
    } else if args.positional@.len() > 0 && crate::shortcode::spec_as_str(args.positional@[0]) is Some {
        crate::shortcode::spec_as_str(args.positional@[0])->Some_0
    } else {
        seq![]
    }
}

/// HTML of a `@ref` at `span`: a link to the resolved page (and anchor)
/// showing its display text, or the escaped fallback text when unresolved.
pub open spec fn ref_html(args: ShortArgs, span: crate::span::Span, refs: RefMap) -> Seq<char> {
    match refs.spec_get(span) {
        Some(r) => "<a href=\""@ + escaped(
            html_target_spec(r.target_path@) + match r.target_anchor {
                Some(a) => seq!['#'] + a@,
                None => seq![],
            },
        ) + "\">"@ + escaped(r.display@) + "</a>"@,
        None => escaped(ref_fallback(args)),
    }
}

/// `@ref`: a link to the resolved target, or its display text alone when
/// the reference was not resolved.
fn render_ref(args: &ShortArgs, span: &crate::span::Span, ctx: &mut Ctx, out: &mut Vec<char>)
    ensures
        final(ctx).counter == old(ctx).counter,
        final(ctx).in_footnote == old(ctx).in_footnote,
        final(out)@ == old(out)@ + ref_html(*args, *span, *old(ctx).refs),
{
    let ghost o = out@;
    let title_kw = match args.keyword.get("title") {
        Some(v) => v.as_str(),
        None => None,
    };
    let title_pos = if args.positional.len() > 0 {
        args.positional[0].as_str()
    } else {
        None
    };
    let resolved = ctx.refs.get(span);
    let display: &str = match resolved {
        Some(r) => r.display.as_str(),
        None => match title_kw {
            Some(t) => t,
            None => match title_pos {
                Some(t) => t,
                None => "",
            },
        },
    };
    match resolved {
        Some(r) => {
            let mut url = html_target(r.target_path.as_str());
            match &r.target_anchor {
                Some(a) => {
                    url.push('#');
                    push_str(&mut url, a.as_str());
                },
                None => {},
            }
            assert(url@ =~= html_target_spec(r.target_path@) + match r.target_anchor {
                Some(a) => seq!['#'] + a@,
                None => Seq::<char>::empty(),
            });
            push_str(out, "<a href=\"");
            escape_html_into(out, url.as_slice());
            push_str(out, "\">");
            escape_str_into(out, display);
            push_str(out, "</a>");
            assert(out@ =~= o + ref_html(*args, *span, *ctx.refs));
        },
        None => {
            proof {
                reveal_strlit("");
                assert(display@ == ref_fallback(*args));
            }
            escape_str_into(out, display);
        },
    }
}

/// Text of keyword argument `key` when it is a string or identifier.
fn kw_str<'a>(args: &'a ShortArgs, key: &str) -> (r: Option<&'a str>)
    ensures
        r matches Some(s) ==> args.keyword.spec_get(key@) matches Some(v)
            && crate::shortcode::spec_as_str(v) == Some(s@),
        r is None ==> (args.keyword.spec_get(key@) matches Some(v) ==> crate::shortcode::spec_as_str(
            v,
        ) is None),
{
    match args.keyword.get(key) {
        Some(v) => v.as_str(),
        None => None,
    }
}

fn inner_or_empty(out: &mut Vec<char>, inner: Option<&[char]>)
    ensures
        final(out)@ == old(out)@ + match inner {
            Some(s) => s@,
            None => Seq::empty(),
        },
{
    match inner {
        Some(s) => push_all(out, s),
        None => {},
    }
}

/// The string value of keyword argument `key`, else `d`.
pub open spec fn kw_or(args: ShortArgs, key: Seq<char>, d: Seq<char>) -> Seq<char> {
    match args.keyword.spec_get(key) {
        Some(v) => match crate::shortcode::spec_as_str(v) {
            Some(t) => t,
            None => d,
        },
        None => d,
    }
}

/// Rendered content, or nothing.
pub open spec fn inner_seq(inner: Option<&[char]>) -> Seq<char> {
    match inner {
        Some(s) => s@,
        None => Seq::empty(),
    }
}

/// The HTML of a shortcode without a template, given its rendered content.
pub open spec fn html_shortcode(name: Seq<char>, args: ShortArgs, inner: Option<&[char]>) -> Seq<char> {
    if name == "link"@ {
        "<a href=\""@ + escaped(kw_or(args, "url"@, "#"@)) + (match args.keyword.spec_get("title"@) {
            Some(v) => match crate::shortcode::spec_as_str(v) {
                Some(t) => "\" title=\""@ + escaped(t),
                None => Seq::empty(),
            },
            None => Seq::empty(),
        }) + "\">"@ + inner_seq(inner) + "</a>"@
    } else if name == "image"@ {
        "<img src=\""@ + escaped(kw_or(args, "src"@, ""@)) + "\" alt=\""@ + escaped(kw_or(args, "alt"@, ""@))
            + "\">"@
    } else if name == "kbd"@ || name == "sub"@ || name == "sup"@ {
        seq!['<'] + name + seq!['>'] + inner_seq(inner) + seq!['<', '/'] + name + seq!['>']
    } else if name == "details"@ {
        "<details><summary>"@ + escaped(kw_or(args, "summary"@, ""@)) + "</summary>"@ + inner_seq(inner)
            + "</details>\n"@
    } else if name == "callout"@ {
        "<aside class=\"callout callout-"@ + escaped(kw_or(args, "kind"@, "info"@)) + "\">"@ + inner_seq(inner)
            + "</aside>\n"@
    } else if name == "math"@ {
        "<span class=\"math\">"@ + (match inner {
            Some(s) => escaped(s@),
            None => Seq::empty(),
        }) + "</span>"@
    } else {
        "<div class=\"shortcode-"@ + escaped(name) + "\">"@ + inner_seq(inner) + "</div>"@
    }
}

/// A shortcode: its registered HTML template if it has one, else the
/// built-in form for its name, else a `div` with class `shortcode-NAME`.
#[verifier::rlimit(60)]
#[verifier::spinoff_prover]
fn render_shortcode_html(name: &str, args: &ShortArgs, inner: Option<&[char]>, ctx: &mut Ctx, out: &mut Vec<char>)
    ensures
        final(ctx).counter == old(ctx).counter,
        final(ctx).in_footnote == old(ctx).in_footnote,
        (old(ctx).reg.map.spec_get(name@) matches Some(sc) ==> sc.template_html is None) ==> final(out)@ == old(out)@
            + html_shortcode(name@, *args, inner),
{
    let ghost o = out@;
    proof {
        reveal_strlit("link");
        reveal_strlit("image");
        reveal_strlit("kbd");
        reveal_strlit("sub");
        reveal_strlit("sup");
        reveal_strlit("details");
        reveal_strlit("callout");
        reveal_strlit("math");
    }
    match ctx.reg.get(name) {
        Some(sc) => match &sc.template_html {
            Some(t) => {
                let content: &[char] = match inner {
                    Some(s) => s,
                    None => &[],
                };
                let tv = str_chars(t.as_str());
                expand_template(tv.as_slice(), args, content, out);
                return;
            },
            None => {},
        },
        None => {},
    }
    if str_eq(name, "link") {
        let url = match kw_str(args, "url") {
            Some(u) => u,
            None => "#",
        };
        push_str(out, "<a href=\"");
        escape_str_into(out, url);
        let ghost o1 = out@;
        match kw_str(args, "title") {
            Some(t) => {
                push_str(out, "\" title=\"");
                escape_str_into(out, t);
                assert(out@ =~= o1 + "\" title=\""@ + escaped(t@));
            },
            None => {},
        }
        push_str(out, "\">");
        inner_or_empty(out, inner);
        push_str(out, "</a>");
        assert(url@ == kw_or(*args, "url"@, "#"@));
        assert(out@ =~= o + html_shortcode(name@, *args, inner));
    } else if str_eq(name, "image") {
        let src = match kw_str(args, "src") {
            Some(u) => u,
            None => "",
        };
        let alt = match kw_str(args, "alt") {
            Some(u) => u,
            None => "",
        };
        push_str(out, "<img src=\"");
        escape_str_into(out, src);
        push_str(out, "\" alt=\"");
        escape_str_into(out, alt);
        push_str(out, "\">");
        assert(src@ == kw_or(*args, "src"@, ""@));
        assert(alt@ == kw_or(*args, "alt"@, ""@));
        assert(out@ =~= o + html_shortcode(name@, *args, inner));
    } else if str_eq(name, "kbd") || str_eq(name, "sub") || str_eq(name, "sup") {
        tag(out, false, name, false);
        inner_or_empty(out, inner);
        tag(out, true, name, false);
        assert(out@ =~= o + html_shortcode(name@, *args, inner));
    } else if str_eq(name, "details") {
        let summary = match kw_str(args, "summary") {
            Some(u) => u,
            None => "",
        };
        push_str(out, "<details><summary>");
        escape_str_into(out, summary);
        push_str(out, "</summary>");
        inner_or_empty(out, inner);
        push_str(out, "</details>\n");
        assert(summary@ == kw_or(*args, "summary"@, ""@));
        assert(out@ =~= o + html_shortcode(name@, *args, inner));
    } else if str_eq(name, "callout") {
        let kind = match kw_str(args, "kind") {
            Some(u) => u,
            None => "info",
        };
        push_str(out, "<aside class=\"callout callout-");
        escape_str_into(out, kind);
        push_str(out, "\">");
        inner_or_empty(out, inner);
        push_str(out, "</aside>\n");
        assert(kind@ == kw_or(*args, "kind"@, "info"@));
        assert(out@ =~= o + html_shortcode(name@, *args, inner));
    } else if str_eq(name, "math") {
        push_str(out, "<span class=\"math\">");
        let ghost o1 = out@;
        match inner {
            Some(s) => escape_html_into(out, s),
            None => {},
        }
        let ghost o2 = out@;
        push_str(out, "</span>");
        assert(o2 =~= o1 + match inner {
            Some(s) => escaped(s@),
            None => Seq::empty(),
        });
        assert(out@ =~= o + html_shortcode(name@, *args, inner));
    } else {
        push_str(out, "<div class=\"shortcode-");
        escape_str_into(out, name);
        push_str(out, "\">");
        inner_or_empty(out, inner);
        push_str(out, "</div>");
        assert(out@ =~= o + html_shortcode(name@, *args, inner));
    }
}

/// `f` is `o` with `n` more items at its end.
pub open spec fn grown_by<T>(o: Seq<T>, f: Seq<T>, n: nat) -> bool {
    f.len() == o.len() + n && f.take(o.len() as int) == o
}

proof fn lemma_grown_by<T>(a: Seq<T>, b: Seq<T>, c: Seq<T>, n: nat, m: nat)
    requires
        grown_by(a, b, n),
        grown_by(b, c, m),
    ensures
        grown_by(a, c, n + m),
{
    assert(c.take(a.len() as int) =~= b.take(a.len() as int));
}

/// Footnote references that rendering `n` numbers: a `footnote` shortcode
/// with content is one (its content is not searched); the target of a
/// `ref` is not rendered, so not searched; other nodes are searched.
pub open spec fn fn_refs(n: Inline) -> nat
    decreases n, 1nat,
{
    match n {
        Inline::Bold { content, .. } => fn_refs_seq(content@),
        Inline::Italic { content, .. } => fn_refs_seq(content@),
        Inline::Underline { content, .. } => fn_refs_seq(content@),
        Inline::Strike { content, .. } => fn_refs_seq(content@),
        Inline::Shortcode { name, content, .. } => match content {
            Some(c) => if name@ == "footnote"@ {
                1
            } else if name@ == "ref"@ {
                0
            } else {
                fn_refs_seq(c@)
            },
            None => 0,
        },
        _ => 0,
    }
}

/// `fn_refs` summed over a sequence.
pub open spec fn fn_refs_seq(v: Seq<Inline>) -> nat
    decreases v, 0nat,
{
    if v.len() == 0 {
        0
    } else {
        fn_refs_seq(v.drop_last()) + fn_refs(v.last())
    }
}

/// `n` is a footnote reference: a `footnote` shortcode with content.
pub open spec fn fn_ref_node(n: Inline) -> bool {
    n matches Inline::Shortcode { name, content, .. } && name@ == "footnote"@ && content is Some
}

/// Every node of `v` is markup only or a footnote reference.
pub open spec fn text_or_fn_refs(v: Seq<Inline>) -> bool {
    forall|i: int| 0 <= i < v.len() ==> markup_only(#[trigger] v[i]) || fn_ref_node(v[i])
}

/// The number of footnote references among the nodes of `v`.
pub open spec fn count_fn_refs(v: Seq<Inline>) -> nat
    decreases v.len(),
{
    if v.len() == 0 {
        0
    } else {
        count_fn_refs(v.drop_last()) + if fn_ref_node(v.last()) { 1nat } else { 0nat }
    }
}

/// HTML of a run of markup and footnote references after `c` references:
/// each reference is numbered one more than the references before it.
pub open spec fn html_fn_seq(v: Seq<Inline>, c: nat) -> Seq<char>
    decreases v.len(),
{
    if v.len() == 0 {
        seq![]
    } else {
        html_fn_seq(v.drop_last(), c) + if fn_ref_node(v.last()) {
            fn_ref_html(c + count_fn_refs(v.drop_last()) + 1)
        } else {
            html_inline(v.last())
        }
    }
}

/// A markup-only node holds no footnote reference.
proof fn lemma_markup_only_no_refs(n: Inline)
    requires
        markup_only(n),
    ensures
        fn_refs(n) == 0,
    decreases n, 1nat,
{
    match n {
        Inline::Bold { content, .. } => lemma_markup_only_seq_no_refs(content@),
        Inline::Italic { content, .. } => lemma_markup_only_seq_no_refs(content@),
        Inline::Underline { content, .. } => lemma_markup_only_seq_no_refs(content@),
        Inline::Strike { content, .. } => lemma_markup_only_seq_no_refs(content@),
        _ => {},
    }
}

/// A markup-only sequence holds no footnote reference.
proof fn lemma_markup_only_seq_no_refs(v: Seq<Inline>)
    requires
        markup_only_seq(v),
    ensures
        fn_refs_seq(v) == 0,
    decreases v, 0nat,
{
    if v.len() > 0 {
        lemma_markup_only_seq_no_refs(v.drop_last());
        lemma_markup_only_no_refs(v.last());
    }
}

/// In a run of markup and footnote references, rendering numbers exactly
/// the references.
proof fn lemma_refs_are_count(v: Seq<Inline>)
    requires
        text_or_fn_refs(v),
    ensures
        fn_refs_seq(v) == count_fn_refs(v),
    decreases v.len(),
{
    if v.len() > 0 {
        assert(text_or_fn_refs(v.drop_last())) by {
            assert forall|i: int| 0 <= i < v.drop_last().len() implies markup_only(#[trigger] v.drop_last()[i])
                || fn_ref_node(v.drop_last()[i]) by {
                assert(v.drop_last()[i] == v[i]);
            }
        }
        lemma_refs_are_count(v.drop_last());
        assert(markup_only(v[v.len() - 1]) || fn_ref_node(v[v.len() - 1]));
        if fn_ref_node(v.last()) {
            reveal_strlit("footnote");
            reveal_strlit("ref");
            assert("ref"@.len() != "footnote"@.len());
            assert(fn_refs(v.last()) == 1);
        } else {
            lemma_markup_only_no_refs(v.last());
        }
        assert(fn_refs_seq(v) == fn_refs_seq(v.drop_last()) + fn_refs(v.last()));
    }
}

/// In a run of markup and footnote references, the reference at index `i`
/// is numbered one more than all references before it (counted from `c`),
/// and its HTML follows the HTML of everything before it.
pub proof fn law_footnote_refs_numbered_in_order(v: Seq<Inline>, c: nat, i: int)
    requires
        0 <= i < v.len(),
        fn_ref_node(v[i]),
    ensures
        count_fn_refs(v.take(i + 1)) == count_fn_refs(v.take(i)) + 1,
        html_fn_seq(v.take(i + 1), c) == html_fn_seq(v.take(i), c) + fn_ref_html(c + count_fn_refs(v.take(i)) + 1),
        html_fn_seq(v.take(i + 1), c).len() <= html_fn_seq(v, c).len(),
        html_fn_seq(v, c).take(html_fn_seq(v.take(i + 1), c).len() as int) == html_fn_seq(v.take(i + 1), c),
{
    assert(v.take(i + 1).drop_last() =~= v.take(i));
    assert(v.take(i + 1).last() == v[i]);
    lemma_html_fn_seq_prefix(v, c, i + 1);
}

/// The references of a prefix are at most those of the whole.
proof fn lemma_count_prefix(v: Seq<Inline>, k: int)
    requires
        0 <= k <= v.len(),
    ensures
        count_fn_refs(v.take(k)) <= count_fn_refs(v),
    decreases v.len(),
{
    if k < v.len() {
        lemma_count_prefix(v.drop_last(), k);
        assert(v.drop_last().take(k) =~= v.take(k));
    } else {
        assert(v.take(k) =~= v);
    }
}

/// The HTML of a prefix comes first in that of the whole.
proof fn lemma_html_fn_seq_prefix(v: Seq<Inline>, c: nat, k: int)
    requires
        0 <= k <= v.len(),
    ensures
        html_fn_seq(v.take(k), c).len() <= html_fn_seq(v, c).len(),
        html_fn_seq(v, c).take(html_fn_seq(v.take(k), c).len() as int) == html_fn_seq(v.take(k), c),
    decreases v.len(),
{
    if k < v.len() {
        lemma_html_fn_seq_prefix(v.drop_last(), c, k);
        assert(v.drop_last().take(k) =~= v.take(k));
        let a = html_fn_seq(v.take(k), c);
        assert(html_fn_seq(v, c).take(a.len() as int) =~= html_fn_seq(v.drop_last(), c).take(a.len() as int));
    } else {
        assert(v.take(k) =~= v);
        assert(html_fn_seq(v, c).take(html_fn_seq(v, c).len() as int) =~= html_fn_seq(v, c));
    }
}

/// The references of a prefix are at most those of the whole.
proof fn lemma_fn_refs_prefix(v: Seq<Inline>, k: int)
    requires
        0 <= k <= v.len(),
    ensures
        fn_refs_seq(v.take(k)) <= fn_refs_seq(v),
    decreases v.len(),
{
    if k < v.len() {
        lemma_fn_refs_prefix(v.drop_last(), k);
        assert(v.drop_last().take(k) =~= v.take(k));
    } else {
        assert(v.take(k) =~= v);
    }
}

/// Number of footnotes reached in `n`: a `footnote` shortcode with content
/// counts one (its content is not searched); other nodes are searched.
pub open spec fn fn_inline(n: Inline) -> nat
    decreases n, 1nat,
{
    match n {
        Inline::Bold { content, .. } => fn_inlines(content@),
        Inline::Italic { content, .. } => fn_inlines(content@),
        Inline::Underline { content, .. } => fn_inlines(content@),
        Inline::Strike { content, .. } => fn_inlines(content@),
        Inline::Shortcode { name, content, .. } => match content {
            Some(c) => if name@ == "footnote"@ {
                1
            } else {
                fn_inlines(c@)
            },
            None => 0,
        },
        _ => 0,
    }
}

/// `fn_inline` summed over a sequence.
pub open spec fn fn_inlines(v: Seq<Inline>) -> nat
    decreases v, 0nat,
{
    if v.len() == 0 {
        0
    } else {
        fn_inlines(v.drop_last()) + fn_inline(v.last())
    }
}

/// `fn_inlines` summed over table cells.
pub open spec fn fn_cells(v: Seq<Vec<Inline>>) -> nat
    decreases v.len(),
{
    if v.len() == 0 {
        0
    } else {
        fn_cells(v.drop_last()) + fn_inlines(v.last()@)
    }
}

/// `fn_cells` summed over table rows.
pub open spec fn fn_rows(v: Seq<Row>) -> nat
    decreases v.len(),
{
    if v.len() == 0 {
        0
    } else {
        fn_rows(v.drop_last()) + fn_cells(v.last().cells@)
    }
}

/// Footnotes of definition-list items, terms before definitions.
pub open spec fn fn_dl(v: Seq<crate::ast::DefinitionItem>) -> nat
    decreases v.len(),
{
    if v.len() == 0 {
        0
    } else {
        fn_dl(v.drop_last()) + fn_inlines(v.last().term@) + fn_inlines(v.last().definition@)
    }
}

/// Number of footnotes reached in a block (code blocks and rules have
/// none).
pub open spec fn fn_block(b: Block) -> nat
    decreases b,
{
    match b {
        Block::Heading { content, .. } => fn_inlines(content@),
        Block::Paragraph { content, .. } => fn_inlines(content@),
        Block::List { items, .. } => fn_items(items@),
        Block::Blockquote { children, .. } => fn_blocks(children@),
        Block::BlockShortcode { children, .. } => fn_blocks(children@),
        Block::Table { header, rows, .. } => fn_cells(header.cells@) + fn_rows(rows@),
        Block::DefinitionList { items, .. } => fn_dl(items@),
        _ => 0,
    }
}

/// `fn_block` summed over a sequence.
pub open spec fn fn_blocks(v: Seq<Block>) -> nat
    decreases v,
{
    if v.len() == 0 {
        0
    } else {
        fn_blocks(v.drop_last()) + fn_block(v.last())
    }
}

/// `fn_item` summed over a sequence.
pub open spec fn fn_items(v: Seq<ListItem>) -> nat
    decreases v,
{
    if v.len() == 0 {
        0
    } else {
        fn_items(v.drop_last()) + fn_item(v.last())
    }
}

/// Footnotes of a list item: its text, then its blocks.
pub open spec fn fn_item(it: ListItem) -> nat
    decreases it,
{
    fn_inlines(it.content@) + fn_blocks(it.children@)
}

/// Bodies of the footnotes of `doc`, in document order.
pub(crate) fn collect_footnotes(doc: &Document) -> (r: Vec<Vec<Inline>>)
    ensures
        simple_blocks(doc.blocks@) ==> r@.len() == 0,
        plain_blocks(doc.blocks@) ==> r@.len() == 0,
        r@.len() == fn_blocks(doc.blocks@),
{
    let mut out: Vec<Vec<Inline>> = Vec::new();
    let mut i: usize = 0;
    assert(doc.blocks@.take(0) =~= Seq::<Block>::empty());
    while i < doc.blocks.len()
        invariant
            i <= doc.blocks@.len(),
            simple_blocks(doc.blocks@) ==> out@.len() == 0,
            plain_blocks(doc.blocks@) ==> out@.len() == 0,
            out@.len() == fn_blocks(doc.blocks@.take(i as int)),
        decreases doc.blocks@.len() - i,
    {
        proof {
            if plain_blocks(doc.blocks@) {
                lemma_plain_blocks_at(doc.blocks@, i as int);
            }
            assert(doc.blocks@.take(i + 1).drop_last() =~= doc.blocks@.take(i as int));
        }
        collect_block(&doc.blocks[i], &mut out);
        i = i + 1;
    }
    assert(doc.blocks@.take(doc.blocks@.len() as int) =~= doc.blocks@);
    out
}

fn collect_seq(v: &Vec<Inline>, out: &mut Vec<Vec<Inline>>)
    ensures
        markup_only_seq(v@) ==> final(out)@ == old(out)@,
        grown_by(old(out)@, final(out)@, fn_inlines(v@)),
{
    let mut i: usize = 0;
    assert(old(out)@.take(old(out)@.len() as int) =~= old(out)@);
    assert(v@.take(0) =~= Seq::<Inline>::empty());
    while i < v.len()
        invariant
            i <= v@.len(),
            markup_only_seq(v@) ==> out@ == old(out)@,
            grown_by(old(out)@, out@, fn_inlines(v@.take(i as int))),
        decreases v@.len() - i,
    {
        proof {
            if markup_only_seq(v@) {
                lemma_markup_only_at(v@, i as int);
            }
            assert(v@.take(i + 1).drop_last() =~= v@.take(i as int));
        }
        let ghost mid = out@;
        collect_inline(&v[i], out);
        proof {
            lemma_grown_by(old(out)@, mid, out@, fn_inlines(v@.take(i as int)), fn_inline(v@[i as int]));
        }
        i = i + 1;
    }
    assert(v@.take(v@.len() as int) =~= v@);
}

/// Each node of a shortcode-free sequence is shortcode-free.
pub(crate) proof fn lemma_markup_only_at(v: Seq<Inline>, i: int)
    requires
        markup_only_seq(v),
        0 <= i < v.len(),
    ensures
        markup_only(v[i]),
    decreases v.len(),
{
    if i < v.len() - 1 {
        lemma_markup_only_at(v.drop_last(), i);
    }
}

pub(crate) fn collect_block(b: &Block, out: &mut Vec<Vec<Inline>>)
    ensures
        simple_block(*b) ==> final(out)@ == old(out)@,
        plain_block(*b) ==> final(out)@ == old(out)@,
        grown_by(old(out)@, final(out)@, fn_block(*b)),
    decreases b, 2nat,
{
    let ghost o = out@;
    assert(o.take(o.len() as int) =~= o);
    match b {
        Block::Heading { content, .. } => collect_seq(content, out),
        Block::Paragraph { content, .. } => collect_seq(content, out),
        Block::List { items, .. } => {
            let mut k: usize = 0;
            assert(items@.take(0) =~= Seq::<ListItem>::empty());
            while k < items.len()
                invariant
                    k <= items@.len(),
                    plain_block(*b) ==> out@ == old(out)@,
                    grown_by(o, out@, fn_items(items@.take(k as int))),
                decreases items@.len() - k,
            {
                proof {
                    if plain_block(*b) {
                        lemma_plain_items_at(items@, k as int);
                    }
                    assert(items@.take(k + 1).drop_last() =~= items@.take(k as int));
                }
                let ghost m0 = out@;
                collect_seq(&items[k].content, out);
                proof {
                    assert(decreases_to!(*b => items@[k as int]));
                    assert(decreases_to!(items@[k as int] => items@[k as int].children));
                }
                let ghost m1 = out@;
                collect_blocks_in(b, &items[k].children, out);
                proof {
                    lemma_grown_by(m0, m1, out@, fn_inlines(items@[k as int].content@), fn_blocks(items@[k as int].children@));
                    lemma_grown_by(o, m0, out@, fn_items(items@.take(k as int)), fn_item(items@[k as int]));
                }
                k = k + 1;
            }
            assert(items@.take(items@.len() as int) =~= items@);
        },
        Block::Blockquote { children, .. } => collect_blocks_in(b, children, out),
        Block::BlockShortcode { children, .. } => collect_blocks_in(b, children, out),
        Block::Table { header, rows, .. } => {
            let mut c: usize = 0;
            assert(header.cells@.take(0) =~= Seq::<Vec<Inline>>::empty());
            while c < header.cells.len()
                invariant
                    c <= header.cells@.len(),
                    grown_by(o, out@, fn_cells(header.cells@.take(c as int))),
                decreases header.cells@.len() - c,
            {
                assert(header.cells@.take(c + 1).drop_last() =~= header.cells@.take(c as int));
                let ghost m0 = out@;
                collect_seq(&header.cells[c], out);
                proof {
                    lemma_grown_by(o, m0, out@, fn_cells(header.cells@.take(c as int)), fn_inlines(header.cells@[c as int]@));
                }
                c = c + 1;
            }
            assert(header.cells@.take(header.cells@.len() as int) =~= header.cells@);
            let ghost hc = fn_cells(header.cells@);
            let mut r: usize = 0;
            assert(rows@.take(0) =~= Seq::<Row>::empty());
            while r < rows.len()
                invariant
                    r <= rows@.len(),
                    hc == fn_cells(header.cells@),
                    grown_by(o, out@, hc + fn_rows(rows@.take(r as int))),
                decreases rows@.len() - r,
            {
                assert(rows@.take(r + 1).drop_last() =~= rows@.take(r as int));
                let ghost base = hc + fn_rows(rows@.take(r as int));
                let ghost cells = rows@[r as int].cells@;
                let mut c: usize = 0;
                assert(cells.take(0) =~= Seq::<Vec<Inline>>::empty());
                while c < rows[r].cells.len()
                    invariant
                        r < rows@.len(),
                        cells == rows@[r as int].cells@,
                        c <= cells.len(),
                        grown_by(o, out@, base + fn_cells(cells.take(c as int))),
                    decreases rows@[r as int].cells@.len() - c,
                {
                    assert(cells.take(c + 1).drop_last() =~= cells.take(c as int));
                    let ghost m0 = out@;
                    collect_seq(&rows[r].cells[c], out);
                    proof {
                        lemma_grown_by(o, m0, out@, base + fn_cells(cells.take(c as int)), fn_inlines(cells[c as int]@));
                    }
                    c = c + 1;
                }
                assert(cells.take(cells.len() as int) =~= cells);
                r = r + 1;
            }
            assert(rows@.take(rows@.len() as int) =~= rows@);
        },
        Block::DefinitionList { items, .. } => {
            let mut k: usize = 0;
            assert(items@.take(0) =~= Seq::<crate::ast::DefinitionItem>::empty());
            while k < items.len()
                invariant
                    k <= items@.len(),
                    plain_block(*b) ==> out@ == old(out)@,
                    grown_by(o, out@, fn_dl(items@.take(k as int))),
                decreases items@.len() - k,
            {
                proof {
                    if plain_block(*b) {
                        assert(markup_only_seq(items@[k as int].term@));
                    }
                    assert(items@.take(k + 1).drop_last() =~= items@.take(k as int));
                }
                let ghost m0 = out@;
                collect_seq(&items[k].term, out);
                let ghost m1 = out@;
                collect_seq(&items[k].definition, out);
                proof {
                    lemma_grown_by(m0, m1, out@, fn_inlines(items@[k as int].term@), fn_inlines(items@[k as int].definition@));
                    lemma_grown_by(o, m0, out@, fn_dl(items@.take(k as int)), fn_inlines(items@[k as int].term@) + fn_inlines(items@[k as int].definition@));
                }
                k = k + 1;
            }
            assert(items@.take(items@.len() as int) =~= items@);
        },
        Block::CodeBlock { .. } => {},
        Block::HorizontalRule { .. } => {},
    }
}

fn collect_blocks_in(parent: &Block, v: &Vec<Block>, out: &mut Vec<Vec<Inline>>)
    requires
        decreases_to!(*parent => *v),
    ensures
        plain_blocks(v@) ==> final(out)@ == old(out)@,
        grown_by(old(out)@, final(out)@, fn_blocks(v@)),
    decreases parent, 1nat,
{
    let mut i: usize = 0;
    assert(old(out)@.take(old(out)@.len() as int) =~= old(out)@);
    assert(v@.take(0) =~= Seq::<Block>::empty());
    while i < v.len()
        invariant
            i <= v@.len(),
            decreases_to!(*parent => *v),
            plain_blocks(v@) ==> out@ == old(out)@,
            grown_by(old(out)@, out@, fn_blocks(v@.take(i as int))),
        decreases v@.len() - i,
    {
        proof {
            assert(decreases_to!(*v => v@[i as int]));
            if plain_blocks(v@) {
                lemma_plain_blocks_at(v@, i as int);
            }
            assert(v@.take(i + 1).drop_last() =~= v@.take(i as int));
        }
        let ghost mid = out@;
        collect_block(&v[i], out);
        proof {
            lemma_grown_by(old(out)@, mid, out@, fn_blocks(v@.take(i as int)), fn_block(v@[i as int]));
        }
        i = i + 1;
    }
    assert(v@.take(v@.len() as int) =~= v@);
}

fn collect_inline(node: &Inline, out: &mut Vec<Vec<Inline>>)
    ensures
        markup_only(*node) ==> final(out)@ == old(out)@,
        grown_by(old(out)@, final(out)@, fn_inline(*node)),
    decreases node, 1nat,
{
    assert(old(out)@.take(old(out)@.len() as int) =~= old(out)@);
    match node {
        Inline::Bold { content, .. } => collect_inlines_in(node, content, out),
        Inline::Italic { content, .. } => collect_inlines_in(node, content, out),
        Inline::Underline { content, .. } => collect_inlines_in(node, content, out),
        Inline::Strike { content, .. } => collect_inlines_in(node, content, out),
        Inline::Shortcode { name, content, .. } => {
            match content {
                Some(c) => {
                    if str_eq(name.as_str(), "footnote") {
                        out.push(clone_inlines(c));
                        assert(out@.take(old(out)@.len() as int) =~= old(out)@);
                    } else {
                        proof {
                            assert(decreases_to!(*node => *c));
                        }
                        collect_inlines_in(node, c, out);
                    }
                },
                None => {},
            }
        },
        _ => {},
    }
}

fn collect_inlines_in(parent: &Inline, v: &Vec<Inline>, out: &mut Vec<Vec<Inline>>)
    requires
        decreases_to!(*parent => *v),
    ensures
        markup_only_seq(v@) ==> final(out)@ == old(out)@,
        grown_by(old(out)@, final(out)@, fn_inlines(v@)),
    decreases parent, 0nat,
{
    let mut i: usize = 0;
    assert(old(out)@.take(old(out)@.len() as int) =~= old(out)@);
    assert(v@.take(0) =~= Seq::<Inline>::empty());
    while i < v.len()
        invariant
            i <= v@.len(),
            decreases_to!(*parent => *v),
            markup_only_seq(v@) ==> out@ == old(out)@,
            grown_by(old(out)@, out@, fn_inlines(v@.take(i as int))),
        decreases v@.len() - i,
    {
        proof {
            assert(decreases_to!(*v => v@[i as int]));
            if markup_only_seq(v@) {
                lemma_markup_only_at(v@, i as int);
            }
            assert(v@.take(i + 1).drop_last() =~= v@.take(i as int));
        }
        let ghost mid = out@;
        collect_inline(&v[i], out);
        proof {
            lemma_grown_by(old(out)@, mid, out@, fn_inlines(v@.take(i as int)), fn_inline(v@[i as int]));
        }
        i = i + 1;
    }
    assert(v@.take(v@.len() as int) =~= v@);
}

/// Footnote bodies as `li`s numbered from 1, each with a link back.
pub open spec fn html_footnote_items(f: Seq<Vec<Inline>>) -> Seq<char>
    decreases f.len(),
{
    if f.len() == 0 {
        seq![]
    } else {
        let n = f.len() as nat;
        html_footnote_items(f.drop_last()) + "<li id=\"fn-"@ + dec(n) + "\">"@ + html_inlines(f.last()@)
            + " <a href=\"#fn-ref-"@ + dec(n) + "\" class=\"fn-back\">\u{21A9}</a></li>\n"@
    }
}

fn emit_footnotes_section(footnotes: &Vec<Vec<Inline>>, reg: &Registry, refs: &RefMap, out: &mut Vec<char>)
    ensures
        cells_markup_only(footnotes@) ==> final(out)@ == old(out)@
            + "<hr class=\"footnotes-sep\">\n<ol class=\"footnotes\">\n"@ + html_footnote_items(footnotes@)
            + "</ol>\n"@,
{
    let ghost plain = cells_markup_only(footnotes@);
    push_str(out, "<hr class=\"footnotes-sep\">\n<ol class=\"footnotes\">\n");
    let ghost o1 = out@;
    let mut i: usize = 0;
    assert(footnotes@.take(0) =~= Seq::<Vec<Inline>>::empty());
    while i < footnotes.len()
        invariant
            i <= footnotes@.len(),
            plain == cells_markup_only(footnotes@),
            plain ==> out@ == o1 + html_footnote_items(footnotes@.take(i as int)),
        decreases footnotes@.len() - i,
    {
        let ghost t = footnotes@.take(i + 1);
        assert(t.drop_last() =~= footnotes@.take(i as int));
        assert(t.last() == footnotes@[i as int]);
        proof {
            if plain {
                assert(markup_only_seq(footnotes@[i as int]@));
            }
        }
        let n = i + 1;
        push_str(out, "<li id=\"fn-");
        push_usize(out, n);
        push_str(out, "\">");
        let mut ctx = Ctx { reg, counter: 0, in_footnote: true, refs };
        render_inline_seq(&footnotes[i], &mut ctx, out);
        push_str(out, " <a href=\"#fn-ref-");
        push_usize(out, n);
        push_str(out, "\" class=\"fn-back\">\u{21A9}</a></li>\n");
        assert(plain ==> out@ =~= o1 + html_footnote_items(t));
        i = i + 1;
    }
    assert(footnotes@.take(footnotes@.len() as int) =~= footnotes@);
    push_str(out, "</ol>\n");
}

/// The text of keyword argument `name`, when it is a string or identifier.
pub open spec fn arg_text(args: ShortArgs, name: Seq<char>) -> Option<Seq<char>> {
    match args.keyword.spec_get(name) {
        Some(v) => crate::shortcode::spec_as_str(v),
        None => None,
    }
}

/// What a placeholder `{{ key }}` of a shortcode template becomes in
/// HTML: the content for `content`, the escaped text of argument `x` for
/// `args.x` (nothing when it has none), nothing for any other key.
pub open spec fn html_subst(key: Seq<char>, args: ShortArgs, content: Seq<char>) -> Seq<char> {
    if key == "content"@ {
        content
    } else if key.len() >= 5 && key.subrange(0, 5) == "args."@ {
        match arg_text(args, key.subrange(5, key.len() as int)) {
            Some(v) => escaped(v),
            None => seq![],
        }
    } else {
        seq![]
    }
}

/// A closed placeholder starts at `i`: `{{` there and a `}}` after it.
pub open spec fn placeholder_at(tpl: Seq<char>, i: int) -> bool {
    0 <= i && i + 1 < tpl.len() && tpl[i] == '{' && tpl[i + 1] == '{' && find_from(tpl, i + 2, "}}"@) is Some
}

/// `tpl[i..]` with each closed placeholder replaced (see `html_subst`) and
/// all other text kept.
pub open spec fn html_expand_from(tpl: Seq<char>, i: int, args: ShortArgs, content: Seq<char>) -> Seq<char>
    decreases tpl.len() - i,
{
    if i < 0 || i >= tpl.len() {
        seq![]
    } else if placeholder_at(tpl, i) {
        let close = find_from(tpl, i + 2, "}}"@).unwrap();
        proof {
            lemma_find_from_bounds(tpl, i + 2, "}}"@);
            reveal_strlit("}}");
        }
        html_subst(trimmed(tpl, i + 2, close), args, content) + html_expand_from(tpl, close + 2, args, content)
    } else {
        seq![tpl[i]] + html_expand_from(tpl, i + 1, args, content)
    }
}

/// Expand a shortcode's HTML template into `out` (see `html_expand_from`).
pub fn expand_template(tpl: &[char], args: &ShortArgs, content: &[char], out: &mut Vec<char>)
    ensures
        final(out)@ == old(out)@ + html_expand_from(tpl@, 0, *args, content@),
{
    let n = tpl.len();
    let mut start: usize = 0;
    let mut i: usize = 0;
    proof {
        reveal_strlit("}}");
        reveal_strlit("content");
        reveal_strlit("args.");
    }
    while i < n
        invariant
            start <= i <= n,
            n == tpl@.len(),
            old(out)@ + html_expand_from(tpl@, 0, *args, content@) == out@ + tpl@.subrange(start as int, i as int)
                + html_expand_from(tpl@, i as int, *args, content@),
        decreases n - i,
    {
        if tpl[i] == '{' && i + 1 < n && tpl[i + 1] == '{' {
            match find_str(tpl, i + 2, "}}") {
                Some(close) => {
                    proof {
                        crate::text::lemma_find_from_bounds(tpl@, i + 2, "}}"@);
                    }
                    let ghost before = out@;
                    push_range(out, tpl, start, i);
                    let (ka, kb) = trim_bounds(tpl, i + 2, close);
                    let key = range_string(tpl, ka, kb);
                    let ghost mid = out@;
                    if str_eq(key.as_str(), "content") {
                        push_all(out, content);
                    } else if crate::text::starts_at_str(tpl, ka, "args.") && kb - ka >= 5 {
                        let rest = range_string(tpl, ka + 5, kb);
                        proof {
                            assert(key@.subrange(0, 5) =~= tpl@.subrange(ka as int, ka + 5));
                            assert(key@.subrange(5, key@.len() as int) =~= rest@);
                        }
                        match kw_str(args, rest.as_str()) {
                            Some(v) => escape_str_into(out, v),
                            None => {},
                        }
                    } else {
                        proof {
                            if key@.len() >= 5 && key@.subrange(0, 5) == "args."@ {
                                assert(tpl@.subrange(ka as int, ka + 5) =~= key@.subrange(0, 5));
                            }
                        }
                    }
                    proof {
                        assert(out@ =~= mid + html_subst(key@, *args, content@));
                    }
                    i = close + 2;
                    start = i;
                    continue;
                },
                None => {},
            }
        }
        proof {
            assert(tpl@.subrange(start as int, i + 1) =~= tpl@.subrange(start as int, i as int) + seq![tpl@[i as int]]);
        }
        i = i + 1;
    }
    push_range(out, tpl, start, n);
}

} // verus!
