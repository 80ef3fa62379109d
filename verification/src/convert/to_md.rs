//! Brief to Markdown: the parsed document is written out as GFM-flavoured
//! Markdown. Every construct without a clean Markdown form is reported as
//! an `MdDiag` carrying an `MdHole`; nothing is dropped silently.
use crate::ast::{Block, CodeAttrs, Document, Inline, RefMap, ShortArgs, TaskState};
use crate::diag::repeat_char;
use crate::emit::html::{escape_html_into, expand_template, lemma_markup_only_at, markup_only, markup_only_seq, simple_block, simple_blocks};
use crate::emit::llm::collapse_spec;
use crate::frontmatter::toml_table_to_string;
use crate::shortcode::{ArgValue, Registry};
use crate::span::{SourceMap, Span};
use crate::text::{chars_to_string, is_ws, push_all, push_range, push_str, push_usize, str_chars, str_eq, trim_bounds};
use vstd::prelude::*;

verus! {

/// Markdown text and the holes found on the way.
#[derive(Clone, Debug)]
pub struct MdResult {
    pub markdown: String,
    pub diagnostics: Vec<MdDiag>,
}

/// One hole: its kind, 1-based line and column, and a note.
#[derive(Clone, Debug)]
pub struct MdDiag {
    pub hole: MdHole,
    pub line: usize,
    pub col: usize,
    pub note: String,
}

/// Kinds of constructs Markdown cannot express.
#[derive(Copy, Clone, Debug, PartialEq, Eq, Hash, Structural)]
pub enum MdHole {
    Underline,
    Comment,
    CustomShortcode,
    CodeAttrs,
    RefUnresolved,
}

impl MdHole {
    /// Stable kebab-case name, used in reports.
    pub fn slug(self) -> (s: &'static str)
        ensures
            s@ == spec_slug(self),
    {
        proof {
            reveal_strlit("underline-html");
            reveal_strlit("comment-dropped");
            reveal_strlit("custom-shortcode");
            reveal_strlit("code-attrs-dropped");
            reveal_strlit("ref-unresolved");
        }
        match self {
            MdHole::Underline => "underline-html",
            MdHole::Comment => "comment-dropped",
            MdHole::CustomShortcode => "custom-shortcode",
            MdHole::CodeAttrs => "code-attrs-dropped",
            MdHole::RefUnresolved => "ref-unresolved",
        }
    }

    /// Short human-readable description of each hole kind.
    pub open spec fn message_spec(self) -> Seq<char> {
        match self {
            MdHole::Underline => "Brief underline `+x+` emitted as inline HTML `<u>`"@,
            MdHole::Comment => "comment dropped (Markdown has no comment syntax)"@,
            MdHole::CustomShortcode => "custom shortcode has no Markdown form; expanded via its HTML template or unwrapped"@,
            MdHole::CodeAttrs => "code fence attribute (`@nominify`/`@minify`/...) dropped"@,
            MdHole::RefUnresolved => "`@ref` target could not be parsed; emitted as plain text"@,
        }
    }

    /// Short human-readable description.
    pub fn message(self) -> (r: &'static str)
        ensures
            r@ == self.message_spec(),
    {
        match self {
            MdHole::Underline => "Brief underline `+x+` emitted as inline HTML `<u>`",
            MdHole::Comment => "comment dropped (Markdown has no comment syntax)",
            MdHole::CustomShortcode => "custom shortcode has no Markdown form; expanded via its HTML template or unwrapped",
            MdHole::CodeAttrs => "code fence attribute (`@nominify`/`@minify`/...) dropped",
            MdHole::RefUnresolved => "`@ref` target could not be parsed; emitted as plain text",
        }
    }
}

/// Slug of each hole kind.
pub open spec fn spec_slug(h: MdHole) -> Seq<char> {
    match h {
        MdHole::Underline => "underline-html"@,
        MdHole::Comment => "comment-dropped"@,
        MdHole::CustomShortcode => "custom-shortcode"@,
        MdHole::CodeAttrs => "code-attrs-dropped"@,
        MdHole::RefUnresolved => "ref-unresolved"@,
    }
}

/// Conversion state.
pub struct Ctx<'a> {
    pub reg: &'a Registry,
    pub src: &'a SourceMap,
    pub refs: &'a RefMap,
    pub diags: Vec<MdDiag>,
    /// Rendered footnote bodies, in reference order.
    pub footnotes: Vec<Vec<char>>,
    pub in_footnote: bool,
}

impl<'a> Ctx<'a> {
    /// Record a hole at `span`.
    fn hole(&mut self, hole: MdHole, span: Span, note: &str)
        requires
            old(self).src.wf(),
        ensures
            final(self).src == old(self).src,
            final(self).footnotes@ == old(self).footnotes@,
            final(self).diags@.len() == old(self).diags@.len() + 1,
            final(self).diags@.last().hole == hole,
    {
        let (line, col) = if (span.start as usize) <= self.src.len_bytes() {
            self.src.line_col(span.start)
        } else {
            (0, 0)
        };
        self.diags.push(MdDiag { hole, line, col, note: note.to_string() });
    }
}

/// Index of the first char of `s` at or after `i` that is not whitespace
/// (`s.len()` when there is none).
pub open spec fn skip_ws_from(s: Seq<char>, i: int) -> int
    decreases s.len() - i,
{
    if i >= s.len() || !is_ws(s[i]) {
        i
    } else {
        skip_ws_from(s, i + 1)
    }
}

/// A text run in Markdown: as is when `raw`, else escaped.
pub open spec fn md_text(s: Seq<char>, raw: bool) -> Seq<char> {
    if raw {
        s
    } else {
        md_escaped(s)
    }
}

/// An inline code span: fences one backtick longer than the longest run in
/// `v`, with a space inside each fence when `v` starts or ends with a
/// backtick.
pub open spec fn code_span_spec(v: Seq<char>) -> Seq<char> {
    let fence = repeat_char('`', max_backtick_run(v)) + seq!['`'];
    let pad = if v.len() > 0 && (v[0] == '`' || v.last() == '`') {
        seq![' ']
    } else {
        seq![]
    };
    fence + pad + v + pad + fence
}

/// Markdown of a shortcode-free inline node: text (escaped unless `raw`),
/// `\` and a line break for a hard break, `**`, `_`, `~~` or `<u>` around
/// emphasis, a code span for code.
pub open spec fn md_inline(n: Inline, raw: bool) -> Seq<char>
    decreases n, 2nat,
{
    match n {
        Inline::Text { value, .. } => md_text(value@, raw),
        Inline::HardBreak { .. } => "\\\n"@,
        Inline::Bold { content, .. } => "**"@ + md_inlines(content@, raw) + "**"@,
        Inline::Italic { content, .. } => seq!['_'] + md_inlines(content@, raw) + seq!['_'],
        Inline::Strike { content, .. } => "~~"@ + md_inlines(content@, raw) + "~~"@,
        Inline::Underline { content, .. } => "<u>"@ + md_inlines(content@, raw) + "</u>"@,
        Inline::InlineCode { value, .. } => code_span_spec(value@),
        Inline::Shortcode { .. } => seq![],
    }
}

/// Markdown of a sequence and whether it ends just after a hard break: the
/// text right after a hard break loses its leading whitespace.
pub open spec fn md_inlines_st(v: Seq<Inline>, raw: bool) -> (Seq<char>, bool)
    decreases v, 0nat,
{
    if v.len() == 0 {
        (seq![], false)
    } else {
        let (s, after) = md_inlines_st(v.drop_last(), raw);
        let n = v.last();
        match n {
            Inline::Text { value, .. } => if after {
                (s + md_text(value@.subrange(skip_ws_from(value@, 0), value@.len() as int), raw), false)
            } else {
                (s + md_inline(n, raw), false)
            },
            _ => (s + md_inline(n, raw), n is HardBreak),
        }
    }
}

/// Markdown of an inline sequence (see `md_inlines_st`).
pub open spec fn md_inlines(v: Seq<Inline>, raw: bool) -> Seq<char>
    decreases v, 1nat,
{
    md_inlines_st(v, raw).0
}

/// Markdown of a simple block: `#`s, a space, the text and the anchor as
/// `{#a}`; a paragraph's text (nothing when empty); `---`; each ending its
/// line.
pub open spec fn md_block(b: Block) -> Seq<char> {
    match b {
        Block::Heading { level, content, anchor, .. } => repeat_char('#', level as nat) + seq![' '] + md_inlines(
            content@,
            false,
        ) + (match anchor {
            Some(a) => " {#"@ + a@ + seq!['}'],
            None => seq![],
        }) + seq!['\n'],
        Block::Paragraph { content, .. } => if content@.len() == 0 {
            seq![]
        } else {
            md_inlines(content@, false) + seq!['\n']
        },
        Block::HorizontalRule { .. } => "---\n"@,
        _ => seq![],
    }
}

/// Top-level blocks in Markdown, the non-empty ones separated by a blank
/// line, and whether any was non-empty.
pub open spec fn md_top(v: Seq<Block>) -> (Seq<char>, bool)
    decreases v.len(),
{
    if v.len() == 0 {
        (seq![], false)
    } else {
        let (s, any) = md_top(v.drop_last());
        let b = md_block(v.last());
        if b.len() > 0 {
            ((if any {
                s.push('\n')
            } else {
                s
            }) + b, true)
        } else {
            (s, any)
        }
    }
}

/// Index of the first char of `c` at or after `i` that is not a newline.
pub open spec fn first_non_nl(c: Seq<char>, i: int) -> int
    decreases c.len() - i,
{
    if i >= c.len() || c[i] != '\n' {
        i
    } else {
        first_non_nl(c, i + 1)
    }
}

/// One past the last char of `c` in `a..j` that is not a newline (`a`
/// when there is none).
pub open spec fn end_non_nl(c: Seq<char>, a: int, j: int) -> int
    decreases j - a,
{
    if j <= a || c[j - 1] != '\n' {
        if j <= a {
            a
        } else {
            j
        }
    } else {
        end_non_nl(c, a, j - 1)
    }
}

/// `s` with runs of three or more newlines cut to two, leading and
/// trailing newlines dropped and one final newline added (nothing for
/// text of newlines only).
pub open spec fn normalize_md(s: Seq<char>) -> Seq<char> {
    let c = collapse_spec(s);
    let a = first_non_nl(c, 0);
    let b = end_non_nl(c, a, c.len() as int);
    if a == b {
        seq![]
    } else {
        c.subrange(a, b).push('\n')
    }
}

/// Convert a parsed (and resolved) document to Markdown; `src` is the
/// source it was parsed from, scanned for the comments the parser drops.
pub fn to_markdown(doc: &Document, reg: &Registry, src: &SourceMap) -> (r: MdResult)
    requires
        src.wf(),
    ensures
        r.markdown@.len() == 0 || r.markdown@.last() == '\n',
        simple_blocks(doc.blocks@) && doc.metadata is None ==> r.markdown@ == normalize_md(md_top(doc.blocks@).0),
{
    let mut ctx = Ctx { reg, src, refs: &doc.resolved_refs, diags: Vec::new(), footnotes: Vec::new(), in_footnote: false };
    let mut out: Vec<char> = Vec::new();
    match &doc.metadata {
        Some(meta) => {
            let body = match toml_table_to_string(meta) {
                Ok(s) => s,
                Err(_) => String::new(),
            };
            let bc = str_chars(body.as_str());
            push_str(&mut out, "+++\n");
            push_all(&mut out, bc.as_slice());
            if !(bc.len() > 0 && bc[bc.len() - 1] == '\n') {
                out.push('\n');
            }
            push_str(&mut out, "+++\n\n");
        },
        None => {},
    }
    let body = render_top(&doc.blocks, &mut ctx);
    push_all(&mut out, body.as_slice());
    if ctx.footnotes.len() > 0 {
        out.push('\n');
        let mut i: usize = 0;
        while i < ctx.footnotes.len()
            decreases ctx.footnotes@.len() - i,
        {
            push_str(&mut out, "[^");
            push_usize(&mut out, i + 1);
            push_str(&mut out, "]: ");
            push_all(&mut out, ctx.footnotes[i].as_slice());
            out.push('\n');
            i = i + 1;
        }
    }
    scan_comments(src, &mut ctx.diags);
    let md = normalize(out.as_slice());
    MdResult { markdown: chars_to_string(md.as_slice()), diagnostics: ctx.diags }
}

/// Top-level blocks, separated by one blank line.
fn render_top(blocks: &Vec<Block>, ctx: &mut Ctx) -> (r: Vec<char>)
    requires
        old(ctx).src.wf(),
    ensures
        final(ctx).src == old(ctx).src,
        simple_blocks(blocks@) ==> r@ == md_top(blocks@).0 && final(ctx).footnotes@ == old(ctx).footnotes@,
{
    let ghost s0 = ctx.src;
    let ghost f0 = ctx.footnotes@;
    let ghost simple = simple_blocks(blocks@);
    let mut out: Vec<char> = Vec::new();
    let mut any = false;
    let mut i: usize = 0;
    assert(blocks@.take(0) =~= Seq::<Block>::empty());
    while i < blocks.len()
        invariant
            ctx.src == s0,
            s0.wf(),
            i <= blocks@.len(),
            simple == simple_blocks(blocks@),
            simple ==> out@ == md_top(blocks@.take(i as int)).0 && any == md_top(blocks@.take(i as int)).1
                && ctx.footnotes@ == f0,
        decreases blocks@.len() - i,
    {
        proof {
            if simple {
                assert(simple_block(blocks@[i as int]));
            }
            let t = blocks@.take(i + 1);
            assert(t.drop_last() =~= blocks@.take(i as int));
            assert(t.last() == blocks@[i as int]);
        }
        let mut s: Vec<char> = Vec::new();
        render_block(&blocks[i], ctx, &mut s);
        if s.len() > 0 {
            if any {
                out.push('\n');
            }
            push_all(&mut out, s.as_slice());
            any = true;
        }
        i = i + 1;
    }
    assert(blocks@.take(blocks@.len() as int) =~= blocks@);
    out
}

/// Child blocks of `parent`, separated by one blank line.
fn render_blocks_in(parent: &Block, v: &Vec<Block>, ctx: &mut Ctx) -> (r: Vec<char>)
    requires
        old(ctx).src.wf(),
        decreases_to!(*parent => *v),
    ensures
        final(ctx).src == old(ctx).src,
        simple_blocks(v@) ==> r@ == md_top(v@).0 && final(ctx).footnotes@ == old(ctx).footnotes@,
    decreases parent, 0nat,
{
    let mut out: Vec<char> = Vec::new();
    let mut any = false;
    let mut i: usize = 0;
    let ghost s0 = ctx.src;
    let ghost f0 = ctx.footnotes@;
    let ghost simple = simple_blocks(v@);
    assert(v@.take(0) =~= Seq::<Block>::empty());
    while i < v.len()
        invariant
            i <= v@.len(),
            ctx.src == s0,
            s0.wf(),
            decreases_to!(*parent => *v),
            simple == simple_blocks(v@),
            simple ==> out@ == md_top(v@.take(i as int)).0 && any == md_top(v@.take(i as int)).1
                && ctx.footnotes@ == f0,
        decreases v@.len() - i,
    {
        proof {
            assert(decreases_to!(*v => v@[i as int]));
            if simple {
                assert(simple_block(v@[i as int]));
            }
            let t = v@.take(i + 1);
            assert(t.drop_last() =~= v@.take(i as int));
            assert(t.last() == v@[i as int]);
        }
        let mut s: Vec<char> = Vec::new();
        render_block(&v[i], ctx, &mut s);
        if s.len() > 0 {
            if any {
                out.push('\n');
            }
            push_all(&mut out, s.as_slice());
            any = true;
        }
        i = i + 1;
    }
    assert(v@.take(v@.len() as int) =~= v@);
    out
}

/// Lines of `s` as `str::lines` yields them.
fn lines_of(s: &[char]) -> (r: Vec<(usize, usize)>)
    ensures
        crate::minify::json::ranges_within(r@, s@.len() as int),
        crate::minify::json::same_ranges(r@, crate::minify::json::line_ranges(s@)),
{
    crate::minify::json::split_lines(s)
}

fn render_block(b: &Block, ctx: &mut Ctx, out: &mut Vec<char>)
    requires
        old(ctx).src.wf(),
    ensures
        final(ctx).src == old(ctx).src,
        simple_block(*b) ==> final(out)@ == old(out)@ + md_block(*b) && final(ctx).footnotes@
            == old(ctx).footnotes@,
        b matches Block::Table { args, header, rows, .. } ==> (plain_row(header.cells@) && forall|q: int|
            0 <= q < rows@.len() ==> plain_row(#[trigger] rows@[q].cells@)) ==> final(out)@ == old(out)@
            + md_table(*args, *header, rows@) && final(ctx).footnotes@ == old(ctx).footnotes@,
    decreases b, 2nat,
{
    let ghost o = out@;
    match b {
        Block::Heading { level, content, anchor, .. } => {
            let mut k: u8 = 0;
            while k < *level
                invariant
                    k <= *level,
                    out@ =~= o + repeat_char('#', k as nat),
                decreases *level - k,
            {
                out.push('#');
                k = k + 1;
                assert(out@ =~= o + repeat_char('#', k as nat));
            }
            out.push(' ');
            render_inline_seq(content, ctx, out, false);
            let ghost mid = out@;
            match anchor {
                Some(a) => {
                    push_str(out, " {#");
                    push_str(out, a.as_str());
                    out.push('}');
                },
                None => {},
            }
            out.push('\n');
            assert(simple_block(*b) ==> out@ =~= o + md_block(*b));
        },
        Block::Paragraph { content, .. } => {
            if content.len() == 0 {
                assert(out@ =~= o + md_block(*b));
                return;
            }
            render_inline_seq(content, ctx, out, false);
            out.push('\n');
            assert(simple_block(*b) ==> out@ =~= o + md_block(*b));
        },
        Block::List { ordered, items, .. } => {
            let ghost s0 = ctx.src;
            let mut k: usize = 0;
            while k < items.len()
                invariant
                    k <= items@.len(),
                    ctx.src == s0,
                    s0.wf(),
                decreases items@.len() - k,
            {
                let mut marker: Vec<char> = Vec::new();
                if *ordered {
                    push_usize(&mut marker, k + 1);
                    push_str(&mut marker, ". ");
                } else {
                    push_str(&mut marker, "- ");
                }
                push_all(out, marker.as_slice());
                match items[k].task {
                    Some(TaskState::Done) => push_str(out, "[x] "),
                    Some(TaskState::Todo) => push_str(out, "[ ] "),
                    None => {},
                }
                render_inline_seq(&items[k].content, ctx, out, false);
                out.push('\n');
                let children = &items[k].children;
                proof {
                    assert(decreases_to!(*b => items@[k as int]));
                    assert(decreases_to!(items@[k as int] => items@[k as int].children));
                }
                let mut j: usize = 0;
                while j < children.len()
                    invariant
                        ctx.src == s0,
                        s0.wf(),
                        decreases_to!(*b => *children),
                    decreases children@.len() - j,
                {
                    proof {
                        assert(decreases_to!(*children => children@[j as int]));
                    }
                    let mut s: Vec<char> = Vec::new();
                    render_block(&children[j], ctx, &mut s);
                    if s.len() > 0 {
                        let is_list = match &children[j] {
                            Block::List { .. } => true,
                            _ => false,
                        };
                        if !is_list {
                            out.push('\n');
                        }
                        let lines = lines_of(s.as_slice());
                        let mut q: usize = 0;
                        while q < lines.len()
                            invariant
                                crate::minify::json::ranges_within(lines@, s@.len() as int),
                            decreases lines@.len() - q,
                        {
                            let (x, y) = lines[q];
                            proof {
                                assert(lines@[q as int].0 <= lines@[q as int].1);
                            }
                            if x == y {
                                out.push('\n');
                            } else {
                                let mut m: usize = 0;
                                while m < marker.len()
                                    decreases marker@.len() - m,
                                {
                                    out.push(' ');
                                    m = m + 1;
                                }
                                push_range(out, s.as_slice(), x, y);
                                out.push('\n');
                            }
                            q = q + 1;
                        }
                    }
                    j = j + 1;
                }
                k = k + 1;
            }
        },
        Block::Blockquote { children, .. } => {
            let inner = render_blocks_in(b, children, ctx);
            quote_prefix(inner.as_slice(), out);
        },
        Block::CodeBlock { lang, body, attrs, span } => {
            if *attrs != CodeAttrs::default() {
                ctx.hole(MdHole::CodeAttrs, *span, "code fence attribute dropped (no Markdown equivalent)");
            }
            let bc = str_chars(body.as_str());
            let f = fence_len(bc.as_slice());
            let mut k: usize = 0;
            while k < f
                decreases f - k,
            {
                out.push('`');
                k = k + 1;
            }
            match lang {
                Some(l) => push_str(out, l.as_str()),
                None => {},
            }
            out.push('\n');
            push_all(out, bc.as_slice());
            if bc.len() > 0 && bc[bc.len() - 1] != '\n' {
                out.push('\n');
            }
            let mut k: usize = 0;
            while k < f
                decreases f - k,
            {
                out.push('`');
                k = k + 1;
            }
            out.push('\n');
        },
        Block::Table { args, header, rows, .. } => render_table(args, header, rows, ctx, out),
        Block::DefinitionList { items, .. } => {
            let ghost s0 = ctx.src;
            let mut k: usize = 0;
            while k < items.len()
                invariant
                    ctx.src == s0,
                    s0.wf(),
                decreases items@.len() - k,
            {
                if k > 0 {
                    out.push('\n');
                }
                render_inline_seq(&items[k].term, ctx, out, false);
                out.push('\n');
                push_str(out, ": ");
                render_inline_seq(&items[k].definition, ctx, out, false);
                out.push('\n');
                k = k + 1;
            }
        },
        Block::HorizontalRule { .. } => {
            push_str(out, "---\n");
        },
        Block::BlockShortcode { name, args, children, span } => {
            render_block_shortcode(b, name.as_str(), args, children, *span, ctx, out);
        },
    }
}

/// ASCII uppercase of one char.
pub open spec fn ascii_upper(x: char) -> char {
    if 'a' <= x && x <= 'z' {
        ((x as u8) - 32) as char
    } else {
        x
    }
}

/// ASCII uppercase of `s`.
fn to_ascii_upper(s: &str) -> (r: Vec<char>)
    ensures
        r@.len() == s@.len(),
        r@ == Seq::new(s@.len(), |i: int| ascii_upper(s@[i])),
{
    let c = str_chars(s);
    let mut v: Vec<char> = Vec::new();
    let mut i: usize = 0;
    while i < c.len()
        invariant
            i <= c@.len(),
            v@.len() == i,
            c@ == s@,
            forall|k: int| 0 <= k < i ==> v@[k] == ascii_upper(#[trigger] c@[k]),
        decreases c@.len() - i,
    {
        let x = c[i];
        let y = if 'a' <= x && x <= 'z' {
            ((x as u8) - 32) as char
        } else {
            x
        };
        v.push(y);
        i = i + 1;
    }
    assert(v@ =~= Seq::new(s@.len(), |i: int| ascii_upper(s@[i])));
    v
}

/// End of `s[..e]` without its trailing whitespace.
pub open spec fn ws_end(s: Seq<char>, e: int) -> int
    decreases e,
{
    if e > 0 && is_ws(s[e - 1]) {
        ws_end(s, e - 1)
    } else {
        e
    }
}

/// Trailing whitespace removed.
fn trim_end(s: &[char]) -> (r: usize)
    ensures
        r <= s@.len(),
        r == ws_end(s@, s@.len() as int),
{
    let mut e = s.len();
    while e > 0 && crate::text::char_is_ws(s[e - 1])
        invariant
            e <= s@.len(),
            ws_end(s@, s@.len() as int) == ws_end(s@, e as int),
        decreases e,
    {
        e = e - 1;
    }
    e
}

fn render_block_shortcode(parent: &Block, name: &str, args: &ShortArgs, children: &Vec<Block>, span: Span, ctx: &mut Ctx, out: &mut Vec<char>)
    requires
        old(ctx).src.wf(),
        decreases_to!(*parent => *children),
    ensures
        final(ctx).src == old(ctx).src,
        (old(ctx).reg.map.spec_get(name@) matches Some(sc) ==> sc.template_html is None) && name@ == "callout"@
            && simple_blocks(children@) ==> ({
            let kind = if args.keyword.spec_get("kind"@) matches Some(v) && crate::shortcode::spec_as_str(v) is Some {
                kw_text(*args, "kind"@)
            } else {
                "note"@
            };
            let inner = md_top(children@).0;
            final(out)@ == old(out)@ + "> [!"@ + Seq::new(kind.len(), |i: int| ascii_upper(kind[i])) + "]\n"@
                + quoted(inner, crate::minify::json::line_ranges(inner))
        }),
    decreases parent, 1nat,
{
    let ghost o = out@;
    match ctx.reg.get(name) {
        Some(sc) => match &sc.template_html {
            Some(t) => {
                let tv = str_chars(t.as_str());
                let inner = render_blocks_in(parent, children, ctx);
                let e = trim_end(inner.as_slice());
                let trimmed = crate::text::copy_range(inner.as_slice(), 0, e);
                expand_template(tv.as_slice(), args, trimmed.as_slice(), out);
                if !(out.len() > 0 && out[out.len() - 1] == '\n') {
                    out.push('\n');
                }
                let mut m: Vec<char> = Vec::new();
                push_str(&mut m, "`@");
                push_str(&mut m, name);
                push_str(&mut m, "` expanded via its `template_html`");
                ctx.hole(MdHole::CustomShortcode, span, chars_to_string(m.as_slice()).as_str());
                return;
            },
            None => {},
        },
        None => {},
    }
    if str_eq(name, "callout") {
        let kind = match kw_str(args, "kind") {
            Some(k) => k,
            None => "note",
        };
        push_str(out, "> [!");
        let up = to_ascii_upper(kind);
        push_all(out, up.as_slice());
        push_str(out, "]\n");
        let inner = render_blocks_in(parent, children, ctx);
        quote_prefix(inner.as_slice(), out);
        proof {
            reveal_strlit("note");
            if simple_blocks(children@) {
                let kd = if args.keyword.spec_get("kind"@) matches Some(v) && crate::shortcode::spec_as_str(v) is Some {
                    kw_text(*args, "kind"@)
                } else {
                    "note"@
                };
                assert(kind@ == kd);
                assert(out@ =~= o + "> [!"@ + Seq::new(kd.len(), |i: int| ascii_upper(kd[i])) + "]\n"@ + quoted(
                    inner@,
                    crate::minify::json::line_ranges(inner@),
                ));
            }
        }
    } else if str_eq(name, "details") {
        let summary = match kw_str(args, "summary") {
            Some(k) => k,
            None => "",
        };
        push_str(out, "<details><summary>");
        let sc = str_chars(summary);
        escape_html_into(out, sc.as_slice());
        push_str(out, "</summary>\n\n");
        let inner = render_blocks_in(parent, children, ctx);
        push_all(out, inner.as_slice());
        push_str(out, "\n</details>\n");
    } else if str_eq(name, "math") {
        let mut body: Vec<char> = Vec::new();
        let ghost s0 = ctx.src;
        let mut i: usize = 0;
        while i < children.len()
            invariant
                ctx.src == s0,
                s0.wf(),
                decreases_to!(*parent => *children),
            decreases children@.len() - i,
        {
            proof {
                assert(decreases_to!(*children => children@[i as int]));
            }
            match &children[i] {
                Block::Paragraph { content, .. } => {
                    render_inline_seq(content, ctx, &mut body, true);
                    body.push('\n');
                },
                _ => {
                    render_block(&children[i], ctx, &mut body);
                },
            }
            i = i + 1;
        }
        push_str(out, "$$\n");
        let e = trim_end(body.as_slice());
        push_range(out, body.as_slice(), 0, e);
        push_str(out, "\n$$\n");
    } else {
        let inner = render_blocks_in(parent, children, ctx);
        push_all(out, inner.as_slice());
        let mut m: Vec<char> = Vec::new();
        push_str(&mut m, "`@");
        push_str(&mut m, name);
        push_str(&mut m, "` has no Markdown form; children emitted without the wrapper");
        ctx.hole(MdHole::CustomShortcode, span, chars_to_string(m.as_slice()).as_str());
    }
}

/// A table row: `| cell | cell |`, with `|` inside cells escaped.
/// `s` with each `|` behind a backslash.
pub open spec fn pipe_escaped(s: Seq<char>) -> Seq<char>
    decreases s.len(),
{
    if s.len() == 0 {
        seq![]
    } else {
        pipe_escaped(s.drop_last()) + if s.last() == '|' {
            seq!['\\', '|']
        } else {
            seq![s.last()]
        }
    }
}

/// The cells of a Markdown table row, each as ` text |`.
pub open spec fn md_cells(cells: Seq<Vec<Inline>>) -> Seq<char>
    decreases cells.len(),
{
    if cells.len() == 0 {
        seq![]
    } else {
        md_cells(cells.drop_last()) + seq![' '] + pipe_escaped(md_inlines(cells.last()@, false)) + " |"@
    }
}

/// The alignment marker of a column aligned `a` (no alignment: `---`).
pub open spec fn md_rule(a: Option<Seq<char>>) -> Seq<char> {
    match a {
        Some(x) => if x == "left"@ {
            ":---"@
        } else if x == "center"@ {
            ":---:"@
        } else if x == "right"@ {
            "---:"@
        } else {
            "---"@
        },
        None => "---"@,
    }
}

/// The string items of an `align` array, in order.
pub open spec fn align_strs(a: Seq<ArgValue>) -> Seq<Seq<char>>
    decreases a.len(),
{
    if a.len() == 0 {
        seq![]
    } else {
        let p = align_strs(a.drop_last());
        match crate::shortcode::spec_as_str(a.last()) {
            Some(x) => p.push(x),
            None => p,
        }
    }
}

/// The column alignments a table's arguments give: the strings of its
/// `align` array.
pub open spec fn table_aligns(args: ShortArgs) -> Seq<Seq<char>> {
    match args.keyword.spec_get("align"@) {
        Some(ArgValue::Array(a)) => align_strs(a@),
        _ => seq![],
    }
}

/// The separator cells of the first `n` columns, each as ` marker |`.
pub open spec fn rule_cells(al: Seq<Seq<char>>, n: nat) -> Seq<char>
    decreases n,
{
    if n == 0 {
        seq![]
    } else {
        rule_cells(al, (n - 1) as nat) + seq![' '] + md_rule(
            if n - 1 < al.len() {
                Some(al[n - 1])
            } else {
                None
            },
        ) + " |"@
    }
}

/// The separator row of a table of `n` columns aligned `al`.
pub open spec fn md_rule_row(al: Seq<Seq<char>>, n: nat) -> Seq<char> {
    seq!['|'] + rule_cells(al, n) + seq!['\n']
}

/// Every cell of a row holds only text and emphasis.
pub open spec fn plain_row(cells: Seq<Vec<Inline>>) -> bool {
    forall|j: int| 0 <= j < cells.len() ==> markup_only_seq(#[trigger] cells[j]@)
}

/// Body rows of a Markdown table, in order.
pub open spec fn md_rows(rows: Seq<crate::ast::Row>) -> Seq<char>
    decreases rows.len(),
{
    if rows.len() == 0 {
        seq![]
    } else {
        md_rows(rows.drop_last()) + seq!['|'] + md_cells(rows.last().cells@) + seq!['\n']
    }
}

/// A table in Markdown: the header row, the separator row, the body rows.
pub open spec fn md_table(args: ShortArgs, header: crate::ast::Row, rows: Seq<crate::ast::Row>) -> Seq<char> {
    seq!['|'] + md_cells(header.cells@) + seq!['\n'] + md_rule_row(table_aligns(args), header.cells@.len())
        + md_rows(rows)
}

#[verifier::spinoff_prover]
#[verifier::rlimit(50)]
fn render_table(args: &ShortArgs, header: &crate::ast::Row, rows: &Vec<crate::ast::Row>, ctx: &mut Ctx, out: &mut Vec<char>)
    requires
        old(ctx).src.wf(),
    ensures
        final(ctx).src == old(ctx).src,
        (plain_row(header.cells@) && forall|q: int| 0 <= q < rows@.len() ==> plain_row(#[trigger] rows@[q].cells@))
            ==> final(out)@ == old(out)@ + md_table(*args, *header, rows@) && final(ctx).footnotes@
            == old(ctx).footnotes@,
{
    let mut aligns: Vec<&str> = Vec::new();
    let ghost want = table_aligns(*args);
    proof {
        reveal_strlit("align");
    }
    match args.keyword.get("align") {
        Some(ArgValue::Array(a)) => {
            let mut k: usize = 0;
            while k < a.len()
                invariant
                    k <= a@.len(),
                    aligns@.map_values(|x: &str| x@) == align_strs(a@.take(k as int)),
                decreases a@.len() - k,
            {
                proof {
                    assert(a@.take(k + 1).drop_last() =~= a@.take(k as int));
                    assert(a@.take(k + 1).last() == a@[k as int]);
                }
                let ghost before = aligns@;
                match a[k].as_str() {
                    Some(s) => {
                        aligns.push(s);
                        assert(aligns@.map_values(|x: &str| x@) =~= before.map_values(|x: &str| x@).push(
                            s@,
                        ));
                    },
                    None => {},
                }
                k = k + 1;
            }
            assert(a@.take(a@.len() as int) =~= a@);
        },
        _ => {
            assert(aligns@.map_values(|x: &str| x@) =~= want);
        },
    }
    assert(aligns@.map_values(|x: &str| x@) == want);
    let ghost o = out@;
    render_table_row(&header.cells, ctx, out);
    let ghost o1 = out@;
    push_rule_row(&aligns, header.cells.len(), out);
    let ghost s0 = ctx.src;
    let ghost f0 = ctx.footnotes@;
    let ghost plain = plain_row(header.cells@) && forall|q: int|
        0 <= q < rows@.len() ==> plain_row(#[trigger] rows@[q].cells@);
    proof {
        if plain {
            assert(out@ =~= o + seq!['|'] + md_cells(header.cells@) + seq!['\n'] + md_rule_row(
                want,
                header.cells@.len(),
            ) + md_rows(rows@.take(0)));
        }
    }
    let mut r: usize = 0;
    while r < rows.len()
        invariant
            r <= rows@.len(),
            ctx.src == s0,
            s0.wf(),
            plain ==> out@ == o + seq!['|'] + md_cells(header.cells@) + seq!['\n'] + md_rule_row(
                want,
                header.cells@.len(),
            ) + md_rows(rows@.take(r as int)) && ctx.footnotes@ == f0,
        decreases rows@.len() - r,
    {
        proof {
            if plain {
                assert(plain_row(rows@[r as int].cells@));
            }
            assert(rows@.take(r + 1).drop_last() =~= rows@.take(r as int));
            assert(rows@.take(r + 1).last() == rows@[r as int]);
        }
        render_table_row(&rows[r].cells, ctx, out);
        r = r + 1;
    }
    proof {
        assert(rows@.take(rows@.len() as int) =~= rows@);
    }
}

fn push_rule_row(aligns: &Vec<&str>, n: usize, out: &mut Vec<char>)
    ensures
        final(out)@ == old(out)@ + md_rule_row(aligns@.map_values(|a: &str| a@), n as nat),
{
    let ghost o = out@;
    let ghost al = aligns@.map_values(|a: &str| a@);
    proof {
        reveal_strlit("left");
        reveal_strlit("center");
        reveal_strlit("right");
        reveal_strlit(":---");
        reveal_strlit(":---:");
        reveal_strlit("---:");
        reveal_strlit("---");
        reveal_strlit(" |");
    }
    out.push('|');
    let mut i: usize = 0;
    while i < n
        invariant
            i <= n,
            al == aligns@.map_values(|a: &str| a@),
            out@ == o + seq!['|'] + rule_cells(al, i as nat),
        decreases n - i,
    {
        let rule = if i < aligns.len() {
            if str_eq(aligns[i], "left") {
                ":---"
            } else if str_eq(aligns[i], "center") {
                ":---:"
            } else if str_eq(aligns[i], "right") {
                "---:"
            } else {
                "---"
            }
        } else {
            "---"
        };
        proof {
            if i < aligns@.len() {
                assert(al[i as int] == aligns@[i as int]@);
            }
            assert(rule@ == md_rule(
                if i < al.len() {
                    Some(al[i as int])
                } else {
                    None
                },
            ));
        }
        out.push(' ');
        push_str(out, rule);
        push_str(out, " |");
        i = i + 1;
        assert(out@ =~= o + seq!['|'] + rule_cells(al, i as nat));
    }
    out.push('\n');
    assert(out@ =~= o + md_rule_row(al, n as nat));
}

fn render_table_row(cells: &Vec<Vec<Inline>>, ctx: &mut Ctx, out: &mut Vec<char>)
    requires
        old(ctx).src.wf(),
    ensures
        final(ctx).src == old(ctx).src,
        (forall|j: int| 0 <= j < cells@.len() ==> markup_only_seq(#[trigger] cells@[j]@)) ==> final(out)@
            == old(out)@ + seq!['|'] + md_cells(cells@) + seq!['\n'] && final(ctx).footnotes@ == old(ctx).footnotes@,
{
    let ghost o = out@;
    let ghost f0 = ctx.footnotes@;
    let ghost plain = forall|j: int| 0 <= j < cells@.len() ==> markup_only_seq(#[trigger] cells@[j]@);
    out.push('|');
    let ghost s0 = ctx.src;
    let mut i: usize = 0;
    assert(cells@.take(0) =~= Seq::<Vec<Inline>>::empty());
    while i < cells.len()
        invariant
            ctx.src == s0,
            s0.wf(),
            i <= cells@.len(),
            plain == (forall|j: int| 0 <= j < cells@.len() ==> markup_only_seq(#[trigger] cells@[j]@)),
            plain ==> out@ == o + seq!['|'] + md_cells(cells@.take(i as int)) && ctx.footnotes@ == f0,
        decreases cells@.len() - i,
    {
        proof {
            let t = cells@.take(i + 1);
            assert(t.drop_last() =~= cells@.take(i as int));
            assert(t.last() == cells@[i as int]);
            if plain {
                assert(markup_only_seq(cells@[i as int]@));
            }
        }
        let mut s: Vec<char> = Vec::new();
        render_inline_seq(&cells[i], ctx, &mut s, false);
        out.push(' ');
        let ghost o1 = out@;
        let mut k: usize = 0;
        assert(s@.take(0) =~= Seq::<char>::empty());
        while k < s.len()
            invariant
                k <= s@.len(),
                out@ == o1 + pipe_escaped(s@.take(k as int)),
            decreases s@.len() - k,
        {
            assert(s@.take(k + 1).drop_last() =~= s@.take(k as int));
            if s[k] == '|' {
                out.push('\\');
            }
            out.push(s[k]);
            k = k + 1;
        }
        assert(s@.take(s@.len() as int) =~= s@);
        push_str(out, " |");
        i = i + 1;
    }
    assert(cells@.take(cells@.len() as int) =~= cells@);
    out.push('\n');
}

/// The lines `rs` of `s`, each behind `> ` (a bare `>` for an empty line)
/// and ending with a line break.
pub open spec fn quoted(s: Seq<char>, rs: Seq<(int, int)>) -> Seq<char>
    decreases rs.len(),
{
    if rs.len() == 0 {
        seq![]
    } else {
        let (x, y) = rs.last();
        quoted(s, rs.drop_last()) + if x == y {
            ">\n"@
        } else {
            "> "@ + s.subrange(x, y) + seq!['\n']
        }
    }
}

/// Every line of `inner` prefixed with `> ` (a bare `>` on empty lines).
fn quote_prefix(inner: &[char], out: &mut Vec<char>)
    ensures
        final(out)@ == old(out)@ + quoted(inner@, crate::minify::json::line_ranges(inner@)),
{
    let lines = lines_of(inner);
    let ghost lr = crate::minify::json::line_ranges(inner@);
    let ghost o = out@;
    let mut q: usize = 0;
    assert(lr.take(0) =~= Seq::<(int, int)>::empty());
    while q < lines.len()
        invariant
            crate::minify::json::ranges_within(lines@, inner@.len() as int),
            crate::minify::json::same_ranges(lines@, lr),
            q <= lines@.len(),
            out@ == o + quoted(inner@, lr.take(q as int)),
        decreases lines@.len() - q,
    {
        let (x, y) = lines[q];
        proof {
            assert(lines@[q as int].0 <= lines@[q as int].1);
            assert(lr.take(q + 1).drop_last() =~= lr.take(q as int));
            assert(lr.take(q + 1).last() == lr[q as int]);
        }
        let ghost before = out@;
        if x == y {
            push_str(out, ">\n");
        } else {
            push_str(out, "> ");
            push_range(out, inner, x, y);
            out.push('\n');
            assert(out@ =~= before + ("> "@ + inner@.subrange(x as int, y as int) + seq!['\n']));
        }
        q = q + 1;
    }
    assert(lr.take(lines@.len() as int) =~= lr);
}

/// First index of `s` that is not whitespace.
fn trim_start(s: &[char]) -> (r: usize)
    ensures
        r <= s@.len(),
        r == skip_ws_from(s@, 0),
{
    let mut a: usize = 0;
    while a < s.len() && crate::text::char_is_ws(s[a])
        invariant
            a <= s@.len(),
            skip_ws_from(s@, 0) == skip_ws_from(s@, a as int),
        decreases s@.len() - a,
    {
        a = a + 1;
    }
    a
}

/// An inline sequence; the text right after a hard break loses its leading
/// whitespace (the space the parser joined the lines with).
fn render_inline_seq(seq: &Vec<Inline>, ctx: &mut Ctx, out: &mut Vec<char>, raw: bool)
    requires
        old(ctx).src.wf(),
    ensures
        final(ctx).src == old(ctx).src,
        markup_only_seq(seq@) ==> final(out)@ == old(out)@ + md_inlines(seq@, raw) && final(ctx).footnotes@
            == old(ctx).footnotes@,
{
    let ghost s0 = ctx.src;
    let ghost o = out@;
    let ghost f0 = ctx.footnotes@;
    let ghost simple = markup_only_seq(seq@);
    let mut after_break = false;
    let mut i: usize = 0;
    assert(seq@.take(0) =~= Seq::<Inline>::empty());
    while i < seq.len()
        invariant
            ctx.src == s0,
            s0.wf(),
            i <= seq@.len(),
            simple == markup_only_seq(seq@),
            simple ==> out@ == o + md_inlines_st(seq@.take(i as int), raw).0 && after_break == md_inlines_st(
                seq@.take(i as int),
                raw,
            ).1 && ctx.footnotes@ == f0,
        decreases seq@.len() - i,
    {
        proof {
            if simple {
                lemma_markup_only_at(seq@, i as int);
            }
            let t = seq@.take(i + 1);
            assert(t.drop_last() =~= seq@.take(i as int));
            assert(t.last() == seq@[i as int]);
        }
        let n = &seq[i];
        let mut done = false;
        if after_break {
            match n {
                Inline::Text { value, .. } => {
                    let vc = str_chars(value.as_str());
                    let a = trim_start(vc.as_slice());
                    let rest = crate::text::copy_range(vc.as_slice(), a, vc.len());
                    render_text(rest.as_slice(), out, raw);
                    after_break = false;
                    done = true;
                },
                _ => {},
            }
        }
        if !done {
            after_break = matches!(n, Inline::HardBreak { .. });
            render_inline(n, ctx, out, raw);
        }
        i = i + 1;
    }
    assert(seq@.take(seq@.len() as int) =~= seq@);
}

fn render_inlines_in(parent: &Inline, seq: &Vec<Inline>, ctx: &mut Ctx, out: &mut Vec<char>, raw: bool)
    requires
        old(ctx).src.wf(),
        decreases_to!(*parent => *seq),
    ensures
        final(ctx).src == old(ctx).src,
        markup_only_seq(seq@) ==> final(out)@ == old(out)@ + md_inlines(seq@, raw) && final(ctx).footnotes@
            == old(ctx).footnotes@,
    decreases parent, 1nat,
{
    let ghost s0 = ctx.src;
    let ghost o = out@;
    let ghost f0 = ctx.footnotes@;
    let ghost simple = markup_only_seq(seq@);
    let mut after_break = false;
    let mut i: usize = 0;
    assert(seq@.take(0) =~= Seq::<Inline>::empty());
    while i < seq.len()
        invariant
            ctx.src == s0,
            s0.wf(),
            decreases_to!(*parent => *seq),
            i <= seq@.len(),
            simple == markup_only_seq(seq@),
            simple ==> out@ == o + md_inlines_st(seq@.take(i as int), raw).0 && after_break == md_inlines_st(
                seq@.take(i as int),
                raw,
            ).1 && ctx.footnotes@ == f0,
        decreases seq@.len() - i,
    {
        proof {
            assert(decreases_to!(*seq => seq@[i as int]));
        }
        proof {
            if simple {
                lemma_markup_only_at(seq@, i as int);
            }
            let t = seq@.take(i + 1);
            assert(t.drop_last() =~= seq@.take(i as int));
            assert(t.last() == seq@[i as int]);
        }
        let n = &seq[i];
        let mut done = false;
        if after_break {
            match n {
                Inline::Text { value, .. } => {
                    let vc = str_chars(value.as_str());
                    let a = trim_start(vc.as_slice());
                    let rest = crate::text::copy_range(vc.as_slice(), a, vc.len());
                    render_text(rest.as_slice(), out, raw);
                    after_break = false;
                    done = true;
                },
                _ => {},
            }
        }
        if !done {
            after_break = matches!(n, Inline::HardBreak { .. });
            render_inline(n, ctx, out, raw);
        }
        i = i + 1;
    }
    assert(seq@.take(seq@.len() as int) =~= seq@);
}

fn render_inline(node: &Inline, ctx: &mut Ctx, out: &mut Vec<char>, raw: bool)
    requires
        old(ctx).src.wf(),
    ensures
        final(ctx).src == old(ctx).src,
        markup_only(*node) ==> final(out)@ == old(out)@ + md_inline(*node, raw) && final(ctx).footnotes@
            == old(ctx).footnotes@,
    decreases node, 4nat,
{
    let ghost o = out@;
    match node {
        Inline::Text { value, .. } => {
            let vc = str_chars(value.as_str());
            render_text(vc.as_slice(), out, raw);
        },
        Inline::HardBreak { .. } => push_str(out, "\\\n"),
        Inline::Bold { content, .. } => {
            push_str(out, "**");
            render_inlines_in(node, content, ctx, out, raw);
            push_str(out, "**");
            assert(markup_only(*node) ==> out@ =~= o + md_inline(*node, raw));
        },
        Inline::Italic { content, .. } => {
            out.push('_');
            render_inlines_in(node, content, ctx, out, raw);
            out.push('_');
            assert(markup_only(*node) ==> out@ =~= o + md_inline(*node, raw));
        },
        Inline::Strike { content, .. } => {
            push_str(out, "~~");
            render_inlines_in(node, content, ctx, out, raw);
            push_str(out, "~~");
            assert(markup_only(*node) ==> out@ =~= o + md_inline(*node, raw));
        },
        Inline::Underline { content, span } => {
            push_str(out, "<u>");
            render_inlines_in(node, content, ctx, out, raw);
            push_str(out, "</u>");
            assert(markup_only(*node) ==> out@ =~= o + md_inline(*node, raw));
            ctx.hole(MdHole::Underline, *span, "underline has no Markdown syntax; emitted as `<u>`");
        },
        Inline::InlineCode { value, .. } => {
            let vc = str_chars(value.as_str());
            code_span(vc.as_slice(), out);
        },
        Inline::Shortcode { name, args, content, span } => {
            render_inline_shortcode(node, name.as_str(), args, content, *span, ctx, out, raw);
        },
    }
}

/// Text of keyword argument `key` when it is a string or identifier.
fn kw_str<'a>(args: &'a ShortArgs, key: &str) -> (r: Option<&'a str>)
    ensures
        r matches Some(s) ==> (args.keyword.spec_get(key@) matches Some(v) && crate::shortcode::spec_as_str(v)
            == Some(s@)),
        r is None ==> (args.keyword.spec_get(key@) matches Some(v) ==> crate::shortcode::spec_as_str(v) is None),
{
    match args.keyword.get(key) {
        Some(v) => v.as_str(),
        None => None,
    }
}

/// The string value of keyword argument `key`, or nothing.
pub open spec fn kw_text(args: ShortArgs, key: Seq<char>) -> Seq<char> {
    match args.keyword.spec_get(key) {
        Some(v) => match crate::shortcode::spec_as_str(v) {
            Some(t) => t,
            None => seq![],
        },
        None => seq![],
    }
}

/// Markdown of optional markup-only content.
pub open spec fn md_content(content: Option<Vec<Inline>>, raw: bool) -> Seq<char> {
    match content {
        Some(c) => md_inlines(c@, raw),
        None => seq![],
    }
}

/// Optional content that is markup only (or absent).
pub open spec fn content_markup_only(content: Option<Vec<Inline>>) -> bool {
    match content {
        Some(c) => markup_only_seq(c@),
        None => true,
    }
}

/// The names of the inline built-ins that Markdown export knows differ.
proof fn lemma_inline_names_differ()
    ensures
        "link"@ != "image"@,
        "link"@ != "kbd"@,
        "link"@ != "sub"@,
        "link"@ != "sup"@,
        "link"@ != "math"@,
        "link"@ != "footnote"@,
        "link"@ != "ref"@,
        "image"@ != "kbd"@,
        "image"@ != "sub"@,
        "image"@ != "sup"@,
        "image"@ != "math"@,
        "image"@ != "footnote"@,
        "image"@ != "ref"@,
        "kbd"@ != "sub"@,
        "kbd"@ != "sup"@,
        "kbd"@ != "math"@,
        "kbd"@ != "footnote"@,
        "kbd"@ != "ref"@,
        "sub"@ != "sup"@,
        "sub"@ != "math"@,
        "sub"@ != "footnote"@,
        "sub"@ != "ref"@,
        "sup"@ != "math"@,
        "sup"@ != "footnote"@,
        "sup"@ != "ref"@,
        "math"@ != "footnote"@,
        "math"@ != "ref"@,
        "footnote"@ != "ref"@,
{
    reveal_strlit("link");
    reveal_strlit("image");
    reveal_strlit("kbd");
    reveal_strlit("sub");
    reveal_strlit("sup");
    reveal_strlit("math");
    reveal_strlit("footnote");
    reveal_strlit("ref");
    assert("link"@.len() == 4);
    assert("image"@.len() == 5);
    assert("kbd"@.len() == 3);
    assert("math"@.len() == 4);
    assert("footnote"@.len() == 8);
    assert("ref"@.len() == 3);
    assert("link"@[0] != "math"@[0]);
    assert("kbd"@[0] != "sub"@[0]);
    assert("kbd"@[0] != "sup"@[0]);
    assert("sub"@[2] != "sup"@[2]);
    assert("kbd"@[0] != "ref"@[0]);
    assert("sub"@[0] != "ref"@[0]);
    assert("sup"@[0] != "ref"@[0]);
}

#[verifier::spinoff_prover]
#[verifier::rlimit(80)]
fn render_inline_shortcode(parent: &Inline, name: &str, args: &ShortArgs, content: &Option<Vec<Inline>>, span: Span, ctx: &mut Ctx, out: &mut Vec<char>, raw: bool)
    requires
        old(ctx).src.wf(),
        decreases_to!(*parent => *content),
    ensures
        final(ctx).src == old(ctx).src,
        (old(ctx).reg.map.spec_get(name@) matches Some(sc) ==> sc.template_html is None) && content_markup_only(
            *content,
        ) ==> {
            &&& name@ == "link"@ && (args.keyword.spec_get("title"@) matches Some(v) ==> crate::shortcode::spec_as_str(
                v,
            ) is None) ==> final(out)@ == old(out)@ + seq!['['] + md_content(*content, raw) + seq![']', '(']
                + kw_text(*args, "url"@) + seq![')']
            &&& (name@ == "kbd"@ || name@ == "sub"@ || name@ == "sup"@) ==> final(out)@ == old(out)@ + seq!['<']
                + name@ + seq!['>'] + md_content(*content, raw) + seq!['<', '/'] + name@ + seq!['>']
            &&& name@ == "image"@ ==> final(out)@ == old(out)@ + "!["@ + md_escaped(kw_text(*args, "alt"@)) + "]("@
                + kw_text(*args, "src"@) + seq![')']
            &&& name@ == "math"@ ==> final(out)@ == old(out)@ + seq!['$'] + md_content(*content, true) + seq!['$']
            &&& name@ == "footnote"@ && content is Some && !old(ctx).in_footnote ==> final(ctx).footnotes@
                == old(ctx).footnotes@.push(final(ctx).footnotes@.last()) && final(ctx).footnotes@.last()@
                == md_content(*content, false) && final(out)@ == old(out)@ + "[^"@ + crate::text::dec(
                final(ctx).footnotes@.len(),
            ) + seq![']']
        },
    decreases parent, 3nat,
{
    let ghost o = out@;
    proof {
        lemma_inline_names_differ();
        reveal_strlit("link");
        reveal_strlit("image");
        reveal_strlit("kbd");
        reveal_strlit("sub");
        reveal_strlit("sup");
        reveal_strlit("math");
        reveal_strlit("footnote");
        reveal_strlit("ref");
    }
    match ctx.reg.get(name) {
        Some(sc) => match &sc.template_html {
            Some(t) => {
                let tv = str_chars(t.as_str());
                let mut inner: Vec<char> = Vec::new();
                match content {
                    Some(c) => {
                        proof {
                            assert(decreases_to!(*content => *c));
                        }
                        render_inlines_in(parent, c, ctx, &mut inner, raw);
                    },
                    None => {},
                }
                expand_template(tv.as_slice(), args, inner.as_slice(), out);
                let mut m: Vec<char> = Vec::new();
                push_str(&mut m, "`@");
                push_str(&mut m, name);
                push_str(&mut m, "` expanded via its `template_html`");
                ctx.hole(MdHole::CustomShortcode, span, chars_to_string(m.as_slice()).as_str());
                return;
            },
            None => {},
        },
        None => {},
    }
    if str_eq(name, "link") {
        let url = match kw_str(args, "url") {
            Some(u) => u,
            None => "",
        };
        out.push('[');
        let ghost o1 = out@;
        match content {
            Some(c) => {
                proof {
                    assert(decreases_to!(*content => *c));
                }
                render_inlines_in(parent, c, ctx, out, raw);
            },
            None => {},
        }
        proof {
            if content_markup_only(*content) {
                assert(out@ =~= o1 + md_content(*content, raw));
            }
            reveal_strlit("");
            assert(url@ == kw_text(*args, "url"@));
        }
        let ghost o2 = out@;
        push_str(out, "](");
        push_str(out, url);
        match kw_str(args, "title") {
            Some(t) => push_link_title(out, t),
            None => {},
        }
        out.push(')');
        proof {
            reveal_strlit("](");
            reveal_strlit("link");
            reveal_strlit("image");
            reveal_strlit("math");
            reveal_strlit("footnote");
            if content_markup_only(*content) && (args.keyword.spec_get("title"@) matches Some(v)
                ==> crate::shortcode::spec_as_str(v) is None) {
                assert(out@ =~= o + seq!['['] + md_content(*content, raw) + seq![']', '('] + kw_text(*args, "url"@)
                    + seq![')']);
            }
        }
    } else if str_eq(name, "image") {
        render_image_md(args, out);
    } else if str_eq(name, "kbd") || str_eq(name, "sub") || str_eq(name, "sup") {
        out.push('<');
        push_str(out, name);
        out.push('>');
        let ghost o1 = out@;
        match content {
            Some(c) => {
                proof {
                    assert(decreases_to!(*content => *c));
                }
                render_inlines_in(parent, c, ctx, out, raw);
            },
            None => {},
        }
        let ghost o2 = out@;
        push_str(out, "</");
        push_str(out, name);
        out.push('>');
        proof {
            reveal_strlit("</");
            if content_markup_only(*content) {
                assert(o2 =~= o1 + md_content(*content, raw));
                assert(out@ =~= o + seq!['<'] + name@ + seq!['>'] + md_content(*content, raw) + seq!['<', '/']
                    + name@ + seq!['>']);
            }
        }
    } else if str_eq(name, "math") {
        render_math_md(parent, content, ctx, out);
    } else if str_eq(name, "footnote") {
        render_footnote_md(parent, content, ctx, out, raw);
    } else if str_eq(name, "ref") {
        render_ref_md(args, content, span, ctx, out);
    } else {
        match content {
            Some(c) => {
                proof {
                    assert(decreases_to!(*content => *c));
                }
                render_inlines_in(parent, c, ctx, out, raw);
            },
            None => {},
        }
        let mut m: Vec<char> = Vec::new();
        push_str(&mut m, "`@");
        push_str(&mut m, name);
        push_str(&mut m, "` has no Markdown form; content emitted without the wrapper");
        ctx.hole(MdHole::CustomShortcode, span, chars_to_string(m.as_slice()).as_str());
    }
}

/// ` "title"`, with `"` behind a backslash.
fn push_link_title(out: &mut Vec<char>, t: &str) {
    push_str(out, " \"");
    let tc = str_chars(t);
    let mut k: usize = 0;
    while k < tc.len()
        decreases tc@.len() - k,
    {
        if tc[k] == '"' {
            out.push('\\');
        }
        out.push(tc[k]);
        k = k + 1;
    }
    out.push('"');
}

/// `@image` in Markdown: `![alt](src)`, the alt text escaped.
fn render_image_md(args: &ShortArgs, out: &mut Vec<char>)
    ensures
        final(out)@ == old(out)@ + "!["@ + md_escaped(kw_text(*args, "alt"@)) + "]("@ + kw_text(*args, "src"@) + seq![
            ')',
        ],
{
    let alt = match kw_str(args, "alt") {
        Some(u) => u,
        None => "",
    };
    let src = match kw_str(args, "src") {
        Some(u) => u,
        None => "",
    };
    push_str(out, "![");
    let ac = str_chars(alt);
    render_text(ac.as_slice(), out, false);
    push_str(out, "](");
    push_str(out, src);
    out.push(')');
    proof {
        reveal_strlit("");
        reveal_strlit("![");
        reveal_strlit("](");
        assert(alt@ == kw_text(*args, "alt"@));
        assert(src@ == kw_text(*args, "src"@));
        assert(out@ =~= old(out)@ + "!["@ + md_escaped(kw_text(*args, "alt"@)) + "]("@ + kw_text(*args, "src"@) + seq![')']);
    }
}

/// `@math` in Markdown: its content, raw, between `$` signs.
fn render_math_md(parent: &Inline, content: &Option<Vec<Inline>>, ctx: &mut Ctx, out: &mut Vec<char>)
    requires
        old(ctx).src.wf(),
        decreases_to!(*parent => *content),
    ensures
        final(ctx).src == old(ctx).src,
        content_markup_only(*content) ==> final(out)@ == old(out)@ + seq!['$'] + md_content(*content, true) + seq![
            '$',
        ] && final(ctx).footnotes@ == old(ctx).footnotes@,
    decreases parent, 2nat,
{
    out.push('$');
    let ghost o1 = out@;
    match content {
        Some(c) => {
            proof {
                assert(decreases_to!(*content => *c));
            }
            render_inlines_in(parent, c, ctx, out, true);
        },
        None => {},
    }
    let ghost o2 = out@;
    out.push('$');
    proof {
        if content_markup_only(*content) {
            assert(o2 =~= o1 + md_content(*content, true));
            assert(out@ =~= old(out)@ + seq!['$'] + md_content(*content, true) + seq!['$']);
        }
    }
}

/// `@footnote` in Markdown: the next number as `[^n]`, the content kept as
/// that footnote's text; inside a footnote, the content in brackets.
fn render_footnote_md(parent: &Inline, content: &Option<Vec<Inline>>, ctx: &mut Ctx, out: &mut Vec<char>, raw: bool)
    requires
        old(ctx).src.wf(),
        decreases_to!(*parent => *content),
    ensures
        final(ctx).src == old(ctx).src,
        content_markup_only(*content) && content is Some && !old(ctx).in_footnote ==> final(ctx).footnotes@
            == old(ctx).footnotes@.push(final(ctx).footnotes@.last()) && final(ctx).footnotes@.last()@ == md_content(
            *content,
            false,
        ) && final(out)@ == old(out)@ + "[^"@ + crate::text::dec(final(ctx).footnotes@.len()) + seq![']'],
    decreases parent, 2nat,
{
    let c = match content {
        Some(c) => c,
        None => {
            return;
        },
    };
    proof {
        assert(decreases_to!(*content => *c));
    }
    if ctx.in_footnote {
        out.push('[');
        render_inlines_in(parent, c, ctx, out, raw);
        out.push(']');
        return;
    }
    ctx.in_footnote = true;
    let mut body: Vec<char> = Vec::new();
    let ghost f0 = ctx.footnotes@;
    render_inlines_in(parent, c, ctx, &mut body, false);
    ctx.in_footnote = false;
    proof {
        if markup_only_seq(c@) {
            assert(body@ =~= md_content(*content, false));
        }
    }
    let ghost bv = body;
    ctx.footnotes.push(body);
    proof {
        if markup_only_seq(c@) {
            assert(ctx.footnotes@ == f0.push(bv));
            assert(ctx.footnotes@.last() == bv);
        }
    }
    push_str(out, "[^");
    push_usize(out, ctx.footnotes.len());
    out.push(']');
    proof {
        reveal_strlit("[^");
        assert(out@ =~= old(out)@ + "[^"@ + crate::text::dec(ctx.footnotes@.len()) + seq![']']);
    }
}

/// A `@ref` in Markdown: a link to the `.md` file of a `.brf` target (with
/// its anchor), else its display text and a recorded hole.
fn render_ref_md(args: &ShortArgs, content: &Option<Vec<Inline>>, span: Span, ctx: &mut Ctx, out: &mut Vec<char>)
    requires
        old(ctx).src.wf(),
    ensures
        final(ctx).src == old(ctx).src,
        final(ctx).footnotes@ == old(ctx).footnotes@,
{
    let display: Vec<char> = match ctx.refs.get(&span) {
        Some(r) => str_chars(r.display.as_str()),
        None => match kw_str(args, "title") {
            Some(t) => str_chars(t),
            None => {
                let pos: Option<&str> = if args.positional.len() > 0 {
                    args.positional[0].as_str()
                } else {
                    None
                };
                match pos {
                    Some(t) => str_chars(t),
                    None => Vec::new(),
                }
            },
        },
    };
    let mut target: Vec<char> = Vec::new();
    match content {
        Some(c) => {
            let mut k: usize = 0;
            while k < c.len()
                decreases c@.len() - k,
            {
                match &c[k] {
                    Inline::Text { value, .. } => push_str(&mut target, value.as_str()),
                    _ => {},
                }
                k = k + 1;
            }
        },
        None => {},
    }
    let (ta, tb) = trim_bounds(target.as_slice(), 0, target.len());
    let hash = crate::text::find_str(target.as_slice(), ta, "#");
    let (pe, anchor) = match hash {
        Some(h) => {
            proof {
                crate::text::lemma_find_from_bounds(target@, ta as int, "#"@);
                reveal_strlit("#");
            }
            if h < tb {
                (h, Some(h + 1))
            } else {
                (tb, None)
            }
        },
        None => (tb, None),
    };
    let is_brf = pe >= ta && pe - ta >= 4 && crate::text::starts_at_str(target.as_slice(), pe - 4, ".brf");
    if is_brf && pe - 4 > ta {
        out.push('[');
        render_text(display.as_slice(), out, false);
        push_str(out, "](");
        push_range(out, target.as_slice(), ta, pe - 4);
        push_str(out, ".md");
        match anchor {
            Some(a) => {
                out.push('#');
                if a <= tb {
                    push_range(out, target.as_slice(), a, tb);
                }
            },
            None => {},
        }
        out.push(')');
    } else {
        render_text(display.as_slice(), out, false);
        let mut m: Vec<char> = Vec::new();
        push_str(&mut m, "`@ref` target `");
        push_range(&mut m, target.as_slice(), ta, tb);
        push_str(&mut m, "` could not be rewritten to a `.md` link");
        ctx.hole(MdHole::RefUnresolved, span, chars_to_string(m.as_slice()).as_str());
    }
}

/// Markdown punctuation that is escaped in text.
pub open spec fn md_special(c: char) -> bool {
    c == '\\' || c == '`' || c == '*' || c == '_' || c == '~' || c == '[' || c == ']' || c == '<' || c == '&'
}

/// `s` with a backslash before each Markdown-special char.
pub open spec fn md_escaped(s: Seq<char>) -> Seq<char>
    decreases s.len(),
{
    if s.len() == 0 {
        Seq::empty()
    } else {
        md_escaped(s.drop_last()) + if md_special(s.last()) { seq!['\\', s.last()] } else { seq![s.last()] }
    }
}

/// A text run: copied as is when `raw`, else with Markdown punctuation
/// escaped.
fn render_text(s: &[char], out: &mut Vec<char>, raw: bool)
    ensures
        raw ==> final(out)@ == old(out)@ + s@,
        !raw ==> final(out)@ == old(out)@ + md_escaped(s@),
{
    if raw {
        push_all(out, s);
        return;
    }
    let ghost o = out@;
    let mut i: usize = 0;
    while i < s.len()
        invariant
            i <= s@.len(),
            out@ == o + md_escaped(s@.take(i as int)),
        decreases s@.len() - i,
    {
        let c = s[i];
        proof {
            assert(s@.take(i + 1).drop_last() == s@.take(i as int));
        }
        if c == '\\' || c == '`' || c == '*' || c == '_' || c == '~' || c == '[' || c == ']' || c == '<' || c == '&' {
            out.push('\\');
        }
        out.push(c);
        i = i + 1;
    }
    proof {
        assert(s@.take(s@.len() as int) == s@);
    }
}

/// Length of the longest run of backticks in `s`.
pub open spec fn max_backtick_run(s: Seq<char>) -> nat
    decreases s.len(),
{
    if s.len() == 0 {
        0
    } else {
        let m = max_backtick_run(s.drop_last());
        let r = backtick_suffix(s);
        if r > m { r } else { m }
    }
}

/// Number of backticks at the end of `s`.
pub open spec fn backtick_suffix(s: Seq<char>) -> nat
    decreases s.len(),
{
    if s.len() > 0 && s.last() == '`' {
        1 + backtick_suffix(s.drop_last())
    } else {
        0
    }
}

fn longest_backtick_run(s: &[char]) -> (r: usize)
    ensures
        r == max_backtick_run(s@),
{
    let mut max_run: usize = 0;
    let mut run: usize = 0;
    let mut i: usize = 0;
    while i < s.len()
        invariant
            i <= s@.len(),
            run == backtick_suffix(s@.take(i as int)),
            max_run == max_backtick_run(s@.take(i as int)),
            run <= i,
            max_run <= i,
        decreases s@.len() - i,
    {
        proof {
            assert(s@.take(i + 1).drop_last() == s@.take(i as int));
        }
        if s[i] == '`' {
            run = run + 1;
            if run > max_run {
                max_run = run;
            }
        } else {
            run = 0;
        }
        i = i + 1;
    }
    proof {
        assert(s@.take(s@.len() as int) == s@);
    }
    max_run
}

/// An inline code span: delimited by one backtick more than the longest
/// run inside, padded with spaces when the value starts or ends with a
/// backtick.
fn code_span(value: &[char], out: &mut Vec<char>)
    ensures
        final(out)@ == old(out)@ + code_span_spec(value@),
{
    let ghost o = out@;
    let n = longest_backtick_run(value);
    let pad = value.len() > 0 && (value[0] == '`' || value[value.len() - 1] == '`');
    let mut k: usize = 0;
    while k < n
        invariant
            k <= n,
            out@ =~= o + repeat_char('`', k as nat),
        decreases n - k,
    {
        out.push('`');
        k = k + 1;
        assert(out@ =~= o + repeat_char('`', k as nat));
    }
    out.push('`');
    let ghost fence = repeat_char('`', n as nat) + seq!['`'];
    let ghost padding = if pad {
        seq![' ']
    } else {
        Seq::<char>::empty()
    };
    if pad {
        out.push(' ');
    }
    push_all(out, value);
    if pad {
        out.push(' ');
    }
    assert(out@ =~= o + fence + padding + value@ + padding);
    let ghost o2 = out@;
    let mut k: usize = 0;
    while k < n
        invariant
            k <= n,
            out@ =~= o2 + repeat_char('`', k as nat),
        decreases n - k,
    {
        out.push('`');
        k = k + 1;
        assert(out@ =~= o2 + repeat_char('`', k as nat));
    }
    out.push('`');
    assert(out@ =~= o + code_span_spec(value@));
}

/// Fence length for a code body: one more than the longest backtick run,
/// and at least three.
pub fn fence_len(body: &[char]) -> (r: usize)
    ensures
        r >= 3,
        max_backtick_run(body@) < usize::MAX ==> r as int == if max_backtick_run(body@) + 1 >= 3 {
            max_backtick_run(body@) + 1
        } else {
            3
        },
{
    let n = longest_backtick_run(body);
    proof {
        lemma_run_bound(body@);
    }
    if n >= 2 {
        n.saturating_add(1)
    } else {
        3
    }
}

proof fn lemma_run_bound(s: Seq<char>)
    ensures
        max_backtick_run(s) <= s.len(),
        backtick_suffix(s) <= s.len(),
    decreases s.len(),
{
    if s.len() > 0 {
        lemma_run_bound(s.drop_last());
    }
}

/// The first line of `t` is a `//` comment: not a `+++` fence, not a code
/// fence, and `//` after its leading whitespace.
pub open spec fn first_line_comment(t: Seq<char>) -> bool {
    let lr = crate::minify::json::line_ranges(t);
    lr.len() > 0 && ({
        let l = t.subrange(lr[0].0, lr[0].1);
        let st = skip_ws_from(l, 0);
        &&& !(ws_end(l, l.len() as int) == 3 && l[0] == '+' && l[1] == '+' && l[2] == '+')
        &&& !crate::text::matches_at(l, st, "```"@)
        &&& crate::text::matches_at(l, st, "//"@)
    })
}

/// Report each `//` and `/* */` comment of the source (the parser drops
/// them), skipping frontmatter and code fences.
fn scan_comments(src: &SourceMap, diags: &mut Vec<MdDiag>)
    requires
        src.wf(),
    ensures
        final(diags)@.len() >= old(diags)@.len(),
        forall|k: int| 0 <= k < old(diags)@.len() ==> final(diags)@[k] == old(diags)@[k],
        first_line_comment(src.text()) ==> final(diags)@.len() > old(diags)@.len() && final(diags)@[old(
            diags,
        )@.len() as int].hole == MdHole::Comment && final(diags)@[old(diags)@.len() as int].line == 1,
{
    let ghost d0 = diags@;
    let text = src.source_chars();
    let lines = lines_of(text);
    let ghost c0 = first_line_comment(text@);
    let mut in_fence = false;
    let mut in_block = false;
    let mut in_fm = false;
    let mut i: usize = 0;
    while i < lines.len()
        invariant
            crate::minify::json::ranges_within(lines@, text@.len() as int),
            crate::minify::json::same_ranges(lines@, crate::minify::json::line_ranges(text@)),
            diags@.len() >= d0.len(),
            forall|k: int| 0 <= k < d0.len() ==> diags@[k] == d0[k],
            i == 0 ==> !in_fm && !in_block && !in_fence && diags@.len() == d0.len(),
            i >= 1 && c0 ==> diags@.len() > d0.len() && diags@[d0.len() as int].hole == MdHole::Comment
                && diags@[d0.len() as int].line == 1,
        decreases lines@.len() - i,
    {
        let (a, b) = lines[i];
        proof {
            assert(lines@[i as int].0 <= lines@[i as int].1);
        }
        let line = crate::text::copy_range(text, a, b);
        let l = line.as_slice();
        let e = trim_end(l);
        let is_plus = e == 3 && l[0] == '+' && l[1] == '+' && l[2] == '+';
        if i == 0 && is_plus {
            in_fm = true;
        } else if in_fm {
            if is_plus {
                in_fm = false;
            }
        } else if in_block {
            if e >= 2 && l[e - 2] == '*' && l[e - 1] == '/' {
                in_block = false;
            }
        } else {
            let s = trim_start(l);
            let fence = crate::text::starts_at_str(l, s, "```");
            if in_fence {
                if fence {
                    in_fence = false;
                }
            } else if fence {
                in_fence = true;
            } else {
                let mut col: usize = 1;
                let mut q: usize = 0;
                while q < s
                    invariant
                        s <= l@.len(),
                    decreases s - q,
                {
                    let w = crate::text::char_len_utf8(l[q]);
                    col = col.saturating_add(w);
                    q = q + 1;
                }
                if crate::text::starts_at_str(l, s, "//") {
                    diags.push(MdDiag { hole: MdHole::Comment, line: i + 1, col, note: String::from_str("`//` comment dropped") });
                } else if crate::text::starts_at_str(l, s, "/*") {
                    diags.push(MdDiag { hole: MdHole::Comment, line: i + 1, col, note: String::from_str("`/* */` comment dropped") });
                    let te = if e >= s { e } else { s };
                    let closes = te - s >= 4 && l[te - 2] == '*' && l[te - 1] == '/';
                    if !closes {
                        in_block = true;
                    }
                }
            }
        }
        i = i + 1;
    }
}

/// Runs of three or more newlines cut to two, leading and trailing newlines
/// dropped, one final newline added (nothing for empty text).
fn normalize(s: &[char]) -> (r: Vec<char>)
    ensures
        r@.len() == 0 || r@.last() == '\n',
        r@ == normalize_md(s@),
{
    let c = crate::emit::llm::collapse_newlines(s);
    let mut a: usize = 0;
    while a < c.len() && c[a] == '\n'
        invariant
            a <= c@.len(),
            first_non_nl(c@, 0) == first_non_nl(c@, a as int),
        decreases c@.len() - a,
    {
        a = a + 1;
    }
    let mut b = c.len();
    while b > a && c[b - 1] == '\n'
        invariant
            a <= b <= c@.len(),
            end_non_nl(c@, a as int, c@.len() as int) == end_non_nl(c@, a as int, b as int),
        decreases b - a,
    {
        b = b - 1;
    }
    let mut out: Vec<char> = Vec::new();
    if a == b {
        return out;
    }
    push_range(&mut out, c.as_slice(), a, b);
    out.push('\n');
    out
}

} // verus!
