//! LLM emitter: a compact plain-text form of the document. Emphasis is
//! kept as markers (or stripped), links become `[text](url)`, tables are
//! padded, footnotes are listed at the end, code blocks are minified where
//! a minifier exists and the options allow it, and blank-line runs are
//! collapsed.
use crate::ast::{clone_inlines, Block, CodeAttrs, Document, Inline, RefMap, Row, ShortArgs, TaskState};
use crate::emit::html::{collect_footnotes, markup_only, markup_only_seq, simple_block, simple_blocks};
use crate::frontmatter::{toml_as_bool, toml_get, toml_table_to_string};
use crate::minify::{is_supported, minify, refusal_reason, MinifyOptions, MinifyWarning};
use crate::shortcode::Registry;
use crate::text::{chars_to_string, find_str, push_all, push_range, push_str, push_usize, str_chars, str_eq, trim_bounds};
use vstd::prelude::*;

verus! {

/// A minified block longer than this many source lines gets a warning that
/// line references are lost.
pub const LONG_BLOCK_LINE_THRESHOLD: usize = 50;

/// Options of the LLM emitter.
#[derive(Clone, Debug)]
pub struct Opts {
    /// Drop emphasis markers, keeping the text.
    pub strip_emphasis: bool,
    /// Emit a `|---|` rule under the table header.
    pub keep_table_rule: bool,
    /// Keep image URLs.
    pub keep_asset_urls: bool,
    /// Re-emit the frontmatter at the top.
    pub keep_metadata: bool,
    /// Master switch for code-block minification.
    pub minify_code_blocks: bool,
    /// Language tags (compared case-insensitively) eligible for minification.
    pub minify_languages: Vec<String>,
    /// Keep the ```lang fence around code blocks.
    pub preserve_code_fences: bool,
}

impl Default for Opts {
    fn default() -> (o: Opts)
        ensures
            !o.strip_emphasis && !o.keep_table_rule && !o.keep_asset_urls && !o.keep_metadata,
            o.minify_code_blocks,
            o.preserve_code_fences,
            o.minify_languages@.len() == 19,
    {
        let mut langs: Vec<String> = Vec::new();
        langs.push(String::from_str("json"));
        langs.push(String::from_str("jsonl"));
        langs.push(String::from_str("rust"));
        langs.push(String::from_str("rs"));
        langs.push(String::from_str("c"));
        langs.push(String::from_str("h"));
        langs.push(String::from_str("cpp"));
        langs.push(String::from_str("c++"));
        langs.push(String::from_str("cc"));
        langs.push(String::from_str("cxx"));
        langs.push(String::from_str("hpp"));
        langs.push(String::from_str("hxx"));
        langs.push(String::from_str("java"));
        langs.push(String::from_str("go"));
        langs.push(String::from_str("javascript"));
        langs.push(String::from_str("js"));
        langs.push(String::from_str("typescript"));
        langs.push(String::from_str("ts"));
        langs.push(String::from_str("sql"));
        Opts {
            strip_emphasis: false,
            keep_table_rule: false,
            keep_asset_urls: false,
            keep_metadata: false,
            minify_code_blocks: true,
            minify_languages: langs,
            preserve_code_fences: true,
        }
    }
}

/// No three consecutive newlines in `s`.
pub open spec fn no_triple_newline(s: Seq<char>) -> bool {
    forall|i: int| 0 <= i && i + 2 < s.len() ==> !(#[trigger] s[i] == '\n' && s[i + 1] == '\n' && s[i + 2] == '\n')
}

/// Number of `\n` at the end of `s`.
pub open spec fn trailing_newlines(s: Seq<char>) -> nat
    decreases s.len(),
{
    if s.len() > 0 && s.last() == '\n' {
        1 + trailing_newlines(s.drop_last())
    } else {
        0
    }
}

/// `s` with every run of more than two newlines cut to two; other chars
/// kept in order.
pub open spec fn collapse_spec(s: Seq<char>) -> Seq<char>
    decreases s.len(),
{
    if s.len() == 0 {
        seq![]
    } else {
        let p = collapse_spec(s.drop_last());
        if s.last() == '\n' && trailing_newlines(p) >= 2 {
            p
        } else {
            p.push(s.last())
        }
    }
}

/// Exec form of `collapse_spec`; its result never holds three newlines in
/// a row.
pub fn collapse_newlines(s: &[char]) -> (r: Vec<char>)
    ensures
        r@ == collapse_spec(s@),
        no_triple_newline(r@),
        r@.len() <= s@.len(),
{
    let mut out: Vec<char> = Vec::new();
    let mut run: usize = 0;
    let mut i: usize = 0;
    while i < s.len()
        invariant
            i <= s@.len(),
            out@.len() <= i,
            no_triple_newline(out@),
            run <= 2 ==> trailing_newlines(out@) == run,
            run > 2 ==> trailing_newlines(out@) == 2,
            trailing_newlines(out@) <= 2,
            run <= i,
            out@ == collapse_spec(s@.take(i as int)),
        decreases s@.len() - i,
    {
        let ghost before = out@;
        assert(s@.take(i + 1).drop_last() =~= s@.take(i as int));
        if s[i] == '\n' {
            run = run + 1;
            if run <= 2 {
                out.push('\n');
                proof {
                    assert(out@.drop_last() == before);
                    assert forall|k: int| 0 <= k && k + 2 < out@.len() implies !(#[trigger] out@[k] == '\n' && out@[k + 1] == '\n' && out@[k + 2] == '\n') by {
                        if k + 2 == out@.len() - 1 {
                            // The run before this char is at most one long.
                            if out@[k] == '\n' && out@[k + 1] == '\n' {
                                assert(out@[k] == before[k] && out@[k + 1] == before[k + 1]);
                                lemma_trailing(before, k, k + 1);
                            }
                        } else {
                            assert(out@[k] == before[k] && out@[k + 1] == before[k + 1] && out@[k + 2] == before[k + 2]);
                        }
                    }
                }
            }
        } else {
            run = 0;
            out.push(s[i]);
            proof {
                assert(out@.drop_last() == before);
                assert forall|k: int| 0 <= k && k + 2 < out@.len() implies !(#[trigger] out@[k] == '\n' && out@[k + 1] == '\n' && out@[k + 2] == '\n') by {
                    if k + 2 < before.len() {
                        assert(out@[k] == before[k] && out@[k + 1] == before[k + 1] && out@[k + 2] == before[k + 2]);
                    }
                }
            }
        }
        i = i + 1;
    }
    assert(s@.take(s@.len() as int) =~= s@);
    out
}

/// Two newlines at positions `a`, `b` (the last two) of `s` mean `s` ends
/// with at least two newlines.
proof fn lemma_trailing(s: Seq<char>, a: int, b: int)
    requires
        b == s.len() - 1,
        a == s.len() - 2,
        a >= 0,
        s[a] == '\n' && s[b] == '\n',
    ensures
        trailing_newlines(s) >= 2,
{
    reveal_with_fuel(trailing_newlines, 3);
    assert(s.drop_last().last() == s[a]);
    assert(s.drop_last().len() > 0);
}

/// Rendering state.
pub struct Ctx<'a> {
    pub reg: &'a Registry,
    pub opts: &'a Opts,
    pub counter: u32,
    pub in_footnote: bool,
    pub warnings: Vec<String>,
    pub frontmatter_minify_code: Option<bool>,
    pub refs: &'a RefMap,
}

/// LLM text of a shortcode-free inline node: text and code as they are
/// (code in backticks), emphasis between its marker (or bare when `strip`),
/// a hard break as a line break.
pub open spec fn llm_inline(n: Inline, strip: bool) -> Seq<char>
    decreases n, 1nat,
{
    match n {
        Inline::Text { value, .. } => value@,
        Inline::HardBreak { .. } => seq!['\n'],
        Inline::Bold { content, .. } => wrap_marker(llm_inlines(content@, strip), '*', strip),
        Inline::Italic { content, .. } => wrap_marker(llm_inlines(content@, strip), '_', strip),
        Inline::Underline { content, .. } => wrap_marker(llm_inlines(content@, strip), '+', strip),
        Inline::Strike { content, .. } => wrap_marker(llm_inlines(content@, strip), '~', strip),
        Inline::InlineCode { value, .. } => seq!['`'] + value@ + seq!['`'],
        Inline::Shortcode { .. } => seq![],
    }
}

/// `inner` between two `m`s, or bare when `strip`.
pub open spec fn wrap_marker(inner: Seq<char>, m: char, strip: bool) -> Seq<char> {
    if strip {
        inner
    } else {
        seq![m] + inner + seq![m]
    }
}

/// `llm_inline` over a sequence, in order.
pub open spec fn llm_inlines(v: Seq<Inline>, strip: bool) -> Seq<char>
    decreases v, 0nat,
{
    if v.len() == 0 {
        seq![]
    } else {
        llm_inlines(v.drop_last(), strip) + llm_inline(v.last(), strip)
    }
}

/// LLM text of a simple block at `indent`: a heading as `#`s, a space and
/// its text; a paragraph indented (nothing when empty); a rule as `---`;
/// each ending its line.
pub open spec fn llm_block(b: Block, strip: bool, indent: nat) -> Seq<char> {
    match b {
        Block::Heading { level, content, .. } => Seq::new(level as nat, |_i: int| '#') + seq![' ']
            + llm_inlines(content@, strip) + seq!['\n'],
        Block::Paragraph { content, .. } => if content@.len() == 0 {
            seq![]
        } else {
            Seq::new(indent, |_i: int| ' ') + llm_inlines(content@, strip) + seq!['\n']
        },
        Block::HorizontalRule { .. } => "---\n"@,
        _ => seq![],
    }
}

/// `llm_block` over top-level blocks, in order.
pub open spec fn llm_blocks(v: Seq<Block>, strip: bool) -> Seq<char>
    decreases v.len(),
{
    if v.len() == 0 {
        seq![]
    } else {
        llm_blocks(v.drop_last(), strip) + llm_block(v.last(), strip, 0)
    }
}

/// The text of an optional owned language tag.
pub open spec fn string_tag(lang: Option<String>) -> Option<Seq<char>> {
    match lang {
        Some(l) => Some(l@),
        None => None,
    }
}

/// `piece` is how a code block renders: fenced or bare as the options say,
/// its body minified exactly when `minifies` holds, else verbatim.
pub open spec fn code_piece(
    lang: Option<Seq<char>>,
    body: Seq<char>,
    attrs: CodeAttrs,
    opts: &Opts,
    fm: Option<bool>,
    piece: Seq<char>,
) -> bool {
    if minifies(lang, body, attrs, opts, fm) {
        exists|t: Seq<char>|
            piece == #[trigger] llm_code(lang, t, opts.preserve_code_fences) && (lang matches Some(l)
                && crate::minify::minified_as(
                crate::minify::spec_family(Seq::new(l.len(), |i: int| ascii_lower(l[i]))).unwrap(),
                body,
                attrs.keep_comments,
                t,
            ))
    } else {
        piece == llm_code(lang, body, opts.preserve_code_fences)
    }
}

/// A top-level block that `render` states exactly: a simple block, or a
/// code block (of a body that fits the machine's index range).
pub open spec fn simple_or_code(b: Block) -> bool {
    simple_block(b) || (b matches Block::CodeBlock { body, .. } && body@.len() < usize::MAX)
}

/// `piece` is how the top-level block `b` renders with no frontmatter.
pub open spec fn top_piece(b: Block, piece: Seq<char>, opts: &Opts) -> bool {
    match b {
        Block::CodeBlock { lang, body, attrs, .. } => code_piece(string_tag(lang), body@, attrs, opts, None, piece),
        _ => piece == llm_block(b, opts.strip_emphasis, 0),
    }
}

/// The pieces `ps` one after another.
pub open spec fn cat(ps: Seq<Seq<char>>) -> Seq<char>
    decreases ps.len(),
{
    if ps.len() == 0 {
        seq![]
    } else {
        cat(ps.drop_last()) + ps.last()
    }
}

/// Blocks that are simple or code blocks are plain.
proof fn lemma_simple_or_code_plain(v: Seq<Block>)
    requires
        forall|i: int| 0 <= i < v.len() ==> simple_or_code(#[trigger] v[i]),
    ensures
        crate::emit::html::plain_blocks(v),
    decreases v.len(),
{
    if v.len() > 0 {
        assert forall|i: int| 0 <= i < v.drop_last().len() implies simple_or_code(#[trigger] v.drop_last()[i]) by {
            assert(v.drop_last()[i] == v[i]);
        }
        lemma_simple_or_code_plain(v.drop_last());
        assert(simple_or_code(v[v.len() - 1]));
        assert(crate::emit::html::plain_block(v.last()));
    }
}

/// Render `doc` in LLM form; also returns the warnings (minification
/// problems) produced on the way.
#[verifier::rlimit(40)]
pub fn render(doc: &Document, reg: &Registry, opts: &Opts) -> (r: (String, Vec<String>))
    ensures
        no_triple_newline(r.0@),
        simple_blocks(doc.blocks@) && (!opts.keep_metadata || doc.metadata is None) ==> r.0@
            == collapse_spec(llm_blocks(doc.blocks@, opts.strip_emphasis)) && r.1@.len() == 0,
        (forall|i: int| 0 <= i < doc.blocks@.len() ==> simple_or_code(#[trigger] doc.blocks@[i]))
            && doc.metadata is None ==> exists|ps: Seq<Seq<char>>|
            ps.len() == doc.blocks@.len() && (forall|i: int|
                0 <= i < ps.len() ==> top_piece(doc.blocks@[i], #[trigger] ps[i], opts)) && r.0@
                == collapse_spec(cat(ps)),
{
    let footnotes = collect_footnotes(doc);
    let mut out: Vec<char> = Vec::new();
    let fm_minify: Option<bool> = match &doc.metadata {
        Some(m) => match toml_get(m, "minify_code") {
            Some(v) => toml_as_bool(v),
            None => None,
        },
        None => None,
    };
    if opts.keep_metadata {
        match &doc.metadata {
            Some(meta) => {
                let body = match toml_table_to_string(meta) {
                    Ok(s) => s,
                    Err(_) => String::new(),
                };
                let bc = str_chars(body.as_str());
                push_str(&mut out, "+++\n");
                push_all(&mut out, bc.as_slice());
                if !(bc.len() > 0 && bc[bc.len() - 1] == '\n') {
                    out.push('\n');
                }
                push_str(&mut out, "+++\n\n");
            },
            None => {},
        }
    }
    let mut ctx = Ctx {
        reg,
        opts,
        counter: 0,
        in_footnote: false,
        warnings: Vec::new(),
        frontmatter_minify_code: fm_minify,
        refs: &doc.resolved_refs,
    };
    let ghost simple = simple_blocks(doc.blocks@) && (!opts.keep_metadata || doc.metadata is None);
    proof {
        if simple {
            assert(out@ =~= llm_blocks(doc.blocks@.take(0), opts.strip_emphasis));
        }
    }
    let ghost codey = (forall|i: int| 0 <= i < doc.blocks@.len() ==> simple_or_code(#[trigger] doc.blocks@[i]))
        && doc.metadata is None;
    let ghost mut ps: Seq<Seq<char>> = seq![];
    proof {
        if codey {
            assert(out@ =~= cat(ps));
        }
    }
    let mut i: usize = 0;
    while i < doc.blocks.len()
        invariant
            i <= doc.blocks@.len(),
            simple ==> out@ == llm_blocks(doc.blocks@.take(i as int), opts.strip_emphasis),
            simple ==> ctx.opts == opts && ctx.warnings@.len() == 0,
            codey ==> ps.len() == i && out@ == cat(ps) && ctx.opts == opts && ctx.frontmatter_minify_code is None
                && forall|j: int| 0 <= j < i ==> top_piece(doc.blocks@[j], #[trigger] ps[j], opts),
        decreases doc.blocks@.len() - i,
    {
        proof {
            if simple {
                assert(simple_block(doc.blocks@[i as int]));
            }
            if codey {
                assert(simple_or_code(doc.blocks@[i as int]));
            }
        }
        let ghost before = out@;
        render_block(&doc.blocks[i], &mut ctx, &mut out, 0);
        proof {
            if codey {
                let piece = out@.skip(before.len() as int);
                let b = doc.blocks@[i as int];
                if b is CodeBlock {
                    assert(out@ =~= before + piece);
                } else {
                    assert(simple_block(b));
                    assert(piece =~= llm_block(b, opts.strip_emphasis, 0));
                    assert(out@ =~= before + piece);
                }
                assert(top_piece(b, piece, opts));
                let ps2 = ps.push(piece);
                assert(ps2.drop_last() =~= ps);
                assert forall|j: int| 0 <= j < i + 1 implies top_piece(doc.blocks@[j], #[trigger] ps2[j], opts) by {
                    if j < i {
                        assert(ps2[j] == ps[j]);
                    }
                }
                ps = ps2;
            }
        }
        assert(doc.blocks@.take(i + 1).drop_last() =~= doc.blocks@.take(i as int));
        i = i + 1;
    }
    assert(doc.blocks@.take(doc.blocks@.len() as int) =~= doc.blocks@);
    proof {
        if codey {
            lemma_simple_or_code_plain(doc.blocks@);
        }
    }
    if footnotes.len() > 0 {
        emit_footnotes_section(&footnotes, reg, opts, &doc.resolved_refs, &mut out);
    }
    let collapsed = collapse_newlines(out.as_slice());
    (chars_to_string(collapsed.as_slice()), ctx.warnings)
}

fn push_n(out: &mut Vec<char>, c: char, n: usize)
    ensures
        final(out)@ == old(out)@ + Seq::new(n as nat, |_i: int| c),
{
    let ghost o = out@;
    let mut k: usize = 0;
    while k < n
        invariant
            k <= n,
            out@ == o + Seq::new(k as nat, |_i: int| c),
        decreases n - k,
    {
        out.push(c);
        k = k + 1;
        proof {
            assert(out@ =~= o + Seq::new(k as nat, |_i: int| c));
        }
    }
}

/// Lines of `s` as `str::lines` yields them.
fn lines_of(s: &[char]) -> (r: Vec<(usize, usize)>)
    ensures
        crate::minify::json::ranges_within(r@, s@.len() as int),
        crate::minify::json::same_ranges(r@, crate::minify::json::line_ranges(s@)),
{
    crate::minify::json::split_lines(s)
}

fn render_block(b: &Block, ctx: &mut Ctx, out: &mut Vec<char>, indent: usize)
    ensures
        b matches Block::Table { header, rows, .. } ==> plain_table(*header, rows@) ==> final(out)@ == old(out)@
            + llm_table(llm_grid(*header, rows@, old(ctx).opts.strip_emphasis), old(ctx).opts.keep_table_rule),
        b matches Block::CodeBlock { lang, body, attrs, .. } ==> body@.len() < usize::MAX ==> final(out)@.len()
            >= old(out)@.len() && final(out)@.take(old(out)@.len() as int) == old(out)@ && code_piece(
            string_tag(*lang),
            body@,
            *attrs,
            old(ctx).opts,
            old(ctx).frontmatter_minify_code,
            final(out)@.skip(old(out)@.len() as int),
        ) && final(ctx).opts == old(ctx).opts && final(ctx).frontmatter_minify_code
            == old(ctx).frontmatter_minify_code,
        simple_block(*b) ==> final(out)@ == old(out)@ + llm_block(*b, old(ctx).opts.strip_emphasis, indent as nat)
            && final(ctx).opts == old(ctx).opts && final(ctx).warnings@ == old(ctx).warnings@
            && final(ctx).frontmatter_minify_code == old(ctx).frontmatter_minify_code,
    decreases b, 2nat,
{
    match b {
        Block::Heading { level, content, .. } => {
            push_n(out, '#', *level as usize);
            out.push(' ');
            render_inline_seq(content, ctx, out);
            out.push('\n');
            proof {
                if simple_block(*b) {
                    assert(out@ =~= old(out)@ + llm_block(*b, old(ctx).opts.strip_emphasis, indent as nat));
                }
            }
        },
        Block::Paragraph { content, .. } => {
            if content.len() == 0 {
                assert(old(out)@ + llm_block(*b, old(ctx).opts.strip_emphasis, indent as nat) =~= old(out)@);
                return;
            }
            push_n(out, ' ', indent);
            render_inline_seq(content, ctx, out);
            out.push('\n');
            proof {
                if simple_block(*b) {
                    assert(out@ =~= old(out)@ + llm_block(*b, old(ctx).opts.strip_emphasis, indent as nat));
                }
            }
        },
        Block::List { ordered, items, .. } => {
            let mut k: usize = 0;
            while k < items.len()
                invariant
                    k <= items@.len(),
                decreases items@.len() - k,
            {
                push_n(out, ' ', indent);
                if *ordered {
                    push_usize(out, k + 1);
                    out.push('.');
                } else {
                    out.push('-');
                }
                out.push(' ');
                match items[k].task {
                    Some(TaskState::Done) => push_str(out, "[x] "),
                    Some(TaskState::Todo) => push_str(out, "[ ] "),
                    None => {},
                }
                render_inline_seq(&items[k].content, ctx, out);
                out.push('\n');
                proof {
                    assert(decreases_to!(*b => items@[k as int]));
                    assert(decreases_to!(items@[k as int] => items@[k as int].children));
                }
                let child_indent = if indent < usize::MAX {
                    indent + 1
                } else {
                    indent
                };
                render_blocks_in(b, &items[k].children, ctx, out, child_indent);
                k = k + 1;
            }
        },
        Block::Blockquote { children, .. } => {
            let mut k: usize = 0;
            while k < children.len()
                invariant
                    k <= children@.len(),
                decreases children@.len() - k,
            {
                let mut s: Vec<char> = Vec::new();
                proof {
                    assert(decreases_to!(*b => children@[k as int]));
                }
                render_block(&children[k], ctx, &mut s, 0);
                let lines = lines_of(s.as_slice());
                let mut j: usize = 0;
                while j < lines.len()
                    invariant
                        crate::minify::json::ranges_within(lines@, s@.len() as int),
                    decreases lines@.len() - j,
                {
                    let (x, y) = lines[j];
                    proof {
                        assert(lines@[j as int].0 <= lines@[j as int].1);
                    }
                    push_str(out, "> ");
                    push_range(out, s.as_slice(), x, y);
                    out.push('\n');
                    j = j + 1;
                }
                k = k + 1;
            }
        },
        Block::CodeBlock { lang, body, attrs, .. } => {
            let l: Option<&str> = match lang {
                Some(x) => Some(x.as_str()),
                None => None,
            };
            assert(tag_text(l) == string_tag(*lang));
            let ghost o = out@;
            emit_code_block(l, body.as_str(), attrs, ctx, out);
            proof {
                let piece = out@.skip(o.len() as int);
                if body@.len() < usize::MAX {
                    if minifies(string_tag(*lang), body@, *attrs, old(ctx).opts, old(ctx).frontmatter_minify_code) {
                        let t = choose|t: Seq<char>|
                            out@ == o + #[trigger] llm_code(tag_text(l), t, old(ctx).opts.preserve_code_fences) && (
                            l matches Some(ll) && crate::minify::minified_as(
                                crate::minify::spec_family(Seq::new(ll@.len(), |i: int| ascii_lower(ll@[i]))).unwrap(),
                                body@,
                                attrs.keep_comments,
                                t,
                            ));
                        assert(piece =~= llm_code(string_tag(*lang), t, old(ctx).opts.preserve_code_fences));
                    } else {
                        assert(piece =~= llm_code(string_tag(*lang), body@, old(ctx).opts.preserve_code_fences));
                    }
                    assert(out@.take(o.len() as int) =~= o);
                }
            }
        },
        Block::Table { header, rows, .. } => render_table(header, rows, ctx, out),
        Block::DefinitionList { items, .. } => {
            push_str(out, "@dl\n");
            let mut k: usize = 0;
            while k < items.len()
                decreases items@.len() - k,
            {
                render_inline_seq(&items[k].term, ctx, out);
                out.push('\n');
                push_str(out, ": ");
                render_inline_seq(&items[k].definition, ctx, out);
                out.push('\n');
                k = k + 1;
            }
            push_str(out, "@end\n");
        },
        Block::HorizontalRule { .. } => push_str(out, "---\n"),
        Block::BlockShortcode { name, args, children, .. } => {
            render_block_shortcode(b, name.as_str(), args, children, ctx, out, indent);
        },
    }
}

/// `llm_block` at `indent` over a sequence, in order.
pub open spec fn llm_blocks_at(v: Seq<Block>, strip: bool, indent: nat) -> Seq<char>
    decreases v.len(),
{
    if v.len() == 0 {
        seq![]
    } else {
        llm_blocks_at(v.drop_last(), strip, indent) + llm_block(v.last(), strip, indent)
    }
}

fn render_blocks_in(parent: &Block, v: &Vec<Block>, ctx: &mut Ctx, out: &mut Vec<char>, indent: usize)
    requires
        decreases_to!(*parent => *v),
    ensures
        simple_blocks(v@) ==> final(out)@ == old(out)@ + llm_blocks_at(v@, old(ctx).opts.strip_emphasis, indent as nat)
            && final(ctx).opts == old(ctx).opts && final(ctx).warnings@ == old(ctx).warnings@
            && final(ctx).frontmatter_minify_code == old(ctx).frontmatter_minify_code,
    decreases parent, 0nat,
{
    let ghost o = out@;
    let ghost simple = simple_blocks(v@);
    let mut i: usize = 0;
    assert(v@.take(0) =~= Seq::<Block>::empty());
    while i < v.len()
        invariant
            i <= v@.len(),
            decreases_to!(*parent => *v),
            simple == simple_blocks(v@),
            simple ==> out@ == o + llm_blocks_at(v@.take(i as int), old(ctx).opts.strip_emphasis, indent as nat)
                && ctx.opts == old(ctx).opts && ctx.warnings@ == old(ctx).warnings@
                && ctx.frontmatter_minify_code == old(ctx).frontmatter_minify_code,
        decreases v@.len() - i,
    {
        proof {
            assert(decreases_to!(*v => v@[i as int]));
            if simple {
                assert(simple_block(v@[i as int]));
            }
            assert(v@.take(i + 1).drop_last() =~= v@.take(i as int));
        }
        render_block(&v[i], ctx, out, indent);
        i = i + 1;
    }
    assert(v@.take(v@.len() as int) =~= v@);
}

/// How the LLM output writes a block shortcode without a template, given
/// the text of its children.
pub open spec fn llm_block_shortcode(name: Seq<char>, args: ShortArgs, body: Seq<char>) -> Seq<char> {
    if name == "callout"@ {
        "[!"@ + (match kw_opt(args, "kind"@) {
            Some(k) => k,
            None => "info"@,
        }) + "]\n"@ + body + "[/!]\n"@
    } else if name == "details"@ {
        "[details: \""@ + kw_or_empty(args, "summary"@) + "\"]\n"@ + body + "[/details]\n"@
    } else if name == "math"@ {
        "$$"@ + crate::text::trimmed(body, 0, body.len() as int) + "$$\n"@
    } else {
        seq!['@'] + name + seq!['\n'] + body + "@end\n"@
    }
}

#[verifier::rlimit(60)]
#[verifier::spinoff_prover]
fn render_block_shortcode(parent: &Block, name: &str, args: &ShortArgs, children: &Vec<Block>, ctx: &mut Ctx, out: &mut Vec<char>, indent: usize)
    requires
        decreases_to!(*parent => *children),
    ensures
        (old(ctx).reg.map.spec_get(name@) matches Some(sc) ==> sc.template_llm is None) && simple_blocks(children@)
            ==> final(out)@ == old(out)@ + llm_block_shortcode(
            name@,
            *args,
            llm_blocks_at(children@, old(ctx).opts.strip_emphasis, indent as nat),
        ),
    decreases parent, 1nat,
{
    let ghost o = out@;
    let ghost body = llm_blocks_at(children@, ctx.opts.strip_emphasis, indent as nat);
    let ghost simple = simple_blocks(children@);
    proof {
        reveal_strlit("callout");
        reveal_strlit("details");
        reveal_strlit("math");
        reveal_strlit("");
    }
    match ctx.reg.get(name) {
        Some(sc) => match &sc.template_llm {
            Some(t) => {
                let mut inner: Vec<char> = Vec::new();
                render_blocks_in(parent, children, ctx, &mut inner, indent);
                let tv = str_chars(t.as_str());
                expand_template_llm(tv.as_slice(), args, inner.as_slice(), out);
                return;
            },
            None => {},
        },
        None => {},
    }
    if str_eq(name, "callout") {
        let kind = match kw_str(args, "kind") {
            Some(k) => k,
            None => "info",
        };
        push_str(out, "[!");
        push_str(out, kind);
        push_str(out, "]\n");
        let ghost o1 = out@;
        render_blocks_in(parent, children, ctx, out, indent);
        let ghost o2 = out@;
        push_str(out, "[/!]\n");
        proof {
            if simple {
                assert(kind@ == match kw_opt(*args, "kind"@) {
                    Some(k) => k,
                    None => "info"@,
                });
                assert(o2 == o1 + body);
                assert(out@ =~= o + llm_block_shortcode(name@, *args, body));
            }
        }
    } else if str_eq(name, "details") {
        let summary = match kw_str(args, "summary") {
            Some(k) => k,
            None => "",
        };
        push_str(out, "[details: \"");
        push_str(out, summary);
        push_str(out, "\"]\n");
        let ghost o1 = out@;
        render_blocks_in(parent, children, ctx, out, indent);
        let ghost o2 = out@;
        push_str(out, "[/details]\n");
        proof {
            if simple {
                assert(summary@ == kw_or_empty(*args, "summary"@));
                assert(o2 == o1 + body);
                assert(out@ =~= o + llm_block_shortcode(name@, *args, body));
            }
        }
    } else if str_eq(name, "math") {
        let mut s: Vec<char> = Vec::new();
        render_blocks_in(parent, children, ctx, &mut s, indent);
        let (x, y) = trim_bounds(s.as_slice(), 0, s.len());
        push_str(out, "$$");
        push_range(out, s.as_slice(), x, y);
        push_str(out, "$$\n");
        proof {
            if simple {
                assert(s@ =~= body);
                assert(out@ =~= o + llm_block_shortcode(name@, *args, body));
            }
        }
    } else {
        out.push('@');
        push_str(out, name);
        out.push('\n');
        let ghost o1 = out@;
        render_blocks_in(parent, children, ctx, out, indent);
        let ghost o2 = out@;
        push_str(out, "@end\n");
        proof {
            if simple {
                assert(o2 == o1 + body);
                assert(out@ =~= o + llm_block_shortcode(name@, *args, body));
            }
        }
    }
}

/// ASCII lowercase of `c`.
pub open spec fn ascii_lower(c: char) -> char {
    if 'A' <= c && c <= 'Z' {
        ((c as u32) + 32) as char
    } else {
        c
    }
}

fn to_ascii_lower(s: &str) -> (r: String)
    ensures
        r@.len() == s@.len(),
        forall|i: int| 0 <= i < s@.len() ==> r@[i] == ascii_lower(#[trigger] s@[i]),
{
    let c = str_chars(s);
    let mut v: Vec<char> = Vec::new();
    let mut i: usize = 0;
    while i < c.len()
        invariant
            i <= c@.len(),
            c@ == s@,
            v@.len() == i,
            forall|k: int| 0 <= k < i ==> v@[k] == ascii_lower(#[trigger] c@[k]),
        decreases c@.len() - i,
    {
        let x = c[i];
        let y = if 'A' <= x && x <= 'Z' {
            ((x as u8) + 32) as char
        } else {
            x
        };
        v.push(y);
        i = i + 1;
    }
    chars_to_string(v.as_slice())
}

/// Do `a` and `b` agree up to ASCII case?
fn eq_ignore_ascii_case(a: &str, b: &str) -> (r: bool)
    ensures
        r == (a@.len() == b@.len() && forall|i: int| 0 <= i < a@.len() ==> ascii_lower(#[trigger] a@[i]) == ascii_lower(b@[i])),
{
    let x = to_ascii_lower(a);
    let y = to_ascii_lower(b);
    let r = str_eq(x.as_str(), y.as_str());
    proof {
        if a@.len() == b@.len() && !r {
            assert(!(x@ =~= y@));
            assert(exists|i: int| 0 <= i < x@.len() && x@[i] != y@[i]);
            let i = choose|i: int| 0 <= i < x@.len() && x@[i] != y@[i];
            assert(x@[i] == ascii_lower(a@[i]) && y@[i] == ascii_lower(b@[i]));
            assert(!(ascii_lower(a@[i]) == ascii_lower(b@[i])));
        }
        if r {
            assert forall|i: int| 0 <= i < a@.len() implies ascii_lower(#[trigger] a@[i]) == ascii_lower(b@[i]) by {
                assert(x@[i] == y@[i]);
            }
        }
    }
    r
}

/// Is `lang` (case-insensitively) in the minify allowlist?
/// `a` and `b` agree up to ASCII case.
pub open spec fn ci_eq(a: Seq<char>, b: Seq<char>) -> bool {
    a.len() == b.len() && forall|i: int| 0 <= i < a.len() ==> ascii_lower(#[trigger] a[i]) == ascii_lower(b[i])
}

fn in_allowlist(opts: &Opts, lang: &str) -> (r: bool)
    ensures
        r == exists|k: int| 0 <= k < opts.minify_languages@.len() && ci_eq(
            #[trigger] opts.minify_languages@[k]@,
            lang@,
        ),
{
    let mut k: usize = 0;
    while k < opts.minify_languages.len()
        invariant
            k <= opts.minify_languages@.len(),
            forall|j: int| 0 <= j < k ==> !ci_eq(#[trigger] opts.minify_languages@[j]@, lang@),
        decreases opts.minify_languages@.len() - k,
    {
        if eq_ignore_ascii_case(opts.minify_languages[k].as_str(), lang) {
            return true;
        }
        k = k + 1;
    }
    false
}

/// A code block as the LLM output writes it: fenced with its language
/// when `fences`, else the bare text; either way ending in a line break.
pub open spec fn llm_code(lang: Option<Seq<char>>, text: Seq<char>, fences: bool) -> Seq<char> {
    if fences {
        "```"@ + (match lang {
            Some(l) => l,
            None => seq![],
        }) + seq!['\n'] + text + seq!['\n'] + "```\n"@
    } else {
        text + seq!['\n']
    }
}

fn emit_code_block(lang: Option<&str>, body: &str, attrs: &CodeAttrs, ctx: &mut Ctx, out: &mut Vec<char>)
    ensures
        exists|t: Seq<char>|
            final(out)@ == old(out)@ + #[trigger] llm_code(tag_text(lang), t, old(ctx).opts.preserve_code_fences)
                && (t == body@ || (lang matches Some(l) && crate::minify::minified_as(
                crate::minify::spec_family(Seq::new(l@.len(), |i: int| ascii_lower(l@[i]))).unwrap(),
                body@,
                attrs.keep_comments,
                t,
            ))),
        attrs.nominify || lang is None ==> final(out)@ == old(out)@ + llm_code(
            tag_text(lang),
            body@,
            old(ctx).opts.preserve_code_fences,
        ),
        body@.len() < usize::MAX && !minifies(tag_text(lang), body@, *attrs, old(ctx).opts, old(ctx).frontmatter_minify_code)
            ==> final(out)@ == old(out)@ + llm_code(tag_text(lang), body@, old(ctx).opts.preserve_code_fences),
        body@.len() < usize::MAX && minifies(tag_text(lang), body@, *attrs, old(ctx).opts, old(ctx).frontmatter_minify_code)
            ==> exists|t: Seq<char>|
            final(out)@ == old(out)@ + #[trigger] llm_code(tag_text(lang), t, old(ctx).opts.preserve_code_fences) && (
            lang matches Some(l) && crate::minify::minified_as(
                crate::minify::spec_family(Seq::new(l@.len(), |i: int| ascii_lower(l@[i]))).unwrap(),
                body@,
                attrs.keep_comments,
                t,
            )),
        final(ctx).opts == old(ctx).opts,
        final(ctx).frontmatter_minify_code == old(ctx).frontmatter_minify_code,
{
    let ghost o0 = out@;
    let minified = try_minify(lang, body, attrs, ctx);
    let text: &str = match &minified {
        Some(m) => m.as_str(),
        None => body,
    };
    if ctx.opts.preserve_code_fences {
        push_str(out, "```");
        match lang {
            Some(l) => push_str(out, l),
            None => {},
        }
        out.push('\n');
        push_str(out, text);
        out.push('\n');
        push_str(out, "```\n");
        assert(out@ =~= o0 + llm_code(tag_text(lang), text@, true));
    } else {
        push_str(out, text);
        out.push('\n');
        assert(out@ =~= o0 + llm_code(tag_text(lang), text@, false));
    }
}

fn push_warning(ctx: &mut Ctx, m: Vec<char>)
    ensures
        final(ctx).warnings@ == old(ctx).warnings@.push(final(ctx).warnings@.last()),
        final(ctx).warnings@.last()@ == m@,
        final(ctx).opts == old(ctx).opts,
        final(ctx).reg == old(ctx).reg,
        final(ctx).refs == old(ctx).refs,
        final(ctx).counter == old(ctx).counter,
        final(ctx).in_footnote == old(ctx).in_footnote,
        final(ctx).frontmatter_minify_code == old(ctx).frontmatter_minify_code,
{
    ctx.warnings.push(chars_to_string(m.as_slice()));
}

/// The text of an optional language tag.
pub open spec fn tag_text(lang: Option<&str>) -> Option<Seq<char>> {
    match lang {
        Some(l) => Some(l@),
        None => None,
    }
}

/// A code block in language `lang` with body `body` is minified: it is not
/// marked `@nominify`, its (lowercased) language has a minifier and is not
/// refused, minification is forced by `@minify` / `@minify-keep-comments` or
/// else enabled (not switched off by the frontmatter `fm`, on in `opts`, the
/// language in the allow-list), and the minifier accepts the body.
pub open spec fn minifies(lang: Option<Seq<char>>, body: Seq<char>, attrs: CodeAttrs, opts: &Opts, fm: Option<bool>) -> bool {
    lang matches Some(l) && {
        let lc = Seq::new(l.len(), |i: int| ascii_lower(l[i]));
        &&& !attrs.nominify
        &&& !crate::minify::spec_refused(lc)
        &&& crate::minify::spec_family(lc) is Some
        &&& (attrs.minify || attrs.keep_comments || (fm != Some(false) && opts.minify_code_blocks && exists|k: int|
            0 <= k < opts.minify_languages@.len() && ci_eq(#[trigger] opts.minify_languages@[k]@, lc)))
        &&& crate::minify::minify_ok(crate::minify::spec_family(lc).unwrap(), body)
    }
}

/// Minify the body of a code block when the options and attributes allow
/// it; warnings go to `ctx.warnings`. `None` means: emit verbatim.
fn try_minify(lang: Option<&str>, body: &str, attrs: &CodeAttrs, ctx: &mut Ctx) -> (r: Option<String>)
    ensures
        body@.len() < usize::MAX ==> (r is Some <==> minifies(
            tag_text(lang),
            body@,
            *attrs,
            old(ctx).opts,
            old(ctx).frontmatter_minify_code,
        )),
        attrs.nominify ==> r is None,
        lang is None ==> r is None,
        r is Some ==> (lang matches Some(l) && crate::minify::spec_family(
            Seq::new(l@.len(), |i: int| ascii_lower(l@[i])),
        ).is_some() && !crate::minify::spec_refused(Seq::new(l@.len(), |i: int| ascii_lower(l@[i])))),
        r matches Some(t) ==> lang matches Some(l) && crate::minify::minified_as(
            crate::minify::spec_family(Seq::new(l@.len(), |i: int| ascii_lower(l@[i]))).unwrap(),
            body@,
            attrs.keep_comments,
            t@,
        ),
        !(attrs.minify || attrs.keep_comments) && old(ctx).frontmatter_minify_code == Some(false)
            ==> r is None,
        !(attrs.minify || attrs.keep_comments) && !old(ctx).opts.minify_code_blocks ==> r is None,
        (lang matches Some(l) && !attrs.nominify && (attrs.minify || attrs.keep_comments)
            && crate::minify::spec_refused(Seq::new(l@.len(), |i: int| ascii_lower(l@[i]))))
            ==> final(ctx).warnings@.len() == old(ctx).warnings@.len() + 1
            && final(ctx).warnings@.last()@.take(12) == "error[B0704]"@,
        final(ctx).opts == old(ctx).opts,
        final(ctx).frontmatter_minify_code == old(ctx).frontmatter_minify_code,
        final(ctx).warnings@.len() >= old(ctx).warnings@.len(),
{
    if attrs.nominify {
        return None;
    }
    let lang = match lang {
        Some(l) => l,
        None => {
            return None;
        },
    };
    let lc = to_ascii_lower(lang);
    proof {
        assert(lc@ == Seq::new(lang@.len(), |i: int| ascii_lower(lang@[i])));
    }
    let force = attrs.minify || attrs.keep_comments;
    match refusal_reason(lc.as_str()) {
        Some(reason) => {
            if force || in_allowlist(ctx.opts, lc.as_str()) {
                let mut m: Vec<char> = Vec::new();
                push_str(&mut m, "error[B0704]: language `");
                let ghost head = m@;
                proof {
                    reveal_strlit("error[B0704]: language `");
                    reveal_strlit("error[B0704]");
                    assert(head.take(12) =~= "error[B0704]"@);
                }
                push_str(&mut m, lang);
                push_str(&mut m, "` cannot be minified \u{2014} ");
                push_str(&mut m, reason);
                assert(m@.take(12) =~= head.take(12));
                push_warning(ctx, m);
            }
            return None;
        },
        None => {},
    }
    if !force {
        if ctx.frontmatter_minify_code == Some(false) {
            return None;
        }
        if !ctx.opts.minify_code_blocks {
            return None;
        }
    }
    let allowed = in_allowlist(ctx.opts, lc.as_str());
    if !allowed && !force {
        return None;
    }
    if !is_supported(lc.as_str()) {
        return None;
    }
    let mopts = MinifyOptions { keep_comments: attrs.keep_comments };
    match minify(lc.as_str(), body, &mopts) {
        Ok(res) => {
            let mut k: usize = 0;
            while k < res.warnings.len()
                invariant
                    ctx.opts == old(ctx).opts,
                    ctx.frontmatter_minify_code == old(ctx).frontmatter_minify_code,
                    ctx.warnings@.len() >= old(ctx).warnings@.len(),
                decreases res.warnings@.len() - k,
            {
                match res.warnings[k] {
                    MinifyWarning::LineCommentConverted => {
                        let mut m: Vec<char> = Vec::new();
                        push_str(&mut m, "warning[B0703]: line comment converted to block form for minification in `");
                        push_str(&mut m, lang);
                        push_str(&mut m, "` block; verify no `*/` content");
                        push_warning(ctx, m);
                    },
                }
                k = k + 1;
            }
            let bc = str_chars(body);
            let n_lines = lines_of(bc.as_slice()).len();
            if n_lines > LONG_BLOCK_LINE_THRESHOLD {
                let mut m: Vec<char> = Vec::new();
                push_str(&mut m, "warning[B0702]: minified code block was originally ");
                push_usize(&mut m, n_lines);
                push_str(&mut m, " lines. LLM consumers cannot reference specific lines after minification. Consider @nominify if line references matter.");
                push_warning(ctx, m);
            }
            Some(res.body)
        },
        Err(e) => {
            let mut m: Vec<char> = Vec::new();
            push_str(&mut m, "warning[B0701]: code block tagged `");
            push_str(&mut m, lang);
            push_str(&mut m, "` did not parse; emitted verbatim (");
            push_str(&mut m, e.message.as_str());
            m.push(')');
            push_warning(ctx, m);
            None
        },
    }
}

/// The rendered cells of a row whose cells hold only text and emphasis.
pub open spec fn llm_cells(cells: Seq<Vec<Inline>>, strip: bool) -> Seq<Seq<char>> {
    Seq::new(cells.len(), |c: int| llm_inlines(cells[c]@, strip))
}

/// A table as rendered cells: the header row, then each body row in order.
pub open spec fn llm_grid(header: Row, rows: Seq<Row>, strip: bool) -> Seq<Seq<Seq<char>>> {
    seq![llm_cells(header.cells@, strip)] + rows.map_values(|r: Row| llm_cells(r.cells@, strip))
}

/// A grid of cells as plain values.
pub open spec fn grid_view(g: Seq<Vec<Vec<char>>>) -> Seq<Seq<Seq<char>>> {
    g.map_values(|row: Vec<Vec<char>>| row@.map_values(|c: Vec<char>| c@))
}

/// The most cells in one of the first `n` rows.
pub open spec fn col_count(g: Seq<Seq<Seq<char>>>, n: int) -> nat
    decreases n,
{
    if n <= 0 {
        0
    } else {
        let m = col_count(g, n - 1);
        if g[n - 1].len() > m {
            g[n - 1].len()
        } else {
            m
        }
    }
}

/// The widest cell (in chars) of column `c` among the first `n` rows.
pub open spec fn col_width(g: Seq<Seq<Seq<char>>>, c: int, n: int) -> nat
    decreases n,
{
    if n <= 0 {
        0
    } else {
        let m = col_width(g, c, n - 1);
        if c < g[n - 1].len() && g[n - 1][c].len() > m {
            g[n - 1][c].len()
        } else {
            m
        }
    }
}

/// The width column `c` is padded to.
pub open spec fn pad_width(g: Seq<Seq<Seq<char>>>, c: int) -> nat {
    if c < col_count(g, g.len() as int) {
        col_width(g, c, g.len() as int)
    } else {
        0
    }
}

/// `n` copies of `ch`.
pub open spec fn fill(ch: char, n: nat) -> Seq<char> {
    Seq::new(n, |_i: int| ch)
}

/// The first `k` cells of `row`, each as ` cell` padded to its column's
/// width, then ` |`.
pub open spec fn row_cells_text(g: Seq<Seq<Seq<char>>>, row: Seq<Seq<char>>, k: int) -> Seq<char>
    decreases k,
{
    if k <= 0 {
        seq![]
    } else {
        let cell = row[k - 1];
        let w = pad_width(g, k - 1);
        row_cells_text(g, row, k - 1) + seq![' '] + cell + fill(' ', if cell.len() < w { (w - cell.len()) as nat } else { 0 })
            + " |"@
    }
}

/// The line of row `r`: `|`, its cells, a line break.
pub open spec fn row_line(g: Seq<Seq<Seq<char>>>, r: int) -> Seq<char> {
    seq!['|'] + row_cells_text(g, g[r], g[r].len() as int) + seq!['\n']
}

/// Dashes for a column of width `w`, with its two spaces.
pub open spec fn dash_len(w: nat) -> nat {
    if w <= usize::MAX - 2 {
        w + 2
    } else {
        w
    }
}

/// The dash rules of the first `k` columns, each followed by `|`.
pub open spec fn rule_text(g: Seq<Seq<Seq<char>>>, k: int) -> Seq<char>
    decreases k,
{
    if k <= 0 {
        seq![]
    } else {
        rule_text(g, k - 1) + fill('-', dash_len(col_width(g, k - 1, g.len() as int))) + seq!['|']
    }
}

/// The rule under the header row.
pub open spec fn rule_line(g: Seq<Seq<Seq<char>>>) -> Seq<char> {
    seq!['|'] + rule_text(g, col_count(g, g.len() as int) as int) + seq!['\n']
}

/// The lines of the first `n` rows, in order, the rule after the header
/// when `keep`.
pub open spec fn table_lines(g: Seq<Seq<Seq<char>>>, keep: bool, n: int) -> Seq<char>
    decreases n,
{
    if n <= 0 {
        seq![]
    } else {
        table_lines(g, keep, n - 1) + row_line(g, n - 1) + if n - 1 == 0 && keep {
            rule_line(g)
        } else {
            seq![]
        }
    }
}

/// A table in LLM form: one line per row, the header first.
pub open spec fn llm_table(g: Seq<Seq<Seq<char>>>, keep: bool) -> Seq<char> {
    table_lines(g, keep, g.len() as int)
}

/// The lines of the first `k` rows come first in those of the first `m`.
proof fn lemma_table_lines_prefix(g: Seq<Seq<Seq<char>>>, keep: bool, k: int, m: int)
    requires
        0 <= k <= m,
    ensures
        table_lines(g, keep, k).len() <= table_lines(g, keep, m).len(),
        table_lines(g, keep, m).take(table_lines(g, keep, k).len() as int) == table_lines(g, keep, k),
    decreases m,
{
    if m > k {
        lemma_table_lines_prefix(g, keep, k, m - 1);
        let a = table_lines(g, keep, k);
        let b = table_lines(g, keep, m - 1);
        assert(table_lines(g, keep, m).take(a.len() as int) =~= b.take(a.len() as int));
    } else {
        assert(table_lines(g, keep, m).take(table_lines(g, keep, k).len() as int) =~= table_lines(g, keep, k));
    }
}

/// The LLM form of a table whose cells hold only text and emphasis has one
/// line per row, in order: the header's line, then for each body row `k`
/// a line made of that row's rendered cells, right after the lines of the
/// rows before it.
pub proof fn law_llm_table_row_lines(header: Row, rows: Seq<Row>, strip: bool, keep: bool, k: int)
    requires
        0 <= k < rows.len(),
    ensures
        ({
            let g = llm_grid(header, rows, strip);
            let before = table_lines(g, keep, k + 1);
            &&& g.len() == rows.len() + 1
            &&& g[0] == Seq::new(header.cells@.len(), |c: int| llm_inlines(header.cells@[c]@, strip))
            &&& g[k + 1] == Seq::new(rows[k].cells@.len(), |c: int| llm_inlines(rows[k].cells@[c]@, strip))
            &&& before.len() + row_line(g, k + 1).len() <= llm_table(g, keep).len()
            &&& llm_table(g, keep).subrange(before.len() as int, (before.len() + row_line(g, k + 1).len()) as int)
                == row_line(g, k + 1)
        }),
{
    let g = llm_grid(header, rows, strip);
    assert(g[k + 1] == llm_cells(rows[k].cells@, strip));
    lemma_table_lines_prefix(g, keep, k + 2, g.len() as int);
    let before = table_lines(g, keep, k + 1);
    let t2 = table_lines(g, keep, k + 2);
    assert(t2 == before + row_line(g, k + 1) + (if k + 1 == 0 && keep { rule_line(g) } else { seq![] }));
    assert(llm_table(g, keep).subrange(before.len() as int, (before.len() + row_line(g, k + 1).len()) as int) =~= t2.subrange(
        before.len() as int,
        (before.len() + row_line(g, k + 1).len()) as int,
    ));
    assert(t2.subrange(before.len() as int, (before.len() + row_line(g, k + 1).len()) as int) =~= row_line(g, k + 1));
}

fn render_cells(cells: &Vec<Vec<Inline>>, ctx: &mut Ctx) -> (r: Vec<Vec<char>>)
    ensures
        r@.len() == cells@.len(),
        (forall|c: int| 0 <= c < cells@.len() ==> markup_only_seq(#[trigger] cells@[c]@)) ==> r@.map_values(
            |v: Vec<char>| v@,
        ) == llm_cells(cells@, old(ctx).opts.strip_emphasis) && final(ctx).opts == old(ctx).opts
            && final(ctx).warnings@ == old(ctx).warnings@ && final(ctx).frontmatter_minify_code
            == old(ctx).frontmatter_minify_code,
{
    let ghost plain = forall|c: int| 0 <= c < cells@.len() ==> markup_only_seq(#[trigger] cells@[c]@);
    let ghost strip = ctx.opts.strip_emphasis;
    let mut row: Vec<Vec<char>> = Vec::new();
    let mut c: usize = 0;
    while c < cells.len()
        invariant
            c <= cells@.len(),
            row@.len() == c,
            plain ==> ctx.opts == old(ctx).opts && ctx.warnings@ == old(ctx).warnings@
                && ctx.frontmatter_minify_code == old(ctx).frontmatter_minify_code && forall|j: int|
                0 <= j < c ==> (#[trigger] row@[j])@ == llm_inlines(cells@[j]@, strip),
        decreases cells@.len() - c,
    {
        let mut s: Vec<char> = Vec::new();
        proof {
            if plain {
                assert(markup_only_seq(cells@[c as int]@));
            }
        }
        render_inline_seq(&cells[c], ctx, &mut s);
        proof {
            if plain {
                assert(s@ =~= llm_inlines(cells@[c as int]@, strip));
            }
        }
        row.push(s);
        c = c + 1;
    }
    proof {
        if plain {
            assert(row@.map_values(|v: Vec<char>| v@) =~= llm_cells(cells@, strip));
        }
    }
    row
}

/// Every cell of the header and of each body row holds only text and
/// emphasis.
pub open spec fn plain_table(header: Row, rows: Seq<Row>) -> bool {
    &&& forall|c: int| 0 <= c < header.cells@.len() ==> markup_only_seq(#[trigger] header.cells@[c]@)
    &&& forall|k: int, c: int|
        0 <= k < rows.len() && 0 <= c < rows[k].cells@.len() ==> markup_only_seq(#[trigger] rows[k].cells@[c]@)
}

/// The rendered cells of the header, then of each body row.
fn build_grid(header: &Row, rows: &Vec<Row>, ctx: &mut Ctx) -> (grid: Vec<Vec<Vec<char>>>)
    ensures
        grid@.len() == rows@.len() + 1,
        plain_table(*header, rows@) ==> grid_view(grid@) == llm_grid(*header, rows@, old(ctx).opts.strip_emphasis)
            && final(ctx).opts == old(ctx).opts && final(ctx).warnings@ == old(ctx).warnings@
            && final(ctx).frontmatter_minify_code == old(ctx).frontmatter_minify_code,
{
    let ghost plain = plain_table(*header, rows@);
    let ghost strip = ctx.opts.strip_emphasis;
    let ghost want = llm_grid(*header, rows@, strip);
    let mut grid: Vec<Vec<Vec<char>>> = Vec::new();
    grid.push(render_cells(&header.cells, ctx));
    proof {
        if plain {
            assert(grid_view(grid@)[0] == want[0]);
        }
    }
    let mut r: usize = 0;
    while r < rows.len()
        invariant
            r <= rows@.len(),
            grid@.len() == r + 1,
            plain == plain_table(*header, rows@),
            want == llm_grid(*header, rows@, strip),
            plain ==> ctx.opts == old(ctx).opts && ctx.warnings@ == old(ctx).warnings@
                && ctx.frontmatter_minify_code == old(ctx).frontmatter_minify_code && strip == ctx.opts.strip_emphasis
                && forall|k: int| 0 <= k <= r ==> (#[trigger] grid_view(grid@)[k]) == want[k],
        decreases rows@.len() - r,
    {
        proof {
            if plain {
                assert forall|c: int| 0 <= c < rows@[r as int].cells@.len() implies markup_only_seq(
                    #[trigger] rows@[r as int].cells@[c]@,
                ) by {}
            }
        }
        let ghost g0 = grid@;
        grid.push(render_cells(&rows[r].cells, ctx));
        proof {
            if plain {
                assert forall|k: int| 0 <= k <= r + 1 implies (#[trigger] grid_view(grid@)[k]) == want[k] by {
                    if k <= r {
                        assert(grid@[k] == g0[k]);
                        assert(grid_view(g0)[k] == want[k]);
                    } else {
                        assert(want[k] == llm_cells(rows@[r as int].cells@, strip));
                    }
                }
            }
        }
        r = r + 1;
    }
    proof {
        if plain {
            assert(grid_view(grid@) =~= want);
        }
    }
    grid
}

/// The number of columns and the width of each.
fn table_widths(grid: &Vec<Vec<Vec<char>>>) -> (r: (usize, Vec<usize>))
    ensures
        r.0 == col_count(grid_view(grid@), grid@.len() as int),
        r.1@.len() == r.0,
        forall|j: int| 0 <= j < r.0 ==> r.1@[j] == col_width(grid_view(grid@), j, grid@.len() as int),
{
    let ghost gv = grid_view(grid@);
    let mut cols: usize = 0;
    let mut r: usize = 0;
    while r < grid.len()
        invariant
            r <= grid@.len(),
            gv == grid_view(grid@),
            cols == col_count(gv, r as int),
        decreases grid@.len() - r,
    {
        assert(gv[r as int].len() == grid@[r as int]@.len());
        if grid[r].len() > cols {
            cols = grid[r].len();
        }
        r = r + 1;
    }
    let mut widths: Vec<usize> = Vec::new();
    let mut c: usize = 0;
    while c < cols
        invariant
            widths@.len() == c,
            c <= cols,
            gv == grid_view(grid@),
            cols == col_count(gv, gv.len() as int),
            forall|j: int| 0 <= j < c ==> widths@[j] == col_width(gv, j, gv.len() as int),
        decreases cols - c,
    {
        let mut w: usize = 0;
        let mut r: usize = 0;
        while r < grid.len()
            invariant
                r <= grid@.len(),
                gv == grid_view(grid@),
                w == col_width(gv, c as int, r as int),
            decreases grid@.len() - r,
        {
            proof {
                if c < grid@[r as int]@.len() {
                    assert(gv[r as int][c as int] == grid@[r as int]@[c as int]@);
                }
            }
            if c < grid[r].len() && grid[r][c].len() > w {
                w = grid[r][c].len();
            }
            r = r + 1;
        }
        widths.push(w);
        c = c + 1;
    }
    (cols, widths)
}

/// The line of row `r`.
fn emit_row(grid: &Vec<Vec<Vec<char>>>, r: usize, widths: &Vec<usize>, out: &mut Vec<char>)
    requires
        r < grid@.len(),
        widths@.len() == col_count(grid_view(grid@), grid@.len() as int),
        forall|j: int| 0 <= j < widths@.len() ==> widths@[j] == col_width(grid_view(grid@), j, grid@.len() as int),
    ensures
        final(out)@ == old(out)@ + row_line(grid_view(grid@), r as int),
{
    let ghost gv = grid_view(grid@);
    let ghost row = gv[r as int];
    let ghost base = out@;
    out.push('|');
    let mut c: usize = 0;
    while c < grid[r].len()
        invariant
            c <= grid@[r as int]@.len(),
            gv == grid_view(grid@),
            row == gv[r as int],
            row.len() == grid@[r as int]@.len(),
            widths@.len() == col_count(gv, gv.len() as int),
            forall|j: int| 0 <= j < widths@.len() ==> widths@[j] == col_width(gv, j, gv.len() as int),
            out@ == base + seq!['|'] + row_cells_text(gv, row, c as int),
        decreases grid@[r as int]@.len() - c,
    {
        let w = if c < widths.len() {
            widths[c]
        } else {
            0
        };
        let cell = &grid[r][c];
        proof {
            assert(row[c as int] == cell@);
            assert(w == pad_width(gv, c as int));
        }
        out.push(' ');
        push_all(out, cell.as_slice());
        if cell.len() < w {
            push_n(out, ' ', w - cell.len());
        }
        push_str(out, " |");
        proof {
            reveal_strlit(" |");
            assert(out@ =~= base + seq!['|'] + row_cells_text(gv, row, c + 1));
        }
        c = c + 1;
    }
    out.push('\n');
    assert(out@ =~= base + row_line(gv, r as int));
}

/// The dash rule under the header.
fn emit_rule(grid: &Vec<Vec<Vec<char>>>, widths: &Vec<usize>, out: &mut Vec<char>)
    requires
        widths@.len() == col_count(grid_view(grid@), grid@.len() as int),
        forall|j: int| 0 <= j < widths@.len() ==> widths@[j] == col_width(grid_view(grid@), j, grid@.len() as int),
    ensures
        final(out)@ == old(out)@ + rule_line(grid_view(grid@)),
{
    let ghost gv = grid_view(grid@);
    let ghost base = out@;
    out.push('|');
    let mut k: usize = 0;
    while k < widths.len()
        invariant
            k <= widths@.len(),
            gv == grid_view(grid@),
            widths@.len() == col_count(gv, gv.len() as int),
            forall|j: int| 0 <= j < widths@.len() ==> widths@[j] == col_width(gv, j, gv.len() as int),
            out@ == base + seq!['|'] + rule_text(gv, k as int),
        decreases widths@.len() - k,
    {
        let n = if widths[k] <= usize::MAX - 2 {
            widths[k] + 2
        } else {
            widths[k]
        };
        push_n(out, '-', n);
        out.push('|');
        proof {
            assert(out@ =~= base + seq!['|'] + rule_text(gv, k + 1));
        }
        k = k + 1;
    }
    out.push('\n');
    assert(out@ =~= base + rule_line(gv));
}

/// A padded table: each cell left-aligned to its column's widest cell (in
/// chars), rows as `| a | b |`, with a dash rule under the header when
/// `keep_table_rule`.
fn render_table(header: &Row, rows: &Vec<Row>, ctx: &mut Ctx, out: &mut Vec<char>)
    ensures
        plain_table(*header, rows@) ==> final(out)@ == old(out)@ + llm_table(
            llm_grid(*header, rows@, old(ctx).opts.strip_emphasis),
            old(ctx).opts.keep_table_rule,
        ) && final(ctx).opts == old(ctx).opts && final(ctx).warnings@ == old(ctx).warnings@
            && final(ctx).frontmatter_minify_code == old(ctx).frontmatter_minify_code,
{
    let grid = build_grid(header, rows, ctx);
    let (_cols, widths) = table_widths(&grid);
    let ghost gv = grid_view(grid@);
    let ghost keep = ctx.opts.keep_table_rule;
    let ghost o = out@;
    let mut r: usize = 0;
    while r < grid.len()
        invariant
            r <= grid@.len(),
            gv == grid_view(grid@),
            widths@.len() == col_count(gv, gv.len() as int),
            forall|j: int| 0 <= j < widths@.len() ==> widths@[j] == col_width(gv, j, gv.len() as int),
            keep == ctx.opts.keep_table_rule,
            out@ == o + table_lines(gv, keep, r as int),
        decreases grid@.len() - r,
    {
        emit_row(&grid, r, &widths, out);
        if r == 0 && ctx.opts.keep_table_rule {
            emit_rule(&grid, &widths, out);
        }
        proof {
            assert(out@ =~= o + table_lines(gv, keep, r + 1));
        }
        r = r + 1;
    }
}

fn render_inline_seq(seq: &Vec<Inline>, ctx: &mut Ctx, out: &mut Vec<char>)
    ensures
        markup_only_seq(seq@) ==> final(out)@ == old(out)@ + llm_inlines(seq@, old(ctx).opts.strip_emphasis)
            && final(ctx).opts == old(ctx).opts && final(ctx).warnings@ == old(ctx).warnings@
            && final(ctx).frontmatter_minify_code == old(ctx).frontmatter_minify_code,
{
    let mut i: usize = 0;
    while i < seq.len()
        invariant
            i <= seq@.len(),
            markup_only_seq(seq@) ==> out@ == old(out)@ + llm_inlines(seq@.take(i as int), old(ctx).opts.strip_emphasis)
                && ctx.opts == old(ctx).opts && ctx.warnings@ == old(ctx).warnings@
                && ctx.frontmatter_minify_code == old(ctx).frontmatter_minify_code,
        decreases seq@.len() - i,
    {
        proof {
            if markup_only_seq(seq@) {
                crate::emit::html::lemma_markup_only_at(seq@, i as int);
            }
        }
        render_inline(&seq[i], ctx, out);
        assert(seq@.take(i + 1).drop_last() =~= seq@.take(i as int));
        i = i + 1;
    }
    assert(seq@.take(seq@.len() as int) =~= seq@);
}

fn render_inlines_in(parent: &Inline, v: &Vec<Inline>, ctx: &mut Ctx, out: &mut Vec<char>)
    requires
        decreases_to!(*parent => *v),
    ensures
        markup_only_seq(v@) ==> final(out)@ == old(out)@ + llm_inlines(v@, old(ctx).opts.strip_emphasis)
            && final(ctx).opts == old(ctx).opts && final(ctx).warnings@ == old(ctx).warnings@
            && final(ctx).frontmatter_minify_code == old(ctx).frontmatter_minify_code,
    decreases parent, 1nat,
{
    let mut i: usize = 0;
    while i < v.len()
        invariant
            i <= v@.len(),
            decreases_to!(*parent => *v),
            markup_only_seq(v@) ==> out@ == old(out)@ + llm_inlines(v@.take(i as int), old(ctx).opts.strip_emphasis)
                && ctx.opts == old(ctx).opts && ctx.warnings@ == old(ctx).warnings@
                && ctx.frontmatter_minify_code == old(ctx).frontmatter_minify_code,
        decreases v@.len() - i,
    {
        proof {
            assert(decreases_to!(*v => v@[i as int]));
            if markup_only_seq(v@) {
                crate::emit::html::lemma_markup_only_at(v@, i as int);
            }
        }
        render_inline(&v[i], ctx, out);
        assert(v@.take(i + 1).drop_last() =~= v@.take(i as int));
        i = i + 1;
    }
    assert(v@.take(v@.len() as int) =~= v@);
}

fn emph_wrap(parent: &Inline, content: &Vec<Inline>, ctx: &mut Ctx, out: &mut Vec<char>, m: char)
    requires
        decreases_to!(*parent => *content),
    ensures
        markup_only_seq(content@) ==> final(out)@ == old(out)@ + wrap_marker(
            llm_inlines(content@, old(ctx).opts.strip_emphasis),
            m,
            old(ctx).opts.strip_emphasis,
        ) && final(ctx).opts == old(ctx).opts && final(ctx).warnings@ == old(ctx).warnings@
            && final(ctx).frontmatter_minify_code == old(ctx).frontmatter_minify_code,
    decreases parent, 2nat,
{
    if ctx.opts.strip_emphasis {
        render_inlines_in(parent, content, ctx, out);
    } else {
        out.push(m);
        render_inlines_in(parent, content, ctx, out);
        out.push(m);
    }
}

/// Text of keyword argument `key` when it is a string or identifier.
fn kw_str<'a>(args: &'a ShortArgs, key: &str) -> (r: Option<&'a str>)
    ensures
        r matches Some(s) ==> args.keyword.spec_get(key@) matches Some(v)
            && crate::shortcode::spec_as_str(v) == Some(s@),
        r is None ==> (args.keyword.spec_get(key@) matches Some(v) ==> crate::shortcode::spec_as_str(
            v,
        ) is None),
{
    match args.keyword.get(key) {
        Some(v) => v.as_str(),
        None => None,
    }
}

fn render_inline(node: &Inline, ctx: &mut Ctx, out: &mut Vec<char>)
    ensures
        markup_only(*node) ==> final(out)@ == old(out)@ + llm_inline(*node, old(ctx).opts.strip_emphasis)
            && final(ctx).opts == old(ctx).opts && final(ctx).warnings@ == old(ctx).warnings@
            && final(ctx).frontmatter_minify_code == old(ctx).frontmatter_minify_code,
    decreases node, 3nat,
{
    match node {
        Inline::Text { value, .. } => push_str(out, value.as_str()),
        Inline::HardBreak { .. } => out.push('\n'),
        Inline::Bold { content, .. } => emph_wrap(node, content, ctx, out, '*'),
        Inline::Italic { content, .. } => emph_wrap(node, content, ctx, out, '_'),
        Inline::Underline { content, .. } => emph_wrap(node, content, ctx, out, '+'),
        Inline::Strike { content, .. } => emph_wrap(node, content, ctx, out, '~'),
        Inline::InlineCode { value, .. } => {
            out.push('`');
            push_str(out, value.as_str());
            out.push('`');
        },
        Inline::Shortcode { name, args, content, span } => {
            if str_eq(name.as_str(), "ref") {
                match ctx.refs.get(span) {
                    Some(r) => push_str(out, r.display.as_str()),
                    None => match kw_str(args, "title") {
                        Some(s) => push_str(out, s),
                        None => {
                            let pos: Option<&str> = if args.positional.len() > 0 {
                                args.positional[0].as_str()
                            } else {
                                None
                            };
                            match pos {
                                Some(s) => push_str(out, s),
                                None => match content {
                                    Some(c) => {
                                        if c.len() == 1 {
                                            match &c[0] {
                                                Inline::Text { value, .. } => push_str(out, value.as_str()),
                                                _ => {},
                                            }
                                        }
                                    },
                                    None => {},
                                },
                            }
                        },
                    },
                }
                return;
            }
            if str_eq(name.as_str(), "footnote") {
                match content {
                    None => {
                        return;
                    },
                    Some(c) => {
                        if ctx.in_footnote {
                            out.push('[');
                            proof {
                                assert(decreases_to!(*node => *c));
                            }
                            render_inlines_in(node, c, ctx, out);
                            out.push(']');
                            return;
                        }
                    },
                }
                ctx.counter = ctx.counter.wrapping_add(1);
                push_str(out, "[^");
                push_usize(out, ctx.counter as usize);
                out.push(']');
                return;
            }
            let inner: Option<Vec<char>> = match content {
                Some(c) => {
                    let mut s: Vec<char> = Vec::new();
                    proof {
                        assert(decreases_to!(*node => *c));
                    }
                    render_inlines_in(node, c, ctx, &mut s);
                    Some(s)
                },
                None => None,
            };
            render_inline_shortcode(name.as_str(), args, inner, ctx, out);
        },
    }
}

/// The string value of keyword argument `key`, if it has one.
pub open spec fn kw_opt(args: ShortArgs, key: Seq<char>) -> Option<Seq<char>> {
    match args.keyword.spec_get(key) {
        Some(v) => crate::shortcode::spec_as_str(v),
        None => None,
    }
}

/// The string value of keyword argument `key`, or nothing.
pub open spec fn kw_or_empty(args: ShortArgs, key: Seq<char>) -> Seq<char> {
    match kw_opt(args, key) {
        Some(t) => t,
        None => seq![],
    }
}

/// How the LLM output writes an inline shortcode without a template, given
/// its rendered content.
pub open spec fn llm_shortcode(name: Seq<char>, args: ShortArgs, inner: Option<Vec<char>>, keep_urls: bool) -> Seq<char> {
    let text = match inner {
        Some(s) => s@,
        None => seq![],
    };
    if name == "link"@ {
        seq!['['] + text + seq![']', '('] + kw_or_empty(args, "url"@) + (match kw_opt(args, "title"@) {
            Some(t) => seq![' ', '"'] + t + seq!['"'],
            None => seq![],
        }) + seq![')']
    } else if name == "image"@ {
        "[image: "@ + kw_or_empty(args, "alt"@) + (if keep_urls {
            seq![' '] + kw_or_empty(args, "src"@)
        } else {
            seq![]
        }) + seq![']']
    } else if name == "kbd"@ || name == "sub"@ || name == "sup"@ {
        seq!['['] + name + seq![':'] + text + seq![']']
    } else if name == "math"@ {
        seq!['$'] + text + seq!['$']
    } else {
        seq!['@'] + name + match inner {
            Some(s) => seq!['['] + s@ + seq![']'],
            None => seq![],
        }
    }
}

#[verifier::rlimit(60)]
#[verifier::spinoff_prover]
fn render_inline_shortcode(name: &str, args: &ShortArgs, inner: Option<Vec<char>>, ctx: &mut Ctx, out: &mut Vec<char>)
    ensures
        (old(ctx).reg.map.spec_get(name@) matches Some(sc) ==> sc.template_llm is None) ==> final(out)@ == old(out)@
            + llm_shortcode(name@, *args, inner, old(ctx).opts.keep_asset_urls),
{
    let ghost o = out@;
    proof {
        reveal_strlit("link");
        reveal_strlit("image");
        reveal_strlit("kbd");
        reveal_strlit("sub");
        reveal_strlit("sup");
        reveal_strlit("math");
        reveal_strlit("");
        reveal_strlit("](");
        reveal_strlit(" \"");
        reveal_strlit("[image: ");
    }
    let empty: Vec<char> = Vec::new();
    let text: &[char] = match &inner {
        Some(s) => s.as_slice(),
        None => empty.as_slice(),
    };
    match ctx.reg.get(name) {
        Some(sc) => match &sc.template_llm {
            Some(t) => {
                let tv = str_chars(t.as_str());
                expand_template_llm(tv.as_slice(), args, text, out);
                return;
            },
            None => {},
        },
        None => {},
    }
    if str_eq(name, "link") {
        let url = match kw_str(args, "url") {
            Some(u) => u,
            None => "",
        };
        out.push('[');
        push_all(out, text);
        push_str(out, "](");
        push_str(out, url);
        let ghost o1 = out@;
        match kw_str(args, "title") {
            Some(t) => {
                push_str(out, " \"");
                push_str(out, t);
                out.push('"');
                assert(out@ =~= o1 + seq![' ', '"'] + t@ + seq!['"']);
            },
            None => {},
        }
        out.push(')');
        assert(url@ == kw_or_empty(*args, "url"@));
        assert(out@ =~= o + llm_shortcode(name@, *args, inner, ctx.opts.keep_asset_urls));
    } else if str_eq(name, "image") {
        let alt = match kw_str(args, "alt") {
            Some(u) => u,
            None => "",
        };
        push_str(out, "[image: ");
        push_str(out, alt);
        let ghost o1 = out@;
        if ctx.opts.keep_asset_urls {
            let src = match kw_str(args, "src") {
                Some(u) => u,
                None => "",
            };
            out.push(' ');
            push_str(out, src);
            assert(out@ =~= o1 + seq![' '] + kw_or_empty(*args, "src"@));
        }
        out.push(']');
        assert(alt@ == kw_or_empty(*args, "alt"@));
        assert(out@ =~= o + llm_shortcode(name@, *args, inner, ctx.opts.keep_asset_urls));
    } else if str_eq(name, "kbd") || str_eq(name, "sub") || str_eq(name, "sup") {
        out.push('[');
        push_str(out, name);
        out.push(':');
        push_all(out, text);
        out.push(']');
        assert(out@ =~= o + llm_shortcode(name@, *args, inner, ctx.opts.keep_asset_urls));
    } else if str_eq(name, "math") {
        out.push('$');
        push_all(out, text);
        out.push('$');
        assert(out@ =~= o + llm_shortcode(name@, *args, inner, ctx.opts.keep_asset_urls));
    } else {
        out.push('@');
        push_str(out, name);
        let ghost o1 = out@;
        match &inner {
            Some(s) => {
                out.push('[');
                push_all(out, s.as_slice());
                out.push(']');
                assert(out@ =~= o1 + seq!['['] + s@ + seq![']']);
            },
            None => {},
        }
        assert(out@ =~= o + llm_shortcode(name@, *args, inner, ctx.opts.keep_asset_urls));
    }
}

/// Footnote bodies as `[^n]: text` lines, numbered from 1.
pub open spec fn llm_footnote_lines(f: Seq<Vec<Inline>>, strip: bool) -> Seq<char>
    decreases f.len(),
{
    if f.len() == 0 {
        seq![]
    } else {
        llm_footnote_lines(f.drop_last(), strip) + "[^"@ + crate::text::dec(f.len() as nat) + "]: "@ + llm_inlines(
            f.last()@,
            strip,
        ) + seq!['\n']
    }
}

#[verifier::rlimit(40)]
fn emit_footnotes_section(footnotes: &Vec<Vec<Inline>>, reg: &Registry, opts: &Opts, refs: &RefMap, out: &mut Vec<char>)
    ensures
        crate::emit::html::cells_markup_only(footnotes@) ==> final(out)@ == old(out)@ + (if old(out)@.len() > 0
            && old(out)@.last() == '\n' {
            seq![]
        } else {
            seq!['\n']
        }) + seq!['\n'] + llm_footnote_lines(footnotes@, opts.strip_emphasis),
{
    let ghost plain = crate::emit::html::cells_markup_only(footnotes@);
    if !(out.len() > 0 && out[out.len() - 1] == '\n') {
        out.push('\n');
    }
    out.push('\n');
    let ghost o1 = out@;
    let mut i: usize = 0;
    assert(footnotes@.take(0) =~= Seq::<Vec<Inline>>::empty());
    while i < footnotes.len()
        invariant
            i <= footnotes@.len(),
            plain == crate::emit::html::cells_markup_only(footnotes@),
            plain ==> out@ == o1 + llm_footnote_lines(footnotes@.take(i as int), opts.strip_emphasis),
        decreases footnotes@.len() - i,
    {
        let ghost t = footnotes@.take(i + 1);
        assert(t.drop_last() =~= footnotes@.take(i as int));
        assert(t.last() == footnotes@[i as int]);
        proof {
            if plain {
                assert(markup_only_seq(footnotes@[i as int]@));
            }
        }
        push_str(out, "[^");
        push_usize(out, i + 1);
        push_str(out, "]: ");
        let mut ctx = Ctx {
            reg,
            opts,
            counter: 0,
            in_footnote: true,
            warnings: Vec::new(),
            frontmatter_minify_code: None,
            refs,
        };
        render_inline_seq(&footnotes[i], &mut ctx, out);
        out.push('\n');
        assert(plain ==> out@ =~= o1 + llm_footnote_lines(t, opts.strip_emphasis));
        i = i + 1;
    }
    assert(footnotes@.take(footnotes@.len() as int) =~= footnotes@);
}

/// The UTF-8 bytes of `c`, each taken as the char of that code.
pub open spec fn byte_chars(c: char) -> Seq<char> {
    let u = c as u32;
    if u < 0x80 {
        seq![c]
    } else if u < 0x800 {
        seq![((0xC0u32 | (u >> 6)) as u8) as char, ((0x80u32 | (u & 0x3F)) as u8) as char]
    } else if u < 0x10000 {
        seq![
            ((0xE0u32 | (u >> 12)) as u8) as char,
            ((0x80u32 | ((u >> 6) & 0x3F)) as u8) as char,
            ((0x80u32 | (u & 0x3F)) as u8) as char,
        ]
    } else {
        seq![
            ((0xF0u32 | (u >> 18)) as u8) as char,
            ((0x80u32 | ((u >> 12) & 0x3F)) as u8) as char,
            ((0x80u32 | ((u >> 6) & 0x3F)) as u8) as char,
            ((0x80u32 | (u & 0x3F)) as u8) as char,
        ]
    }
}

/// Append `byte_chars(c)`.
fn push_utf8_bytes_as_chars(out: &mut Vec<char>, c: char)
    ensures
        final(out)@ == old(out)@ + byte_chars(c),
{
    let u = c as u32;
    if u < 0x80 {
        out.push(c);
    } else if u < 0x800 {
        out.push(((0xC0u32 | (u >> 6)) as u8) as char);
        out.push(((0x80u32 | (u & 0x3F)) as u8) as char);
    } else if u < 0x10000 {
        out.push(((0xE0u32 | (u >> 12)) as u8) as char);
        out.push(((0x80u32 | ((u >> 6) & 0x3F)) as u8) as char);
        out.push(((0x80u32 | (u & 0x3F)) as u8) as char);
    } else {
        out.push(((0xF0u32 | (u >> 18)) as u8) as char);
        out.push(((0x80u32 | ((u >> 12) & 0x3F)) as u8) as char);
        out.push(((0x80u32 | ((u >> 6) & 0x3F)) as u8) as char);
        out.push(((0x80u32 | (u & 0x3F)) as u8) as char);
    }
    assert(out@ =~= old(out)@ + byte_chars(c));
}

/// What a placeholder `{{ key }}` becomes in the LLM form: the content for
/// `content`, the text of argument `x` for `args.x` (unescaped; nothing
/// when it has none), nothing for any other key.
pub open spec fn llm_subst(key: Seq<char>, args: ShortArgs, content: Seq<char>) -> Seq<char> {
    if key == "content"@ {
        content
    } else if key.len() >= 5 && key.subrange(0, 5) == "args."@ {
        match crate::emit::html::arg_text(args, key.subrange(5, key.len() as int)) {
            Some(v) => v,
            None => seq![],
        }
    } else {
        seq![]
    }
}

/// `tpl[i..]` with each closed placeholder replaced (see `llm_subst`) and
/// every other char copied as the chars of its UTF-8 bytes.
pub open spec fn llm_expand_from(tpl: Seq<char>, i: int, args: ShortArgs, content: Seq<char>) -> Seq<char>
    decreases tpl.len() - i,
{
    if i < 0 || i >= tpl.len() {
        seq![]
    } else if crate::emit::html::placeholder_at(tpl, i) {
        let close = crate::text::find_from(tpl, i + 2, "}}"@).unwrap();
        proof {
            crate::text::lemma_find_from_bounds(tpl, i + 2, "}}"@);
            reveal_strlit("}}");
        }
        llm_subst(crate::text::trimmed(tpl, i + 2, close), args, content) + llm_expand_from(tpl, close + 2, args, content)
    } else {
        byte_chars(tpl[i]) + llm_expand_from(tpl, i + 1, args, content)
    }
}

/// Expand a shortcode's LLM template into `out` (see `llm_expand_from`).
pub fn expand_template_llm(tpl: &[char], args: &ShortArgs, content: &[char], out: &mut Vec<char>)
    ensures
        final(out)@ == old(out)@ + llm_expand_from(tpl@, 0, *args, content@),
{
    let n = tpl.len();
    let mut i: usize = 0;
    proof {
        reveal_strlit("}}");
        reveal_strlit("content");
        reveal_strlit("args.");
    }
    while i < n
        invariant
            i <= n,
            n == tpl@.len(),
            old(out)@ + llm_expand_from(tpl@, 0, *args, content@) == out@ + llm_expand_from(tpl@, i as int, *args, content@),
        decreases n - i,
    {
        if tpl[i] == '{' && i + 1 < n && tpl[i + 1] == '{' {
            match find_str(tpl, i + 2, "}}") {
                Some(close) => {
                    proof {
                        crate::text::lemma_find_from_bounds(tpl@, i + 2, "}}"@);
                    }
                    let (ka, kb) = trim_bounds(tpl, i + 2, close);
                    let key = crate::text::range_string(tpl, ka, kb);
                    let ghost mid = out@;
                    if str_eq(key.as_str(), "content") {
                        push_all(out, content);
                    } else if crate::text::starts_at_str(tpl, ka, "args.") && kb - ka >= 5 {
                        let rest = crate::text::range_string(tpl, ka + 5, kb);
                        proof {
                            assert(key@.subrange(0, 5) =~= tpl@.subrange(ka as int, ka + 5));
                            assert(key@.subrange(5, key@.len() as int) =~= rest@);
                        }
                        match kw_str(args, rest.as_str()) {
                            Some(v) => push_str(out, v),
                            None => {},
                        }
                    } else {
                        proof {
                            if key@.len() >= 5 && key@.subrange(0, 5) == "args."@ {
                                assert(tpl@.subrange(ka as int, ka + 5) =~= key@.subrange(0, 5));
                            }
                        }
                    }
                    proof {
                        assert(out@ =~= mid + llm_subst(key@, *args, content@));
                    }
                    i = close + 2;
                    continue;
                },
                None => {},
            }
        }
        push_utf8_bytes_as_chars(out, tpl[i]);
        i = i + 1;
    }
}

} // verus!
