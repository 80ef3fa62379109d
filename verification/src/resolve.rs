//! Name resolution: every shortcode is checked against the registry
//! (form, arguments, types, allowed values), positional arguments are bound
//! to their names, and `@ref`s are resolved against the project index.
use crate::ast::{Block, DefinitionItem, Document, Inline, ListItem, RefMap, ResolvedRef, Row, ShortArgs};
use crate::diag::{grows, lemma_reported_earlier, lemma_reported_grows, reported, Code, Diagnostic, Severity};
use crate::parser::valid_anchor;
use crate::project::ProjectIndex;
use crate::shortcode::{ArgSpec, ArgType, ArgValue, Registry, ShortKindOpt, Shortcode};
use crate::span::Span;
use crate::strmap::StrMap;
use crate::text::{chars_to_string, is_ws, matches_at, push_range, push_str, push_usize, range_string, str_chars, str_eq, trim_bounds, trimmed};
use vstd::prelude::*;

verus! {

/// The project a document belongs to: its index and the document's path.
pub struct ResolveProject<'a> {
    pub index: &'a ProjectIndex,
    pub current: &'a str,
}

/// `path` names a Brief file (`.brf` extension).
pub open spec fn ends_brf(path: Seq<char>) -> bool {
    path.len() >= 4 && path.subrange(path.len() - 4, path.len() as int) == ".brf"@
}

/// A resolved reference points at an indexed file and, when it names an
/// anchor, at an anchor that file defines.
pub open spec fn ref_ok(r: ResolvedRef, idx: ProjectIndex) -> bool {
    &&& ends_brf(r.target_path@)
    &&& idx.anchors.spec_get(r.target_path@) matches Some(set)
    &&& (r.target_anchor matches Some(a) ==> set.spec_get(a@) is Some)
}

/// Every reference recorded in `m` is valid against `idx`.
pub open spec fn refs_valid(m: RefMap, idx: ProjectIndex) -> bool {
    forall|k: Span| #[trigger] m.spec_get(k) matches Some(r) ==> ref_ok(r, idx)
}

/// The spans of the `@ref`s the reference scan reaches in an inline node:
/// inside emphasis and the content of other shortcodes, not inside an
/// `@ref`'s own body.
pub open spec fn ref_spans_inline(n: Inline) -> Seq<Span>
    decreases n, 1nat,
{
    match n {
        Inline::Bold { content, .. } => ref_spans_inlines(content@),
        Inline::Italic { content, .. } => ref_spans_inlines(content@),
        Inline::Underline { content, .. } => ref_spans_inlines(content@),
        Inline::Strike { content, .. } => ref_spans_inlines(content@),
        Inline::Shortcode { name, content, span, .. } => if name@ == "ref"@ {
            seq![span]
        } else {
            match content {
                Some(c) => ref_spans_inlines(c@),
                None => seq![],
            }
        },
        _ => seq![],
    }
}

/// `ref_spans_inline` over a sequence, in order.
pub open spec fn ref_spans_inlines(v: Seq<Inline>) -> Seq<Span>
    decreases v, 0nat,
{
    if v.len() == 0 {
        seq![]
    } else {
        ref_spans_inlines(v.drop_last()) + ref_spans_inline(v.last())
    }
}

/// `@ref` spans of table cells, in order.
pub open spec fn ref_spans_cells(v: Seq<Vec<Inline>>) -> Seq<Span>
    decreases v.len(),
{
    if v.len() == 0 {
        seq![]
    } else {
        ref_spans_cells(v.drop_last()) + ref_spans_inlines(v.last()@)
    }
}

/// `@ref` spans of table rows, in order.
pub open spec fn ref_spans_rows(v: Seq<Row>) -> Seq<Span>
    decreases v.len(),
{
    if v.len() == 0 {
        seq![]
    } else {
        ref_spans_rows(v.drop_last()) + ref_spans_cells(v.last().cells@)
    }
}

/// `@ref` spans of definition-list items (term, then definition).
pub open spec fn ref_spans_defs(v: Seq<DefinitionItem>) -> Seq<Span>
    decreases v.len(),
{
    if v.len() == 0 {
        seq![]
    } else {
        ref_spans_defs(v.drop_last()) + ref_spans_inlines(v.last().term@) + ref_spans_inlines(
            v.last().definition@,
        )
    }
}

/// The spans of the `@ref`s the reference scan reaches in a block, in
/// document order.
pub open spec fn ref_spans_block(b: Block) -> Seq<Span>
    decreases b, 1nat,
{
    match b {
        Block::Heading { content, .. } => ref_spans_inlines(content@),
        Block::Paragraph { content, .. } => ref_spans_inlines(content@),
        Block::List { items, .. } => ref_spans_items(items@),
        Block::Blockquote { children, .. } => ref_spans_blocks(children@),
        Block::BlockShortcode { children, .. } => ref_spans_blocks(children@),
        Block::Table { header, rows, .. } => ref_spans_cells(header.cells@) + ref_spans_rows(rows@),
        Block::DefinitionList { items, .. } => ref_spans_defs(items@),
        _ => seq![],
    }
}

/// `ref_spans_block` over a sequence of blocks, in order.
pub open spec fn ref_spans_blocks(v: Seq<Block>) -> Seq<Span>
    decreases v, 0nat,
{
    if v.len() == 0 {
        seq![]
    } else {
        ref_spans_blocks(v.drop_last()) + ref_spans_block(v.last())
    }
}

/// `@ref` spans of list items: each item's text, then its nested blocks.
pub open spec fn ref_spans_items(v: Seq<ListItem>) -> Seq<Span>
    decreases v, 0nat,
{
    if v.len() == 0 {
        seq![]
    } else {
        ref_spans_items(v.drop_last()) + ref_spans_inlines(v.last().content@) + ref_spans_blocks(
            v.last().children@,
        )
    }
}

/// The `@ref` at `span` got an answer: with a project, it is recorded in
/// `m` or reported as a bad target, a missing file or a missing anchor;
/// without one, it is reported as needing a project.
pub open spec fn ref_answered(d: Seq<Diagnostic>, from: int, m: RefMap, span: Span, in_project: bool) -> bool {
    if in_project {
        ||| m.spec_get(span) is Some
        ||| reported(d, from, Code::RefBadTarget, span)
        ||| reported(d, from, Code::RefMissingFile, span)
        ||| reported(d, from, Code::RefMissingAnchor, span)
    } else {
        reported(d, from, Code::RefNoProject, span)
    }
}

/// Every `@ref` at one of `spans` got an answer.
pub open spec fn all_answered(d: Seq<Diagnostic>, from: int, m: RefMap, spans: Seq<Span>, in_project: bool) -> bool {
    forall|k: int| 0 <= k < spans.len() ==> #[trigger] ref_answered(d, from, m, spans[k], in_project)
}

/// Every span recorded in `m0` is recorded in `m1`.
pub open spec fn keeps(m0: RefMap, m1: RefMap) -> bool {
    forall|k: Span| (#[trigger] m0.spec_get(k)) is Some ==> m1.spec_get(k) is Some
}

/// Answers survive appended diagnostics, more recorded references and an
/// earlier starting index.
proof fn lemma_answered_mono(
    d0: Seq<Diagnostic>,
    d1: Seq<Diagnostic>,
    from0: int,
    from1: int,
    m0: RefMap,
    m1: RefMap,
    spans: Seq<Span>,
    ip: bool,
)
    requires
        0 <= from0 <= from1,
        grows(d0, d1),
        keeps(m0, m1),
        all_answered(d0, from1, m0, spans, ip),
    ensures
        all_answered(d1, from0, m1, spans, ip),
{
    assert forall|k: int| 0 <= k < spans.len() implies #[trigger] ref_answered(d1, from0, m1, spans[k], ip) by {
        assert(ref_answered(d0, from1, m0, spans[k], ip));
        let s = spans[k];
        if ip {
            if m0.spec_get(s) is Some {
            } else if reported(d0, from1, Code::RefBadTarget, s) {
                lemma_reported_grows(d0, d1, from1, Code::RefBadTarget, s);
            } else if reported(d0, from1, Code::RefMissingFile, s) {
                lemma_reported_grows(d0, d1, from1, Code::RefMissingFile, s);
            } else {
                lemma_reported_grows(d0, d1, from1, Code::RefMissingAnchor, s);
            }
        } else {
            lemma_reported_grows(d0, d1, from1, Code::RefNoProject, s);
        }
    }
}

/// Answers for two span lists give answers for their concatenation.
proof fn lemma_answered_concat(d: Seq<Diagnostic>, from: int, m: RefMap, a: Seq<Span>, b: Seq<Span>, ip: bool)
    requires
        all_answered(d, from, m, a, ip),
        all_answered(d, from, m, b, ip),
    ensures
        all_answered(d, from, m, a + b, ip),
{
    assert forall|k: int| 0 <= k < (a + b).len() implies #[trigger] ref_answered(d, from, m, (a + b)[k], ip) by {
        if k < a.len() {
            assert((a + b)[k] == a[k]);
        } else {
            assert((a + b)[k] == b[k - a.len()]);
        }
    }
}

/// One step of a scan: answers so far (from `from`) and the answers of
/// the next part (from the later index `mid`) make the answers of both.
proof fn lemma_answered_step(
    d0: Seq<Diagnostic>,
    d1: Seq<Diagnostic>,
    from: int,
    mid: int,
    m0: RefMap,
    m1: RefMap,
    done: Seq<Span>,
    next: Seq<Span>,
    ip: bool,
)
    requires
        0 <= from <= mid,
        grows(d0, d1),
        keeps(m0, m1),
        all_answered(d0, from, m0, done, ip),
        all_answered(d1, mid, m1, next, ip),
    ensures
        all_answered(d1, from, m1, done + next, ip),
{
    lemma_answered_mono(d0, d1, from, from, m0, m1, done, ip);
    assert(d1.subrange(0, d1.len() as int) =~= d1);
    lemma_answered_mono(d1, d1, from, mid, m1, m1, next, ip);
    lemma_answered_concat(d1, from, m1, done, next, ip);
}

/// Resolve without project context; `@ref`s are then reported with
/// `RefNoProject`.
pub fn resolve(doc: &mut Document, registry: &Registry) -> (r: Vec<Diagnostic>)
    ensures
        final(doc).blocks@.len() == old(doc).blocks@.len(),
        forall|k: Span| final(doc).resolved_refs.spec_get(k) is None,
        all_answered(r@, 0, final(doc).resolved_refs, ref_spans_blocks(final(doc).blocks@), false),
        forall|k: int|
            0 <= k < old(doc).blocks@.len() && (#[trigger] unknown_block(old(doc).blocks@[k], *registry)) is Some
                ==> reported(r@, 0, Code::UnknownShortcode, unknown_block(old(doc).blocks@[k], *registry)->Some_0),
{
    resolve_with_project(doc, registry, None)
}

/// Check every shortcode of `doc` and resolve its `@ref`s against
/// `project`. The resolved references replace `doc.resolved_refs`: only
/// references whose file and anchor exist in the project are recorded, and
/// none without a project.
pub fn resolve_with_project(doc: &mut Document, registry: &Registry, project: Option<&ResolveProject>) -> (r: Vec<Diagnostic>)
    ensures
        final(doc).blocks@.len() == old(doc).blocks@.len(),
        project is None ==> forall|k: Span| final(doc).resolved_refs.spec_get(k) is None,
        project matches Some(p) ==> refs_valid(final(doc).resolved_refs, *p.index),
        all_answered(r@, 0, final(doc).resolved_refs, ref_spans_blocks(final(doc).blocks@), project is Some),
        forall|k: int|
            0 <= k < old(doc).blocks@.len() && (#[trigger] unknown_block(old(doc).blocks@[k], *registry)) is Some
                ==> reported(r@, 0, Code::UnknownShortcode, unknown_block(old(doc).blocks@[k], *registry)->Some_0),
{
    let ghost ob = doc.blocks@;
    let mut diags: Vec<Diagnostic> = Vec::new();
    let n = doc.blocks.len();
    let mut i: usize = 0;
    while i < n
        invariant
            n == doc.blocks@.len(),
            n == ob.len(),
            i <= n,
            forall|j: int| i <= j < n ==> doc.blocks@[j] == ob[j],
            forall|k: int|
                0 <= k < i && (#[trigger] unknown_block(ob[k], *registry)) is Some ==> reported(
                    diags@,
                    0,
                    Code::UnknownShortcode,
                    unknown_block(ob[k], *registry)->Some_0,
                ),
        decreases n - i,
    {
        let ghost da = diags@;
        resolve_block(&mut doc.blocks[i], registry, &mut diags);
        proof {
            assert forall|k: int|
                0 <= k < i + 1 && (#[trigger] unknown_block(ob[k], *registry)) is Some implies reported(
                    diags@,
                    0,
                    Code::UnknownShortcode,
                    unknown_block(ob[k], *registry)->Some_0,
                ) by {
                let sp = unknown_block(ob[k], *registry)->Some_0;
                if k < i {
                    lemma_reported_grows(da, diags@, 0, Code::UnknownShortcode, sp);
                } else {
                    lemma_reported_earlier(diags@, 0, da.len() as int, Code::UnknownShortcode, sp);
                }
            }
        }
        i = i + 1;
    }
    let mut resolved = RefMap::new();
    let ghost (d_start, m_start) = (diags@, resolved);
    let ghost ip = project is Some;
    proof {
        lemma_scanned_none(d_start, m_start, ip);
    }
    let mut i: usize = 0;
    while i < doc.blocks.len()
        invariant
            i <= doc.blocks@.len(),
            project is None ==> forall|k: Span| resolved.spec_get(k) is None,
            project matches Some(p) ==> refs_valid(resolved, *p.index),
            scanned(d_start, diags@, m_start, resolved, ref_spans_blocks(doc.blocks@.take(i as int)), ip),
        decreases doc.blocks@.len() - i,
    {
        let ghost (dp, mp) = (diags@, resolved);
        scan_refs_block(&doc.blocks[i], project, &mut diags, &mut resolved);
        proof {
            lemma_scanned_then(d_start, dp, diags@, m_start, mp, resolved, ref_spans_blocks(doc.blocks@.take(i as int)), ref_spans_block(doc.blocks@[i as int]), ip);
            assert(doc.blocks@.take(i + 1).drop_last() =~= doc.blocks@.take(i as int));
        }
        i = i + 1;
    }
    proof {
        assert forall|k: int|
            0 <= k < ob.len() && (#[trigger] unknown_block(ob[k], *registry)) is Some implies reported(
                diags@,
                0,
                Code::UnknownShortcode,
                unknown_block(ob[k], *registry)->Some_0,
            ) by {
            lemma_reported_grows(d_start, diags@, 0, Code::UnknownShortcode, unknown_block(ob[k], *registry)->Some_0);
        }
        let spans = ref_spans_blocks(doc.blocks@);
        assert(doc.blocks@.take(doc.blocks@.len() as int) =~= doc.blocks@);
        assert(diags@.subrange(0, diags@.len() as int) =~= diags@);
        lemma_answered_mono(diags@, diags@, 0, d_start.len() as int, resolved, resolved, spans, ip);
    }
    doc.resolved_refs = resolved;
    diags
}

/// The scan from `(d0, m0)` to `(d1, m1)` only appended diagnostics and
/// recorded references, and answered every `@ref` at `spans`.
pub open spec fn scanned(d0: Seq<Diagnostic>, d1: Seq<Diagnostic>, m0: RefMap, m1: RefMap, spans: Seq<Span>, ip: bool) -> bool {
    &&& grows(d0, d1)
    &&& keeps(m0, m1)
    &&& all_answered(d1, d0.len() as int, m1, spans, ip)
}

/// Scanning nothing answers nothing and changes nothing.
proof fn lemma_scanned_none(d: Seq<Diagnostic>, m: RefMap, ip: bool)
    ensures
        scanned(d, d, m, m, seq![], ip),
{
    assert(d.subrange(0, d.len() as int) =~= d);
}

/// Two scans in a row make one.
proof fn lemma_scanned_then(
    d0: Seq<Diagnostic>,
    d1: Seq<Diagnostic>,
    d2: Seq<Diagnostic>,
    m0: RefMap,
    m1: RefMap,
    m2: RefMap,
    a: Seq<Span>,
    b: Seq<Span>,
    ip: bool,
)
    requires
        scanned(d0, d1, m0, m1, a, ip),
        scanned(d1, d2, m1, m2, b, ip),
    ensures
        scanned(d0, d2, m0, m2, a + b, ip),
{
    assert(d2.subrange(0, d0.len() as int) =~= d1.subrange(0, d0.len() as int)) by {
        assert forall|j: int| 0 <= j < d0.len() implies d2.subrange(0, d0.len() as int)[j] == d1.subrange(0, d0.len() as int)[j] by {
            assert(d2.subrange(0, d1.len() as int)[j] == d2[j]);
        }
    }
    lemma_answered_step(d1, d2, d0.len() as int, d1.len() as int, m1, m2, a, b, ip);
}

/// One diagnostic appended for the `@ref` at `span`.
proof fn lemma_scanned_report(d0: Seq<Diagnostic>, d1: Seq<Diagnostic>, m: RefMap, span: Span, ip: bool)
    requires
        d1.len() == d0.len() + 1,
        d1.subrange(0, d0.len() as int) == d0,
        ip ==> (d1.last().code == Code::RefBadTarget || d1.last().code == Code::RefMissingFile || d1.last().code
            == Code::RefMissingAnchor),
        !ip ==> d1.last().code == Code::RefNoProject,
        d1.last().span == span,
        d1.last().severity == crate::diag::Severity::Error,
    ensures
        scanned(d0, d1, m, m, seq![span], ip),
{
    let j = d0.len() as int;
    assert(d1[j] == d1.last());
    assert(ref_answered(d1, j, m, seq![span][0], ip));
}

fn scan_seq(v: &Vec<Inline>, project: Option<&ResolveProject>, diags: &mut Vec<Diagnostic>, out: &mut RefMap)
    ensures
        project is None ==> *final(out) == *old(out),
        project matches Some(p) ==> (refs_valid(*old(out), *p.index) ==> refs_valid(*final(out), *p.index)),
        scanned(old(diags)@, final(diags)@, *old(out), *final(out), ref_spans_inlines(v@), project is Some),
{
    let mut i: usize = 0;
    let ghost o = *out;
    proof {
        lemma_scanned_none(diags@, o, project is Some);
    }
    while i < v.len()
        invariant
            i <= v@.len(),
            project is None ==> *out == o,
            project matches Some(p) ==> (refs_valid(o, *p.index) ==> refs_valid(*out, *p.index)),
            scanned(old(diags)@, diags@, o, *out, ref_spans_inlines(v@.take(i as int)), project is Some),
        decreases v@.len() - i,
    {
        let ghost (dp, mp) = (diags@, *out);
        scan_refs_inline(&v[i], project, diags, out);
        proof {
            lemma_scanned_then(old(diags)@, dp, diags@, o, mp, *out, ref_spans_inlines(v@.take(i as int)), ref_spans_inline(v@[i as int]), project is Some);
            assert(v@.take(i + 1).drop_last() =~= v@.take(i as int));
        }
        i = i + 1;
    }
    assert(v@.take(v@.len() as int) =~= v@);
}

fn scan_refs_block(block: &Block, project: Option<&ResolveProject>, diags: &mut Vec<Diagnostic>, out: &mut RefMap)
    ensures
        project is None ==> *final(out) == *old(out),
        project matches Some(p) ==> (refs_valid(*old(out), *p.index) ==> refs_valid(*final(out), *p.index)),
        scanned(old(diags)@, final(diags)@, *old(out), *final(out), ref_spans_block(*block), project is Some),
    decreases block, 1nat,
{
    let ghost o = *out;
    let ghost ip = project is Some;
    proof {
        lemma_scanned_none(diags@, o, ip);
    }
    match block {
        Block::Heading { content, .. } => scan_seq(content, project, diags, out),
        Block::Paragraph { content, .. } => scan_seq(content, project, diags, out),
        Block::List { items, .. } => {
            let mut k: usize = 0;
            while k < items.len()
                invariant
                    k <= items@.len(),
            project is None ==> *out == o,
            project matches Some(p) ==> (refs_valid(o, *p.index) ==> refs_valid(*out, *p.index)),
                    scanned(old(diags)@, diags@, o, *out, ref_spans_items(items@.take(k as int)), ip),
                decreases items@.len() - k,
            {
                let ghost (dp, mp) = (diags@, *out);
                scan_seq(&items[k].content, project, diags, out);
                let ghost (dq, mq) = (diags@, *out);
                proof {
                    assert(decreases_to!(*block => items@[k as int]));
                    assert(decreases_to!(items@[k as int] => items@[k as int].children));
                }
                scan_blocks_in(block, &items[k].children, project, diags, out);
                proof {
                    let it = items@[k as int];
                    lemma_scanned_then(old(diags)@, dp, dq, o, mp, mq, ref_spans_items(items@.take(k as int)), ref_spans_inlines(it.content@), ip);
                    lemma_scanned_then(old(diags)@, dq, diags@, o, mq, *out, ref_spans_items(items@.take(k as int)) + ref_spans_inlines(it.content@), ref_spans_blocks(it.children@), ip);
                    assert(items@.take(k + 1).drop_last() =~= items@.take(k as int));
                }
                k = k + 1;
            }
            assert(items@.take(items@.len() as int) =~= items@);
        },
        Block::Blockquote { children, .. } => scan_blocks_in(block, children, project, diags, out),
        Block::BlockShortcode { children, .. } => scan_blocks_in(block, children, project, diags, out),
        Block::Table { header, rows, .. } => {
            let mut c: usize = 0;
            while c < header.cells.len()
                invariant
                    c <= header.cells@.len(),
            project is None ==> *out == o,
            project matches Some(p) ==> (refs_valid(o, *p.index) ==> refs_valid(*out, *p.index)),
                    scanned(old(diags)@, diags@, o, *out, ref_spans_cells(header.cells@.take(c as int)), ip),
                decreases header.cells@.len() - c,
            {
                let ghost (dp, mp) = (diags@, *out);
                scan_seq(&header.cells[c], project, diags, out);
                proof {
                    lemma_scanned_then(old(diags)@, dp, diags@, o, mp, *out, ref_spans_cells(header.cells@.take(c as int)), ref_spans_inlines(header.cells@[c as int]@), ip);
                    assert(header.cells@.take(c + 1).drop_last() =~= header.cells@.take(c as int));
                }
                c = c + 1;
            }
            assert(header.cells@.take(header.cells@.len() as int) =~= header.cells@);
            let ghost (dh, mh) = (diags@, *out);
            proof {
                lemma_scanned_none(dh, mh, ip);
            }
            let mut r: usize = 0;
            while r < rows.len()
                invariant
                    r <= rows@.len(),
            project is None ==> *out == o,
            project matches Some(p) ==> (refs_valid(o, *p.index) ==> refs_valid(*out, *p.index)),
                    scanned(old(diags)@, dh, o, mh, ref_spans_cells(header.cells@), ip),
                    scanned(dh, diags@, mh, *out, ref_spans_rows(rows@.take(r as int)), ip),
                decreases rows@.len() - r,
            {
                let ghost (dr, mr) = (diags@, *out);
                let mut c: usize = 0;
                proof {
                    lemma_scanned_none(dr, mr, ip);
                }
                while c < rows[r].cells.len()
                    invariant
                        c <= rows@[r as int].cells@.len(),
                    project is None ==> *out == o,
                    project matches Some(p) ==> (refs_valid(o, *p.index) ==> refs_valid(*out, *p.index)),
                        scanned(dr, diags@, mr, *out, ref_spans_cells(rows@[r as int].cells@.take(c as int)), ip),
                    decreases rows@[r as int].cells@.len() - c,
                {
                    let ghost (dp, mp) = (diags@, *out);
                    scan_seq(&rows[r].cells[c], project, diags, out);
                    proof {
                        let cs = rows@[r as int].cells@;
                        lemma_scanned_then(dr, dp, diags@, mr, mp, *out, ref_spans_cells(cs.take(c as int)), ref_spans_inlines(cs[c as int]@), ip);
                        assert(cs.take(c + 1).drop_last() =~= cs.take(c as int));
                    }
                    c = c + 1;
                }
                proof {
                    let cs = rows@[r as int].cells@;
                    assert(cs.take(cs.len() as int) =~= cs);
                    lemma_scanned_then(dh, dr, diags@, mh, mr, *out, ref_spans_rows(rows@.take(r as int)), ref_spans_cells(cs), ip);
                    assert(rows@.take(r + 1).drop_last() =~= rows@.take(r as int));
                }
                r = r + 1;
            }
            proof {
                assert(rows@.take(rows@.len() as int) =~= rows@);
                lemma_scanned_then(old(diags)@, dh, diags@, o, mh, *out, ref_spans_cells(header.cells@), ref_spans_rows(rows@), ip);
            }
        },
        Block::DefinitionList { items, .. } => {
            let mut k: usize = 0;
            while k < items.len()
                invariant
                    k <= items@.len(),
            project is None ==> *out == o,
            project matches Some(p) ==> (refs_valid(o, *p.index) ==> refs_valid(*out, *p.index)),
                    scanned(old(diags)@, diags@, o, *out, ref_spans_defs(items@.take(k as int)), ip),
                decreases items@.len() - k,
            {
                let ghost (dp, mp) = (diags@, *out);
                scan_seq(&items[k].term, project, diags, out);
                let ghost (dq, mq) = (diags@, *out);
                scan_seq(&items[k].definition, project, diags, out);
                proof {
                    let it = items@[k as int];
                    lemma_scanned_then(old(diags)@, dp, dq, o, mp, mq, ref_spans_defs(items@.take(k as int)), ref_spans_inlines(it.term@), ip);
                    lemma_scanned_then(old(diags)@, dq, diags@, o, mq, *out, ref_spans_defs(items@.take(k as int)) + ref_spans_inlines(it.term@), ref_spans_inlines(it.definition@), ip);
                    assert(items@.take(k + 1).drop_last() =~= items@.take(k as int));
                }
                k = k + 1;
            }
            assert(items@.take(items@.len() as int) =~= items@);
        },
        Block::CodeBlock { .. } => {},
        Block::HorizontalRule { .. } => {},
    }
}

fn scan_blocks_in(parent: &Block, v: &Vec<Block>, project: Option<&ResolveProject>, diags: &mut Vec<Diagnostic>, out: &mut RefMap)
    requires
        decreases_to!(*parent => *v),
    ensures
        project is None ==> *final(out) == *old(out),
        project matches Some(p) ==> (refs_valid(*old(out), *p.index) ==> refs_valid(*final(out), *p.index)),
        scanned(old(diags)@, final(diags)@, *old(out), *final(out), ref_spans_blocks(v@), project is Some),
    decreases parent, 0nat,
{
    let ghost o = *out;
    proof {
        lemma_scanned_none(diags@, o, project is Some);
    }
    let mut i: usize = 0;
    while i < v.len()
        invariant
            i <= v@.len(),
            decreases_to!(*parent => *v),
            project is None ==> *out == o,
            project matches Some(p) ==> (refs_valid(o, *p.index) ==> refs_valid(*out, *p.index)),
            scanned(old(diags)@, diags@, o, *out, ref_spans_blocks(v@.take(i as int)), project is Some),
        decreases v@.len() - i,
    {
        proof {
            assert(decreases_to!(*v => v@[i as int]));
        }
        let ghost (dp, mp) = (diags@, *out);
        scan_refs_block(&v[i], project, diags, out);
        proof {
            lemma_scanned_then(old(diags)@, dp, diags@, o, mp, *out, ref_spans_blocks(v@.take(i as int)), ref_spans_block(v@[i as int]), project is Some);
            assert(v@.take(i + 1).drop_last() =~= v@.take(i as int));
        }
        i = i + 1;
    }
    assert(v@.take(v@.len() as int) =~= v@);
}

fn scan_inlines_in(parent: &Inline, v: &Vec<Inline>, project: Option<&ResolveProject>, diags: &mut Vec<Diagnostic>, out: &mut RefMap)
    requires
        decreases_to!(*parent => *v),
    ensures
        project is None ==> *final(out) == *old(out),
        project matches Some(p) ==> (refs_valid(*old(out), *p.index) ==> refs_valid(*final(out), *p.index)),
        scanned(old(diags)@, final(diags)@, *old(out), *final(out), ref_spans_inlines(v@), project is Some),
    decreases parent, 0nat,
{
    let ghost o = *out;
    proof {
        lemma_scanned_none(diags@, o, project is Some);
    }
    let mut i: usize = 0;
    while i < v.len()
        invariant
            i <= v@.len(),
            decreases_to!(*parent => *v),
            project is None ==> *out == o,
            project matches Some(p) ==> (refs_valid(o, *p.index) ==> refs_valid(*out, *p.index)),
            scanned(old(diags)@, diags@, o, *out, ref_spans_inlines(v@.take(i as int)), project is Some),
        decreases v@.len() - i,
    {
        proof {
            assert(decreases_to!(*v => v@[i as int]));
        }
        let ghost (dp, mp) = (diags@, *out);
        scan_refs_inline(&v[i], project, diags, out);
        proof {
            lemma_scanned_then(old(diags)@, dp, diags@, o, mp, *out, ref_spans_inlines(v@.take(i as int)), ref_spans_inline(v@[i as int]), project is Some);
            assert(v@.take(i + 1).drop_last() =~= v@.take(i as int));
        }
        i = i + 1;
    }
    assert(v@.take(v@.len() as int) =~= v@);
}

/// The first `n` keys of entries `e`, joined with `, `.
pub open spec fn keys_joined<V>(e: Seq<(String, V)>, n: int) -> Seq<char>
    decreases n,
{
    if n <= 0 {
        seq![]
    } else if n == 1 {
        e[0].0@
    } else {
        keys_joined(e, n - 1) + ", "@ + e[n - 1].0@
    }
}

/// Up to `limit` keys of `m`, in order, joined with `, `.
fn first_keys<V>(m: &StrMap<V>, limit: usize) -> (r: String)
    ensures
        r@ == keys_joined(
            m.view_entries(),
            if m.view_entries().len() < limit {
                m.view_entries().len() as int
            } else {
                limit as int
            },
        ),
{
    let mut v: Vec<char> = Vec::new();
    let mut i: usize = 0;
    while i < m.len() && i < limit
        invariant
            i <= m.view_entries().len(),
            i <= limit,
            v@ == keys_joined(m.view_entries(), i as int),
        decreases limit - i,
    {
        let ghost before = v@;
        if i > 0 {
            push_str(&mut v, ", ");
        }
        push_str(&mut v, m.key_at(i).as_str());
        assert(i == 0 ==> v@ =~= keys_joined(m.view_entries(), i + 1));
        i = i + 1;
    }
    chars_to_string(v.as_slice())
}

/// A message from text pieces and the strings between them.
fn msg3(a: &str, x: &str, b: &str, y: &str, c: &str) -> (r: String)
    ensures
        r@ == a@ + x@ + b@ + y@ + c@,
{
    let mut v: Vec<char> = Vec::new();
    push_str(&mut v, a);
    push_str(&mut v, x);
    push_str(&mut v, b);
    push_str(&mut v, y);
    push_str(&mut v, c);
    assert(v@ =~= a@ + x@ + b@ + y@ + c@);
    chars_to_string(v.as_slice())
}

/// The path of an `@ref` target: up to its first `#`.
pub open spec fn ref_path(t: Seq<char>) -> Seq<char> {
    t.subrange(0, first_hash(t, 0))
}

/// The anchor of an `@ref` target: after its first `#`, if any.
pub open spec fn ref_anchor(t: Seq<char>) -> Option<Seq<char>> {
    let h = first_hash(t, 0);
    if h < t.len() {
        Some(t.subrange(h + 1, t.len() as int))
    } else {
        None
    }
}

/// An optional string as plain chars.
pub open spec fn opt_chars(o: Option<String>) -> Option<Seq<char>> {
    match o {
        Some(x) => Some(x@),
        None => None,
    }
}

/// The display text of a `@ref`: its `title` argument when a string.
pub open spec fn ref_display(args: ShortArgs) -> Seq<char> {
    match args.keyword.spec_get("title"@) {
        Some(v) => match crate::shortcode::spec_as_str(v) {
            Some(t) => t,
            None => seq![],
        },
        None => seq![],
    }
}

/// A `@ref` node whose body is one plain text holding a valid target
/// whose file (and anchor, if any) the project index knows: its span, its
/// path, its anchor and its display text.
pub open spec fn good_ref(n: Inline, idx: ProjectIndex) -> Option<(Span, Seq<char>, Option<Seq<char>>, Seq<char>)> {
    match n {
        Inline::Shortcode { name, args, content, span } => match content {
            Some(c) => if name@ == "ref"@ && c@.len() == 1 {
                match c@[0] {
                    Inline::Text { value, .. } => {
                        let t = trimmed(value@, 0, value@.len() as int);
                        if valid_target(t) && idx.anchors.spec_get(ref_path(t)) is Some && (ref_anchor(t) matches Some(
                            a,
                        ) ==> idx.anchors.spec_get(ref_path(t)).unwrap().spec_get(a) is Some) {
                            Some((span, ref_path(t), ref_anchor(t), ref_display(args)))
                        } else {
                            None
                        }
                    },
                    _ => None,
                }
            } else {
                None
            },
            None => None,
        },
        _ => None,
    }
}

/// `first_hash` finds the first `#`.
proof fn lemma_first_hash_at(t: Seq<char>, i: int, m: int)
    requires
        0 <= i <= m <= t.len(),
        forall|j: int| i <= j < m ==> t[j] != '#',
        m < t.len() ==> t[m] == '#',
    ensures
        first_hash(t, i) == m,
    decreases m - i,
{
    if i < m {
        lemma_first_hash_at(t, i + 1, m);
    }
}

fn scan_refs_inline(node: &Inline, project: Option<&ResolveProject>, diags: &mut Vec<Diagnostic>, out: &mut RefMap)
    ensures
        project is None ==> *final(out) == *old(out),
        project matches Some(p) ==> (good_ref(*node, *p.index) matches Some((sp, path, anchor, disp))
            ==> final(diags)@ == old(diags)@ && (final(out).spec_get(sp) matches Some(rr) && rr.target_path@ == path
            && opt_chars(rr.target_anchor) == anchor && rr.display@ == disp)),
        project matches Some(p) ==> (refs_valid(*old(out), *p.index) ==> refs_valid(*final(out), *p.index)),
        scanned(old(diags)@, final(diags)@, *old(out), *final(out), ref_spans_inline(*node), project is Some),
    decreases node, 1nat,
{
    let ghost d0 = diags@;
    let ghost m0 = *out;
    let ghost ip = project is Some;
    proof {
        lemma_scanned_none(d0, m0, ip);
    }
    match node {
        Inline::Bold { content, .. } => scan_inlines_in(node, content, project, diags, out),
        Inline::Italic { content, .. } => scan_inlines_in(node, content, project, diags, out),
        Inline::Underline { content, .. } => scan_inlines_in(node, content, project, diags, out),
        Inline::Strike { content, .. } => scan_inlines_in(node, content, project, diags, out),
        Inline::Shortcode { name, args, content, span } => {
            proof {
                reveal_strlit("ref");
            }
            if !str_eq(name.as_str(), "ref") {
                match content {
                    Some(c) => {
                        proof {
                            assert(decreases_to!(*node => *c));
                        }
                        scan_inlines_in(node, c, project, diags, out);
                    },
                    None => {},
                }
                return;
            }
            let p = match project {
                Some(p) => p,
                None => {
                    diags.push(
                        Diagnostic::new(Code::RefNoProject, *span).label(
                            "`@ref` requires a `brief.toml`-rooted project",
                        ).help(
                            "create a `brief.toml` at the project root to enable cross-document references",
                        ),
                    );
                    proof {
                        assert(diags@.subrange(0, d0.len() as int) =~= d0);
                        lemma_scanned_report(d0, diags@, m0, *span, ip);
                    }
                    return;
                },
            };
            let body: Option<&str> = match content {
                None => None,
                Some(c) => {
                    let single: Option<&str> = if c.len() == 1 {
                        match &c[0] {
                            Inline::Text { value, .. } => Some(value.as_str()),
                            _ => None,
                        }
                    } else {
                        None
                    };
                    if c.len() == 0 {
                        None
                    } else if single.is_some() {
                        single
                    } else {
                        diags.push(
                            Diagnostic::new(Code::RefBadTarget, *span).label(
                                "@ref body must be a plain path; emphasis and nested shortcodes are not allowed",
                            ),
                        );
                    proof {
                        assert(diags@.subrange(0, d0.len() as int) =~= d0);
                        lemma_scanned_report(d0, diags@, m0, *span, ip);
                    }
                        return;
                    }
                },
            };
            let body = match body {
                Some(b) => b,
                None => {
                    diags.push(
                        Diagnostic::new(Code::RefBadTarget, *span).label("@ref body cannot be empty"),
                    );
                    proof {
                        assert(diags@.subrange(0, d0.len() as int) =~= d0);
                        lemma_scanned_report(d0, diags@, m0, *span, ip);
                    }
                    return;
                },
            };
            let display = match args.keyword.get("title") {
                Some(v) => match v.as_str() {
                    Some(s) => {
                        let d = s.to_string();
                        proof {
                            vstd::string::to_string_from_display_ensures_for_str(s, d);
                        }
                        d
                    },
                    None => String::new(),
                },
                None => String::new(),
            };
            assert(display@ == ref_display(*args));
            match parse_target(body) {
                Err(reason) => {
                    diags.push(Diagnostic::new(Code::RefBadTarget, *span).label(reason.as_str()));
                    proof {
                        assert(diags@.subrange(0, d0.len() as int) =~= d0);
                        lemma_scanned_report(d0, diags@, m0, *span, ip);
                    }
                },
                Ok((path, anchor)) => {
                proof {
                    let t = trimmed(body@, 0, body@.len() as int);
                    let m = path@.len() as int;
                    assert(t.subrange(0, m) =~= path@);
                    assert forall|j: int| 0 <= j < m implies t[j] != '#' by {
                        assert(t[j] == path@[j]);
                    }
                    lemma_first_hash_at(t, 0, m);
                    match &anchor {
                        Some(a) => {
                            assert(t.subrange(m + 1, t.len() as int) =~= a@);
                        },
                        None => {},
                    }
                }
                match p.index.anchors.get(path.as_str()) {
                    None => {
                        let known = first_keys(&p.index.anchors, 5);
                        let help = if p.index.anchors.len() == 0 {
                            String::from_str("no `.brf` files were indexed under this project root")
                        } else {
                            msg3("known files: ", known.as_str(), "", "", "")
                        };
                        diags.push(
                            Diagnostic::new(Code::RefMissingFile, *span).label(
                                msg3("file `", path.as_str(), "` not found in project", "", "").as_str(),
                            ).help(help.as_str()),
                        );
                    proof {
                        assert(diags@.subrange(0, d0.len() as int) =~= d0);
                        lemma_scanned_report(d0, diags@, m0, *span, ip);
                    }
                    },
                    Some(set) => {
                        match &anchor {
                            Some(a) => {
                                if !set.contains_key(a.as_str()) {
                                    let listed = first_keys(set, 10);
                                    let help = if set.len() == 0 {
                                        msg3("`", path.as_str(), "` defines no anchors", "", "")
                                    } else {
                                        msg3("anchors in `", path.as_str(), "`: ", listed.as_str(), "")
                                    };
                                    diags.push(
                                        Diagnostic::new(Code::RefMissingAnchor, *span).label(
                                            msg3("anchor `", a.as_str(), "` not found in `", path.as_str(), "`").as_str(),
                                        ).help(help.as_str()),
                                    );
                    proof {
                        assert(diags@.subrange(0, d0.len() as int) =~= d0);
                        lemma_scanned_report(d0, diags@, m0, *span, ip);
                    }
                                    return;
                                }
                            },
                            None => {},
                        }
                        out.insert(
                            *span,
                            ResolvedRef { target_path: path, target_anchor: anchor, display },
                        );
                        proof {
                            assert(ref_answered(diags@, d0.len() as int, *out, seq![*span][0], ip));
                        }
                    },
                }
                },
            }
        },
        _ => {},
    }
}

/// Index of the first `#` of `t` at or after `i` (`t.len()` when none).
pub open spec fn first_hash(t: Seq<char>, i: int) -> int
    decreases t.len() - i,
{
    if i >= t.len() {
        t.len() as int
    } else if t[i] == '#' {
        i
    } else {
        first_hash(t, i + 1)
    }
}

/// `t[a..b]` is empty, `.` or `..`.
pub open spec fn bad_seg(t: Seq<char>, a: int, b: int) -> bool {
    b == a || (b - a == 1 && t[a] == '.') || (b - a == 2 && t[a] == '.' && t[a + 1] == '.')
}

/// Every `/`-separated segment of `t[seg..pe]`, scanning from `k`, is good.
pub open spec fn segs_ok(t: Seq<char>, seg: int, k: int, pe: int) -> bool
    decreases pe - k,
{
    if k >= pe {
        !bad_seg(t, seg, pe)
    } else if t[k] == '/' {
        !bad_seg(t, seg, k) && segs_ok(t, k + 1, k + 1, pe)
    } else {
        segs_ok(t, seg, k + 1, pe)
    }
}

/// A (trimmed) `@ref` target that `parse_target` accepts: relative, `/`
/// separators only, its path (up to the first `#`) made of good segments
/// and ending in `.brf`, and, after a `#`, a valid anchor.
pub open spec fn valid_target(t: Seq<char>) -> bool {
    let pe = first_hash(t, 0);
    &&& t.len() > 0
    &&& t[0] != '/'
    &&& forall|j: int| 0 <= j < t.len() ==> #[trigger] t[j] != '\\'
    &&& pe > 0
    &&& segs_ok(t, 0, 0, pe)
    &&& pe >= 4 && t.subrange(pe - 4, pe) == ".brf"@
    &&& pe < t.len() ==> valid_anchor(t.subrange(pe + 1, t.len() as int))
}

/// Split an `@ref` target into its `.brf` path and optional anchor,
/// rejecting absolute paths, `\` separators, empty, `.` and `..` segments,
/// other extensions and malformed anchors.
pub fn parse_target(s: &str) -> (r: Result<(String, Option<String>), String>)
    ensures
        r is Ok <==> valid_target(trimmed(s@, 0, s@.len() as int)),
        trimmed(s@, 0, s@.len() as int).len() == 0 ==> r is Err,
        trimmed(s@, 0, s@.len() as int).len() > 0 && trimmed(s@, 0, s@.len() as int)[0] == '/' ==> r is Err,
        r matches Ok((path, anchor)) ==> {
            &&& ends_brf(path@)
            &&& path@[0] != '/'
            &&& forall|i: int| 0 <= i < path@.len() ==> #[trigger] path@[i] != '\\' && path@[i] != '#'
            &&& (anchor matches Some(a) ==> valid_anchor(a@))
            &&& trimmed(s@, 0, s@.len() as int) == match anchor {
                Some(a) => path@ + seq!['#'] + a@,
                None => path@,
            }
        },
{
    let c = str_chars(s);
    let (a, b) = trim_bounds(c.as_slice(), 0, c.len());
    let ghost t = trimmed(s@, 0, s@.len() as int);
    proof {
        assert(t == c@.subrange(a as int, b as int));
    }
    if a == b {
        return Err(String::from_str("@ref target cannot be empty"));
    }
    if c[a] == '/' {
        return Err(String::from_str("@ref target must be relative; leading `/` is not allowed"));
    }
    let mut k = a;
    let mut hash: Option<usize> = None;
    while k < b
        invariant
            a <= k <= b,
            b <= c@.len(),
            forall|j: int| a <= j < k ==> c@[j] != '\\',
            hash matches Some(h) ==> a <= h < k && c@[h as int] == '#' && forall|j: int| a <= j < h ==> c@[j] != '#',
            hash is None ==> forall|j: int| a <= j < k ==> c@[j] != '#',
            t == c@.subrange(a as int, b as int),
            hash is None ==> first_hash(t, 0) == first_hash(t, k - a),
            hash matches Some(h) ==> first_hash(t, 0) == h - a,
        decreases b - k,
    {
        assert(t[k - a] == c@[k as int]);
        if c[k] == '\\' {
            return Err(String::from_str("@ref target must use `/` separators"));
        }
        if c[k] == '#' && hash.is_none() {
            hash = Some(k);
        }
        k = k + 1;
    }
    let pe = match hash {
        Some(h) => h,
        None => b,
    };
    assert(first_hash(t, 0) == pe - a);
    if pe == a {
        return Err(String::from_str("@ref target path cannot be empty"));
    }
    // Segments between `/`s must be non-empty and not `.` or `..`.
    let mut seg = a;
    let mut k = a;
    while k < pe
        invariant
            a <= seg <= k,
            seg <= pe,
            k <= pe,
            pe <= b,
            b <= c@.len(),
            t == c@.subrange(a as int, b as int),
            segs_ok(t, 0, 0, pe - a) == segs_ok(t, seg - a, k - a, pe - a),
        decreases pe - k,
    {
        assert(t[k - a] == c@[k as int]);
        assert(seg < b ==> t[seg - a] == c@[seg as int]);
        assert(seg + 1 < b ==> t[seg + 1 - a] == c@[seg + 1]);
        if c[k] == '/' {
            if bad_segment(c.as_slice(), seg, k) {
                return Err(segment_error(c.as_slice(), seg, k));
            }
            seg = k + 1;
        }
        k = k + 1;
    }
    assert(seg < b ==> t[seg - a] == c@[seg as int]);
    assert(seg + 1 < b ==> t[seg + 1 - a] == c@[seg + 1]);
    if bad_segment(c.as_slice(), seg, pe) {
        return Err(segment_error(c.as_slice(), seg, pe));
    }
    assert(segs_ok(t, 0, 0, pe - a));
    let brf = pe - a >= 4 && crate::text::starts_at_str(c.as_slice(), pe - 4, ".brf");
    proof {
        if pe - a >= 4 {
            assert(t.subrange(pe - a - 4, pe - a) =~= c@.subrange(pe - 4, pe as int));
        }
    }
    if !brf {
        return Err(String::from_str("@ref target path must end in `.brf`"));
    }
    proof {
        reveal_strlit(".brf");
        assert(c@.subrange(pe - 4, pe as int) == ".brf"@);
    }
    let path = range_string(c.as_slice(), a, pe);
    proof {
        assert(path@.subrange(path@.len() - 4, path@.len() as int) == c@.subrange(pe - 4, pe as int));
        assert(path@[0] == c@[a as int]);
        assert forall|i: int| 0 <= i < path@.len() implies #[trigger] path@[i] != '\\' && path@[i] != '#' by {
            assert(path@[i] == c@[a + i]);
        }
    }
    match hash {
        None => {
            proof {
                assert(t == path@);
            }
            Ok((path, None))
        },
        Some(h) => {
            if h + 1 == b {
                return Err(String::from_str("@ref anchor after `#` cannot be empty"));
            }
            assert(t.subrange(h + 1 - a, t.len() as int) =~= c@.subrange(h + 1, b as int));
            if !crate::parser::is_valid_anchor(c.as_slice(), h + 1, b) {
                let mut m: Vec<char> = Vec::new();
                push_str(&mut m, "invalid anchor `");
                push_range(&mut m, c.as_slice(), h + 1, b);
                push_str(&mut m, "`; must match [a-z0-9-]+");
                return Err(chars_to_string(m.as_slice()));
            }
            let anchor = range_string(c.as_slice(), h + 1, b);
            proof {
                assert(t == path@ + seq!['#'] + anchor@);
            }
            Ok((path, Some(anchor)))
        },
    }
}

/// Is `s[a..b]` empty, `.` or `..`?
fn bad_segment(s: &[char], a: usize, b: usize) -> (r: bool)
    requires
        a <= b <= s@.len(),
    ensures
        r == (b == a || (b - a == 1 && s@[a as int] == '.') || (b - a == 2 && s@[a as int] == '.'
            && s@[a + 1] == '.')),
{
    let len = b - a;
    len == 0 || (len == 1 && s[a] == '.') || (len == 2 && s[a] == '.' && s[a + 1] == '.')
}

fn segment_error(s: &[char], a: usize, b: usize) -> (r: String)
    requires
        a <= b <= s@.len(),
    ensures
        r@ == "invalid path segment `"@ + s@.subrange(a as int, b as int) + seq!['`'],
{
    let mut m: Vec<char> = Vec::new();
    push_str(&mut m, "invalid path segment `");
    push_range(&mut m, s, a, b);
    m.push('`');
    chars_to_string(m.as_slice())
}

/// Does a value of this shape satisfy the declared type? Strings accept
/// identifiers too.
pub open spec fn spec_type_matches(t: ArgType, v: ArgValue) -> bool {
    match (t, v) {
        (ArgType::String, ArgValue::Str(_)) => true,
        (ArgType::String, ArgValue::Ident(_)) => true,
        (ArgType::Int, ArgValue::Int(_)) => true,
        (ArgType::Ident, ArgValue::Ident(_)) => true,
        (ArgType::Array, ArgValue::Array(_)) => true,
        _ => false,
    }
}

pub fn type_matches(t: &ArgType, v: &ArgValue) -> (r: bool)
    ensures
        r == spec_type_matches(*t, *v),
{
    match (t, v) {
        (ArgType::String, ArgValue::Str(_)) => true,
        (ArgType::String, ArgValue::Ident(_)) => true,
        (ArgType::Int, ArgValue::Int(_)) => true,
        (ArgType::Ident, ArgValue::Ident(_)) => true,
        (ArgType::Array, ArgValue::Array(_)) => true,
        _ => false,
    }
}

/// Name of a declared type as diagnostics print it.
fn arg_type_name(t: ArgType) -> (r: &'static str)
    ensures
        r@ == match t {
            ArgType::String => "String"@,
            ArgType::Int => "Int"@,
            ArgType::Ident => "Ident"@,
            ArgType::Array => "Array"@,
        },
{
    match t {
        ArgType::String => "String",
        ArgType::Int => "Int",
        ArgType::Ident => "Ident",
        ArgType::Array => "Array",
    }
}

/// Name of a shortcode form as diagnostics print it.
fn kind_name(k: ShortKindOpt) -> (r: &'static str)
    ensures
        r@ == match k {
            ShortKindOpt::Inline => "Inline"@,
            ShortKindOpt::Block => "Block"@,
            ShortKindOpt::Both => "Both"@,
        },
{
    match k {
        ShortKindOpt::Inline => "Inline",
        ShortKindOpt::Block => "Block",
        ShortKindOpt::Both => "Both",
    }
}

fn resolve_block(block: &mut Block, reg: &Registry, diags: &mut Vec<Diagnostic>)
    ensures
        grows(old(diags)@, final(diags)@),
        *old(block) matches Block::BlockShortcode { name, span, .. } ==> ((name@ == "br"@
            || reg.map.spec_get(name@) is None) ==> reported(
            final(diags)@,
            old(diags)@.len() as int,
            Code::UnknownShortcode,
            span,
        )),
    decreases *old(block), 2nat,
{
    let ghost d0 = diags@;
    assert(d0.subrange(0, d0.len() as int) =~= d0);
    match block {
        Block::Heading { content, .. } => resolve_seq(content, reg, diags),
        Block::Paragraph { content, .. } => resolve_seq(content, reg, diags),
        Block::List { items, .. } => {
            let ghost oi = *items;
            proof {
                assert(decreases_to!(*old(block) => oi));
            }
            let n = items.len();
            let mut k: usize = 0;
            while k < n
                invariant
                    n == items@.len(),
                    n == oi@.len(),
                    forall|j: int| k <= j < n ==> items@[j] == oi@[j],
                    grows(d0, diags@),
                decreases n - k,
            {
                let ghost da = diags@;
                resolve_seq(&mut items[k].content, reg, diags);
                proof {
                    assert(decreases_to!(oi => oi@[k as int]));
                    assert(decreases_to!(oi@[k as int] => oi@[k as int].children));
                }
                let ghost db = diags@;
                resolve_blocks(&mut items[k].children, reg, diags);
                proof {
                    lemma_grows_trans(d0, da, db);
                    lemma_grows_trans(d0, db, diags@);
                }
                k = k + 1;
            }
        },
        Block::Blockquote { children, .. } => resolve_blocks(children, reg, diags),
        Block::CodeBlock { .. } => {},
        Block::HorizontalRule { .. } => {},
        Block::Table { args, header, rows, span } => {
            check_shortcode("t", args, reg, true, *span, diags);
            let n = header.cells.len();
            let mut c: usize = 0;
            while c < n
                invariant
                    n == header.cells@.len(),
                    grows(d0, diags@),
                decreases n - c,
            {
                let ghost da = diags@;
                resolve_seq(&mut header.cells[c], reg, diags);
                proof {
                    lemma_grows_trans(d0, da, diags@);
                }
                c = c + 1;
            }
            let m = rows.len();
            let mut r: usize = 0;
            while r < m
                invariant
                    m == rows@.len(),
                    grows(d0, diags@),
                decreases m - r,
            {
                let n = rows[r].cells.len();
                let mut c: usize = 0;
                while c < n
                    invariant
                        m == rows@.len(),
                        r < m,
                        n == rows@[r as int].cells@.len(),
                        grows(d0, diags@),
                    decreases n - c,
                {
                    let ghost da = diags@;
                    resolve_seq(&mut rows[r].cells[c], reg, diags);
                    proof {
                        lemma_grows_trans(d0, da, diags@);
                    }
                    c = c + 1;
                }
                r = r + 1;
            }
        },
        Block::DefinitionList { items, .. } => {
            let n = items.len();
            let mut k: usize = 0;
            while k < n
                invariant
                    n == items@.len(),
                    grows(d0, diags@),
                decreases n - k,
            {
                let ghost da = diags@;
                resolve_seq(&mut items[k].term, reg, diags);
                let ghost db = diags@;
                resolve_seq(&mut items[k].definition, reg, diags);
                proof {
                    lemma_grows_trans(d0, da, db);
                    lemma_grows_trans(d0, db, diags@);
                }
                k = k + 1;
            }
        },
        Block::BlockShortcode { name, args, children, span } => {
            check_shortcode(name.as_str(), args, reg, true, *span, diags);
            let ghost da = diags@;
            proof {
                if name@ == "br"@ || reg.map.spec_get(name@) is None {
                    assert(da[d0.len() as int] == da.last());
                    assert(reported(da, d0.len() as int, Code::UnknownShortcode, *span));
                }
            }
            resolve_blocks(children, reg, diags);
            proof {
                lemma_grows_trans(d0, da, diags@);
                if reported(da, d0.len() as int, Code::UnknownShortcode, *span) {
                    lemma_reported_grows(da, diags@, d0.len() as int, Code::UnknownShortcode, *span);
                }
            }
        },
    }
}

fn resolve_blocks(v: &mut Vec<Block>, reg: &Registry, diags: &mut Vec<Diagnostic>)
    ensures
        grows(old(diags)@, final(diags)@),
        forall|k: int|
            0 <= k < old(v)@.len() && (#[trigger] unknown_block(old(v)@[k], *reg)) is Some ==> reported(
                final(diags)@,
                old(diags)@.len() as int,
                Code::UnknownShortcode,
                unknown_block(old(v)@[k], *reg)->Some_0,
            ),
    decreases *old(v), 1nat,
{
    let ghost d0 = diags@;
    let ghost ov = v@;
    assert(d0.subrange(0, d0.len() as int) =~= d0);
    let n = v.len();
    let mut i: usize = 0;
    while i < n
        invariant
            n == v@.len(),
            n == old(v)@.len(),
            ov == old(v)@,
            i <= n,
            forall|j: int| i <= j < n ==> v@[j] == old(v)@[j],
            grows(d0, diags@),
            forall|k: int|
                0 <= k < i && (#[trigger] unknown_block(ov[k], *reg)) is Some ==> reported(
                    diags@,
                    d0.len() as int,
                    Code::UnknownShortcode,
                    unknown_block(ov[k], *reg)->Some_0,
                ),
        decreases n - i,
    {
        proof {
            assert(decreases_to!(*old(v) => old(v)@[i as int]));
        }
        let ghost da = diags@;
        resolve_block(&mut v[i], reg, diags);
        proof {
            lemma_grows_trans(d0, da, diags@);
            assert forall|k: int|
                0 <= k < i + 1 && (#[trigger] unknown_block(ov[k], *reg)) is Some implies reported(
                    diags@,
                    d0.len() as int,
                    Code::UnknownShortcode,
                    unknown_block(ov[k], *reg)->Some_0,
                ) by {
                let sp = unknown_block(ov[k], *reg)->Some_0;
                if k < i {
                    lemma_reported_grows(da, diags@, d0.len() as int, Code::UnknownShortcode, sp);
                } else {
                    lemma_reported_earlier(diags@, d0.len() as int, da.len() as int, Code::UnknownShortcode, sp);
                }
            }
        }
        i = i + 1;
    }
}

/// Check the shortcodes of an inline sequence.
/// The span of an inline shortcode the registry does not know (or `@br`).
pub open spec fn unknown_inline(n: Inline, reg: Registry) -> Option<Span> {
    match n {
        Inline::Shortcode { name, span, .. } => if name@ == "br"@ || reg.map.spec_get(name@) is None {
            Some(span)
        } else {
            None
        },
        _ => None,
    }
}

/// The span of a block shortcode the registry does not know (or `@br`).
pub open spec fn unknown_block(b: Block, reg: Registry) -> Option<Span> {
    match b {
        Block::BlockShortcode { name, span, .. } => if name@ == "br"@ || reg.map.spec_get(name@) is None {
            Some(span)
        } else {
            None
        },
        _ => None,
    }
}

fn resolve_seq(v: &mut Vec<Inline>, reg: &Registry, diags: &mut Vec<Diagnostic>)
    ensures
        grows(old(diags)@, final(diags)@),
        forall|k: int|
            0 <= k < old(v)@.len() && (#[trigger] unknown_inline(old(v)@[k], *reg)) is Some ==> reported(
                final(diags)@,
                old(diags)@.len() as int,
                Code::UnknownShortcode,
                unknown_inline(old(v)@[k], *reg)->Some_0,
            ),
    decreases *old(v), 1nat,
{
    let ghost d0 = diags@;
    let ghost ov = v@;
    assert(d0.subrange(0, d0.len() as int) =~= d0);
    let n = v.len();
    let mut i: usize = 0;
    while i < n
        invariant
            n == v@.len(),
            n == old(v)@.len(),
            ov == old(v)@,
            i <= n,
            forall|j: int| i <= j < n ==> v@[j] == old(v)@[j],
            grows(d0, diags@),
            forall|k: int|
                0 <= k < i && (#[trigger] unknown_inline(ov[k], *reg)) is Some ==> reported(
                    diags@,
                    d0.len() as int,
                    Code::UnknownShortcode,
                    unknown_inline(ov[k], *reg)->Some_0,
                ),
        decreases n - i,
    {
        proof {
            assert(decreases_to!(*old(v) => old(v)@[i as int]));
        }
        let ghost da = diags@;
        resolve_inline(&mut v[i], reg, diags);
        proof {
            lemma_grows_trans(d0, da, diags@);
            assert forall|k: int|
                0 <= k < i + 1 && (#[trigger] unknown_inline(ov[k], *reg)) is Some implies reported(
                    diags@,
                    d0.len() as int,
                    Code::UnknownShortcode,
                    unknown_inline(ov[k], *reg)->Some_0,
                ) by {
                let sp = unknown_inline(ov[k], *reg)->Some_0;
                if k < i {
                    lemma_reported_grows(da, diags@, d0.len() as int, Code::UnknownShortcode, sp);
                } else {
                    lemma_reported_earlier(diags@, d0.len() as int, da.len() as int, Code::UnknownShortcode, sp);
                }
            }
        }
        i = i + 1;
    }
}

fn resolve_inline(node: &mut Inline, reg: &Registry, diags: &mut Vec<Diagnostic>)
    ensures
        grows(old(diags)@, final(diags)@),
        *old(node) matches Inline::Shortcode { name, span, .. } ==> ((name@ == "br"@
            || reg.map.spec_get(name@) is None) ==> reported(
            final(diags)@,
            old(diags)@.len() as int,
            Code::UnknownShortcode,
            span,
        )),
    decreases *old(node), 2nat,
{
    let ghost d0 = diags@;
    assert(d0.subrange(0, d0.len() as int) =~= d0);
    match node {
        Inline::Bold { content, .. } => resolve_seq(content, reg, diags),
        Inline::Italic { content, .. } => resolve_seq(content, reg, diags),
        Inline::Underline { content, .. } => resolve_seq(content, reg, diags),
        Inline::Strike { content, .. } => resolve_seq(content, reg, diags),
        Inline::Shortcode { name, args, content, span } => {
            check_shortcode(name.as_str(), args, reg, false, *span, diags);
            let ghost da = diags@;
            assert(da.subrange(0, da.len() as int) =~= da);
            proof {
                if name@ == "br"@ || reg.map.spec_get(name@) is None {
                    assert(da[d0.len() as int] == da.last());
                    assert(reported(da, d0.len() as int, Code::UnknownShortcode, *span));
                }
            }
            match content {
                Some(c) => resolve_seq(c, reg, diags),
                None => {},
            }
            proof {
                lemma_grows_trans(d0, da, diags@);
                if reported(da, d0.len() as int, Code::UnknownShortcode, *span) {
                    lemma_reported_grows(da, diags@, d0.len() as int, Code::UnknownShortcode, *span);
                }
            }
        },
        _ => {},
    }
}

/// A shortcode registered as `k` may be used in this form.
pub open spec fn form_fits(k: ShortKindOpt, is_block: bool) -> bool {
    match k {
        ShortKindOpt::Block => is_block,
        ShortKindOpt::Inline => !is_block,
        ShortKindOpt::Both => true,
    }
}

/// Check one shortcode use against the registry: known name, form (block
/// or inline), the deprecated `callout` kinds, positional binding, argument
/// names and types, required arguments and allowed values.
fn check_shortcode(name: &str, args: &mut ShortArgs, reg: &Registry, is_block: bool, span: Span, diags: &mut Vec<Diagnostic>)
    ensures
        final(diags)@.len() >= old(diags)@.len(),
        final(diags)@.take(old(diags)@.len() as int) == old(diags)@,
        grows(old(diags)@, final(diags)@),
        (name@ == "br"@ || reg.map.spec_get(name@) is None) ==> *final(args) == *old(args)
            && final(diags)@.len() == old(diags)@.len() + 1
            && final(diags)@.last().code == Code::UnknownShortcode && final(diags)@.last().span == span
            && final(diags)@.last().severity == Severity::Error,
        (name@ != "br"@ && (reg.map.spec_get(name@) matches Some(sc) && !form_fits(sc.kind, is_block)))
            ==> reported(final(diags)@, old(diags)@.len() as int, Code::FormMismatch, span),
        (name@ == "callout"@ && reg.map.spec_get(name@) is Some && (old(args).keyword.spec_get("kind"@) matches Some(v)
            && (crate::shortcode::spec_as_str(v) == Some("info"@) || crate::shortcode::spec_as_str(v) == Some(
            "danger"@,
        )))) ==> warned(final(diags)@, old(diags)@.len() as int, Code::DeprecatedCalloutKind, span),
{
    let ghost d0 = diags@;
    proof {
        reveal_strlit("callout");
        reveal_strlit("br");
        assert("callout"@.len() == 7);
        assert("br"@.len() == 2);
        assert("callout"@ != "br"@);
    }
    if str_eq(name, "br") {
        diags.push(
            Diagnostic::new(Code::UnknownShortcode, span).label("`@br` is not a Brief shortcode").help(
                "use `\\` at end of line for a hard break (see §12); `@br` will not be registered as a built-in",
            ),
        );
        assert(diags@.take(d0.len() as int) =~= d0);
        assert(diags@.subrange(0, d0.len() as int) =~= d0);
        return;
    }
    let sc = match reg.get(name) {
        Some(sc) => sc,
        None => {
            diags.push(
                Diagnostic::new(Code::UnknownShortcode, span).label(
                    msg3("shortcode `", name, "` is not registered", "", "").as_str(),
                ).help("register it in `brief.toml` under `[shortcodes.<name>]`"),
            );
            assert(diags@.take(d0.len() as int) =~= d0);
            assert(diags@.subrange(0, d0.len() as int) =~= d0);
            return;
        },
    };
    let form_ok = match sc.kind {
        ShortKindOpt::Block => is_block,
        ShortKindOpt::Inline => !is_block,
        ShortKindOpt::Both => true,
    };
    assert(form_ok == form_fits(sc.kind, is_block));
    if !form_ok {
        let used = if is_block {
            "block"
        } else {
            "inline"
        };
        let mut m: Vec<char> = Vec::new();
        push_str(&mut m, "`");
        push_str(&mut m, name);
        push_str(&mut m, "` was used as ");
        push_str(&mut m, used);
        push_str(&mut m, " but is registered as ");
        push_str(&mut m, kind_name(sc.kind));
        diags.push(
            Diagnostic::new(Code::FormMismatch, span).label(chars_to_string(m.as_slice()).as_str()),
        );
        assert(diags@[d0.len() as int].code == Code::FormMismatch);
    }
    let ghost d1 = diags@;
    assert(d1.subrange(0, d0.len() as int) =~= d0);
    assert(d1.subrange(0, d1.len() as int) =~= d1);
    assert(!form_ok ==> reported(d1, d0.len() as int, Code::FormMismatch, span));
    proof {
        reveal_strlit("callout");
        reveal_strlit("br");
        reveal_strlit("kind");
    }
    let ghost warn = name@ == "callout"@ && (old(args).keyword.spec_get("kind"@) matches Some(v) && (
    crate::shortcode::spec_as_str(v) == Some("info"@) || crate::shortcode::spec_as_str(v) == Some("danger"@)));
    if str_eq(name, "callout") {
        let alias: Option<(&str, &str)> = match args.keyword.get("kind") {
            Some(v) => match v.as_str() {
                Some(s) => {
                    if str_eq(s, "info") {
                        Some(("note", "`kind: info` is deprecated; use `kind: note`"))
                    } else if str_eq(s, "danger") {
                        Some(("caution", "`kind: danger` is deprecated; use `kind: caution`"))
                    } else {
                        None
                    }
                },
                None => None,
            },
            None => None,
        };
        match alias {
            Some((canonical, msg)) => {
                let ghost dd = diags@;
                diags.push(Diagnostic::warning(Code::DeprecatedCalloutKind, span).label(msg));
                proof {
                    lemma_grows_push(dd, diags@);
                    lemma_grows_trans(d1, dd, diags@);
                    assert(diags@[dd.len() as int].code == Code::DeprecatedCalloutKind);
                    assert(warned(diags@, d0.len() as int, Code::DeprecatedCalloutKind, span));
                }
                args.keyword.insert(String::from_str("kind"), ArgValue::Str(String::from_str(canonical)));
            },
            None => {},
        }
    }
    let ghost d2 = diags@;
    assert(warn ==> warned(d2, d0.len() as int, Code::DeprecatedCalloutKind, span));
    bind_positional(sc, args, span, diags);
    let ghost d3 = diags@;
    typecheck_args(sc, args, span, diags);
    let ghost d4 = diags@;
    proof {
        lemma_grows_trans(d1, d2, d3);
        lemma_grows_trans(d1, d3, diags@);
        lemma_grows_trans(d2, d3, d4);
        assert(d4.subrange(0, d4.len() as int) =~= d4);
    }
    let mut i: usize = 0;
    while i < sc.arguments.len()
        invariant
            grows(d1, diags@),
                grows(d4, diags@),
        decreases sc.arguments.view_entries().len() - i,
    {
        let kw = sc.arguments.key_at(i);
        let spec = sc.arguments.value_at(i);
        if spec.required && !args.keyword.contains_key(kw.as_str()) {
            let ghost dd = diags@;
            diags.push(
                Diagnostic::new(Code::MissingArg, span).label(
                    msg3("missing required argument `", kw.as_str(), "` for `", name, "`").as_str(),
                ),
            );
            proof {
                lemma_grows_push(dd, diags@);
                lemma_grows_trans(d1, dd, diags@);
                lemma_grows_trans(d4, dd, diags@);
            }
        }
        match (&spec.oneof, args.keyword.get(kw.as_str())) {
            (Some(allowed), Some(v)) => match v.as_str() {
                Some(s) => {
                    let ghost dd = diags@;
                    check_oneof(s, allowed, span, diags);
                    proof {
                        lemma_grows_trans(d1, dd, diags@);
                lemma_grows_trans(d4, dd, diags@);
                    }
                },
                None => match v {
                    ArgValue::Array(items) => {
                        let mut j: usize = 0;
                        while j < items.len()
                            invariant
                                grows(d1, diags@),
                grows(d4, diags@),
                            decreases items@.len() - j,
                        {
                            let label: &str = match items[j].as_str() {
                                Some(t) => t,
                                None => items[j].type_label(),
                            };
                            let ghost dd = diags@;
                            check_oneof(label, allowed, span, diags);
                            proof {
                                lemma_grows_trans(d1, dd, diags@);
                lemma_grows_trans(d4, dd, diags@);
                            }
                            j = j + 1;
                        }
                    },
                    _ => {},
                },
            },
            _ => {},
        }
        i = i + 1;
    }
    proof {
        lemma_grows_trans(d0, d1, diags@);
        assert(diags@.take(d0.len() as int) =~= diags@.subrange(0, d0.len() as int));
        if reported(d1, d0.len() as int, Code::FormMismatch, span) {
            lemma_reported_grows(d1, diags@, d0.len() as int, Code::FormMismatch, span);
        }
        if warn {
            lemma_grows_trans(d2, d4, diags@);
            lemma_warned_grows(d2, diags@, d0.len() as int, Code::DeprecatedCalloutKind, span);
        }
    }
}

/// Report `s` when it is not one of the `allowed` values.
fn check_oneof(s: &str, allowed: &Vec<String>, span: Span, diags: &mut Vec<Diagnostic>)
    ensures
        grows(old(diags)@, final(diags)@),
        (exists|j: int| 0 <= j < allowed@.len() && (#[trigger] allowed@[j])@ == s@) ==> final(diags)@
            == old(diags)@,
        !(exists|j: int| 0 <= j < allowed@.len() && (#[trigger] allowed@[j])@ == s@) ==> final(diags)@.len()
            == old(diags)@.len() + 1 && final(diags)@.last().code == Code::BadEnumValue
            && final(diags)@.last().span == span && final(diags)@.last().severity == Severity::Error,
{
    let ghost d0 = diags@;
    assert(d0.subrange(0, d0.len() as int) =~= d0);
    let mut found = false;
    let mut j: usize = 0;
    while j < allowed.len()
        invariant
            j <= allowed@.len(),
            found <==> exists|q: int| 0 <= q < j && (#[trigger] allowed@[q])@ == s@,
        decreases allowed@.len() - j,
    {
        if str_eq(allowed[j].as_str(), s) {
            found = true;
        }
        j = j + 1;
    }
    if !found {
        let mut m: Vec<char> = Vec::new();
        m.push('`');
        push_str(&mut m, s);
        push_str(&mut m, "` is not in {");
        let mut j: usize = 0;
        while j < allowed.len()
            decreases allowed@.len() - j,
        {
            if j > 0 {
                push_str(&mut m, ", ");
            }
            push_str(&mut m, allowed[j].as_str());
            j = j + 1;
        }
        m.push('}');
        diags.push(Diagnostic::new(Code::BadEnumValue, span).label(chars_to_string(m.as_slice()).as_str()));
        proof {
            lemma_grows_push(d0, diags@);
        }
    }
}

/// Appending keeps what was there.
/// `d` holds, from index `from` on, a warning with `code` at `span`.
pub open spec fn warned(d: Seq<Diagnostic>, from: int, code: Code, span: Span) -> bool {
    exists|j: int|
        from <= j < d.len() && (#[trigger] d[j]).code == code && d[j].span == span && d[j].severity
            == Severity::Warning
}

/// A warning survives appending.
proof fn lemma_warned_grows(d0: Seq<Diagnostic>, d1: Seq<Diagnostic>, from: int, code: Code, span: Span)
    requires
        0 <= from,
        grows(d0, d1),
        warned(d0, from, code, span),
    ensures
        warned(d1, from, code, span),
{
    let j = choose|j: int|
        from <= j < d0.len() && (#[trigger] d0[j]).code == code && d0[j].span == span && d0[j].severity
            == Severity::Warning;
    assert(d1.subrange(0, d0.len() as int)[j] == d1[j]);
}

proof fn lemma_grows_push(d: Seq<Diagnostic>, e: Seq<Diagnostic>)
    requires
        e.len() == d.len() + 1,
        forall|k: int| 0 <= k < d.len() ==> e[k] == d[k],
    ensures
        grows(d, e),
{
    assert(e.subrange(0, d.len() as int) =~= d);
}

/// Growing twice is growing.
proof fn lemma_grows_trans(a: Seq<Diagnostic>, b: Seq<Diagnostic>, c: Seq<Diagnostic>)
    requires
        grows(a, b),
        grows(b, c),
    ensures
        grows(a, c),
{
    assert(c.subrange(0, a.len() as int) =~= b.subrange(0, a.len() as int));
}

/// The first declared argument (in name order) bound to `pos`.
fn bound_name(sc: &Shortcode, pos: usize) -> (r: Option<&String>)
    ensures
        r matches Some(k) ==> exists|i: int|
            0 <= i < sc.arguments.view_entries().len() && sc.arguments.view_entries()[i].0 == *k
                && sc.arguments.view_entries()[i].1.position == Some(pos),
        r is None ==> forall|i: int|
            0 <= i < sc.arguments.view_entries().len() ==> (#[trigger] sc.arguments.view_entries()[i]).1.position != Some(pos),
{
    let mut i: usize = 0;
    while i < sc.arguments.len()
        invariant
            forall|j: int| 0 <= j < i ==> (#[trigger] sc.arguments.view_entries()[j]).1.position != Some(pos),
        decreases sc.arguments.view_entries().len() - i,
    {
        if sc.arguments.value_at(i).position == Some(pos) {
            return Some(sc.arguments.key_at(i));
        }
        i = i + 1;
    }
    None
}

/// Move each positional argument to the keyword its position is declared
/// for; a position with no declaration is reported.
fn bind_positional(sc: &Shortcode, args: &mut ShortArgs, span: Span, diags: &mut Vec<Diagnostic>)
    ensures
        final(args).positional@.len() == 0,
        final(diags)@.len() >= old(diags)@.len(),
        final(diags)@.take(old(diags)@.len() as int) == old(diags)@,
{
    let ghost d0 = diags@;
    let mut positional: Vec<ArgValue> = Vec::new();
    std::mem::swap(&mut positional, &mut args.positional);
    let n = positional.len();
    let mut rev: Vec<ArgValue> = Vec::new();
    while positional.len() > 0
        decreases positional@.len(),
    {
        let v = positional.pop().unwrap();
        rev.push(v);
    }
    let mut i: usize = 0;
    while rev.len() > 0
        invariant
            args.positional@.len() == 0,
            diags@.len() >= d0.len(),
            diags@.take(d0.len() as int) == d0,
        decreases rev@.len(),
    {
        let v = rev.pop().unwrap();
        let pos = if i < usize::MAX {
            i + 1
        } else {
            i
        };
        match bound_name(sc, pos) {
            Some(kw) => {
                if args.keyword.contains_key(kw.as_str()) {
                    let mut m: Vec<char> = Vec::new();
                    m.push('`');
                    push_str(&mut m, kw.as_str());
                    push_str(&mut m, "` is given both positionally and by name");
                    let ghost dd = diags@;
                    diags.push(
                        Diagnostic::new(Code::DuplicateKwarg, span).label(chars_to_string(m.as_slice()).as_str()),
                    );
                    assert(diags@.take(d0.len() as int) =~= dd.take(d0.len() as int));
                } else {
                    args.keyword.insert(kw.clone(), v);
                }
            },
            None => {
                let mut m: Vec<char> = Vec::new();
                push_str(&mut m, "positional argument #");
                push_usize(&mut m, pos);
                push_str(&mut m, " has no `position = ");
                push_usize(&mut m, pos);
                push_str(&mut m, "` mapping");
                let ghost dd = diags@;
                diags.push(
                    Diagnostic::new(Code::BadArgSyntax, span).label(chars_to_string(m.as_slice()).as_str()),
                );
                assert(diags@.take(d0.len() as int) =~= dd.take(d0.len() as int));
            },
        }
        i = if i < usize::MAX - 1 {
            i + 1
        } else {
            i
        };
    }
}

/// Codes of the argument checks, one per keyword argument in order that
/// fails: `UnknownArg` when undeclared, `ArgTypeMismatch` when of the wrong
/// type.
pub open spec fn tc_codes(e: Seq<(String, ArgValue)>, decl: StrMap<ArgSpec>) -> Seq<Code>
    decreases e.len(),
{
    if e.len() == 0 {
        seq![]
    } else {
        let p = tc_codes(e.drop_last(), decl);
        match decl.spec_get(e.last().0@) {
            None => p.push(Code::UnknownArg),
            Some(a) => if spec_type_matches(a.ty, e.last().1) {
                p
            } else {
                p.push(Code::ArgTypeMismatch)
            },
        }
    }
}

/// The codes of diagnostics.
pub open spec fn codes_of(d: Seq<Diagnostic>) -> Seq<Code> {
    Seq::new(d.len(), |i: int| d[i].code)
}

/// Report keyword arguments the shortcode does not declare and values
/// whose type differs from the declaration.
fn typecheck_args(sc: &Shortcode, args: &ShortArgs, span: Span, diags: &mut Vec<Diagnostic>)
    ensures
        final(diags)@.len() >= old(diags)@.len(),
        final(diags)@.take(old(diags)@.len() as int) == old(diags)@,
        codes_of(final(diags)@.skip(old(diags)@.len() as int)) == tc_codes(args.keyword.view_entries(), sc.arguments),
        forall|i: int| old(diags)@.len() <= i < final(diags)@.len() ==> (#[trigger] final(diags)@[i]).span == span,
{
    let ghost d0 = diags@;
    let ghost e = args.keyword.view_entries();
    let mut i: usize = 0;
    assert(e.take(0) =~= Seq::<(String, ArgValue)>::empty());
    assert(codes_of(diags@.skip(d0.len() as int)) =~= Seq::<Code>::empty());
    while i < args.keyword.len()
        invariant
            i <= e.len(),
            e == args.keyword.view_entries(),
            diags@.len() >= d0.len(),
            diags@.take(d0.len() as int) == d0,
            codes_of(diags@.skip(d0.len() as int)) == tc_codes(e.take(i as int), sc.arguments),
            forall|q: int| d0.len() <= q < diags@.len() ==> (#[trigger] diags@[q]).span == span,
        decreases args.keyword.view_entries().len() - i,
    {
        let ghost t = e.take(i + 1);
        assert(t.drop_last() =~= e.take(i as int));
        assert(t.last() == e[i as int]);
        let ghost before = diags@;
        let kw = args.keyword.key_at(i);
        let v = args.keyword.value_at(i);
        match sc.arguments.get(kw.as_str()) {
            None => {
                let mut d = Diagnostic::new(Code::UnknownArg, span).label(
                    msg3("no argument named `", kw.as_str(), "` on this shortcode", "", "").as_str(),
                );
                if !sc.arguments.is_empty() {
                    let known = first_keys(&sc.arguments, usize::MAX);
                    d = d.help(msg3("declared arguments: ", known.as_str(), "", "", "").as_str());
                }
                diags.push(d);
                proof {
                    assert(diags@.take(d0.len() as int) =~= d0);
                    assert(codes_of(diags@.skip(d0.len() as int)) =~= codes_of(before.skip(d0.len() as int)).push(Code::UnknownArg));
                }
            },
            Some(spec) => {
                if !type_matches(&spec.ty, v) {
                    let mut m: Vec<char> = Vec::new();
                    push_str(&mut m, "argument `");
                    push_str(&mut m, kw.as_str());
                    push_str(&mut m, "` has type ");
                    push_str(&mut m, v.type_label());
                    push_str(&mut m, " but expected ");
                    push_str(&mut m, arg_type_name(spec.ty));
                    diags.push(
                        Diagnostic::new(Code::ArgTypeMismatch, span).label(chars_to_string(m.as_slice()).as_str()),
                    );
                    proof {
                        assert(diags@.take(d0.len() as int) =~= d0);
                        assert(codes_of(diags@.skip(d0.len() as int)) =~= codes_of(before.skip(d0.len() as int)).push(
                            Code::ArgTypeMismatch,
                        ));
                    }
                }
            },
        }
        i = i + 1;
    }
    assert(e.take(e.len() as int) =~= e);
}

} // verus!
