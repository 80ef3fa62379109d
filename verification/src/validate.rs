//! Document-level checks run after parsing: heading levels that skip
//! (when asked for) and heading anchors used twice.
use crate::ast::{Block, Document};
use crate::diag::{Code, Diagnostic};
use crate::span::{SourceMap, Span};
use crate::strmap::StrMap;
use crate::text::{chars_to_string, push_str, push_usize};
use vstd::prelude::*;

verus! {

/// Options of `validate`.
pub struct ValidateOpts {
    /// Report a heading more than one level deeper than the previous one.
    pub strict_heading_levels: bool,
}

impl Default for ValidateOpts {
    fn default() -> (o: ValidateOpts)
        ensures
            !o.strict_heading_levels,
    {
        ValidateOpts { strict_heading_levels: false }
    }
}

/// Levels of the top-level headings of `blocks`, in order.
pub open spec fn heading_levels(blocks: Seq<Block>) -> Seq<u8>
    decreases blocks.len(),
{
    if blocks.len() == 0 {
        Seq::empty()
    } else {
        let rest = heading_levels(blocks.drop_last());
        match blocks.last() {
            Block::Heading { level, .. } => rest.push(level),
            _ => rest,
        }
    }
}

/// Levels and spans of the top-level headings, in order.
pub open spec fn heading_marks(blocks: Seq<Block>) -> Seq<(u8, Span)>
    decreases blocks.len(),
{
    if blocks.len() == 0 {
        Seq::empty()
    } else {
        let rest = heading_marks(blocks.drop_last());
        match blocks.last() {
            Block::Heading { level, span, .. } => rest.push((level, span)),
            _ => rest,
        }
    }
}

/// Spans of the headings more than one level below the heading before
/// them (when that one has a level), in order.
pub open spec fn jump_spans(m: Seq<(u8, Span)>) -> Seq<Span>
    decreases m.len(),
{
    if m.len() < 2 {
        seq![]
    } else {
        let n = m.len();
        jump_spans(m.drop_last()) + if m[n - 2].0 > 0 && m[n - 1].0 > m[n - 2].0 + 1 {
            seq![m[n - 1].1]
        } else {
            seq![]
        }
    }
}

/// Number of level jumps (a heading more than one level below the one
/// before it, when that one has a level) in a level sequence.
pub open spec fn level_jumps(levels: Seq<u8>) -> nat
    decreases levels.len(),
{
    if levels.len() < 2 {
        0
    } else {
        let n = levels.len();
        level_jumps(levels.drop_last()) + if levels[n - 2] > 0 && levels[n - 1] > levels[n - 2] + 1 { 1nat } else { 0nat }
    }
}

/// Run the checks on `doc`, in order: heading levels (when
/// `strict_heading_levels`), then duplicate anchors.
pub fn validate(doc: &Document, opts: &ValidateOpts, src: &SourceMap) -> (r: Vec<Diagnostic>)
    requires
        src.wf(),
    ensures
        !opts.strict_heading_levels ==> forall|i: int| 0 <= i < r@.len() ==> (#[trigger] r@[i]).code == Code::DuplicateHeadingAnchor,
        ({
            let j = if opts.strict_heading_levels {
                level_jumps(heading_levels(doc.blocks@)) as int
            } else {
                0int
            };
            &&& j <= r@.len()
            &&& forall|i: int| 0 <= i < j ==> (#[trigger] r@[i]).code == Code::HeadingMonotonic
            &&& forall|i: int| j <= i < r@.len() ==> (#[trigger] r@[i]).code == Code::DuplicateHeadingAnchor
            &&& spans_of(r@.skip(j)) == dup_spans(anchor_occ_blocks(doc.blocks@), Set::empty())
            &&& opts.strict_heading_levels ==> spans_of(r@.take(j)) == jump_spans(heading_marks(doc.blocks@))
        }),
{
    let mut diags: Vec<Diagnostic> = Vec::new();
    if opts.strict_heading_levels {
        check_heading_monotonic(doc, &mut diags);
    }
    let ghost mid = diags@;
    check_duplicate_anchors(doc, src, &mut diags);
    proof {
        let j = mid.len() as int;
        let js = if opts.strict_heading_levels {
            level_jumps(heading_levels(doc.blocks@)) as int
        } else {
            0int
        };
        assert(j == js);
        assert forall|i: int| 0 <= i < j implies (#[trigger] diags@[i]).code == Code::HeadingMonotonic by {
            assert(diags@[i] == mid[i]);
        }
        assert(j <= diags@.len());
        assert(spans_of(diags@.skip(js)) == dup_spans(anchor_occ_blocks(doc.blocks@), Set::empty()));
        assert forall|i: int| js <= i < diags@.len() implies (#[trigger] diags@[i]).code == Code::DuplicateHeadingAnchor by {}
        if opts.strict_heading_levels {
            assert(spans_of(diags@.take(js)) =~= spans_of(mid.skip(0)));
        }
    }
    diags
}

/// One `HeadingMonotonic` diagnostic per top-level heading more than one
/// level deeper than the heading before it.
fn check_heading_monotonic(doc: &Document, diags: &mut Vec<Diagnostic>)
    ensures
        final(diags)@.len() == old(diags)@.len() + level_jumps(heading_levels(doc.blocks@)),
        forall|i: int| old(diags)@.len() <= i < final(diags)@.len() ==> (#[trigger] final(diags)@[i]).code == Code::HeadingMonotonic,
        forall|i: int| 0 <= i < old(diags)@.len() ==> final(diags)@[i] == old(diags)@[i],
        spans_of(final(diags)@.skip(old(diags)@.len() as int)) == jump_spans(heading_marks(doc.blocks@)),
{
    let ghost d0 = diags@;
    let mut last: u8 = 0;
    let mut i: usize = 0;
    while i < doc.blocks.len()
        invariant
            i <= doc.blocks@.len(),
            heading_levels(doc.blocks@.take(i as int)).len() == 0 ==> last == 0,
            heading_levels(doc.blocks@.take(i as int)).len() > 0 ==> last == heading_levels(doc.blocks@.take(i as int)).last(),
            diags@.len() == d0.len() + level_jumps(heading_levels(doc.blocks@.take(i as int))),
            forall|k: int| d0.len() <= k < diags@.len() ==> (#[trigger] diags@[k]).code == Code::HeadingMonotonic,
            forall|k: int| 0 <= k < d0.len() ==> diags@[k] == d0[k],
            heading_marks(doc.blocks@.take(i as int)).len() == 0 ==> last == 0,
            heading_marks(doc.blocks@.take(i as int)).len() > 0 ==> last == heading_marks(
                doc.blocks@.take(i as int),
            ).last().0,
            spans_of(diags@.skip(d0.len() as int)) == jump_spans(heading_marks(doc.blocks@.take(i as int))),
        decreases doc.blocks@.len() - i,
    {
        proof {
            assert(doc.blocks@.take(i + 1).drop_last() == doc.blocks@.take(i as int));
        }
        let ghost lv = heading_levels(doc.blocks@.take(i as int));
        let ghost mk = heading_marks(doc.blocks@.take(i as int));
        let ghost before = diags@;
        match &doc.blocks[i] {
            Block::Heading { level, span, .. } => {
                proof {
                    assert(lv.push(*level).drop_last() == lv);
                    assert(mk.push((*level, *span)).drop_last() == mk);
                }
                if last > 0 && (*level as u16) > (last as u16) + 1 {
                    let mut m: Vec<char> = Vec::new();
                    push_str(&mut m, "heading level jumps from ");
                    push_usize(&mut m, last as usize);
                    push_str(&mut m, " to ");
                    push_usize(&mut m, *level as usize);
                    diags.push(
                        Diagnostic::new(Code::HeadingMonotonic, *span).label(
                            chars_to_string(m.as_slice()).as_str(),
                        ).help("increment heading levels by at most one"),
                    );
                    assert(diags@.skip(d0.len() as int) =~= before.skip(d0.len() as int).push(diags@.last()));
                    assert(spans_of(diags@.skip(d0.len() as int)) =~= spans_of(before.skip(d0.len() as int)).push(
                        *span,
                    ));
                }
                last = *level;
            },
            _ => {},
        }
        i = i + 1;
    }
    proof {
        assert(doc.blocks@.take(doc.blocks@.len() as int) == doc.blocks@);
    }
}

/// Heading anchors declared in `b`, with the heading's span, in document
/// order (inside quotes, block shortcodes and list items too).
pub open spec fn anchor_occ(b: Block) -> Seq<(Seq<char>, Span)>
    decreases b,
{
    match b {
        Block::Heading { anchor, span, .. } => match anchor {
            Some(a) => seq![(a@, span)],
            None => seq![],
        },
        Block::Blockquote { children, .. } => anchor_occ_blocks(children@),
        Block::BlockShortcode { children, .. } => anchor_occ_blocks(children@),
        Block::List { items, .. } => anchor_occ_items(items@),
        _ => seq![],
    }
}

/// `anchor_occ` over blocks, in order.
pub open spec fn anchor_occ_blocks(v: Seq<Block>) -> Seq<(Seq<char>, Span)>
    decreases v,
{
    if v.len() == 0 {
        seq![]
    } else {
        anchor_occ_blocks(v.drop_last()) + anchor_occ(v.last())
    }
}

/// `anchor_occ_item` over list items, in order.
pub open spec fn anchor_occ_items(v: Seq<crate::ast::ListItem>) -> Seq<(Seq<char>, Span)>
    decreases v,
{
    if v.len() == 0 {
        seq![]
    } else {
        anchor_occ_items(v.drop_last()) + anchor_occ_item(v.last())
    }
}

/// Anchors of the blocks of a list item.
pub open spec fn anchor_occ_item(it: crate::ast::ListItem) -> Seq<(Seq<char>, Span)>
    decreases it,
{
    anchor_occ_blocks(it.children@)
}

/// The names declared in `o`.
pub open spec fn occ_set(o: Seq<(Seq<char>, Span)>) -> Set<Seq<char>> {
    Set::new(|k: Seq<char>| exists|i: int| 0 <= i < o.len() && (#[trigger] o[i]).0 == k)
}

/// Spans of the declarations in `o` whose name was declared before: in
/// `seen` or earlier in `o`.
pub open spec fn dup_spans(o: Seq<(Seq<char>, Span)>, seen: Set<Seq<char>>) -> Seq<Span>
    decreases o.len(),
{
    if o.len() == 0 {
        seq![]
    } else {
        let p = dup_spans(o.drop_last(), seen);
        if seen.contains(o.last().0) || occ_set(o.drop_last()).contains(o.last().0) {
            p.push(o.last().1)
        } else {
            p
        }
    }
}

/// The spans of diagnostics.
pub open spec fn spans_of(d: Seq<Diagnostic>) -> Seq<Span> {
    Seq::new(d.len(), |i: int| d[i].span)
}

/// The names held by `m`.
pub open spec fn keys_of(m: StrMap<Span>) -> Set<Seq<char>> {
    Set::new(|k: Seq<char>| m.spec_get(k) is Some)
}

proof fn lemma_occ_set_append(o1: Seq<(Seq<char>, Span)>, o2: Seq<(Seq<char>, Span)>)
    ensures
        occ_set(o1 + o2) == occ_set(o1).union(occ_set(o2)),
{
    let a = o1 + o2;
    assert forall|k: Seq<char>| occ_set(a).contains(k) == occ_set(o1).union(occ_set(o2)).contains(k) by {
        if occ_set(a).contains(k) {
            let i = choose|i: int| 0 <= i < a.len() && (#[trigger] a[i]).0 == k;
            if i < o1.len() {
                assert(o1[i] == a[i]);
            } else {
                assert(o2[i - o1.len()] == a[i]);
            }
        }
        if occ_set(o1).contains(k) {
            let i = choose|i: int| 0 <= i < o1.len() && (#[trigger] o1[i]).0 == k;
            assert(a[i] == o1[i]);
        }
        if occ_set(o2).contains(k) {
            let i = choose|i: int| 0 <= i < o2.len() && (#[trigger] o2[i]).0 == k;
            assert(a[o1.len() + i] == o2[i]);
        }
    }
    assert(occ_set(a) =~= occ_set(o1).union(occ_set(o2)));
}

/// Scanning two declaration runs one after the other.
proof fn lemma_dup_append(o1: Seq<(Seq<char>, Span)>, o2: Seq<(Seq<char>, Span)>, seen: Set<Seq<char>>)
    ensures
        dup_spans(o1 + o2, seen) == dup_spans(o1, seen) + dup_spans(o2, seen.union(occ_set(o1))),
    decreases o2.len(),
{
    if o2.len() == 0 {
        assert(o1 + o2 =~= o1);
        assert(dup_spans(o1, seen) + dup_spans(o2, seen.union(occ_set(o1))) =~= dup_spans(o1, seen));
    } else {
        let d = o2.drop_last();
        lemma_dup_append(o1, d, seen);
        assert((o1 + o2).drop_last() =~= o1 + d);
        assert((o1 + o2).last() == o2.last());
        lemma_occ_set_append(o1, d);
    }
}

/// The spans past `l0` of diagnostics that only grew from `d1` to `d2`.
proof fn lemma_spans_grow(d1: Seq<Diagnostic>, d2: Seq<Diagnostic>, l0: int)
    requires
        0 <= l0 <= d1.len() <= d2.len(),
        forall|i: int| 0 <= i < d1.len() ==> d2[i] == d1[i],
    ensures
        spans_of(d2.skip(l0)) == spans_of(d1.skip(l0)) + spans_of(d2.skip(d1.len() as int)),
{
    assert(spans_of(d2.skip(l0)) =~= spans_of(d1.skip(l0)) + spans_of(d2.skip(d1.len() as int)));
}

fn check_duplicate_anchors(doc: &Document, src: &SourceMap, diags: &mut Vec<Diagnostic>)
    requires
        src.wf(),
    ensures
        forall|i: int| 0 <= i < old(diags)@.len() ==> final(diags)@[i] == old(diags)@[i],
        forall|i: int| old(diags)@.len() <= i < final(diags)@.len() ==> (#[trigger] final(diags)@[i]).code == Code::DuplicateHeadingAnchor,
        old(diags)@.len() <= final(diags)@.len(),
        spans_of(final(diags)@.skip(old(diags)@.len() as int)) == dup_spans(anchor_occ_blocks(doc.blocks@), Set::empty()),
{
    let mut seen: StrMap<Span> = StrMap::new();
    let ghost d0 = diags@;
    let ghost v = doc.blocks@;
    assert(keys_of(seen) =~= Set::<Seq<char>>::empty());
    assert(v.take(0) =~= Seq::<Block>::empty());
    assert(occ_set(Seq::<(Seq<char>, Span)>::empty()) =~= Set::<Seq<char>>::empty());
    assert(spans_of(diags@.skip(d0.len() as int)) =~= Seq::<Span>::empty());
    let mut i: usize = 0;
    while i < doc.blocks.len()
        invariant
            src.wf(),
            seen.wf(),
            v == doc.blocks@,
            i <= v.len(),
            d0 == old(diags)@,
            d0.len() <= diags@.len(),
            forall|k: int| 0 <= k < d0.len() ==> diags@[k] == d0[k],
            forall|k: int| d0.len() <= k < diags@.len() ==> (#[trigger] diags@[k]).code == Code::DuplicateHeadingAnchor,
            keys_of(seen) =~= occ_set(anchor_occ_blocks(v.take(i as int))),
            spans_of(diags@.skip(d0.len() as int)) == dup_spans(anchor_occ_blocks(v.take(i as int)), Set::empty()),
        decreases doc.blocks@.len() - i,
    {
        let ghost ok = anchor_occ_blocks(v.take(i as int));
        let ghost d1 = diags@;
        let ghost sk = keys_of(seen);
        collect_anchor(&doc.blocks[i], src, &mut seen, diags);
        proof {
            let oi = anchor_occ(v[i as int]);
            assert(v.take(i + 1).drop_last() =~= v.take(i as int));
            assert(v.take(i + 1).last() == v[i as int]);
            assert(anchor_occ_blocks(v.take(i + 1)) == ok + oi);
            assert(Set::<Seq<char>>::empty().union(occ_set(ok)) =~= sk);
            lemma_dup_append(ok, oi, Set::empty());
            lemma_occ_set_append(ok, oi);
            lemma_spans_grow(d1, diags@, d0.len() as int);
            assert(keys_of(seen) =~= occ_set(anchor_occ_blocks(v.take(i + 1))));
        }
        i = i + 1;
    }
    assert(v.take(v.len() as int) =~= v);
}

fn collect_anchor(block: &Block, src: &SourceMap, seen: &mut StrMap<Span>, diags: &mut Vec<Diagnostic>)
    requires
        src.wf(),
        old(seen).wf(),
    ensures
        final(seen).wf(),
        old(diags)@.len() <= final(diags)@.len(),
        forall|i: int| 0 <= i < old(diags)@.len() ==> final(diags)@[i] == old(diags)@[i],
        forall|i: int| old(diags)@.len() <= i < final(diags)@.len() ==> (#[trigger] final(diags)@[i]).code == Code::DuplicateHeadingAnchor,
        forall|k: Seq<char>| #[trigger] final(seen).spec_get(k) is Some <==> (old(seen).spec_get(k) is Some
            || occ_set(anchor_occ(*block)).contains(k)),
        spans_of(final(diags)@.skip(old(diags)@.len() as int)) == dup_spans(anchor_occ(*block), keys_of(*old(seen))),
    decreases block, 1nat,
{
    let ghost s0 = keys_of(*seen);
    let ghost l0 = diags@.len();
    assert(spans_of(diags@.skip(l0 as int)) =~= Seq::<Span>::empty());
    match block {
        Block::Heading { anchor, span, .. } => {
            match anchor {
                Some(name) => {
                    match seen.get(name.as_str()) {
                        Some(first) => {
                            let line = if (first.start as usize) <= src.len_bytes() {
                                src.line_col(first.start).0
                            } else {
                                0
                            };
                            let mut m: Vec<char> = Vec::new();
                            push_str(&mut m, "anchor `");
                            push_str(&mut m, name.as_str());
                            push_str(&mut m, "` already used at line ");
                            push_usize(&mut m, line);
                            diags.push(
                                Diagnostic::new(Code::DuplicateHeadingAnchor, *span).label(
                                    chars_to_string(m.as_slice()).as_str(),
                                ),
                            );
                            proof {
                                let o = anchor_occ(*block);
                                assert(o == seq![(name@, *span)]);
                                assert(o.drop_last() =~= Seq::<(Seq<char>, Span)>::empty());
                                assert(s0.contains(name@));
                                assert(spans_of(diags@.skip(l0 as int)) =~= seq![*span]);
                                assert(dup_spans(o.drop_last(), s0) == Seq::<Span>::empty());
                                assert(o.last() == (name@, *span));
                                assert(dup_spans(o, s0) =~= seq![*span]);
                                assert forall|k: Seq<char>| occ_set(o).contains(k) implies old(seen).spec_get(k) is Some by {
                                    assert(o[0].0 == name@);
                                }
                            }
                        },
                        None => {
                            seen.insert(name.clone(), *span);
                            proof {
                                let o = anchor_occ(*block);
                                assert(o == seq![(name@, *span)]);
                                assert(o.drop_last() =~= Seq::<(Seq<char>, Span)>::empty());
                                assert(occ_set(o.drop_last()) =~= Set::<Seq<char>>::empty());
                                assert(!s0.contains(name@));
                                assert(dup_spans(o.drop_last(), s0) == Seq::<Span>::empty());
                                assert(o.last() == (name@, *span));
                                assert(dup_spans(o, s0) =~= Seq::<Span>::empty());
                                assert(spans_of(diags@.skip(l0 as int)) == Seq::<Span>::empty());
                                assert forall|k: Seq<char>| #[trigger] seen.spec_get(k) is Some <==> (old(seen).spec_get(k) is Some
                                    || occ_set(o).contains(k)) by {
                                    if occ_set(o).contains(k) {
                                        let i = choose|i: int| 0 <= i < o.len() && (#[trigger] o[i]).0 == k;
                                        assert(i == 0);
                                    }
                                    if k == name@ {
                                        assert(o[0].0 == k);
                                    }
                                }
                            }
                        },
                    }
                },
                None => {
                    assert(anchor_occ(*block) == Seq::<(Seq<char>, Span)>::empty());
                    assert(occ_set(anchor_occ(*block)) =~= Set::<Seq<char>>::empty());
                    assert(dup_spans(anchor_occ(*block), s0) == Seq::<Span>::empty());
                },
            }
        },
        Block::Blockquote { children, .. } => {
            collect_anchors_in(block, children, src, seen, diags);
            assert(anchor_occ(*block) == anchor_occ_blocks(children@));
        },
        Block::BlockShortcode { children, .. } => {
            collect_anchors_in(block, children, src, seen, diags);
            assert(anchor_occ(*block) == anchor_occ_blocks(children@));
        },
        Block::List { items, .. } => {
            let ghost d0 = diags@;
            let mut k: usize = 0;
            assert(items@.take(0) =~= Seq::<crate::ast::ListItem>::empty());
            assert(occ_set(Seq::<(Seq<char>, Span)>::empty()) =~= Set::<Seq<char>>::empty());
            while k < items.len()
                invariant
                    k <= items@.len(),
                    src.wf(),
                    seen.wf(),
                    d0.len() <= diags@.len(),
                    d0 == old(diags)@,
                    s0 == keys_of(*old(seen)),
                    forall|q: int| 0 <= q < d0.len() ==> diags@[q] == d0[q],
                    forall|q: int| d0.len() <= q < diags@.len() ==> (#[trigger] diags@[q]).code == Code::DuplicateHeadingAnchor,
                    forall|q: Seq<char>| #[trigger] seen.spec_get(q) is Some <==> (old(seen).spec_get(q) is Some
                        || occ_set(anchor_occ_items(items@.take(k as int))).contains(q)),
                    spans_of(diags@.skip(d0.len() as int)) == dup_spans(anchor_occ_items(items@.take(k as int)), s0),
                decreases items@.len() - k,
            {
                proof {
                    assert(decreases_to!(*block => items@[k as int]));
                    assert(decreases_to!(items@[k as int] => items@[k as int].children));
                }
                let ghost ok = anchor_occ_items(items@.take(k as int));
                let ghost d1 = diags@;
                let ghost sk = keys_of(*seen);
                collect_anchors_in(block, &items[k].children, src, seen, diags);
                proof {
                    let oi = anchor_occ_blocks(items@[k as int].children@);
                    assert(items@.take(k + 1).drop_last() =~= items@.take(k as int));
                    assert(items@.take(k + 1).last() == items@[k as int]);
                    assert(anchor_occ_item(items@[k as int]) == oi);
                    assert(anchor_occ_items(items@.take(k + 1)) == ok + oi);
                    assert(sk =~= s0.union(occ_set(ok)));
                    lemma_dup_append(ok, oi, s0);
                    lemma_occ_set_append(ok, oi);
                    lemma_spans_grow(d1, diags@, d0.len() as int);
                }
                k = k + 1;
            }
            assert(items@.take(items@.len() as int) =~= items@);
            assert(anchor_occ(*block) == anchor_occ_items(items@));
        },
        _ => {
            assert(anchor_occ(*block) == Seq::<(Seq<char>, Span)>::empty());
            assert(occ_set(anchor_occ(*block)) =~= Set::<Seq<char>>::empty());
            assert(dup_spans(anchor_occ(*block), s0) == Seq::<Span>::empty());
        },
    }
}

fn collect_anchors_in(parent: &Block, v: &Vec<Block>, src: &SourceMap, seen: &mut StrMap<Span>, diags: &mut Vec<Diagnostic>)
    requires
        src.wf(),
        old(seen).wf(),
        decreases_to!(*parent => *v),
    ensures
        final(seen).wf(),
        old(diags)@.len() <= final(diags)@.len(),
        forall|i: int| 0 <= i < old(diags)@.len() ==> final(diags)@[i] == old(diags)@[i],
        forall|i: int| old(diags)@.len() <= i < final(diags)@.len() ==> (#[trigger] final(diags)@[i]).code == Code::DuplicateHeadingAnchor,
        forall|k: Seq<char>| #[trigger] final(seen).spec_get(k) is Some <==> (old(seen).spec_get(k) is Some
            || occ_set(anchor_occ_blocks(v@)).contains(k)),
        spans_of(final(diags)@.skip(old(diags)@.len() as int)) == dup_spans(anchor_occ_blocks(v@), keys_of(*old(seen))),
    decreases parent, 0nat,
{
    let ghost d0 = diags@;
    let ghost s0 = keys_of(*seen);
    let mut i: usize = 0;
    assert(v@.take(0) =~= Seq::<Block>::empty());
    assert(occ_set(Seq::<(Seq<char>, Span)>::empty()) =~= Set::<Seq<char>>::empty());
    assert(spans_of(diags@.skip(d0.len() as int)) =~= Seq::<Span>::empty());
    while i < v.len()
        invariant
            i <= v@.len(),
            src.wf(),
            seen.wf(),
            decreases_to!(*parent => *v),
            d0 == old(diags)@,
            s0 == keys_of(*old(seen)),
            d0.len() <= diags@.len(),
            forall|q: int| 0 <= q < d0.len() ==> diags@[q] == d0[q],
            forall|q: int| d0.len() <= q < diags@.len() ==> (#[trigger] diags@[q]).code == Code::DuplicateHeadingAnchor,
            forall|q: Seq<char>| #[trigger] seen.spec_get(q) is Some <==> (old(seen).spec_get(q) is Some
                || occ_set(anchor_occ_blocks(v@.take(i as int))).contains(q)),
            spans_of(diags@.skip(d0.len() as int)) == dup_spans(anchor_occ_blocks(v@.take(i as int)), s0),
        decreases v@.len() - i,
    {
        proof {
            assert(decreases_to!(*v => v@[i as int]));
        }
        let ghost ok = anchor_occ_blocks(v@.take(i as int));
        let ghost d1 = diags@;
        let ghost sk = keys_of(*seen);
        collect_anchor(&v[i], src, seen, diags);
        proof {
            let oi = anchor_occ(v@[i as int]);
            assert(v@.take(i + 1).drop_last() =~= v@.take(i as int));
            assert(v@.take(i + 1).last() == v@[i as int]);
            assert(anchor_occ_blocks(v@.take(i + 1)) == ok + oi);
            assert(sk =~= s0.union(occ_set(ok)));
            lemma_dup_append(ok, oi, s0);
            lemma_occ_set_append(ok, oi);
            lemma_spans_grow(d1, diags@, d0.len() as int);
        }
        i = i + 1;
    }
    assert(v@.take(v@.len() as int) =~= v@);
}

} // verus!
