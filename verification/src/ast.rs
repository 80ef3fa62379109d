//! The document tree produced by the parser.
use crate::shortcode::ArgValue;
use crate::span::Span;
use crate::strmap::StrMap;
use vstd::prelude::*;

verus! {

#[verifier::external_type_specification]
#[verifier::external_body]
#[verifier::reject_recursive_types(K)]
#[verifier::reject_recursive_types(V)]
pub struct ExTomlMap<K, V>(toml::map::Map<K, V>);

#[verifier::external_type_specification]
#[verifier::external_body]
pub struct ExTomlValue(toml::Value);

/// Positional and keyword arguments of a shortcode invocation.
#[derive(Clone, Debug)]
pub struct ShortArgs {
    pub positional: Vec<ArgValue>,
    pub keyword: StrMap<ArgValue>,
}

impl Default for ShortArgs {
    fn default() -> (a: ShortArgs)
        ensures
            a.positional@.len() == 0,
            a.keyword.wf(),
            a.keyword.view_entries().len() == 0,
    {
        ShortArgs { positional: Vec::new(), keyword: StrMap::new() }
    }
}

/// Code-fence attributes (`@nominify`, `@minify`, `@minify-keep-comments`).
#[derive(Clone, Copy, Debug, PartialEq, Eq, Structural)]
pub struct CodeAttrs {
    pub nominify: bool,
    pub minify: bool,
    pub keep_comments: bool,
}

impl Default for CodeAttrs {
    fn default() -> (a: CodeAttrs)
        ensures
            !a.nominify && !a.minify && !a.keep_comments,
    {
        CodeAttrs { nominify: false, minify: false, keep_comments: false }
    }
}

/// Task-list marker of a list item.
#[derive(Clone, Copy, Debug, PartialEq, Eq, Structural)]
pub enum TaskState {
    Todo,
    Done,
}

/// Inline content.
#[derive(Debug)]
pub enum Inline {
    Text { value: String, span: Span },
    HardBreak { span: Span },
    Bold { content: Vec<Inline>, span: Span },
    Italic { content: Vec<Inline>, span: Span },
    Underline { content: Vec<Inline>, span: Span },
    Strike { content: Vec<Inline>, span: Span },
    InlineCode { value: String, span: Span },
    Shortcode { name: String, args: ShortArgs, content: Option<Vec<Inline>>, span: Span },
}

/// A list item: its inline text, nested blocks and task marker.
#[derive(Debug)]
pub struct ListItem {
    pub content: Vec<Inline>,
    pub children: Vec<Block>,
    pub task: Option<TaskState>,
    pub span: Span,
}

/// A table row: one inline sequence per cell.
#[derive(Debug)]
pub struct Row {
    pub cells: Vec<Vec<Inline>>,
    pub span: Span,
}

/// A term / definition pair of a `@dl` list.
#[derive(Debug)]
pub struct DefinitionItem {
    pub term: Vec<Inline>,
    pub definition: Vec<Inline>,
    pub span: Span,
}

/// Block-level content.
#[derive(Debug)]
pub enum Block {
    Heading { level: u8, content: Vec<Inline>, anchor: Option<String>, span: Span },
    Paragraph { content: Vec<Inline>, span: Span },
    List { ordered: bool, items: Vec<ListItem>, span: Span },
    Blockquote { children: Vec<Block>, span: Span },
    CodeBlock { lang: Option<String>, body: String, attrs: CodeAttrs, span: Span },
    Table { args: ShortArgs, header: Row, rows: Vec<Row>, span: Span },
    DefinitionList { args: ShortArgs, items: Vec<DefinitionItem>, span: Span },
    HorizontalRule { span: Span },
    BlockShortcode { name: String, args: ShortArgs, children: Vec<Block>, span: Span },
}

/// A resolved `@ref`: target file, optional anchor, display text.
#[derive(Clone, Debug)]
pub struct ResolvedRef {
    pub target_path: String,
    pub target_anchor: Option<String>,
    pub display: String,
}

/// Reference recorded for span `k` (first entry with that span).
pub open spec fn ref_lookup(e: Seq<(Span, ResolvedRef)>, k: Span) -> Option<ResolvedRef>
    decreases e.len(),
{
    if e.len() == 0 {
        None
    } else if e[0].0 == k {
        Some(e[0].1)
    } else {
        ref_lookup(e.skip(1), k)
    }
}

proof fn lemma_ref_lookup_prefix(e: Seq<(Span, ResolvedRef)>, k: Span, i: int)
    requires
        0 <= i < e.len(),
        e[i].0 == k,
        forall|j: int| 0 <= j < i ==> (#[trigger] e[j]).0 != k,
    ensures
        ref_lookup(e, k) == Some(e[i].1),
    decreases i,
{
    if i > 0 {
        let t = e.skip(1);
        assert forall|j: int| 0 <= j < i - 1 implies (#[trigger] t[j]).0 != k by {
            assert(t[j] == e[j + 1]);
        }
        lemma_ref_lookup_prefix(t, k, i - 1);
    }
}

proof fn lemma_ref_lookup_none(e: Seq<(Span, ResolvedRef)>, k: Span)
    requires
        forall|j: int| 0 <= j < e.len() ==> (#[trigger] e[j]).0 != k,
    ensures
        ref_lookup(e, k).is_none(),
    decreases e.len(),
{
    if e.len() > 0 {
        let t = e.skip(1);
        assert forall|j: int| 0 <= j < t.len() implies (#[trigger] t[j]).0 != k by {
            assert(t[j] == e[j + 1]);
        }
        lemma_ref_lookup_none(t, k);
    }
}

proof fn lemma_ref_lookup_push(e: Seq<(Span, ResolvedRef)>, x: (Span, ResolvedRef), k: Span)
    requires
        x.0 != k,
    ensures
        ref_lookup(e.push(x), k) == ref_lookup(e, k),
    decreases e.len(),
{
    if e.len() > 0 {
        assert(e.push(x).skip(1) =~= e.skip(1).push(x));
        lemma_ref_lookup_push(e.skip(1), x, k);
    } else {
        assert(e.push(x).skip(1) =~= e);
    }
}

proof fn lemma_ref_lookup_set(o: Seq<(Span, ResolvedRef)>, e: Seq<(Span, ResolvedRef)>, i: int, k: Span)
    requires
        0 <= i < o.len(),
        e.len() == o.len(),
        forall|j: int| 0 <= j < o.len() && j != i ==> e[j] == o[j],
        e[i].0 == o[i].0,
        k != o[i].0,
    ensures
        ref_lookup(e, k) == ref_lookup(o, k),
    decreases o.len(),
{
    if i == 0 {
        assert(e.skip(1) =~= o.skip(1));
    } else {
        assert(e[0] == o[0]);
        lemma_ref_lookup_set(o.skip(1), e.skip(1), i - 1, k);
    }
}

/// Resolved `@ref`s keyed by the span of their invocation.
#[derive(Clone, Debug)]
pub struct RefMap {
    entries: Vec<(Span, ResolvedRef)>,
}

impl RefMap {
    /// Entries, in insertion order.
    pub closed spec fn view_entries(&self) -> Seq<(Span, ResolvedRef)> {
        self.entries@
    }

    /// The reference recorded for span `k`.
    pub open spec fn spec_get(&self, k: Span) -> Option<ResolvedRef> {
        ref_lookup(self.view_entries(), k)
    }

    pub fn new() -> (m: RefMap)
        ensures
            m.view_entries().len() == 0,
            forall|k: Span| m.spec_get(k).is_none(),
    {
        RefMap { entries: Vec::new() }
    }

    pub fn len(&self) -> (n: usize)
        ensures
            n == self.view_entries().len(),
    {
        self.entries.len()
    }

    pub fn is_empty(&self) -> (b: bool)
        ensures
            b == (self.view_entries().len() == 0),
    {
        self.entries.len() == 0
    }

    /// The reference recorded for `span`.
    pub fn get(&self, span: &Span) -> (r: Option<&ResolvedRef>)
        ensures
            r matches Some(v) ==> self.spec_get(*span) == Some(*v),
            r is None ==> self.spec_get(*span).is_none(),
    {
        let mut i: usize = 0;
        while i < self.entries.len()
            invariant
                i <= self.entries@.len(),
                forall|j: int| 0 <= j < i ==> (#[trigger] self.entries@[j]).0 != *span,
            decreases self.entries@.len() - i,
        {
            if self.entries[i].0 == *span {
                proof {
                    lemma_ref_lookup_prefix(self.entries@, *span, i as int);
                }
                return Some(&self.entries[i].1);
            }
            i = i + 1;
        }
        proof {
            lemma_ref_lookup_none(self.entries@, *span);
        }
        None
    }

    /// Record `r` for `span`, replacing an earlier entry for the same span.
    pub fn insert(&mut self, span: Span, r: ResolvedRef)
        ensures
            final(self).spec_get(span) == Some(r),
            forall|k: Span| k != span ==> final(self).spec_get(k) == old(self).spec_get(k),
    {
        let ghost o = self.entries@;
        let mut i: usize = 0;
        while i < self.entries.len()
            invariant
                i <= self.entries@.len(),
                self.entries@ == o,
                forall|j: int| 0 <= j < i ==> (#[trigger] self.entries@[j]).0 != span,
            decreases self.entries@.len() - i,
        {
            if self.entries[i].0 == span {
                self.entries.set(i, (span, r));
                proof {
                    lemma_ref_lookup_prefix(self.entries@, span, i as int);
                    assert forall|k: Span| k != span implies ref_lookup(self.entries@, k)
                        == ref_lookup(o, k) by {
                        lemma_ref_lookup_set(o, self.entries@, i as int, k);
                    }
                }
                return;
            }
            i = i + 1;
        }
        self.entries.push((span, r));
        proof {
            lemma_ref_lookup_prefix(self.entries@, span, i as int);
            assert forall|k: Span| k != span implies ref_lookup(self.entries@, k) == ref_lookup(
                o,
                k,
            ) by {
                lemma_ref_lookup_push(o, (span, r), k);
            }
        }
    }

    /// All entries, in insertion order.
    pub fn entries(&self) -> (e: &Vec<(Span, ResolvedRef)>)
        ensures
            e@ == self.view_entries(),
    {
        &self.entries
    }
}

impl Default for RefMap {
    fn default() -> (m: RefMap)
        ensures
            m.view_entries().len() == 0,
            forall|k: Span| m.spec_get(k).is_none(),
    {
        RefMap::new()
    }
}

/// A parsed document: its blocks, optional TOML frontmatter, and the
/// `@ref`s resolved against the project.
#[derive(Debug)]
pub struct Document {
    pub blocks: Vec<Block>,
    pub metadata: Option<toml::Table>,
    pub resolved_refs: RefMap,
}

/// `r` copies `n`: the same variant with the same span and, where `n`
/// holds text, the same text (nested sequences copied item by item).
pub open spec fn copies(n: Inline, r: Inline) -> bool {
    match (n, r) {
        (Inline::Text { value: a, span: s }, Inline::Text { value: b, span: t }) => a@ == b@ && s == t,
        (Inline::HardBreak { span: s }, Inline::HardBreak { span: t }) => s == t,
        (Inline::Bold { content: a, span: s }, Inline::Bold { content: b, span: t }) => a@.len() == b@.len() && s == t,
        (Inline::Italic { content: a, span: s }, Inline::Italic { content: b, span: t }) => a@.len() == b@.len() && s == t,
        (Inline::Underline { content: a, span: s }, Inline::Underline { content: b, span: t }) => a@.len() == b@.len() && s == t,
        (Inline::Strike { content: a, span: s }, Inline::Strike { content: b, span: t }) => a@.len() == b@.len() && s == t,
        (Inline::InlineCode { value: a, span: s }, Inline::InlineCode { value: b, span: t }) => a@ == b@ && s == t,
        (Inline::Shortcode { name: a, span: s, .. }, Inline::Shortcode { name: b, span: t, .. }) => a@ == b@ && s == t,
        _ => false,
    }
}

impl Clone for Inline {
    fn clone(&self) -> (r: Inline)
        ensures
            copies(*self, r),
        decreases self,
    {
        match self {
            Inline::Text { value, span } => Inline::Text { value: value.clone(), span: *span },
            Inline::HardBreak { span } => Inline::HardBreak { span: *span },
            Inline::Bold { content, span } => Inline::Bold {
                content: clone_inlines_in(self, content),
                span: *span,
            },
            Inline::Italic { content, span } => Inline::Italic {
                content: clone_inlines_in(self, content),
                span: *span,
            },
            Inline::Underline { content, span } => Inline::Underline {
                content: clone_inlines_in(self, content),
                span: *span,
            },
            Inline::Strike { content, span } => Inline::Strike {
                content: clone_inlines_in(self, content),
                span: *span,
            },
            Inline::InlineCode { value, span } => Inline::InlineCode {
                value: value.clone(),
                span: *span,
            },
            Inline::Shortcode { name, args, content, span } => Inline::Shortcode {
                name: name.clone(),
                args: args.clone(),
                content: match content {
                    Some(c) => Some(clone_inlines_in(self, c)),
                    None => None,
                },
                span: *span,
            },
        }
    }
}

/// Copy of an inline sequence nested in `parent`.
fn clone_inlines_in(parent: &Inline, v: &Vec<Inline>) -> (r: Vec<Inline>)
    requires
        decreases_to!(*parent => *v),
    ensures
        r@.len() == v@.len(),
        forall|i: int| 0 <= i < v@.len() ==> copies(#[trigger] v@[i], r@[i]),
    decreases parent, 0nat,
{
    let mut out: Vec<Inline> = Vec::new();
    let mut i: usize = 0;
    while i < v.len()
        invariant
            i <= v@.len(),
            decreases_to!(*parent => *v),
            out@.len() == i,
            forall|k: int| 0 <= k < i ==> copies(#[trigger] v@[k], out@[k]),
        decreases v@.len() - i,
    {
        proof {
            assert(decreases_to!(*v => v@[i as int]));
        }
        out.push(v[i].clone());
        i = i + 1;
    }
    out
}

/// Copy of an inline sequence.
pub fn clone_inlines(v: &Vec<Inline>) -> (r: Vec<Inline>)
    ensures
        r@.len() == v@.len(),
        forall|i: int| 0 <= i < v@.len() ==> copies(#[trigger] v@[i], r@[i]),
{
    let mut out: Vec<Inline> = Vec::new();
    let mut i: usize = 0;
    while i < v.len()
        invariant
            i <= v@.len(),
            out@.len() == i,
            forall|k: int| 0 <= k < i ==> copies(#[trigger] v@[k], out@[k]),
        decreases v@.len() - i,
    {
        out.push(v[i].clone());
        i = i + 1;
    }
    out
}

} // verus!
