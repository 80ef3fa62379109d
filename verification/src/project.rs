//! Project-wide state: the index of `@ref` targets (heading anchors per
//! project file) and the rules for which files and directories it covers.
use crate::ast::{Block, Document};
use crate::diag::Diagnostic;
use crate::lexer::lex;
use crate::parser::parse;
use crate::span::SourceMap;
use crate::strmap::StrMap;
use crate::text::{push_str, str_chars, str_eq};
use vstd::prelude::*;

verus! {

/// Diagnostics of one indexed project file, with its source.
#[derive(Debug)]
pub struct FileDiagnostics {
    pub source: SourceMap,
    pub diagnostics: Vec<Diagnostic>,
}

/// Snapshot of a project's `@ref` targets: the project root and, for each
/// project-relative `.brf` path (with `/` separators), the set of heading
/// anchors it defines.
#[derive(Clone, Debug)]
pub struct ProjectIndex {
    pub root: String,
    pub anchors: StrMap<StrMap<()>>,
}

impl Default for ProjectIndex {
    fn default() -> (p: ProjectIndex)
        ensures
            p.root@.len() == 0,
            p.anchors.wf(),
            p.anchors.view_entries().len() == 0,
    {
        ProjectIndex { root: String::new(), anchors: StrMap::new() }
    }
}

impl ProjectIndex {
    /// Record `path` with the anchors `set`, replacing what was there.
    pub fn insert_file(&mut self, path: String, set: StrMap<()>)
        ensures
            final(self).root == old(self).root,
            final(self).anchors.spec_get(path@) == Some(set),
            forall|k: Seq<char>| k != path@ ==> final(self).anchors.spec_get(k) == old(self).anchors.spec_get(k),
    {
        self.anchors.insert(path, set);
    }
}

/// A directory the project walk does not enter: hidden (`.name`) or one of
/// `target`, `dist`, `node_modules`.
pub open spec fn skipped_dir(name: Seq<char>) -> bool {
    (name.len() > 0 && name[0] == '.') || name == "target"@ || name == "dist"@ || name == "node_modules"@
}

/// Is the directory `name` left out of the project walk?
pub fn is_skipped_dir(name: &str) -> (r: bool)
    ensures
        r == skipped_dir(name@),
{
    let c = str_chars(name);
    (c.len() > 0 && c[0] == '.') || str_eq(name, "target") || str_eq(name, "dist") || str_eq(
        name,
        "node_modules",
    )
}

/// Is a file named `name` (not hidden) a Brief source (`.brf` extension)?
pub fn is_brf_file(name: &str) -> (r: bool)
    ensures
        r == (name@.len() > 4 && name@[0] != '.' && name@.subrange(name@.len() - 4, name@.len() as int)
            == ".brf"@),
{
    let c = str_chars(name);
    if c.len() <= 4 || c[0] == '.' {
        return false;
    }
    proof {
        reveal_strlit(".brf");
    }
    let r = crate::text::starts_at_str(c.as_slice(), c.len() - 4, ".brf");
    r
}

/// Path components joined with `/`.
pub fn join_components(parts: &Vec<String>) -> (r: String)
    ensures
        parts@.len() == 1 ==> r@ == parts@[0]@,
{
    let mut out: Vec<char> = Vec::new();
    let mut i: usize = 0;
    while i < parts.len()
        invariant
            i <= parts@.len(),
            i == 1 && parts@.len() == 1 ==> out@ == parts@[0]@,
            i == 0 ==> out@.len() == 0,
        decreases parts@.len() - i,
    {
        if i > 0 {
            out.push('/');
        }
        push_str(&mut out, parts[i].as_str());
        i = i + 1;
    }
    crate::text::chars_to_string(out.as_slice())
}

/// Anchors of the headings of `doc` (nested in quotes, lists and block
/// shortcodes too).
pub fn collect_doc_anchors(doc: &Document) -> (r: StrMap<()>)
    ensures
        r.wf(),
{
    let mut out: StrMap<()> = StrMap::new();
    let mut i: usize = 0;
    while i < doc.blocks.len()
        invariant
            out.wf(),
        decreases doc.blocks@.len() - i,
    {
        collect_block_anchors(&doc.blocks[i], &mut out);
        i = i + 1;
    }
    out
}

/// `b` declares heading anchor `k`: a heading with that anchor, or a block
/// nested in a quote, a block shortcode or a list item that does.
pub open spec fn block_has_anchor(b: Block, k: Seq<char>) -> bool
    decreases b,
{
    match b {
        Block::Heading { anchor, .. } => anchor matches Some(a) && a@ == k,
        Block::Blockquote { children, .. } => blocks_have_anchor(children@, k),
        Block::BlockShortcode { children, .. } => blocks_have_anchor(children@, k),
        Block::List { items, .. } => items_have_anchor(items@, k),
        _ => false,
    }
}

/// Some block of `v` declares `k`.
pub open spec fn blocks_have_anchor(v: Seq<Block>, k: Seq<char>) -> bool
    decreases v,
{
    v.len() > 0 && (blocks_have_anchor(v.drop_last(), k) || block_has_anchor(v.last(), k))
}

/// Some item of `v` holds a block that declares `k`.
pub open spec fn items_have_anchor(v: Seq<crate::ast::ListItem>, k: Seq<char>) -> bool
    decreases v,
{
    v.len() > 0 && (items_have_anchor(v.drop_last(), k) || item_has_anchor(v.last(), k))
}

/// A block of list item `it` declares `k`.
pub open spec fn item_has_anchor(it: crate::ast::ListItem, k: Seq<char>) -> bool
    decreases it,
{
    blocks_have_anchor(it.children@, k)
}

fn collect_block_anchors(b: &Block, out: &mut StrMap<()>)
    requires
        old(out).wf(),
    ensures
        final(out).wf(),
        forall|k: Seq<char>| #[trigger] final(out).spec_get(k) is Some <==> (old(out).spec_get(k) is Some
            || block_has_anchor(*b, k)),
    decreases b, 1nat,
{
    match b {
        Block::Heading { anchor, .. } => {
            match anchor {
                Some(a) => {
                    out.insert(a.clone(), ());
                },
                None => {},
            }
        },
        Block::Blockquote { children, .. } => collect_anchors_in(b, children, out),
        Block::BlockShortcode { children, .. } => collect_anchors_in(b, children, out),
        Block::List { items, .. } => {
            let mut k: usize = 0;
            assert(items@.take(0) =~= Seq::<crate::ast::ListItem>::empty());
            while k < items.len()
                invariant
                    k <= items@.len(),
                    out.wf(),
                    forall|q: Seq<char>| #[trigger] out.spec_get(q) is Some <==> (old(out).spec_get(q) is Some
                        || items_have_anchor(items@.take(k as int), q)),
                decreases items@.len() - k,
            {
                proof {
                    assert(decreases_to!(*b => items@[k as int]));
                    assert(decreases_to!(items@[k as int] => items@[k as int].children));
                    assert(items@.take(k + 1).drop_last() =~= items@.take(k as int));
                }
                collect_anchors_in(b, &items[k].children, out);
                proof {
                    let t = items@.take(k + 1);
                    assert(t.last() == items@[k as int]);
                    assert forall|q: Seq<char>| items_have_anchor(t, q) == (items_have_anchor(items@.take(k as int), q)
                        || blocks_have_anchor(items@[k as int].children@, q)) by {
                        assert(item_has_anchor(t.last(), q) == blocks_have_anchor(items@[k as int].children@, q));
                    }
                }
                k = k + 1;
            }
            assert(items@.take(items@.len() as int) =~= items@);
        },
        _ => {},
    }
}

fn collect_anchors_in(parent: &Block, v: &Vec<Block>, out: &mut StrMap<()>)
    requires
        old(out).wf(),
        decreases_to!(*parent => *v),
    ensures
        final(out).wf(),
        forall|k: Seq<char>| #[trigger] final(out).spec_get(k) is Some <==> (old(out).spec_get(k) is Some
            || blocks_have_anchor(v@, k)),
    decreases parent, 0nat,
{
    let mut i: usize = 0;
    assert(v@.take(0) =~= Seq::<Block>::empty());
    while i < v.len()
        invariant
            i <= v@.len(),
            out.wf(),
            decreases_to!(*parent => *v),
            forall|q: Seq<char>| #[trigger] out.spec_get(q) is Some <==> (old(out).spec_get(q) is Some
                || blocks_have_anchor(v@.take(i as int), q)),
        decreases v@.len() - i,
    {
        proof {
            assert(decreases_to!(*v => v@[i as int]));
            assert(v@.take(i + 1).drop_last() =~= v@.take(i as int));
        }
        collect_block_anchors(&v[i], out);
        i = i + 1;
    }
    assert(v@.take(v@.len() as int) =~= v@);
}

/// `text` without a leading byte-order mark.
pub fn strip_bom(text: &str) -> (r: String)
    ensures
        text@.len() > 0 && text@[0] == '\u{feff}' ==> r@ == text@.drop_first(),
        !(text@.len() > 0 && text@[0] == '\u{feff}') ==> r@ == text@,
{
    let c = str_chars(text);
    if c.len() > 0 && c[0] == '\u{feff}' {
        crate::text::range_string(c.as_slice(), 1, c.len())
    } else {
        crate::text::range_string(c.as_slice(), 0, c.len())
    }
}

/// Index one project file: lex and parse `text`, record its anchors under
/// `rel` (an empty set when it does not lex), and return its diagnostics
/// when there are any.
pub fn index_file(idx: &mut ProjectIndex, rel: String, path: &str, text: &str) -> (r: Option<FileDiagnostics>)
    ensures
        final(idx).root == old(idx).root,
        final(idx).anchors.spec_get(rel@) is Some,
        forall|k: Seq<char>| k != rel@ ==> final(idx).anchors.spec_get(k) == old(idx).anchors.spec_get(k),
        r matches Some(fd) ==> fd.diagnostics@.len() > 0,
{
    let body = strip_bom(text);
    let bc = str_chars(body.as_str());
    let fits = match crate::text::utf8_len_exec(bc.as_slice()) {
        Some(n) => n < u32::MAX as usize,
        None => false,
    };
    if !fits {
        // Offsets past 4 GiB cannot be spanned; such a file has no anchors.
        idx.insert_file(rel, StrMap::new());
        return None;
    }
    let src = SourceMap::new(path, body.as_str());
    match lex(&src) {
        Err(d) => {
            idx.insert_file(rel, StrMap::new());
            if d.len() > 0 {
                Some(FileDiagnostics { source: src, diagnostics: d })
            } else {
                None
            }
        },
        Ok(tokens) => {
            let (doc, diags) = parse(tokens, &src);
            let anchors = collect_doc_anchors(&doc);
            idx.insert_file(rel, anchors);
            if diags.len() > 0 {
                Some(FileDiagnostics { source: src, diagnostics: diags })
            } else {
                None
            }
        },
    }
}

} // verus!
