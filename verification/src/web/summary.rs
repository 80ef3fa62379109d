//! `SUMMARY.brf`, the site's navigation: list items holding a
//! `@ref[path](title)` are pages (nested lists are sub-pages), level-2+
//! headings are section dividers.
use crate::analysis::inline_text;
use crate::ast::{Block, Document, Inline, ListItem};
use crate::text::{range_string, str_chars, trim_bounds};
use vstd::prelude::*;

verus! {

/// A navigation entry.
#[derive(Clone, Debug)]
pub enum Entry {
    Section(String),
    Page(PageEntry),
}

/// A page: its source path, its title and its sub-pages.
#[derive(Debug)]
pub struct PageEntry {
    pub path: String,
    pub title: String,
    pub children: Vec<PageEntry>,
}

impl Clone for PageEntry {
    fn clone(&self) -> (r: PageEntry)
        decreases self,
    {
        let mut children: Vec<PageEntry> = Vec::new();
        let mut i: usize = 0;
        while i < self.children.len()
            decreases self.children@.len() - i,
        {
            proof {
                assert(decreases_to!(*self => self.children@[i as int]));
            }
            children.push(self.children[i].clone());
            i = i + 1;
        }
        PageEntry { path: self.path.clone(), title: self.title.clone(), children }
    }
}

/// The page `p` and all its sub-pages, depth first, parents first.
pub open spec fn flat(p: PageEntry) -> Seq<PageEntry>
    decreases p, p.children@.len() + 1,
{
    seq![p] + flat_children(p, p.children@.len())
}

/// The flattenings of the first `n` children of `p`, in order.
pub open spec fn flat_children(p: PageEntry, n: nat) -> Seq<PageEntry>
    decreases p, n,
{
    if n == 0 || n > p.children@.len() {
        seq![]
    } else {
        flat_children(p, (n - 1) as nat) + flat(p.children@[n - 1])
    }
}

/// The entries a list of references points at.
pub open spec fn derefs(v: Seq<&PageEntry>) -> Seq<PageEntry> {
    v.map_values(|x: &PageEntry| *x)
}

impl PageEntry {
    /// The page and all its sub-pages, depth first, parents first.
    pub fn flatten(&self) -> (r: Vec<&PageEntry>)
        ensures
            derefs(r@) == flat(*self),
            r@.len() >= 1,
            r@[0] == self,
    {
        let mut out: Vec<&PageEntry> = Vec::new();
        self.flatten_into(&mut out);
        assert(derefs(out@) =~= flat(*self));
        assert(derefs(out@)[0] == flat(*self)[0]);
        out
    }

    fn flatten_into<'a>(&'a self, out: &mut Vec<&'a PageEntry>)
        ensures
            derefs(final(out)@) == derefs(old(out)@) + flat(*self),
        decreases self,
    {
        let ghost o = derefs(out@);
        out.push(self);
        assert(derefs(out@) =~= o + seq![*self] + flat_children(*self, 0));
        let mut i: usize = 0;
        while i < self.children.len()
            invariant
                i <= self.children@.len(),
                derefs(out@) == o + seq![*self] + flat_children(*self, i as nat),
            decreases self.children@.len() - i,
        {
            proof {
                assert(decreases_to!(*self => self.children@[i as int]));
            }
            let ghost before = derefs(out@);
            self.children[i].flatten_into(out);
            assert(derefs(out@) =~= o + seq![*self] + flat_children(*self, (i + 1) as nat));
            i = i + 1;
        }
        assert(derefs(out@) =~= o + flat(*self));
    }
}

/// The section title a block gives: a heading of level 2 or more, by its
/// trimmed text, when that is not empty.
pub open spec fn section_of(b: Block) -> Option<Seq<char>> {
    match b {
        Block::Heading { content, level, .. } => {
            let t = crate::analysis::texts_of(content@);
            let tr = crate::text::trimmed(t, 0, t.len() as int);
            if level >= 2 && tr.len() > 0 {
                Some(tr)
            } else {
                None
            }
        },
        _ => None,
    }
}

/// What an entry is, as plain values: a section with its title, or a page
/// with its path and title (sub-pages aside).
pub open spec fn entry_key(e: Entry) -> (bool, Seq<char>, Seq<char>) {
    match e {
        Entry::Section(t) => (true, t@, seq![]),
        Entry::Page(p) => (false, p.path@, p.title@),
    }
}

/// The pages that the list items `items` hold, in order.
pub open spec fn item_keys(items: Seq<ListItem>) -> Seq<(bool, Seq<char>, Seq<char>)>
    decreases items.len(),
{
    if items.len() == 0 {
        seq![]
    } else {
        let p = item_keys(items.drop_last());
        match first_page(items.last().content@, 0) {
            Some((path, title)) => p.push((false, path, title)),
            None => p,
        }
    }
}

/// The entries of the blocks `bs`: the pages of each list's items and the
/// sections of the headings, in document order.
pub open spec fn summary_keys(bs: Seq<Block>) -> Seq<(bool, Seq<char>, Seq<char>)>
    decreases bs.len(),
{
    if bs.len() == 0 {
        seq![]
    } else {
        let p = summary_keys(bs.drop_last());
        match bs.last() {
            Block::List { items, .. } => p + item_keys(items@),
            _ => match section_of(bs.last()) {
                Some(t) => p.push((true, t, seq![])),
                None => p,
            },
        }
    }
}

/// Navigation entries of a parsed `SUMMARY.brf`, in document order.
pub fn extract(doc: &Document) -> (r: Result<Vec<Entry>, String>)
    ensures
        r matches Ok(v) && v@.map_values(|e: Entry| entry_key(e)) == summary_keys(doc.blocks@),
{
    let ghost bs = doc.blocks@;
    let mut entries: Vec<Entry> = Vec::new();
    let mut i: usize = 0;
    while i < doc.blocks.len()
        invariant
            i <= bs.len(),
            bs == doc.blocks@,
            entries@.map_values(|e: Entry| entry_key(e)) == summary_keys(bs.take(i as int)),
        decreases doc.blocks@.len() - i,
    {
        proof {
            assert(bs.take(i + 1).drop_last() =~= bs.take(i as int));
            assert(bs.take(i + 1).last() == bs[i as int]);
        }
        match &doc.blocks[i] {
            Block::Heading { content, level, .. } => {
                if *level >= 2 {
                    let t = inline_text(content);
                    let tc = str_chars(t.as_str());
                    let (a, b) = trim_bounds(tc.as_slice(), 0, tc.len());
                    if a < b {
                        let ghost e0 = entries@;
                        entries.push(Entry::Section(range_string(tc.as_slice(), a, b)));
                        assert(entries@.map_values(|e: Entry| entry_key(e)) =~= e0.map_values(
                            |e: Entry| entry_key(e),
                        ).push(entry_key(entries@.last())));
                    }
                }
            },
            Block::List { items, .. } => {
                let ghost base = entries@.map_values(|e: Entry| entry_key(e));
                let mut k: usize = 0;
                while k < items.len()
                    invariant
                        k <= items@.len(),
                        entries@.map_values(|e: Entry| entry_key(e)) == base + item_keys(items@.take(k as int)),
                    decreases items@.len() - k,
                {
                    proof {
                        assert(items@.take(k + 1).drop_last() =~= items@.take(k as int));
                        assert(items@.take(k + 1).last() == items@[k as int]);
                    }
                    let ghost e0 = entries@;
                    match parse_list_item(&items[k]) {
                        Ok(Some(p)) => {
                            entries.push(Entry::Page(p));
                            assert(entries@.map_values(|e: Entry| entry_key(e)) =~= e0.map_values(
                                |e: Entry| entry_key(e),
                            ).push(entry_key(entries@.last())));
                        },
                        Ok(None) => {},
                        Err(e) => {
                            return Err(e);
                        },
                    }
                    k = k + 1;
                }
                assert(items@.take(items@.len() as int) =~= items@);
            },
            _ => {},
        }
        i = i + 1;
    }
    assert(bs.take(bs.len() as int) =~= bs);
    Ok(entries)
}

fn parse_list_item(item: &ListItem) -> (r: Result<Option<PageEntry>, String>)
    ensures
        r is Ok,
        r matches Ok(None) <==> first_page(item.content@, 0) is None,
        r matches Ok(Some(pe)) ==> first_page(item.content@, 0) == Some((pe.path@, pe.title@)),
    decreases item,
{
    let (path, title) = match find_page_shortcode(&item.content) {
        Some(p) => p,
        None => {
            return Ok(None);
        },
    };
    let mut children: Vec<PageEntry> = Vec::new();
    let mut c: usize = 0;
    while c < item.children.len()
        decreases item.children@.len() - c,
    {
        proof {
            assert(decreases_to!(*item => item.children@[c as int]));
        }
        match &item.children[c] {
            Block::List { items, .. } => {
                let mut k: usize = 0;
                while k < items.len()
                    decreases items@.len() - k,
                {
                    proof {
                        assert(decreases_to!(item.children@[c as int] => items@[k as int]));
                    }
                    match parse_list_item(&items[k]) {
                        Ok(Some(p)) => children.push(p),
                        Ok(None) => {},
                        Err(e) => {
                            return Err(e);
                        },
                    }
                    k = k + 1;
                }
            },
            _ => {},
        }
        c = c + 1;
    }
    Ok(Some(PageEntry { path, title, children }))
}

/// The title of a `@ref` in a SUMMARY: its `title` argument, else its
/// first positional argument (when a string or identifier), else `path`.
pub open spec fn ref_title(args: crate::ast::ShortArgs, path: Seq<char>) -> Seq<char> {
    if args.keyword.spec_get("title"@) matches Some(v) && crate::shortcode::spec_as_str(v) is Some {
        crate::shortcode::spec_as_str(args.keyword.spec_get("title"@)->Some_0)->Some_0
    } else if args.positional@.len() > 0 && crate::shortcode::spec_as_str(args.positional@[0]) is Some {
        crate::shortcode::spec_as_str(args.positional@[0])->Some_0
    } else {
        path
    }
}

/// The page an inline names: a `@ref` whose content, up to its first `#`
/// and trimmed, is not empty; with its trimmed title.
pub open spec fn page_of(n: Inline) -> Option<(Seq<char>, Seq<char>)> {
    match n {
        Inline::Shortcode { name, args, content, .. } => if name@ == "ref"@ {
            let p = match content {
                Some(c) => crate::analysis::texts_of(c@),
                None => seq![],
            };
            let tp = crate::text::trimmed(p, 0, crate::resolve::first_hash(p, 0));
            if tp.len() > 0 {
                let t = ref_title(args, p);
                Some((tp, crate::text::trimmed(t, 0, t.len() as int)))
            } else {
                None
            }
        } else {
            None
        },
        _ => None,
    }
}

/// The first page named in `v[i..]`.
pub open spec fn first_page(v: Seq<Inline>, i: int) -> Option<(Seq<char>, Seq<char>)>
    decreases v.len() - i,
{
    if i < 0 || i >= v.len() {
        None
    } else if page_of(v[i]) is Some {
        page_of(v[i])
    } else {
        first_page(v, i + 1)
    }
}

/// The first `@ref` among `inlines` with a non-empty path: its path (the
/// body up to any `#`, trimmed) and its title (the `title` argument, the
/// first positional one, or the body; trimmed).
fn find_page_shortcode(inlines: &Vec<Inline>) -> (r: Option<(String, String)>)
    ensures
        match r {
            Some((p, t)) => first_page(inlines@, 0) == Some((p@, t@)),
            None => first_page(inlines@, 0) is None,
        },
{
    let mut i: usize = 0;
    while i < inlines.len()
        invariant
            i <= inlines@.len(),
            first_page(inlines@, 0) == first_page(inlines@, i as int),
        decreases inlines@.len() - i,
    {
        match &inlines[i] {
            Inline::Shortcode { name, args, content, .. } => {
                if crate::text::str_eq(name.as_str(), "ref") {
                    let path_str = match content {
                        Some(c) => inline_text(c),
                        None => String::new(),
                    };
                    let title_kw: Option<&str> = match args.keyword.get("title") {
                        Some(v) => v.as_str(),
                        None => None,
                    };
                    let title_pos: Option<&str> = if args.positional.len() > 0 {
                        args.positional[0].as_str()
                    } else {
                        None
                    };
                    let title: &str = match title_kw {
                        Some(t) => t,
                        None => match title_pos {
                            Some(t) => t,
                            None => path_str.as_str(),
                        },
                    };
                    let pc = str_chars(path_str.as_str());
                    let mut h: usize = 0;
                    while h < pc.len() && pc[h] != '#'
                        invariant
                            h <= pc@.len(),
                            crate::resolve::first_hash(pc@, 0) == crate::resolve::first_hash(pc@, h as int),
                        decreases pc@.len() - h,
                    {
                        h = h + 1;
                    }
                    let (a, b) = trim_bounds(pc.as_slice(), 0, h);
                    if a < b {
                        let tc = str_chars(title);
                        let (x, y) = trim_bounds(tc.as_slice(), 0, tc.len());
                        return Some((range_string(pc.as_slice(), a, b), range_string(tc.as_slice(), x, y)));
                    }
                }
            },
            _ => {},
        }
        i = i + 1;
    }
    None
}

} // verus!
