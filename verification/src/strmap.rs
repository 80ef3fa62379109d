//! A string-keyed map held as a list of entries in ascending key order.
//! Keys are unique; lookups compare by the key's chars.
use crate::text::{str_chars, str_eq};
use vstd::prelude::*;

verus! {

/// Value stored under `k`, if any (first entry with that key).
pub open spec fn lookup<V>(e: Seq<(String, V)>, k: Seq<char>) -> Option<V>
    decreases e.len(),
{
    if e.len() == 0 {
        None
    } else if e[0].0@ == k {
        Some(e[0].1)
    } else {
        lookup(e.skip(1), k)
    }
}

/// No key occurs twice.
pub open spec fn keys_unique<V>(e: Seq<(String, V)>) -> bool {
    forall|i: int, j: int| 0 <= i < e.len() && 0 <= j < e.len() && i != j ==> e[i].0@ != e[j].0@
}

pub proof fn lemma_lookup_index<V>(e: Seq<(String, V)>, k: Seq<char>, i: int)
    requires
        keys_unique(e),
        0 <= i < e.len(),
        e[i].0@ == k,
    ensures
        lookup(e, k) == Some(e[i].1),
    decreases e.len(),
{
    if i > 0 {
        assert(e[0].0@ != k);
        let t = e.skip(1);
        assert(t[i - 1] == e[i]);
        assert(keys_unique(t)) by {
            assert forall|a: int, b: int|
                0 <= a < t.len() && 0 <= b < t.len() && a != b implies t[a].0@ != t[b].0@ by {
                assert(t[a] == e[a + 1]);
                assert(t[b] == e[b + 1]);
            }
        }
        lemma_lookup_index(t, k, i - 1);
    }
}

/// `lookup` finds the first entry with the key.
pub proof fn lemma_lookup_first<V>(e: Seq<(String, V)>, k: Seq<char>, i: int)
    requires
        0 <= i < e.len(),
        e[i].0@ == k,
        forall|j: int| 0 <= j < i ==> (#[trigger] e[j]).0@ != k,
    ensures
        lookup(e, k) == Some(e[i].1),
    decreases e.len(),
{
    if i > 0 {
        let t = e.skip(1);
        assert(t[i - 1] == e[i]);
        assert forall|j: int| 0 <= j < i - 1 implies (#[trigger] t[j]).0@ != k by {
            assert(t[j] == e[j + 1]);
        }
        lemma_lookup_first(t, k, i - 1);
    }
}

pub proof fn lemma_lookup_none<V>(e: Seq<(String, V)>, k: Seq<char>)
    requires
        forall|i: int| 0 <= i < e.len() ==> (#[trigger] e[i]).0@ != k,
    ensures
        lookup(e, k).is_none(),
    decreases e.len(),
{
    if e.len() > 0 {
        let t = e.skip(1);
        assert forall|i: int| 0 <= i < t.len() implies (#[trigger] t[i]).0@ != k by {
            assert(t[i] == e[i + 1]);
        }
        lemma_lookup_none(t, k);
    }
}

/// `a` sorts strictly before `b`: char-wise lexicographic order (which is
/// the byte order of their UTF-8 encodings).
pub open spec fn seq_lt(a: Seq<char>, b: Seq<char>) -> bool
    decreases a.len(),
{
    if a.len() == 0 {
        b.len() > 0
    } else if b.len() == 0 {
        false
    } else if a[0] != b[0] {
        a[0] < b[0]
    } else {
        seq_lt(a.drop_first(), b.drop_first())
    }
}

/// `seq_lt` is transitive.
pub proof fn lemma_lt_trans(a: Seq<char>, b: Seq<char>, c: Seq<char>)
    requires
        seq_lt(a, b),
        seq_lt(b, c),
    ensures
        seq_lt(a, c),
    decreases a.len(),
{
    if a.len() > 0 && b.len() > 0 && c.len() > 0 && a[0] == b[0] && b[0] == c[0] {
        lemma_lt_trans(a.drop_first(), b.drop_first(), c.drop_first());
    }
}

/// Of two different sequences, one sorts before the other.
pub proof fn lemma_lt_total(a: Seq<char>, b: Seq<char>)
    requires
        a != b,
    ensures
        seq_lt(a, b) || seq_lt(b, a),
    decreases a.len(),
{
    if a.len() == 0 {
        if b.len() == 0 {
            assert(a =~= b);
        }
    } else if b.len() == 0 {
    } else if a[0] == b[0] {
        if a.drop_first() =~= b.drop_first() {
            assert(a =~= b) by {
                assert forall|i: int| 0 <= i < a.len() implies a[i] == b[i] by {
                    if i > 0 {
                        assert(a[i] == a.drop_first()[i - 1]);
                        assert(b[i] == b.drop_first()[i - 1]);
                    }
                }
            }
        }
        lemma_lt_total(a.drop_first(), b.drop_first());
    } else {
        assert(a[0] < b[0] || b[0] < a[0]);
    }
}

/// Keys in strictly ascending order.
pub open spec fn keys_sorted<V>(e: Seq<(String, V)>) -> bool {
    forall|i: int, j: int| 0 <= i < j < e.len() ==> seq_lt(#[trigger] e[i].0@, #[trigger] e[j].0@)
}

/// Exec form of `seq_lt`.
pub fn chars_lt(a: &[char], b: &[char]) -> (r: bool)
    ensures
        r == seq_lt(a@, b@),
{
    let mut i: usize = 0;
    assert(a@.skip(0) =~= a@ && b@.skip(0) =~= b@);
    while i < a.len() && i < b.len()
        invariant
            i <= a@.len() && i <= b@.len(),
            seq_lt(a@, b@) == seq_lt(a@.skip(i as int), b@.skip(i as int)),
        decreases a@.len() - i,
    {
        assert(a@.skip(i as int)[0] == a@[i as int] && b@.skip(i as int)[0] == b@[i as int]);
        if a[i] != b[i] {
            return a[i] < b[i];
        }
        assert(a@.skip(i as int).drop_first() =~= a@.skip(i + 1));
        assert(b@.skip(i as int).drop_first() =~= b@.skip(i + 1));
        i = i + 1;
    }
    a.len() < b.len()
}

/// Map from strings to `V`, iterated in ascending key order.
#[derive(Clone, Debug)]
pub struct StrMap<V> {
    entries: Vec<(String, V)>,
}

impl<V> StrMap<V> {
    /// The entries, in key order.
    pub closed spec fn view_entries(&self) -> Seq<(String, V)> {
        self.entries@
    }

    /// Value stored under `k`.
    pub open spec fn spec_get(&self, k: Seq<char>) -> Option<V> {
        lookup(self.view_entries(), k)
    }

    /// Keys are unique and in ascending order.
    pub open spec fn wf(&self) -> bool {
        keys_unique(self.view_entries()) && keys_sorted(self.view_entries())
    }

    /// The empty map.
    pub fn new() -> (m: StrMap<V>)
        ensures
            m.wf(),
            m.view_entries().len() == 0,
            forall|k: Seq<char>| m.spec_get(k).is_none(),
    {
        StrMap { entries: Vec::new() }
    }

    /// Number of entries.
    pub fn len(&self) -> (n: usize)
        ensures
            n == self.view_entries().len(),
    {
        self.entries.len()
    }

    /// No entries.
    pub fn is_empty(&self) -> (b: bool)
        ensures
            b == (self.view_entries().len() == 0),
    {
        self.entries.len() == 0
    }

    /// Index of the entry with key `key`.
    fn position(&self, key: &str) -> (r: Option<usize>)
        ensures
            r matches Some(i) ==> i < self.view_entries().len() && self.view_entries()[i as int].0@
                == key@ && forall|j: int| 0 <= j < i ==> (#[trigger] self.view_entries()[j]).0@ != key@,
            r is None ==> forall|i: int|
                0 <= i < self.view_entries().len() ==> (#[trigger] self.view_entries()[i]).0@
                    != key@,
    {
        let mut i: usize = 0;
        while i < self.entries.len()
            invariant
                i <= self.entries@.len(),
                forall|j: int| 0 <= j < i ==> (#[trigger] self.entries@[j]).0@ != key@,
            decreases self.entries@.len() - i,
        {
            if str_eq(self.entries[i].0.as_str(), key) {
                return Some(i);
            }
            i = i + 1;
        }
        None
    }

    /// The value stored under `key`.
    pub fn get(&self, key: &str) -> (r: Option<&V>)
        ensures
            r matches Some(v) ==> self.spec_get(key@) == Some(*v),
            r is None ==> self.spec_get(key@).is_none(),
    {
        match self.position(key) {
            Some(i) => {
                proof {
                    lemma_lookup_first(self.entries@, key@, i as int);
                }
                Some(&self.entries[i].1)
            },
            None => {
                proof {
                    lemma_lookup_none(self.entries@, key@);
                }
                None
            },
        }
    }

    /// Is `key` present?
    pub fn contains_key(&self, key: &str) -> (b: bool)
        ensures
            b == self.spec_get(key@).is_some(),
    {
        self.get(key).is_some()
    }

    /// Store `value` under `key`, replacing any earlier value.
    pub fn insert(&mut self, key: String, value: V)
        ensures
            old(self).wf() ==> final(self).wf(),
            final(self).spec_get(key@) == Some(value),
            forall|k: Seq<char>| k != key@ ==> final(self).spec_get(k) == old(self).spec_get(k),
    {
        let ghost old_e = self.entries@;
        match self.position(key.as_str()) {
            Some(i) => {
                self.entries.set(i, (key, value));
                proof {
                    let e = self.entries@;
                    if keys_unique(old_e) {
                        assert forall|a: int, b: int|
                            0 <= a < e.len() && 0 <= b < e.len() && a != b implies e[a].0@
                            != e[b].0@ by {
                            if a != i && b != i {
                                assert(e[a] == old_e[a] && e[b] == old_e[b]);
                            } else if a == i {
                                assert(e[b] == old_e[b]);
                            } else {
                                assert(e[a] == old_e[a]);
                            }
                        }
                    }
                    if keys_sorted(old_e) {
                        assert forall|a: int, b: int| 0 <= a < b < e.len() implies seq_lt(#[trigger] e[a].0@, #[trigger] e[b].0@) by {
                            assert(e[a].0@ == old_e[a].0@ && e[b].0@ == old_e[b].0@);
                        }
                    }
                    lemma_lookup_first(e, key@, i as int);
                    assert forall|k: Seq<char>| k != key@ implies lookup(e, k) == lookup(
                        old_e,
                        k,
                    ) by {
                        lemma_lookup_replace(old_e, e, i as int, k);
                    }
                }
            },
            None => {
                let kc = str_chars(key.as_str());
                let mut p: usize = 0;
                let mut found = false;
                while p < self.entries.len()
                    invariant
                        p <= self.entries@.len(),
                        self.entries@ == old_e,
                        kc@ == key@,
                        forall|j: int| 0 <= j < p ==> !seq_lt(key@, #[trigger] old_e[j].0@),
                        found ==> p < old_e.len() && seq_lt(key@, old_e[p as int].0@),
                    decreases self.entries@.len() - p,
                {
                    let ec = str_chars(self.entries[p].0.as_str());
                    if chars_lt(kc.as_slice(), ec.as_slice()) {
                        found = true;
                        break;
                    }
                    p = p + 1;
                }
                let ghost kv = key@;
                self.entries.insert(p, (key, value));
                proof {
                    let e = self.entries@;
                    assert(e[p as int].0@ == kv);
                    if keys_unique(old_e) {
                        assert forall|a: int, b: int|
                            0 <= a < e.len() && 0 <= b < e.len() && a != b implies e[a].0@
                            != e[b].0@ by {
                            let oa = if a < p {
                                a
                            } else {
                                a - 1
                            };
                            let ob = if b < p {
                                b
                            } else {
                                b - 1
                            };
                            if a != p {
                                assert(e[a] == old_e[oa]);
                            }
                            if b != p {
                                assert(e[b] == old_e[ob]);
                            }
                        }
                    }
                    assert forall|j: int| 0 <= j < p implies (#[trigger] e[j]).0@ != kv by {
                        assert(e[j] == old_e[j]);
                    }
                    if keys_sorted(old_e) {
                        assert forall|j: int| 0 <= j < p implies seq_lt(#[trigger] old_e[j].0@, kv) by {
                            lemma_lt_total(old_e[j].0@, kv);
                        }
                        assert forall|a: int, b: int| 0 <= a < b < e.len() implies seq_lt(#[trigger] e[a].0@, #[trigger] e[b].0@) by {
                            if b < p {
                                assert(e[a] == old_e[a] && e[b] == old_e[b]);
                            } else if b == p {
                                assert(e[a] == old_e[a]);
                            } else if a == p {
                                assert(e[b] == old_e[b - 1]);
                                if b - 1 > p {
                                    assert(old_e[p as int] == e[p + 1]);
                                    lemma_lt_trans(kv, old_e[p as int].0@, old_e[b - 1].0@);
                                }
                            } else if a < p {
                                assert(e[a] == old_e[a] && e[b] == old_e[b - 1]);
                                if b - 1 >= p {
                                    assert(seq_lt(old_e[a].0@, old_e[b - 1].0@));
                                }
                            } else {
                                assert(e[a] == old_e[a - 1] && e[b] == old_e[b - 1]);
                            }
                        }
                    }
                    lemma_lookup_first(e, kv, p as int);
                    assert forall|k: Seq<char>| k != kv implies lookup(e, k) == lookup(old_e, k) by {
                        lemma_lookup_insert(old_e, e, p as int, k);
                    }
                }
            },
        }
    }

    /// Key of entry `i` (entries are in ascending key order).
    pub fn key_at(&self, i: usize) -> (k: &String)
        requires
            i < self.view_entries().len(),
        ensures
            *k == self.view_entries()[i as int].0,
    {
        &self.entries[i].0
    }

    /// Value of entry `i`.
    pub fn value_at(&self, i: usize) -> (v: &V)
        requires
            i < self.view_entries().len(),
        ensures
            *v == self.view_entries()[i as int].1,
    {
        &self.entries[i].1
    }

    /// The entries, consuming the map.
    pub fn into_entries(self) -> (e: Vec<(String, V)>)
        ensures
            e@ == self.view_entries(),
    {
        self.entries
    }

    /// All entries, in ascending key order.
    pub fn entries(&self) -> (e: &Vec<(String, V)>)
        ensures
            e@ == self.view_entries(),
    {
        &self.entries
    }
}

proof fn lemma_lookup_replace<V>(o: Seq<(String, V)>, e: Seq<(String, V)>, i: int, k: Seq<char>)
    requires
        0 <= i < o.len(),
        e.len() == o.len(),
        forall|j: int| 0 <= j < o.len() && j != i ==> e[j] == o[j],
        e[i].0@ == o[i].0@,
        k != o[i].0@,
    ensures
        lookup(e, k) == lookup(o, k),
    decreases o.len(),
{
    if o.len() > 0 {
        if i == 0 {
            assert(e.skip(1) =~= o.skip(1));
        } else {
            assert(e[0] == o[0]);
            lemma_lookup_replace(o.skip(1), e.skip(1), i - 1, k);
        }
    }
}

proof fn lemma_lookup_insert<V>(o: Seq<(String, V)>, e: Seq<(String, V)>, p: int, k: Seq<char>)
    requires
        0 <= p <= o.len(),
        e.len() == o.len() + 1,
        forall|j: int| 0 <= j < p ==> e[j] == o[j],
        forall|j: int| p < j < e.len() ==> e[j] == o[j - 1],
        e[p].0@ != k,
    ensures
        lookup(e, k) == lookup(o, k),
    decreases o.len(),
{
    if p == 0 {
        assert(e.skip(1) =~= o);
    } else {
        assert(e[0] == o[0]);
        lemma_lookup_insert(o.skip(1), e.skip(1), p - 1, k);
    }
}

} // verus!
