use vstd::prelude::*;
use crate::key_order::{key_lt, key_less, lemma_key_lt_irreflexive, lemma_key_lt_transitive, lemma_key_lt_total};
use crate::value::{Value, ValueModel, opt_view};

verus! {

/// A table as mathematics: its entries in the order they are kept.
pub type Entries = Seq<(Seq<u8>, ValueModel)>;

/// Keys strictly ascend in byte order, so each key occurs at most once.
pub open spec fn sorted(s: Entries) -> bool {
    forall|i: int, j: int| 0 <= i < j < s.len() ==> key_lt(#[trigger] s[i].0, #[trigger] s[j].0)
}

/// Whether `k` is a key of `s`.
pub open spec fn has_key(s: Entries, k: Seq<u8>) -> bool {
    exists|i: int| 0 <= i < s.len() && #[trigger] s[i].0 == k
}

/// What a table holds, as a map from key to value.
pub open spec fn contents(s: Entries) -> Map<Seq<u8>, ValueModel> {
    Map::new(|k: Seq<u8>| has_key(s, k), |k: Seq<u8>| lookup(s, k)->0)
}

/// The value held under `k` in `s`, if any.
pub open spec fn lookup(s: Entries, k: Seq<u8>) -> Option<ValueModel> {
    if has_key(s, k) {
        Some(s[choose|i: int| 0 <= i < s.len() && #[trigger] s[i].0 == k].1)
    } else {
        None
    }
}

/// `r` is the suffix of `s` made of the entries whose key does not sort before `start`.
pub open spec fn is_range_from(s: Entries, start: Seq<u8>, r: Entries) -> bool {
    exists|p: int|
        0 <= p <= s.len() && (forall|j: int| 0 <= j < p ==> key_lt(#[trigger] s[j].0, start)) && (
        forall|j: int| p <= j < s.len() ==> !key_lt(#[trigger] s[j].0, start)) && r == s.skip(p)
}

/// The model of a list of entries.
pub open spec fn entries_view(v: Seq<Entry>) -> Entries {
    v.map_values(|e: Entry| entry_view(e))
}

/// In a sorted table the entry at `i` is what its key looks up.
pub proof fn lemma_lookup_at(s: Entries, i: int)
    requires
        sorted(s),
        0 <= i < s.len(),
    ensures
        lookup(s, s[i].0) == Some(s[i].1),
{
    let k = s[i].0;
    assert(has_key(s, k));
    let j = choose|j: int| 0 <= j < s.len() && #[trigger] s[j].0 == k;
    lemma_key_lt_irreflexive(k);
    if j < i {
        assert(key_lt(s[j].0, s[i].0));
    } else if i < j {
        assert(key_lt(s[i].0, s[j].0));
    }
}

/// Putting an entry at a place that keeps the keys ascending adds exactly that key.
pub proof fn lemma_insert_sorted(s: Entries, i: int, e: (Seq<u8>, ValueModel))
    requires
        sorted(s),
        0 <= i <= s.len(),
        forall|j: int| 0 <= j < i ==> key_lt(#[trigger] s[j].0, e.0),
        i < s.len() ==> key_lt(e.0, s[i].0),
    ensures
        sorted(s.insert(i, e)),
        forall|k: Seq<u8>|
            #[trigger] lookup(s.insert(i, e), k) == (if k == e.0 {
                Some(e.1)
            } else {
                lookup(s, k)
            }),
{
    let t = s.insert(i, e);
    assert forall|a: int, b: int| 0 <= a < b < t.len() implies key_lt(#[trigger] t[a].0, #[trigger] t[b].0) by {
        if a < i && b == i {
        } else if a == i && b > i {
            if b > i + 1 {
                assert(key_lt(s[i].0, s[b - 1].0));
                lemma_key_lt_transitive(e.0, s[i].0, s[b - 1].0);
            }
        } else if a < i && b > i {
            assert(key_lt(s[a].0, s[b - 1].0));
        } else if a > i {
            assert(key_lt(s[a - 1].0, s[b - 1].0));
        } else {
            assert(key_lt(s[a].0, s[b].0));
        }
    }
    assert forall|k: Seq<u8>| #[trigger] lookup(t, k) == (if k == e.0 { Some(e.1) } else { lookup(s, k) }) by {
        if k == e.0 {
            lemma_lookup_at(t, i);
        } else if has_key(s, k) {
            let j = choose|j: int| 0 <= j < s.len() && #[trigger] s[j].0 == k;
            lemma_lookup_at(s, j);
            let j2 = if j < i { j } else { j + 1 };
            assert(t[j2] == s[j]);
            lemma_lookup_at(t, j2);
        } else if has_key(t, k) {
            let j = choose|j: int| 0 <= j < t.len() && #[trigger] t[j].0 == k;
            if j < i {
                assert(s[j].0 == k);
            } else if j > i {
                assert(s[j - 1].0 == k);
            }
        }
    }
}

/// Replacing the value at a key's place changes that key's value alone.
pub proof fn lemma_update_sorted(s: Entries, i: int, e: (Seq<u8>, ValueModel))
    requires
        sorted(s),
        0 <= i < s.len(),
        s[i].0 == e.0,
    ensures
        sorted(s.update(i, e)),
        forall|k: Seq<u8>|
            #[trigger] lookup(s.update(i, e), k) == (if k == e.0 {
                Some(e.1)
            } else {
                lookup(s, k)
            }),
{
    let t = s.update(i, e);
    assert forall|a: int, b: int| 0 <= a < b < t.len() implies key_lt(#[trigger] t[a].0, #[trigger] t[b].0) by {
        assert(key_lt(s[a].0, s[b].0));
    }
    assert forall|k: Seq<u8>| #[trigger] lookup(t, k) == (if k == e.0 { Some(e.1) } else { lookup(s, k) }) by {
        if k == e.0 {
            lemma_lookup_at(t, i);
        } else if has_key(s, k) {
            let j = choose|j: int| 0 <= j < s.len() && #[trigger] s[j].0 == k;
            lemma_lookup_at(s, j);
            assert(t[j] == s[j]);
            lemma_lookup_at(t, j);
        } else if has_key(t, k) {
            let j = choose|j: int| 0 <= j < t.len() && #[trigger] t[j].0 == k;
            assert(s[j].0 == k);
        }
    }
}

/// Taking out the entry at `i` removes exactly its key.
pub proof fn lemma_remove_sorted(s: Entries, i: int)
    requires
        sorted(s),
        0 <= i < s.len(),
    ensures
        sorted(s.remove(i)),
        forall|k: Seq<u8>|
            #[trigger] lookup(s.remove(i), k) == (if k == s[i].0 {
                None
            } else {
                lookup(s, k)
            }),
{
    let t = s.remove(i);
    assert forall|a: int, b: int| 0 <= a < b < t.len() implies key_lt(#[trigger] t[a].0, #[trigger] t[b].0) by {
        if b < i {
            assert(key_lt(s[a].0, s[b].0));
        } else if a < i {
            assert(key_lt(s[a].0, s[b + 1].0));
        } else {
            assert(key_lt(s[a + 1].0, s[b + 1].0));
        }
    }
    assert forall|k: Seq<u8>| #[trigger] lookup(t, k) == (if k == s[i].0 { None } else { lookup(s, k) }) by {
        if has_key(t, k) {
            let j = choose|j: int| 0 <= j < t.len() && #[trigger] t[j].0 == k;
            let j2 = if j < i { j } else { j + 1 };
            assert(s[j2] == t[j]);
            lemma_lookup_at(t, j);
            lemma_lookup_at(s, j2);
            if k == s[i].0 {
                lemma_key_lt_irreflexive(k);
                if j2 < i {
                    assert(key_lt(s[j2].0, s[i].0));
                } else {
                    assert(key_lt(s[i].0, s[j2].0));
                }
            }
        } else if k != s[i].0 && has_key(s, k) {
            let j = choose|j: int| 0 <= j < s.len() && #[trigger] s[j].0 == k;
            if j < i {
                assert(t[j].0 == k);
            } else {
                assert(t[j - 1].0 == k);
            }
        }
    }
}

/// One key-value entry of a table.
pub struct Entry {
    pub key: Vec<u8>,
    pub value: Value,
}

/// An ordered key-value table: the entries ascend strictly by key.
pub struct Table {
    pub entries: Vec<Entry>,
}

pub open spec fn entry_view(e: Entry) -> (Seq<u8>, ValueModel) {
    (e.key@, e.value@)
}

impl View for Table {
    type V = Entries;

    open spec fn view(&self) -> Entries {
        self.entries@.map_values(|e: Entry| entry_view(e))
    }
}

impl Entry {
    /// An independent copy of this entry.
    pub fn duplicate(&self) -> (r: Entry)
        ensures
            entry_view(r) == entry_view(*self),
    {
        Entry { key: vstd::slice::slice_to_vec(self.key.as_slice()), value: self.value.duplicate() }
    }
}

impl Table {
    pub open spec fn wf(&self) -> bool {
        sorted(self@)
    }

    /// An empty table.
    pub fn new() -> (r: Table)
        ensures
            r@ == Seq::<(Seq<u8>, ValueModel)>::empty(),
            r.wf(),
    {
        Table { entries: Vec::new() }
    }

    /// The number of entries.
    pub fn len(&self) -> (r: usize)
        ensures
            r == self@.len(),
    {
        self.entries.len()
    }

    /// The first position whose key does not sort before `key`, and whether that key is `key`.
    fn position(&self, key: &[u8]) -> (r: (usize, bool))
        requires
            self.wf(),
        ensures
            r.0 <= self@.len(),
            forall|j: int| 0 <= j < r.0 ==> key_lt(#[trigger] self@[j].0, key@),
            r.0 < self@.len() ==> !key_lt(self@[r.0 as int].0, key@),
            r.1 == (r.0 < self@.len() && self@[r.0 as int].0 == key@),
            !r.1 ==> r.0 < self@.len() ==> key_lt(key@, self@[r.0 as int].0),
    {
        let mut i: usize = 0;
        while i < self.entries.len()
            invariant
                i <= self@.len(),
                self@.len() == self.entries@.len(),
                forall|j: int| 0 <= j < i ==> key_lt(#[trigger] self@[j].0, key@),
            decreases self@.len() - i,
        {
            assert(self@[i as int] == entry_view(self.entries@[i as int]));
            if !key_less(self.entries[i].key.as_slice(), key) {
                let found = !key_less(key, self.entries[i].key.as_slice());
                proof {
                    lemma_key_lt_total(self@[i as int].0, key@);
                    if self@[i as int].0 == key@ {
                        lemma_key_lt_irreflexive(key@);
                    }
                }
                return (i, found);
            }
            i = i + 1;
        }
        (i, false)
    }

    /// The value under `key`, if any.
    pub fn get(&self, key: &[u8]) -> (r: Option<Value>)
        requires
            self.wf(),
        ensures
            opt_view(r) == lookup(self@, key@),
    {
        let (i, found) = self.position(key);
        if found {
            proof {
                lemma_lookup_at(self@, i as int);
            }
            assert(self@[i as int] == entry_view(self.entries@[i as int]));
            Some(self.entries[i].value.duplicate())
        } else {
            proof {
                if has_key(self@, key@) {
                    let j = choose|j: int| 0 <= j < self@.len() && #[trigger] self@[j].0 == key@;
                    lemma_key_lt_irreflexive(key@);
                    if i < self@.len() && j > i {
                        lemma_key_lt_transitive(key@, self@[i as int].0, self@[j].0);
                    }
                }
            }
            None
        }
    }

    /// Stores `value` under `key`, replacing any value there.
    pub fn put(&mut self, key: &[u8], value: Value)
        requires
            old(self).wf(),
        ensures
            final(self).wf(),
            forall|k: Seq<u8>|
                #[trigger] lookup(final(self)@, k) == (if k == key@ {
                    Some(value@)
                } else {
                    lookup(old(self)@, k)
                }),
            contents(final(self)@) == contents(old(self)@).insert(key@, value@),
    {
        let (i, found) = self.position(key);
        let ghost e = (key@, value@);
        let ghost s = self@;
        let entry = Entry { key: vstd::slice::slice_to_vec(key), value };
        if found {
            self.entries.set(i, entry);
            proof {
                lemma_update_sorted(s, i as int, e);
                assert(self@ =~= s.update(i as int, e));
            }
        } else {
            self.entries.insert(i, entry);
            proof {
                lemma_insert_sorted(s, i as int, e);
                assert(self@ =~= s.insert(i as int, e));
            }
        }
        proof {
            assert forall|k: Seq<u8>| has_key(self@, k) == (lookup(self@, k) is Some) by {}
            assert forall|k: Seq<u8>| has_key(s, k) == (lookup(s, k) is Some) by {}
            assert(contents(self@) =~= contents(s).insert(key@, value@));
        }
    }

    /// Takes out the entry under `key`; `r` is whether there was one.
    pub fn delete(&mut self, key: &[u8]) -> (r: bool)
        requires
            old(self).wf(),
        ensures
            final(self).wf(),
            r == lookup(old(self)@, key@).is_some(),
            forall|k: Seq<u8>|
                #[trigger] lookup(final(self)@, k) == (if k == key@ {
                    None
                } else {
                    lookup(old(self)@, k)
                }),
            contents(final(self)@) == contents(old(self)@).remove(key@),
    {
        let (i, found) = self.position(key);
        let ghost s = self@;
        let r = self.delete_at(key, i, found);
        proof {
            assert forall|k: Seq<u8>| has_key(self@, k) == (lookup(self@, k) is Some) by {}
            assert forall|k: Seq<u8>| has_key(s, k) == (lookup(s, k) is Some) by {}
            assert(contents(self@) =~= contents(s).remove(key@));
        }
        r
    }

    fn delete_at(&mut self, key: &[u8], i: usize, found: bool) -> (r: bool)
        requires
            old(self).wf(),
            i <= old(self)@.len(),
            forall|j: int| 0 <= j < i ==> key_lt(#[trigger] old(self)@[j].0, key@),
            found == (i < old(self)@.len() && old(self)@[i as int].0 == key@),
            !found ==> i < old(self)@.len() ==> key_lt(key@, old(self)@[i as int].0),
        ensures
            final(self).wf(),
            r == lookup(old(self)@, key@).is_some(),
            forall|k: Seq<u8>|
                #[trigger] lookup(final(self)@, k) == (if k == key@ {
                    None
                } else {
                    lookup(old(self)@, k)
                }),
    {
        let ghost s = self@;
        if found {
            proof {
                lemma_lookup_at(s, i as int);
                lemma_remove_sorted(s, i as int);
            }
            let _ = self.entries.remove(i);
            assert(self@ =~= s.remove(i as int));
            true
        } else {
            proof {
                if has_key(s, key@) {
                    let j = choose|j: int| 0 <= j < s.len() && #[trigger] s[j].0 == key@;
                    lemma_key_lt_irreflexive(key@);
                    if i < s.len() && j > i {
                        lemma_key_lt_transitive(key@, s[i as int].0, s[j].0);
                    }
                }
            }
            false
        }
    }

    /// Copies of the entries from position `from` on.
    fn copy_from(&self, from: usize) -> (r: Vec<Entry>)
        requires
            from <= self@.len(),
        ensures
            entries_view(r@) == self@.skip(from as int),
    {
        let mut out: Vec<Entry> = Vec::new();
        let mut i: usize = from;
        while i < self.entries.len()
            invariant
                from <= i <= self@.len(),
                self@.len() == self.entries@.len(),
                entries_view(out@) == self@.subrange(from as int, i as int),
            decreases self@.len() - i,
        {
            let e = self.entries[i].duplicate();
            proof {
                assert(self@[i as int] == entry_view(self.entries@[i as int]));
            }
            let ghost prev = out@;
            out.push(e);
            assert(entries_view(out@) =~= entries_view(prev).push(entry_view(e)));
            assert(entries_view(out@) =~= self@.subrange(from as int, i + 1));
            i = i + 1;
        }
        assert(self@.subrange(from as int, i as int) =~= self@.skip(from as int));
        out
    }

    /// All entries, in ascending key order.
    pub fn entries_all(&self) -> (r: Vec<Entry>)
        ensures
            entries_view(r@) == self@,
    {
        let r = self.copy_from(0);
        assert(self@.skip(0) =~= self@);
        r
    }

    /// The entries whose key does not sort before `start`, in ascending key order.
    pub fn entries_from(&self, start: &[u8]) -> (r: Vec<Entry>)
        requires
            self.wf(),
        ensures
            is_range_from(self@, start@, entries_view(r@)),
    {
        let (i, _) = self.position(start);
        let r = self.copy_from(i);
        proof {
            assert forall|j: int| i <= j < self@.len() implies !key_lt(#[trigger] self@[j].0, start@) by {
                if j > i {
                    assert(key_lt(self@[i as int].0, self@[j].0));
                    if key_lt(self@[j].0, start@) {
                        lemma_key_lt_transitive(self@[i as int].0, self@[j].0, start@);
                    }
                }
            }
        }
        r
    }

    /// An independent copy of this table.
    pub fn duplicate(&self) -> (r: Table)
        ensures
            r@ == self@,
    {
        let entries = self.copy_from(0);
        assert(self@.skip(0) =~= self@);
        Table { entries }
    }
}

} // verus!
