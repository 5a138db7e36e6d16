//! A small association table with unique keys, the collection behind the
//! method registry, the peer list, the pending-request list and the store.

use vstd::prelude::*;

verus! {

/// A key that a [`Table`] can hold: its executable comparison agrees with
/// equality of its abstract view.
pub trait TableKey: Sized {
    type KeyView;

    spec fn key_view(&self) -> Self::KeyView;

    fn same_key(&self, other: &Self) -> (r: bool)
        ensures
            r == (self.key_view() == other.key_view()),
    ;
}

impl TableKey for String {
    type KeyView = Seq<char>;

    open spec fn key_view(&self) -> Seq<char> {
        self@
    }

    fn same_key(&self, other: &Self) -> (r: bool) {
        *self == *other
    }
}

/// Entries `(key, value)`, at most one per key.
pub struct Table<K: TableKey, V> {
    entries: Vec<(K, V)>,
}

impl<K: TableKey, V> Table<K, V> {
    /// The key views of the entries, in table order.
    pub closed spec fn keys(self) -> Seq<K::KeyView> {
        self.entries@.map_values(|e: (K, V)| e.0.key_view())
    }

    /// Whether an entry with key view `k` is present.
    closed spec fn holds(self, k: K::KeyView) -> bool {
        exists|i: int| 0 <= i < self.entries@.len() && #[trigger] self.entries@[i].0.key_view() == k
    }

    /// The position of the entry with key view `k`.
    closed spec fn position(self, k: K::KeyView) -> int {
        choose|i: int| 0 <= i < self.entries@.len() && #[trigger] self.entries@[i].0.key_view() == k
    }

    /// The table as a map from key views to values.
    pub closed spec fn view(self) -> Map<K::KeyView, V> {
        Map::new(|k: K::KeyView| self.holds(k), |k: K::KeyView| self.entries@[self.position(k)].1)
    }

    /// The values in table order.
    pub closed spec fn values(self) -> Seq<V> {
        self.entries@.map_values(|e: (K, V)| e.1)
    }

    closed spec fn unique(entries: Seq<(K, V)>) -> bool {
        forall|i: int, j: int|
            0 <= i < entries.len() && 0 <= j < entries.len() && i != j
                ==> #[trigger] entries[i].0.key_view() != #[trigger] entries[j].0.key_view()
    }

    /// Well-formedness: no two entries share a key.
    pub closed spec fn wf(self) -> bool {
        Self::unique(self.entries@)
    }

    /// The view at a key held at a known position is that position's value.
    proof fn lemma_at(self, i: int)
        requires
            Self::unique(self.entries@),
            0 <= i < self.entries@.len(),
        ensures
            self.view().dom().contains(self.entries@[i].0.key_view()),
            self.view()[self.entries@[i].0.key_view()] == self.entries@[i].1,
            self.keys()[i] == self.entries@[i].0.key_view(),
            self.values()[i] == self.entries@[i].1,
    {
        let k = self.entries@[i].0.key_view();
        assert(self.holds(k));
        let p = self.position(k);
        assert(p == i);
    }

    /// The shape of the view: one key per entry, and nothing else.
    pub proof fn lemma_view(self)
        requires
            self.wf(),
        ensures
            self.keys().len() == self.values().len(),
            self.keys().no_duplicates(),
            forall|i: int| 0 <= i < self.keys().len() ==> #[trigger] self.view().dom().contains(self.keys()[i])
                && self.view()[self.keys()[i]] == self.values()[i],
            forall|k: K::KeyView| #[trigger] self.view().dom().contains(k) <==> self.keys().contains(k),
            self.view().dom().finite(),
            self.view().dom().len() == self.keys().len(),
    {
        assert forall|i: int| 0 <= i < self.keys().len() implies #[trigger] self.view().dom().contains(self.keys()[i])
            && self.view()[self.keys()[i]] == self.values()[i] by {
            self.lemma_at(i);
        }
        assert forall|k: K::KeyView| #[trigger] self.view().dom().contains(k) <==> self.keys().contains(k) by {
            if self.view().dom().contains(k) {
                let p = self.position(k);
                assert(self.keys()[p] == k);
            }
            if self.keys().contains(k) {
                let p = choose|p: int| 0 <= p < self.keys().len() && self.keys()[p] == k;
                assert(self.entries@[p].0.key_view() == k);
            }
        }
        assert(self.view().dom() =~= self.keys().to_set());
        self.keys().unique_seq_to_set();
    }

    /// An empty table.
    pub fn new() -> (t: Self)
        ensures
            t.wf(),
            t.view() == Map::<K::KeyView, V>::empty(),
            t.keys() == Seq::<K::KeyView>::empty(),
    {
        let t = Table { entries: Vec::new() };
        assert(t.view() =~= Map::<K::KeyView, V>::empty());
        assert(t.keys() =~= Seq::<K::KeyView>::empty());
        t
    }

    /// Number of entries.
    pub fn len(&self) -> (n: usize)
        requires
            self.wf(),
        ensures
            n == self.view().dom().len(),
            n == self.keys().len(),
    {
        proof { self.lemma_view(); }
        self.entries.len()
    }

    /// The position of `key`, if it is held.
    fn find(&self, key: &K) -> (r: Option<usize>)
        requires
            self.wf(),
        ensures
            match r {
                Some(i) => i < self.entries@.len() && self.entries@[i as int].0.key_view() == key.key_view(),
                None => !self.view().dom().contains(key.key_view()),
            },
    {
        let n = self.entries.len();
        let mut i: usize = 0;
        while i < n
            invariant
                n == self.entries@.len(),
                i <= n,
                forall|j: int| 0 <= j < i ==> #[trigger] self.entries@[j].0.key_view() != key.key_view(),
            decreases n - i,
        {
            if self.entries[i].0.same_key(key) {
                return Some(i);
            }
            i = i + 1;
        }
        None
    }

    /// Whether `key` is held.
    pub fn contains_key(&self, key: &K) -> (b: bool)
        requires
            self.wf(),
        ensures
            b == self.view().dom().contains(key.key_view()),
    {
                match self.find(key) {
            Some(i) => {
                proof { self.lemma_at(i as int); }
                true
            },
            None => false,
        }
    }

    /// The value held at `key`.
    pub fn get(&self, key: &K) -> (r: Option<&V>)
        requires
            self.wf(),
        ensures
            match r {
                Some(v) => self.view().dom().contains(key.key_view()) && *v == self.view()[key.key_view()],
                None => !self.view().dom().contains(key.key_view()),
            },
    {
                match self.find(key) {
            Some(i) => {
                proof { self.lemma_at(i as int); }
                Some(&self.entries[i].1)
            },
            None => None,
        }
    }

    /// The entry at position `i`, in table order.
    pub fn entry(&self, i: usize) -> (r: (&K, &V))
        requires
            self.wf(),
            i < self.keys().len(),
        ensures
            r.0.key_view() == self.keys()[i as int],
            *r.1 == self.values()[i as int],
    {
        let e = &self.entries[i];
        (&e.0, &e.1)
    }

    /// Holds `value` at `key`, replacing the value held there before, which is returned.
    pub fn insert(&mut self, key: K, value: V) -> (old_value: Option<V>)
        requires
            old(self).wf(),
        ensures
            final(self).wf(),
            final(self).view() == old(self).view().insert(key.key_view(), value),
            match old_value {
                Some(v) => old(self).view().dom().contains(key.key_view()) && v == old(self).view()[key.key_view()],
                None => !old(self).view().dom().contains(key.key_view()),
            },
    {
                let ghost kv = key.key_view();
        let ghost pre = *self;
        let found = self.find(&key);
        let mut entries: Vec<(K, V)> = Vec::new();
        std::mem::swap(&mut entries, &mut self.entries);
        match found {
            Some(i) => {
                proof { pre.lemma_at(i as int); }
                let mut e = (key, value);
                std::mem::swap(&mut e, &mut entries[i]);
                let ghost post = Table::<K, V> { entries: entries };
                proof {
                    assert(entries@ == pre.entries@.update(i as int, (key, value)));
                    assert(Self::unique(entries@));
                    assert forall|q: K::KeyView| post.view().dom().contains(q) <==> pre.view().insert(kv, value).dom().contains(q) by {
                        if post.holds(q) {
                            let p = post.position(q);
                            if p != i { assert(pre.entries@[p].0.key_view() == q); }
                        }
                        if pre.holds(q) {
                            let p = pre.position(q);
                            if p != i { assert(post.entries@[p].0.key_view() == q); } else { assert(q == kv); }
                        }
                        if q == kv { assert(post.entries@[i as int].0.key_view() == q); }
                    }
                    assert forall|q: K::KeyView| #[trigger] post.view().dom().contains(q) implies post.view()[q] == pre.view().insert(kv, value)[q] by {
                        let p = post.position(q);
                        post.lemma_at(p);
                        if p != i as int {
                            assert(pre.entries@[p] == post.entries@[p]);
                            pre.lemma_at(p);
                        }
                    }
                    assert(post.view() =~= pre.view().insert(kv, value));
                }
                self.entries = entries;
                Some(e.1)
            },
            None => {
                entries.push((key, value));
                let ghost post = Table::<K, V> { entries: entries };
                proof {
                    let n = pre.entries@.len() as int;
                    assert(entries@ == pre.entries@.push((key, value)));
                    assert(Self::unique(entries@)) by {
                        assert forall|j: int| 0 <= j < n implies #[trigger] entries@[j].0.key_view() != kv by {
                            assert(pre.entries@[j] == entries@[j]);
                            pre.lemma_at(j);
                        }
                    }
                    assert forall|q: K::KeyView| post.view().dom().contains(q) <==> pre.view().insert(kv, value).dom().contains(q) by {
                        if post.holds(q) {
                            let p = post.position(q);
                            if p != n { assert(pre.entries@[p].0.key_view() == q); }
                        }
                        if pre.holds(q) {
                            let p = pre.position(q);
                            assert(post.entries@[p].0.key_view() == q);
                        }
                        if q == kv { assert(post.entries@[n].0.key_view() == q); }
                    }
                    assert forall|q: K::KeyView| #[trigger] post.view().dom().contains(q) implies post.view()[q] == pre.view().insert(kv, value)[q] by {
                        let p = post.position(q);
                        post.lemma_at(p);
                        if p != n {
                            assert(pre.entries@[p] == post.entries@[p]);
                            pre.lemma_at(p);
                        }
                    }
                    assert(post.view() =~= pre.view().insert(kv, value));
                }
                self.entries = entries;
                None
            },
        }
    }

    /// Drops the entry at `key`; its value is returned.
    pub fn remove(&mut self, key: &K) -> (old_value: Option<V>)
        requires
            old(self).wf(),
        ensures
            final(self).wf(),
            final(self).view() == old(self).view().remove(key.key_view()),
            match old_value {
                Some(v) => old(self).view().dom().contains(key.key_view()) && v == old(self).view()[key.key_view()],
                None => !old(self).view().dom().contains(key.key_view()),
            },
    {
                let ghost kv = key.key_view();
        let ghost pre = *self;
        let found = self.find(key);
        match found {
            Some(i) => {
                proof { pre.lemma_at(i as int); }
                let mut entries: Vec<(K, V)> = Vec::new();
                std::mem::swap(&mut entries, &mut self.entries);
                let e = entries.remove(i);
                let ghost post = Table::<K, V> { entries: entries };
                proof {
                    let ii = i as int;
                    assert(entries@ == pre.entries@.remove(ii));
                    assert forall|a: int, b: int|
                        0 <= a < entries@.len() && 0 <= b < entries@.len() && a != b
                        implies #[trigger] entries@[a].0.key_view() != #[trigger] entries@[b].0.key_view() by {
                        let pa = if a < ii { a } else { a + 1 };
                        let pb = if b < ii { b } else { b + 1 };
                        assert(entries@[a] == pre.entries@[pa]);
                        assert(entries@[b] == pre.entries@[pb]);
                    }
                    assert forall|q: K::KeyView| post.view().dom().contains(q) <==> pre.view().remove(kv).dom().contains(q) by {
                        if post.holds(q) {
                            let p = post.position(q);
                            let pp = if p < ii { p } else { p + 1 };
                            assert(pre.entries@[pp].0.key_view() == q);
                            assert(pp != ii);
                        }
                        if pre.holds(q) && q != kv {
                            let p = pre.position(q);
                            assert(p != ii);
                            let pp = if p < ii { p } else { p - 1 };
                            assert(post.entries@[pp].0.key_view() == q);
                        }
                    }
                    assert forall|q: K::KeyView| #[trigger] post.view().dom().contains(q) implies post.view()[q] == pre.view().remove(kv)[q] by {
                        let p = post.position(q);
                        post.lemma_at(p);
                        let pp = if p < ii { p } else { p + 1 };
                        assert(pre.entries@[pp] == post.entries@[p]);
                        pre.lemma_at(pp);
                    }
                    assert(post.view() =~= pre.view().remove(kv));
                }
                self.entries = entries;
                Some(e.1)
            },
            None => {
                proof { assert(pre.view().remove(kv) =~= pre.view()); }
                None
            },
        }
    }
}

} // verus!
