//! A finite map kept as a list of entries with pairwise distinct keys.
use vstd::prelude::*;
use crate::bytes::{KeyEq, bytes_eq, views};

verus! {

/// The map that a list of pairs with distinct first components describes.
pub open spec fn map_of_pairs<A, B>(pairs: Seq<(A, B)>) -> Map<A, B> {
    Map::new(
        |k: A| exists|i: int| 0 <= i < pairs.len() && pairs[i].0 == k,
        |k: A| pairs[choose|i: int| 0 <= i < pairs.len() && pairs[i].0 == k].1,
    )
}

/// No two pairs share a first component.
pub open spec fn keys_distinct<A, B>(pairs: Seq<(A, B)>) -> bool {
    forall|i: int, j: int| 0 <= i < pairs.len() && 0 <= j < pairs.len() && i != j
        ==> pairs[i].0 != pairs[j].0
}

/// Adding one more pair with a new key to a prefix adds one entry to its map.
pub proof fn lemma_map_of_pairs_step<A, B>(pairs: Seq<(A, B)>, i: int)
    requires
        keys_distinct(pairs),
        0 <= i < pairs.len(),
    ensures
        map_of_pairs(pairs.take(i + 1)) == map_of_pairs(pairs.take(i)).insert(pairs[i].0, pairs[i].1),
        !map_of_pairs(pairs.take(i)).contains_key(pairs[i].0),
{
    let a = pairs.take(i + 1);
    let b = pairs.take(i);
    let k = pairs[i].0;
    assert(a[i] == pairs[i]);
    assert forall|q: A| #[trigger] map_of_pairs(a).contains_key(q) implies
        map_of_pairs(b).insert(k, pairs[i].1).contains_key(q)
        && map_of_pairs(a)[q] == map_of_pairs(b).insert(k, pairs[i].1)[q] by {
        let j = choose|j: int| 0 <= j < a.len() && a[j].0 == q;
        if q == k {
            assert(j == i);
        } else {
            assert(j < i);
            assert(b[j].0 == q);
            let jb = choose|jb: int| 0 <= jb < b.len() && b[jb].0 == q;
            assert(jb == j);
        }
    }
    assert forall|q: A| #[trigger] map_of_pairs(b).insert(k, pairs[i].1).contains_key(q) implies
        map_of_pairs(a).contains_key(q) by {
        if q == k {
            assert(a[i].0 == q);
        } else {
            let jb = choose|jb: int| 0 <= jb < b.len() && b[jb].0 == q;
            assert(a[jb].0 == q);
        }
    }
    assert(map_of_pairs(a) =~= map_of_pairs(b).insert(k, pairs[i].1));
    if map_of_pairs(b).contains_key(k) {
        let jb = choose|jb: int| 0 <= jb < b.len() && b[jb].0 == k;
        assert(pairs[jb].0 == k);
    }
}

/// The map that a list of entries describes when a later entry replaces an earlier one with
/// the same key.
pub open spec fn last_wins<A, B>(pairs: Seq<(A, B)>) -> Map<A, B>
    decreases pairs.len(),
{
    if pairs.len() == 0 {
        Map::empty()
    } else {
        last_wins(pairs.drop_last()).insert(pairs.last().0, pairs.last().1)
    }
}

/// The entries after storing `e`: it replaces the entry with its key in place, or comes last.
pub open spec fn insert_pair<A, B>(pairs: Seq<(A, B)>, e: (A, B)) -> Seq<(A, B)> {
    let keys = pairs.map_values(|p: (A, B)| p.0);
    if keys.contains(e.0) {
        pairs.update(keys.index_of(e.0), e)
    } else {
        pairs.push(e)
    }
}

/// The entries after storing the given ones in turn, starting from none.
pub open spec fn inserted<A, B>(pairs: Seq<(A, B)>) -> Seq<(A, B)>
    decreases pairs.len(),
{
    if pairs.len() == 0 {
        Seq::empty()
    } else {
        insert_pair(inserted(pairs.drop_last()), pairs.last())
    }
}

/// An association table: each key occurs at most once, entries keep the order in which
/// they were first inserted.
pub struct Table<K, V> {
    entries: Vec<(K, V)>,
}

impl<K: KeyEq, V> Table<K, V> {
    /// The keys of the entries, in entry order.
    pub closed spec fn keys(&self) -> Seq<K::V> {
        self.entries@.map_values(|e: (K, V)| e.0@)
    }

    /// The entries, keys taken by their view, in entry order.
    pub closed spec fn pairs(&self) -> Seq<(K::V, V)> {
        self.entries@.map_values(|e: (K, V)| (e.0@, e.1))
    }

    /// The table is well formed: no key occurs twice.
    pub closed spec fn wf(&self) -> bool {
        self.keys().no_duplicates()
    }

    /// The contents of the table as a map.
    pub closed spec fn as_map(&self) -> Map<K::V, V> {
        Map::new(
            |k: K::V| self.keys().contains(k),
            |k: K::V| self.entries@[self.keys().index_of(k)].1,
        )
    }

    proof fn lemma_index(&self, i: int)
        requires
            self.wf(),
            0 <= i < self.entries@.len(),
        ensures
            self.as_map().contains_key(self.entries@[i].0@),
            self.keys().index_of(self.entries@[i].0@) == i,
            self.as_map()[self.entries@[i].0@] == self.entries@[i].1,
    {
        let k = self.entries@[i].0@;
        assert(self.keys()[i] == k);
        assert(self.keys().contains(k));
        let j = self.keys().index_of(k);
        assert(self.keys()[j] == k);
    }

    /// An empty table.
    pub fn new() -> (t: Self)
        ensures
            t.wf(),
            t@ == Map::<K::V, V>::empty(),
            t.pairs() == Seq::<(K::V, V)>::empty(),
    {
        let t = Table { entries: Vec::new() };
        assert(t.pairs() =~= Seq::<(K::V, V)>::empty());
        assert(t.keys() =~= Seq::<K::V>::empty());
        assert(t.as_map() =~= Map::<K::V, V>::empty());
        t
    }

    /// The position of the entry with the given key.
    fn find(&self, key: &K) -> (r: Option<usize>)
        requires
            self.wf(),
        ensures
            match r {
                Some(i) => i < self.entries@.len() && self.entries@[i as int].0@ == key@
                    && self@.contains_key(key@) && self@[key@] == self.entries@[i as int].1,
                None => !self@.contains_key(key@),
            },
    {
        let n = self.entries.len();
        let mut i: usize = 0;
        while i < n
            invariant
                self.wf(),
                n == self.entries@.len(),
                i <= n,
                forall|j: int| 0 <= j < i ==> self.keys()[j] != key@,
            decreases n - i,
        {
            if self.entries[i].0.key_eq(key) {
                proof {
                    self.lemma_index(i as int);
                }
                return Some(i);
            }
            assert(self.keys()[i as int] != key@);
            i = i + 1;
        }
        assert(!self.keys().contains(key@));
        None
    }

    /// Whether the table holds an entry with the given key.
    pub fn contains_key(&self, key: &K) -> (r: bool)
        requires
            self.wf(),
        ensures
            r == self@.contains_key(key@),
    {
        self.find(key).is_some()
    }

    /// The value stored under the given key.
    pub fn get(&self, key: &K) -> (r: Option<&V>)
        requires
            self.wf(),
        ensures
            match r {
                Some(v) => self@.contains_key(key@) && *v == self@[key@],
                None => !self@.contains_key(key@),
            },
    {
        match self.find(key) {
            Some(i) => Some(&self.entries[i].1),
            None => None,
        }
    }

    /// Stores `value` under `key`, replacing an earlier value under the same key.
    pub fn insert(&mut self, key: K, value: V)
        requires
            old(self).wf(),
        ensures
            final(self).wf(),
            final(self)@ == old(self)@.insert(key@, value),
            final(self).pairs() == insert_pair(old(self).pairs(), (key@, value)),
    {
        let ghost k = key@;
        let ghost old_keys = self.keys();
        let ghost old_map = self@;
        let ghost old_pairs = self.pairs();
        assert(old_pairs.map_values(|p: (K::V, V)| p.0) =~= old_keys);
        match self.find(&key) {
            Some(i) => {
                proof {
                    self.lemma_index(i as int);
                }
                self.entries.set(i, (key, value));
                assert(self.keys() =~= old_keys);
                assert(self.keys()[i as int] == k);
                assert(old_keys.contains(k));
                assert(self.pairs() =~= old_pairs.update(i as int, (k, value)));
                assert(self@ =~= old_map.insert(k, value)) by {
                    assert forall|q: K::V| #[trigger] self.keys().contains(q) implies
                        self@[q] == old_map.insert(k, value)[q] by {
                        let j = self.keys().index_of(q);
                        self.lemma_index(j);
                        if q != k {
                            assert(j != i);
                            assert(old_keys[j] == q);
                            assert(old_keys.contains(q));
                            let oj = old_keys.index_of(q);
                            assert(old_keys[oj] == q);
                            assert(oj == j);
                        }
                    }
                }
            },
            None => {
                self.entries.push((key, value));
                assert(self.keys() =~= old_keys.push(k));
                assert(self.pairs() =~= old_pairs.push((k, value)));
                assert(self.wf()) by {
                    assert(!old_keys.contains(k));
                    assert forall|a: int, b: int|
                        0 <= a < self.keys().len() && 0 <= b < self.keys().len() && a != b implies
                        self.keys()[a] != self.keys()[b] by {
                        if a < old_keys.len() && b < old_keys.len() {
                        } else if a == old_keys.len() {
                            assert(old_keys[b] != k);
                        } else {
                            assert(old_keys[a] != k);
                        }
                    }
                }
                assert(self@ =~= old_map.insert(k, value)) by {
                    assert forall|q: K::V| #[trigger] self.keys().contains(q) implies
                        self@[q] == old_map.insert(k, value)[q] by {
                        let j = self.keys().index_of(q);
                        self.lemma_index(j);
                        if q != k {
                            assert(j < old_keys.len());
                            assert(old_keys[j] == q);
                            assert(old_keys.contains(q));
                            let oj = old_keys.index_of(q);
                            assert(old_keys[oj] == q);
                        } else {
                            self.lemma_index(old_keys.len() as int);
                        }
                    }
                    assert forall|q: K::V| #[trigger] old_map.insert(k, value).contains_key(q)
                        implies self.keys().contains(q) by {
                        if q != k {
                            let oj = old_keys.index_of(q);
                            assert(self.keys()[oj] == q);
                        } else {
                            assert(self.keys()[old_keys.len() as int] == k);
                        }
                    }
                }
            },
        }
    }

    /// Removes the entry with the given key, if there is one, and hands back its value.
    pub fn remove(&mut self, key: &K) -> (r: Option<V>)
        requires
            old(self).wf(),
        ensures
            final(self).wf(),
            final(self)@ == old(self)@.remove(key@),
            final(self).pairs() == if old(self)@.contains_key(key@) {
                old(self).pairs().remove(old(self).keys().index_of(key@))
            } else {
                old(self).pairs()
            },
            match r {
                Some(v) => old(self)@.contains_key(key@) && v == old(self)@[key@],
                None => !old(self)@.contains_key(key@),
            },
    {
        let ghost k = key@;
        let ghost old_keys = self.keys();
        let ghost old_map = self@;
        let ghost old_entries = self.entries@;
        match self.find(key) {
            Some(i) => {
                assert(old_keys[i as int] == k);
                proof {
                    self.lemma_index(i as int);
                }
                let ghost old_pairs = self.pairs();
                let (_, v) = self.entries.remove(i);
                assert(self.pairs() =~= old_pairs.remove(i as int));
                assert(self.entries@ =~= old_entries.remove(i as int));
                assert(self.keys() =~= old_keys.remove(i as int));
                assert(self.wf());
                assert(self@ =~= old_map.remove(k)) by {
                    assert forall|q: K::V| #[trigger] self.keys().contains(q) implies
                        self@[q] == old_map.remove(k)[q] && q != k && old_map.contains_key(q) by {
                        let j = self.keys().index_of(q);
                        self.lemma_index(j);
                        let oj = if j < i { j } else { j + 1 };
                        assert(old_keys[oj] == q);
                        assert(old_keys.contains(q));
                        assert(oj != i);
                        let oi = old_keys.index_of(q);
                        assert(old_keys[oi] == q);
                        assert(oi == oj);
                        assert(old_entries[oj].1 == self.entries@[j].1);
                        assert(old_map.contains_key(q));
                        assert(old_map[q] == old_entries[oi].1);
                    }
                    assert forall|q: K::V| #[trigger] old_map.remove(k).contains_key(q)
                        implies self.keys().contains(q) by {
                        let oj = old_keys.index_of(q);
                        assert(old_keys[oj] == q);
                        assert(oj != i);
                        let j = if oj < i { oj } else { oj - 1 };
                        assert(self.keys()[j] == q);
                    }
                }
                Some(v)
            },
            None => {
                assert(self@ =~= old_map.remove(k));
                None
            },
        }
    }

    /// A table of the given entries, stored in turn: a later entry replaces an earlier one
    /// with the same key in its place, and keys keep the order of their first entry.
    pub fn from_entries(entries: Vec<(K, V)>) -> (t: Self)
        ensures
            t.wf(),
            t@ == last_wins(entries@.map_values(|e: (K, V)| (e.0@, e.1))),
            t.pairs() == inserted(entries@.map_values(|e: (K, V)| (e.0@, e.1))),
    {
        let ghost pairs = entries@.map_values(|e: (K, V)| (e.0@, e.1));
        let ghost n = entries@.len();
        let mut rest = entries;
        // The entries, last one first.
        let mut stack: Vec<(K, V)> = Vec::new();
        while rest.len() > 0
            invariant
                rest@.len() + stack@.len() == n,
                n == pairs.len(),
                forall|j: int| 0 <= j < rest@.len() ==> (#[trigger] rest@[j]).0@ == pairs[j].0 && rest@[j].1 == pairs[j].1,
                forall|j: int| 0 <= j < stack@.len() ==> (#[trigger] stack@[j]).0@ == pairs[n - 1 - j].0
                    && stack@[j].1 == pairs[n - 1 - j].1,
            decreases rest@.len(),
        {
            let e = rest.pop().unwrap();
            stack.push(e);
        }
        let mut t: Self = Table::new();
        assert(pairs.take(0) =~= Seq::<(K::V, V)>::empty());
        assert(last_wins(pairs.take(0)) =~= Map::<K::V, V>::empty());
        while stack.len() > 0
            invariant
                t.wf(),
                n == pairs.len(),
                stack@.len() <= n,
                forall|j: int| 0 <= j < stack@.len() ==> (#[trigger] stack@[j]).0@ == pairs[n - 1 - j].0
                    && stack@[j].1 == pairs[n - 1 - j].1,
                t@ == last_wins(pairs.take(n - stack@.len())),
                t.pairs() == inserted(pairs.take(n - stack@.len())),
            decreases stack@.len(),
        {
            let ghost done = n - stack@.len();
            let (k, v) = stack.pop().unwrap();
            proof {
                assert(pairs[done] == (k@, v));
                assert(pairs.take(done + 1).drop_last() =~= pairs.take(done));
                assert(pairs.take(done + 1).last() == pairs[done]);
            }
            t.insert(k, v);
        }
        assert(pairs.take(n as int) =~= pairs);
        t
    }

    /// Whether no key occurs twice among the entries.
    pub fn is_well_formed(&self) -> (r: bool)
        ensures
            r == self.wf(),
    {
        let n = self.entries.len();
        let mut i: usize = 0;
        while i < n
            invariant
                n == self.entries@.len(),
                i <= n,
                forall|a: int, b: int| 0 <= a < i && 0 <= b < i && a != b ==> self.keys()[a] != self.keys()[b],
            decreases n - i,
        {
            let mut j: usize = 0;
            while j < i
                invariant
                    n == self.entries@.len(),
                    j <= i < n,
                    forall|b: int| 0 <= b < j ==> self.keys()[i as int] != self.keys()[b],
                decreases i - j,
            {
                if self.entries[i].0.key_eq(&self.entries[j].0) {
                    assert(self.keys()[i as int] == self.keys()[j as int]);
                    return false;
                }
                j = j + 1;
            }
            i = i + 1;
        }
        true
    }

    /// The number of entries.
    pub fn len(&self) -> (r: usize)
        requires
            self.wf(),
        ensures
            r == self@.dom().len(),
            r == self.keys().len(),
    {
        proof {
            self.keys().unique_seq_to_set();
            assert(self@.dom() =~= self.keys().to_set());
        }
        self.entries.len()
    }

    /// The key of the entry at position `i`.
    pub fn key_at(&self, i: usize) -> (r: &K)
        requires
            self.wf(),
            i < self.keys().len(),
        ensures
            self@.contains_key(r@),
            r@ == self.keys()[i as int],
    {
        proof {
            self.lemma_index(i as int);
        }
        &self.entries[i].0
    }

    /// The value of the entry at position `i`.
    pub fn value_at(&self, i: usize) -> (r: &V)
        requires
            self.wf(),
            i < self.keys().len(),
        ensures
            *r == self@[self.keys()[i as int]],
    {
        proof {
            self.lemma_index(i as int);
        }
        &self.entries[i].1
    }

    /// The entries agree with the keys and with the map.
    pub proof fn lemma_pairs(&self)
        requires
            self.wf(),
        ensures
            self.pairs().len() == self.keys().len(),
            forall|i: int| 0 <= i < self.pairs().len() ==> (#[trigger] self.pairs()[i]).0 == self.keys()[i]
                && self@.contains_key(self.pairs()[i].0) && self@[self.pairs()[i].0] == self.pairs()[i].1,
    {
        assert forall|i: int| 0 <= i < self.pairs().len() implies (#[trigger] self.pairs()[i]).0 == self.keys()[i]
            && self@.contains_key(self.pairs()[i].0) && self@[self.pairs()[i].0] == self.pairs()[i].1 by {
            self.lemma_index(i);
        }
    }

    /// The map is the one that the entries describe.
    pub proof fn lemma_map_of_pairs(&self)
        requires
            self.wf(),
        ensures
            keys_distinct(self.pairs()),
            self@ == map_of_pairs(self.pairs()),
    {
        self.lemma_pairs();
        assert(keys_distinct(self.pairs())) by {
            assert forall|i: int, j: int| 0 <= i < self.pairs().len() && 0 <= j < self.pairs().len()
                && i != j implies self.pairs()[i].0 != self.pairs()[j].0 by {
                assert(self.keys()[i] != self.keys()[j]);
            }
        }
        let p = self.pairs();
        assert forall|q: K::V| #[trigger] self@.contains_key(q) implies map_of_pairs(p).contains_key(q)
            && self@[q] == map_of_pairs(p)[q] by {
            let j = self.keys().index_of(q);
            assert(p[j].0 == q);
            let c = choose|c: int| 0 <= c < p.len() && p[c].0 == q;
            assert(c == j);
        }
        assert forall|q: K::V| #[trigger] map_of_pairs(p).contains_key(q) implies self@.contains_key(q) by {
            let c = choose|c: int| 0 <= c < p.len() && p[c].0 == q;
            assert(self.keys()[c] == q);
        }
        assert(self@ =~= map_of_pairs(p));
    }

    /// Every key of the map occurs among the keys of the entries, once.
    pub proof fn lemma_keys(&self)
        requires
            self.wf(),
        ensures
            self@.dom() == self.keys().to_set(),
            self@.dom().finite(),
            self@.dom().len() == self.keys().len(),
            forall|k: K::V| self@.contains_key(k) <==> self.keys().contains(k),
    {
        self.keys().unique_seq_to_set();
        assert(self@.dom() =~= self.keys().to_set());
    }
}

impl<V> Table<Vec<u8>, V> {
    /// Whether `ids` names every key of the table exactly once, and nothing else.
    pub fn lists_keys_once(&self, ids: &Vec<Vec<u8>>) -> (r: bool)
        requires
            self.wf(),
        ensures
            r == (views(ids@).no_duplicates()
                && forall|k: Seq<u8>| self@.contains_key(k) <==> views(ids@).contains(k)),
    {
        let ghost names = views(ids@);
        let n = ids.len();
        proof {
            self.lemma_keys();
        }
        if n != self.len() {
            proof {
                if names.no_duplicates() && forall|k: Seq<u8>| self@.contains_key(k) <==> names.contains(k) {
                    names.unique_seq_to_set();
                    assert(names.to_set() =~= self@.dom());
                }
            }
            return false;
        }
        let mut i: usize = 0;
        while i < n
            invariant
                self.wf(),
                names == views(ids@),
                n == ids@.len(),
                n == self@.dom().len(),
                self@.dom().finite(),
                i <= n,
                forall|a: int| 0 <= a < i ==> self@.contains_key(#[trigger] names[a]),
                forall|a: int, b: int| 0 <= a < i && 0 <= b < i && a != b ==> names[a] != names[b],
            decreases n - i,
        {
            if !self.contains_key(&ids[i]) {
                assert(names[i as int] == ids@[i as int]@);
                assert(names.contains(names[i as int]));
                return false;
            }
            let mut j: usize = 0;
            while j < i
                invariant
                    names == views(ids@),
                    n == ids@.len(),
                    j <= i < n,
                    forall|b: int| 0 <= b < j ==> names[i as int] != names[b],
                decreases i - j,
            {
                if bytes_eq(&ids[i], &ids[j]) {
                    assert(names[i as int] == names[j as int]);
                    return false;
                }
                j = j + 1;
            }
            i = i + 1;
        }
        proof {
            assert(names.no_duplicates());
            names.unique_seq_to_set();
            assert(names.to_set().subset_of(self@.dom())) by {
                assert forall|k: Seq<u8>| #[trigger] names.to_set().contains(k) implies self@.dom().contains(k) by {
                    let a = names.index_of(k);
                }
            }
            vstd::set_lib::lemma_subset_equality(names.to_set(), self@.dom());
            assert forall|k: Seq<u8>| self@.contains_key(k) <==> names.contains(k) by {
                assert(names.to_set().contains(k) == self@.dom().contains(k));
            }
        }
        true
    }
}

impl<V: Copy> Table<Vec<u8>, V> {
    /// A copy of the table, entry by entry.
    pub fn copy(&self) -> (r: Self)
        requires
            self.wf(),
        ensures
            r.wf(),
            r@ == self@,
            r.pairs() == self.pairs(),
            r.keys() == self.keys(),
    {
        let mut entries: Vec<(Vec<u8>, V)> = Vec::new();
        let n = self.entries.len();
        let mut i: usize = 0;
        while i < n
            invariant
                n == self.entries@.len(),
                i <= n,
                entries@.len() == i,
                forall|j: int| 0 <= j < i ==> (#[trigger] entries@[j]).0@ == self.entries@[j].0@
                    && entries@[j].1 == self.entries@[j].1,
            decreases n - i,
        {
            let k = self.entries[i].0.clone();
            let v = self.entries[i].1;
            entries.push((k, v));
            i = i + 1;
        }
        let r = Table { entries };
        assert(r.keys() =~= self.keys());
        assert(r.pairs() =~= self.pairs());
        assert(r@ =~= self@);
        r
    }
}

impl<K: KeyEq, V> View for Table<K, V> {
    type V = Map<K::V, V>;

    open spec fn view(&self) -> Map<K::V, V> {
        self.as_map()
    }
}

} // verus!
