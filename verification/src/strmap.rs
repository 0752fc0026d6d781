//! A map keyed by strings that keeps its entries in insertion order.
//!
//! The package manager keeps its repository configuration, its package
//! indexes and its database of installed packages in maps keyed by names.
//! `StrMap` is that map: an association list whose keys are pairwise
//! distinct, so that it behaves as a finite map and, in addition, has a
//! definite order in which its entries are listed.
use vstd::prelude::*;

verus! {

/// An entry of a map as the contracts see it.
pub type EntryView<W> = (Seq<char>, W);

/// No key occurs twice.
pub open spec fn distinct_keys<W>(es: Seq<EntryView<W>>) -> bool {
    forall|i: int, j: int| 0 <= i < j < es.len() ==> es[i].0 != es[j].0
}

/// Position of the last entry with key `k`, or -1.
pub open spec fn key_index<W>(es: Seq<EntryView<W>>, k: Seq<char>) -> int
    decreases es.len(),
{
    if es.len() == 0 {
        -1
    } else if es.last().0 == k {
        es.len() - 1
    } else {
        key_index(es.drop_last(), k)
    }
}

/// Whether some entry has key `k`.
pub open spec fn has_key<W>(es: Seq<EntryView<W>>, k: Seq<char>) -> bool {
    key_index(es, k) >= 0
}

/// The value stored under `k`.
pub open spec fn lookup<W>(es: Seq<EntryView<W>>, k: Seq<char>) -> Option<W> {
    if has_key(es, k) {
        Some(es[key_index(es, k)].1)
    } else {
        None
    }
}

/// Stores `w` under `k`: an existing entry keeps its place and takes the
/// new value, a new key is appended at the end.
pub open spec fn upsert<W>(es: Seq<EntryView<W>>, k: Seq<char>, w: W) -> Seq<EntryView<W>> {
    if has_key(es, k) {
        es.update(key_index(es, k), (k, w))
    } else {
        es.push((k, w))
    }
}

/// Takes the entry with key `k` out, the others keep their order.
pub open spec fn remove_key<W>(es: Seq<EntryView<W>>, k: Seq<char>) -> Seq<EntryView<W>> {
    if has_key(es, k) {
        es.remove(key_index(es, k))
    } else {
        es
    }
}

/// Stores every entry of `more`, in its order, into `es`.
pub open spec fn upsert_all<W>(es: Seq<EntryView<W>>, more: Seq<EntryView<W>>) -> Seq<
    EntryView<W>,
>
    decreases more.len(),
{
    if more.len() == 0 {
        es
    } else {
        let r = upsert_all(es, more.drop_last());
        upsert(r, more.last().0, more.last().1)
    }
}

/// The keys, in order.
pub open spec fn keys_of<W>(es: Seq<EntryView<W>>) -> Seq<Seq<char>> {
    es.map_values(|e: EntryView<W>| e.0)
}

/// The finite map that the entries stand for.
pub open spec fn as_map<W>(es: Seq<EntryView<W>>) -> Map<Seq<char>, W> {
    Map::new(|k: Seq<char>| has_key(es, k), |k: Seq<char>| lookup(es, k).unwrap())
}

pub proof fn lemma_key_index<W>(es: Seq<EntryView<W>>, k: Seq<char>)
    ensures
        -1 <= key_index(es, k) < es.len(),
        key_index(es, k) >= 0 ==> es[key_index(es, k)].0 == k,
        key_index(es, k) < 0 ==> forall|i: int| 0 <= i < es.len() ==> es[i].0 != k,
        forall|i: int| key_index(es, k) < i < es.len() ==> es[i].0 != k,
    decreases es.len(),
{
    if es.len() > 0 {
        lemma_key_index(es.drop_last(), k);
        assert(forall|i: int| 0 <= i < es.len() - 1 ==> es.drop_last()[i] == es[i]);
    }
}

/// With distinct keys, an entry with key `k` sits exactly at `key_index`.
pub proof fn lemma_key_index_unique<W>(es: Seq<EntryView<W>>, k: Seq<char>, i: int)
    requires
        distinct_keys(es),
        0 <= i < es.len(),
        es[i].0 == k,
    ensures
        key_index(es, k) == i,
{
    lemma_key_index(es, k);
}

/// Storing a value keeps the keys distinct.
pub proof fn lemma_upsert_distinct<W>(es: Seq<EntryView<W>>, k: Seq<char>, w: W)
    requires
        distinct_keys(es),
    ensures
        distinct_keys(upsert(es, k, w)),
{
    lemma_key_index(es, k);
}

/// Removing an entry keeps the keys distinct.
pub proof fn lemma_remove_distinct<W>(es: Seq<EntryView<W>>, k: Seq<char>)
    requires
        distinct_keys(es),
    ensures
        distinct_keys(remove_key(es, k)),
{
    lemma_key_index(es, k);
}

/// A read after a write: the key just stored gives the stored value, and
/// every other key gives what it gave before.
pub proof fn lemma_lookup_upsert<W>(es: Seq<EntryView<W>>, k: Seq<char>, w: W, k2: Seq<char>)
    requires
        distinct_keys(es),
    ensures
        lookup(upsert(es, k, w), k) == Some(w),
        k2 != k ==> lookup(upsert(es, k, w), k2) == lookup(es, k2),
{
    lemma_key_index(es, k);
    lemma_key_index(es, k2);
    lemma_upsert_distinct(es, k, w);
    let u = upsert(es, k, w);
    lemma_key_index(u, k);
    lemma_key_index(u, k2);
    if has_key(es, k) {
        lemma_key_index_unique(u, k, key_index(es, k));
        if has_key(es, k2) && k2 != k {
            lemma_key_index_unique(u, k2, key_index(es, k2));
        }
    } else {
        lemma_key_index_unique(u, k, es.len() as int);
        if has_key(es, k2) && k2 != k {
            lemma_key_index_unique(u, k2, key_index(es, k2));
        }
    }
}

/// After removing `k`, `k` is absent and every other key is untouched.
pub proof fn lemma_lookup_remove<W>(es: Seq<EntryView<W>>, k: Seq<char>, k2: Seq<char>)
    requires
        distinct_keys(es),
    ensures
        lookup(remove_key(es, k), k) is None,
        k2 != k ==> lookup(remove_key(es, k), k2) == lookup(es, k2),
{
    lemma_key_index(es, k);
    lemma_key_index(es, k2);
    lemma_remove_distinct(es, k);
    let r = remove_key(es, k);
    lemma_key_index(r, k);
    lemma_key_index(r, k2);
    if has_key(es, k) {
        let x = key_index(es, k);
        if has_key(r, k) {
            let y = key_index(r, k);
            if y < x {
                assert(r[y] == es[y]);
            } else {
                assert(r[y] == es[y + 1]);
            }
        }
        if k2 != k && has_key(es, k2) {
            let z = key_index(es, k2);
            if z < x {
                assert(r[z] == es[z]);
                lemma_key_index_unique(r, k2, z);
            } else {
                assert(r[z - 1] == es[z]);
                lemma_key_index_unique(r, k2, z - 1);
            }
        }
        if k2 != k && !has_key(es, k2) && has_key(r, k2) {
            let y = key_index(r, k2);
            if y < x {
                assert(r[y] == es[y]);
            } else {
                assert(r[y] == es[y + 1]);
            }
        }
    }
}

/// Storing many entries keeps the keys distinct.
pub proof fn lemma_upsert_all_distinct<W>(es: Seq<EntryView<W>>, more: Seq<EntryView<W>>)
    requires
        distinct_keys(es),
    ensures
        distinct_keys(upsert_all(es, more)),
    decreases more.len(),
{
    if more.len() > 0 {
        lemma_upsert_all_distinct(es, more.drop_last());
        lemma_upsert_distinct(upsert_all(es, more.drop_last()), more.last().0, more.last().1);
    }
}

/// After storing many entries, a key gives the value of the last entry of
/// `more` with that key, or what it gave before when `more` has none.
pub proof fn lemma_lookup_upsert_all<W>(es: Seq<EntryView<W>>, more: Seq<EntryView<W>>, k: Seq<char>)
    requires
        distinct_keys(es),
    ensures
        lookup(upsert_all(es, more), k) == if has_key(more, k) {
            Some(more[key_index(more, k)].1)
        } else {
            lookup(es, k)
        },
    decreases more.len(),
{
    if more.len() > 0 {
        let pre = more.drop_last();
        lemma_lookup_upsert_all(es, pre, k);
        lemma_upsert_all_distinct(es, pre);
        lemma_lookup_upsert(upsert_all(es, pre), more.last().0, more.last().1, k);
        lemma_key_index(more, k);
        lemma_key_index(pre, k);
        if more.last().0 != k && has_key(pre, k) {
            assert(more[key_index(pre, k)] == pre[key_index(pre, k)]);
        }
    }
}

/// A map keyed by strings whose entries keep the order in which their keys
/// were first stored.
pub struct StrMap<V: DeepView> {
    entries: Vec<(String, V)>,
}

impl<V: DeepView> View for StrMap<V> {
    type V = Seq<EntryView<V::V>>;

    closed spec fn view(&self) -> Seq<EntryView<V::V>> {
        self.entries@.map_values(|e: (String, V)| (e.0@, e.1.deep_view()))
    }
}

impl<V: DeepView> StrMap<V> {
    /// The keys of a map are pairwise distinct.
    #[verifier::type_invariant]
    pub closed spec fn keys_distinct(self) -> bool {
        distinct_keys(self@)
    }

    /// An empty map.
    pub fn new() -> (m: Self)
        ensures
            m@ == Seq::<EntryView<V::V>>::empty(),
    {
        let m = StrMap { entries: Vec::new() };
        assert(m@ =~= Seq::<EntryView<V::V>>::empty());
        m
    }

    /// The number of entries.
    pub fn len(&self) -> (n: usize)
        ensures
            n == self@.len(),
            distinct_keys(self@),
    {
        proof {
            use_type_invariant(self);
        }
        self.entries.len()
    }

    /// The key of entry `i`.
    pub fn key_at(&self, i: usize) -> (k: &String)
        requires
            i < self@.len(),
        ensures
            k@ == self@[i as int].0,
    {
        &self.entries[i].0
    }

    /// The value of entry `i`.
    pub fn value_at(&self, i: usize) -> (v: &V)
        requires
            i < self@.len(),
        ensures
            v.deep_view() == self@[i as int].1,
    {
        &self.entries[i].1
    }

    /// Where the entry with key `k` stands, if there is one.
    pub fn position(&self, k: &str) -> (r: Option<usize>)
        ensures
            match r {
                Some(i) => key_index(self@, k@) == i,
                None => !has_key(self@, k@),
            },
    {
        proof {
            use_type_invariant(self);
            lemma_key_index(self@, k@);
        }
        let key = crate::text::owned(k);
        let mut i: usize = 0;
        while i < self.entries.len()
            invariant
                i <= self.entries@.len(),
                key@ == k@,
                distinct_keys(self@),
                self@.len() == self.entries@.len(),
                forall|j: int| 0 <= j < i ==> self@[j].0 != k@,
            decreases self.entries.len() - i,
        {
            if self.entries[i].0 == key {
                proof {
                    lemma_key_index_unique(self@, k@, i as int);
                }
                return Some(i);
            }
            i = i + 1;
        }
        proof {
            lemma_key_index(self@, k@);
        }
        None
    }

    /// Whether some entry has key `k`.
    pub fn contains_key(&self, k: &str) -> (b: bool)
        ensures
            b == has_key(self@, k@),
    {
        self.position(k).is_some()
    }

    /// The value stored under `k`.
    pub fn get(&self, k: &str) -> (r: Option<&V>)
        ensures
            match lookup(self@, k@) {
                Some(w) => r matches Some(v) && v.deep_view() == w,
                None => r is None,
            },
    {
        proof {
            lemma_key_index(self@, k@);
        }
        match self.position(k) {
            Some(i) => Some(&self.entries[i].1),
            None => None,
        }
    }

    /// Stores `v` under `k`.
    pub fn insert(&mut self, k: String, v: V)
        ensures
            final(self)@ == upsert(old(self)@, k@, v.deep_view()),
    {
        proof {
            use_type_invariant(&*self);
            lemma_key_index(self@, k@);
            lemma_upsert_distinct(self@, k@, v.deep_view());
        }
        let pos = self.position(k.as_str());
        let ghost before = self@;
        let mut es: Vec<(String, V)> = Vec::new();
        std::mem::swap(&mut es, &mut self.entries);
        match pos {
            Some(i) => {
                es.set(i, (k, v));
            },
            None => {
                es.push((k, v));
            },
        }
        assert(es@.map_values(|e: (String, V)| (e.0@, e.1.deep_view())) =~= upsert(before, k@, v.deep_view()));
        self.entries = es;
    }

    /// Takes the entry with key `k` out and hands back its value.
    pub fn remove(&mut self, k: &str) -> (r: Option<V>)
        ensures
            final(self)@ == remove_key(old(self)@, k@),
            match lookup(old(self)@, k@) {
                Some(w) => r matches Some(v) && v.deep_view() == w,
                None => r is None,
            },
    {
        proof {
            use_type_invariant(&*self);
            lemma_remove_distinct(self@, k@);
            lemma_key_index(self@, k@);
        }
        match self.position(k) {
            Some(i) => {
                let ghost before = self@;
                let mut es: Vec<(String, V)> = Vec::new();
                std::mem::swap(&mut es, &mut self.entries);
                let e = es.remove(i);
                assert(es@.map_values(|e: (String, V)| (e.0@, e.1.deep_view())) =~= remove_key(before, k@));
                self.entries = es;
                Some(e.1)
            },
            None => None,
        }
    }

    /// Replaces the value of entry `i`.
    pub fn set_value_at(&mut self, i: usize, v: V)
        requires
            i < old(self)@.len(),
        ensures
            final(self)@ == old(self)@.update(i as int, (old(self)@[i as int].0, v.deep_view())),
    {
        proof {
            use_type_invariant(&*self);
        }
        let ghost before = self@;
        let k = self.entries[i].0.clone();
        let mut es: Vec<(String, V)> = Vec::new();
        std::mem::swap(&mut es, &mut self.entries);
        es.set(i, (k, v));
        assert(es@.map_values(|e: (String, V)| (e.0@, e.1.deep_view())) =~= before.update(
            i as int,
            (before[i as int].0, v.deep_view()),
        ));
        self.entries = es;
    }

    /// Stores every entry of `other` in its order (`HashMap::extend`).
    pub fn extend(&mut self, other: StrMap<V>)
        ensures
            final(self)@ == upsert_all(old(self)@, other@),
    {
        self.extend_pairs(other.entries);
    }

    /// Stores every pair of `pairs` in its order.
    pub fn extend_pairs(&mut self, pairs: Vec<(String, V)>)
        ensures
            final(self)@ == upsert_all(old(self)@, pairs@.map_values(|e: (String, V)| (e.0@, e.1.deep_view()))),
    {
        let ghost start = self@;
        let ghost more = pairs@.map_values(|e: (String, V)| (e.0@, e.1.deep_view()));
        let mut rest = pairs;
        let mut taken: Vec<(String, V)> = Vec::new();
        // Entries are moved out back to front, then stored front to back.
        while rest.len() > 0
            invariant
                rest@.map_values(|e: (String, V)| (e.0@, e.1.deep_view())) + taken@.reverse().map_values(
                    |e: (String, V)| (e.0@, e.1.deep_view()),
                ) == more,
            decreases rest.len(),
        {
            let ghost r0 = rest@;
            let ghost t0 = taken@;
            let e = rest.pop().unwrap();
            taken.push(e);
            assert(rest@ == r0.drop_last());
            assert(taken@.reverse() =~= seq![e] + t0.reverse());
            assert(r0.map_values(|e: (String, V)| (e.0@, e.1.deep_view())) =~= rest@.map_values(
                |e: (String, V)| (e.0@, e.1.deep_view()),
            ).push((e.0@, e.1.deep_view())));
            assert(taken@.reverse().map_values(|e: (String, V)| (e.0@, e.1.deep_view())) =~= seq![
                (e.0@, e.1.deep_view()),
            ] + t0.reverse().map_values(|e: (String, V)| (e.0@, e.1.deep_view())));
        }
        assert(rest@.map_values(|e: (String, V)| (e.0@, e.1.deep_view())) =~= Seq::<
            EntryView<V::V>,
        >::empty());
        let ghost mv = taken@.reverse().map_values(|e: (String, V)| (e.0@, e.1.deep_view()));
        assert(mv =~= more);
        let mut n: usize = 0;
        let total = taken.len();
        while taken.len() > 0
            invariant
                total == mv.len(),
                taken@.len() + n == total,
                forall|j: int|
                    0 <= j < taken@.len() ==> (#[trigger] taken@[j].0@, taken@[j].1.deep_view())
                        == mv[total - 1 - j],
                self@ == upsert_all(start, mv.take(n as int)),
            decreases taken.len(),
        {
            let ghost t0 = taken@;
            let e = taken.pop().unwrap();
            assert(t0[t0.len() - 1] == e);
            assert((e.0@, e.1.deep_view()) == mv[n as int]);
            assert(mv.take(n + 1).drop_last() =~= mv.take(n as int));
            self.insert(e.0, e.1);
            n = n + 1;
            assert(forall|j: int| 0 <= j < taken@.len() ==> taken@[j] == t0[j]);
        }
        assert(mv.take(total as int) =~= mv);
    }

    /// A map holding `pairs` stored in order; a later pair overrides an
    /// earlier one with the same key.
    pub fn from_pairs(pairs: Vec<(String, V)>) -> (m: Self)
        ensures
            m@ == upsert_all(Seq::empty(), pairs@.map_values(|e: (String, V)| (e.0@, e.1.deep_view()))),
    {
        let mut m = StrMap::new();
        m.extend_pairs(pairs);
        m
    }

    /// The keys, in order.
    pub fn keys(&self) -> (ks: Vec<String>)
        ensures
            ks@.map_values(|s: String| s@) == keys_of(self@),
    {
        let mut ks: Vec<String> = Vec::new();
        let mut i: usize = 0;
        while i < self.entries.len()
            invariant
                i <= self.entries@.len(),
                self@.len() == self.entries@.len(),
                ks@.map_values(|s: String| s@) == keys_of(self@).take(i as int),
            decreases self.entries.len() - i,
        {
            ks.push(self.entries[i].0.clone());
            assert(keys_of(self@).take(i + 1) =~= keys_of(self@).take(i as int).push(self@[i as int].0));
            assert(ks@.map_values(|s: String| s@) =~= keys_of(self@).take(i as int).push(self@[i as int].0));
            i = i + 1;
        }
        assert(keys_of(self@).take(self@.len() as int) =~= keys_of(self@));
        ks
    }

    /// The entries, in order.
    pub fn into_pairs(self) -> (pairs: Vec<(String, V)>)
        ensures
            pairs@.map_values(|e: (String, V)| (e.0@, e.1.deep_view())) == self@,
    {
        self.entries
    }
}

} // verus!
