//! The index from search keys to engine variants.
//!
//! The index lists its keys in the order in which they first came in, and
//! under each key the engine priorities in the order in which they first came
//! in, each with the position of a record. A key is found through a hash
//! table from a hash code of the key to the entries that share the code.

use crate::aircraft::search::{KeyView, SearchKey};
use crate::aircraft::EnginePriority;
use crate::scan::{
    distinct, first_at, first_index, lemma_first_index, lemma_first_index_distinct,
    lemma_first_index_some,
};
use std::collections::HashMap;
use vstd::prelude::*;

verus! {

broadcast use vstd::std_specs::hash::group_hash_axioms;

// ---------------------------------------------------------------------------
// The model
// ---------------------------------------------------------------------------

/// The engine variants under one key: pairs of an engine priority and a
/// position in the catalog.
pub type Variants = Seq<(u8, usize)>;

/// What an index holds: its keys, each with its variants.
pub type IndexView = Seq<(KeyView, Variants)>;

/// The engine priorities of `vs`, in order.
pub open spec fn priorities(vs: Variants) -> Seq<u8> {
    vs.map_values(|v: (u8, usize)| v.0)
}

/// The position that `vs` has for the engine priority `p`.
pub open spec fn engine_in(vs: Variants, p: u8) -> Option<usize> {
    match first_index(priorities(vs), p) {
        Some(m) => Some(vs[m].1),
        None => None,
    }
}

/// `vs` after `position` was entered for the engine priority `p`: it takes
/// the place of the position that `p` had, or comes last where `p` had none.
pub open spec fn put(vs: Variants, p: u8, position: usize) -> Variants {
    match first_index(priorities(vs), p) {
        Some(m) => vs.update(m, (p, position)),
        None => vs.push((p, position)),
    }
}

/// The keys of `ix`, in order.
pub open spec fn keys(ix: IndexView) -> Seq<KeyView> {
    ix.map_values(|e: (KeyView, Variants)| e.0)
}

/// The variants that `ix` has under `k`; none where `k` is no key of it.
pub open spec fn variants_in(ix: IndexView, k: KeyView) -> Variants {
    match first_index(keys(ix), k) {
        Some(j) => ix[j].1,
        None => Seq::empty(),
    }
}

/// `ix` after `position` was entered under `k` for the engine priority `p`.
/// A key that is new comes last.
pub open spec fn inserted(ix: IndexView, k: KeyView, p: u8, position: usize) -> IndexView {
    match first_index(keys(ix), k) {
        Some(j) => ix.update(j, (k, put(ix[j].1, p, position))),
        None => ix.push((k, seq![(p, position)])),
    }
}

/// Entering a position leaves no variant set empty, keeps what it holds for
/// the other engine priorities, and is what it then holds for `p`.
pub proof fn lemma_put(vs: Variants, p: u8, position: usize)
    ensures
        put(vs, p, position).len() > 0,
        put(vs, p, position).len() >= vs.len(),
        engine_in(put(vs, p, position), p) == Some(position),
        forall|q: u8| q != p ==> engine_in(put(vs, p, position), q) == engine_in(vs, q),
        priorities(put(vs, p, position)) == crate::scan::with(priorities(vs), p),
{
    let ps = priorities(vs);
    let after = put(vs, p, position);
    if ps.contains(p) {
        lemma_first_index_some(ps, p);
        assert(priorities(after) == ps);
    } else {
        assert(priorities(after) == ps.push(p));
        lemma_first_index(priorities(after), p, vs.len() as int);
    }
    assert forall|q: u8| q != p implies engine_in(after, q) == engine_in(vs, q) by {
        if ps.contains(q) {
            lemma_first_index_some(ps, q);
            let m = first_index(ps, q).unwrap();
            assert(first_at(priorities(after), q, m));
            lemma_first_index(priorities(after), q, m);
        } else {
            assert(!priorities(after).contains(q));
        }
    }
}

// ---------------------------------------------------------------------------
// Variant sets
// ---------------------------------------------------------------------------

/// The engine variants that share one key: for each engine priority the
/// position of a record in the catalog.
#[derive(Debug)]
pub struct AircraftVariants {
    entries: Vec<(u8, usize)>,
}

impl View for AircraftVariants {
    type V = Variants;

    closed spec fn view(&self) -> Variants {
        self.entries@
    }
}

impl AircraftVariants {
    /// A variant set that holds `position` for the engine priority `p`.
    fn single(p: u8, position: usize) -> (r: Self)
        ensures
            r@ == seq![(p, position)],
    {
        let mut entries: Vec<(u8, usize)> = Vec::new();
        entries.push((p, position));
        AircraftVariants { entries }
    }

    /// Enters `position` for the engine priority `p`.
    fn put(&mut self, p: u8, position: usize)
        ensures
            final(self)@ == put(old(self)@, p, position),
    {
        let mut m: usize = 0;
        while m < self.entries.len()
            invariant
                m <= self.entries.len(),
                self.entries == old(self).entries,
                forall|t: int| 0 <= t < m ==> self.entries@[t].0 != p,
            decreases self.entries.len() - m,
        {
            if self.entries[m].0 == p {
                proof {
                    lemma_first_index(priorities(self@), p, m as int);
                }
                self.entries.set(m, (p, position));
                return ;
            }
            m += 1;
        }
        assert(!priorities(self@).contains(p));
        self.entries.push((p, position));
    }

    /// How many engine priorities the set holds.
    pub fn len(&self) -> (n: usize)
        ensures
            n == self@.len(),
    {
        self.entries.len()
    }

    /// The position held for `engine`.
    pub fn get(&self, engine: &EnginePriority) -> (r: Option<usize>)
        ensures
            r == engine_in(self@, engine.0),
    {
        let p = engine.0;
        let mut m: usize = 0;
        while m < self.entries.len()
            invariant
                m <= self.entries.len(),
                p == engine.0,
                forall|t: int| 0 <= t < m ==> self.entries@[t].0 != p,
            decreases self.entries.len() - m,
        {
            if self.entries[m].0 == p {
                proof {
                    assert(priorities(self@)[m as int] == p);
                    lemma_first_index(priorities(self@), p, m as int);
                }
                return Some(self.entries[m].1);
            }
            m += 1;
        }
        assert(!priorities(self@).contains(p));
        None
    }

    /// The position that was entered first, with its engine priority.
    pub fn first(&self) -> (r: Option<(EnginePriority, usize)>)
        ensures
            r == (if self@.len() > 0 {
                Some((EnginePriority(self@[0].0), self@[0].1))
            } else {
                None
            }),
    {
        if self.entries.len() > 0 {
            Some((EnginePriority(self.entries[0].0), self.entries[0].1))
        } else {
            None
        }
    }

    /// The engine priorities and their positions, in the order in which the
    /// priorities first came in.
    pub fn to_vec(&self) -> (r: Vec<(EnginePriority, usize)>)
        ensures
            r@.len() == self@.len(),
            forall|m: int|
                0 <= m < r@.len() ==> (#[trigger] r@[m]) == (EnginePriority(self@[m].0), self@[m].1),
    {
        let mut r: Vec<(EnginePriority, usize)> = Vec::new();
        let mut m: usize = 0;
        while m < self.entries.len()
            invariant
                m <= self.entries.len(),
                r@.len() == m,
                forall|t: int|
                    0 <= t < m ==> (#[trigger] r@[t]) == (
                        EnginePriority(self.entries@[t].0),
                        self.entries@[t].1,
                    ),
            decreases self.entries.len() - m,
        {
            r.push((EnginePriority(self.entries[m].0), self.entries[m].1));
            m += 1;
        }
        r
    }
}

// ---------------------------------------------------------------------------
// Hash codes
// ---------------------------------------------------------------------------

/// Hash codes of texts stay below this prime.
const MODULUS: u64 = 1_000_000_007;

/// The hash code `h` after the character `c`.
spec fn mixed(h: u64, c: char) -> u64 {
    ((h * 31 + (c as u32) as u64) % (MODULUS as int)) as u64
}

/// The hash code of the text `s`, begun at `seed`.
spec fn text_code(s: Seq<char>, seed: u64) -> u64
    decreases s.len(),
{
    if s.len() == 0 {
        seed
    } else {
        mixed(text_code(s.drop_last(), seed), s.last())
    }
}

/// The hash code of a key. Keys that are equal have the same code; keys with
/// the same code need not be equal.
spec fn code_of(k: KeyView) -> u64 {
    match k {
        KeyView::Id(id) => id as u64,
        KeyView::ShortName(s) => text_code(s, 1),
        KeyView::Name(s) => text_code(s, 2),
    }
}

fn text_hash(s: &str, seed: u64) -> (h: u64)
    requires
        seed < MODULUS,
    ensures
        h == text_code(s@, seed),
{
    let mut h: u64 = seed;
    for c in it: s.chars()
        invariant
            it.seq() == s@,
            h < MODULUS,
            h == text_code(it.seq().take(it.index()), seed),
    {
        assert(it.seq().take(it.index() + 1).drop_last() == it.seq().take(it.index()));
        h = (h * 31 + (c as u32) as u64) % MODULUS;
    }
    assert(s@.take(s@.len() as int) == s@);
    h
}

fn hash(key: &SearchKey) -> (h: u64)
    ensures
        h == code_of(key@),
{
    match key {
        SearchKey::Id(id) => id.0 as u64,
        SearchKey::ShortName(sn) => text_hash(sn.0.as_str(), 1),
        SearchKey::Name(name) => text_hash(name.0.as_str(), 2),
    }
}

// ---------------------------------------------------------------------------
// The index
// ---------------------------------------------------------------------------

/// A key of the index with its variants.
#[derive(Debug)]
struct Entry {
    key: SearchKey,
    variants: AircraftVariants,
}

/// The index: from each search key to the engine variants that share it.
#[derive(Debug)]
pub struct KeyIndex {
    /// The keys in the order in which they first came in.
    entries: Vec<Entry>,
    /// For each hash code the places in `entries` of the keys that have it.
    buckets: HashMap<u64, Vec<usize>>,
}

impl View for KeyIndex {
    type V = IndexView;

    closed spec fn view(&self) -> IndexView {
        Seq::new(
            self.entries@.len(),
            |j: int| (self.entries@[j].key@, self.entries@[j].variants@),
        )
    }
}

impl KeyIndex {
    /// Whether the hash table leads to every key, and to nothing else.
    spec fn table_matches(&self) -> bool {
        &&& forall|h: u64, t: int|
            self.buckets@.contains_key(h) && 0 <= t < self.buckets@[h]@.len() ==> {
                let j = #[trigger] self.buckets@[h]@[t];
                j < self.entries@.len() && code_of(self.entries@[j as int].key@) == h
            }
        &&& forall|j: usize|
            j < self.entries@.len() ==> {
                let h = code_of((#[trigger] self.entries@[j as int]).key@);
                self.buckets@.contains_key(h) && self.buckets@[h]@.contains(j)
            }
    }

    /// What holds of every index: no key stands in it twice, every key has a
    /// variant, and the hash table leads to every key.
    pub closed spec fn wf(&self) -> bool {
        &&& distinct(keys(self@))
        &&& forall|j: int| 0 <= j < self@.len() ==> (#[trigger] self@[j]).1.len() > 0
        &&& self.table_matches()
    }

    /// An index without keys.
    pub fn new() -> (r: Self)
        ensures
            r.wf(),
            r@ == IndexView::empty(),
    {
        KeyIndex { entries: Vec::new(), buckets: HashMap::new() }
    }

    /// How many keys the index has.
    pub fn len(&self) -> (n: usize)
        ensures
            n == self@.len(),
    {
        self.entries.len()
    }

    /// The key at place `j`, with its variants.
    pub fn entry(&self, j: usize) -> (r: (&SearchKey, &AircraftVariants))
        requires
            j < self@.len(),
        ensures
            r.0@ == self@[j as int].0,
            r.1@ == self@[j as int].1,
    {
        (&self.entries[j].key, &self.entries[j].variants)
    }

    /// The place of `key` among the keys.
    pub fn find(&self, key: &SearchKey) -> (r: Option<usize>)
        requires
            self.wf(),
        ensures
            match r {
                Some(j) => {
                    &&& j < self@.len()
                    &&& self@[j as int].0 == key@
                    &&& first_index(keys(self@), key@) == Some(j as int)
                },
                None => !keys(self@).contains(key@),
            },
    {
        let h = hash(key);
        let n = self.entries.len();
        match self.buckets.get(&h) {
            None => {
                assert(!keys(self@).contains(key@)) by {
                    if keys(self@).contains(key@) {
                        let i = choose|i: int| 0 <= i < keys(self@).len() && keys(self@)[i] == key@;
                        let j = i as usize;
                        assert(self.entries@[j as int].key@ == key@);
                    }
                }
                None
            },
            Some(bucket) => {
                let mut t: usize = 0;
                while t < bucket.len()
                    invariant
                        t <= bucket.len(),
                        n == self.entries@.len(),
                        self.wf(),
                        h == code_of(key@),
                        self.buckets@.contains_key(h),
                        self.buckets@[h] == bucket,
                        forall|u: int|
                            0 <= u < t ==> self.entries@[(#[trigger] bucket@[u]) as int].key@
                                != key@,
                    decreases bucket.len() - t,
                {
                    let j = bucket[t];
                    assert(j == self.buckets@[h]@[t as int]);
                    if self.entries[j].key.same(key) {
                        proof {
                            assert(keys(self@)[j as int] == key@);
                            lemma_first_index_distinct(keys(self@), j as int);
                        }
                        return Some(j);
                    }
                    t += 1;
                }
                assert(!keys(self@).contains(key@)) by {
                    if keys(self@).contains(key@) {
                        let i = choose|i: int| 0 <= i < keys(self@).len() && keys(self@)[i] == key@;
                        let j = i as usize;
                        assert(self.entries@[j as int].key@ == key@);
                        assert(bucket@.contains(j));
                        let u = choose|u: int| 0 <= u < bucket@.len() && bucket@[u] == j;
                        assert(self.entries@[bucket@[u] as int].key@ != key@);
                    }
                }
                None
            },
        }
    }

    /// The variants under `key`, if the index has the key.
    pub fn get(&self, key: &SearchKey) -> (r: Option<&AircraftVariants>)
        requires
            self.wf(),
        ensures
            match r {
                Some(variants) => keys(self@).contains(key@) && variants@ == variants_in(
                    self@,
                    key@,
                ),
                None => !keys(self@).contains(key@),
            },
    {
        match self.find(key) {
            Some(j) => Some(&self.entries[j].variants),
            None => None,
        }
    }

    /// Enters `position` under `key` for the engine priority `p`.
    pub fn insert(&mut self, key: SearchKey, p: u8, position: usize)
        requires
            old(self).wf(),
        ensures
            final(self).wf(),
            final(self)@ == inserted(old(self)@, key@, p, position),
    {
        match self.find(&key) {
            Some(j) => {
                let entry = &mut self.entries[j];
                entry.variants.put(p, position);
                proof {
                    let before = old(self);
                    assert(self.entries@[j as int].key@ == key@);
                    assert(self@ == inserted(before@, key@, p, position));
                    assert(keys(self@) == keys(before@));
                    assert(self.table_matches()) by {
                        assert forall|i: usize| i < self.entries@.len() implies {
                            let h = code_of((#[trigger] self.entries@[i as int]).key@);
                            self.buckets@.contains_key(h) && self.buckets@[h]@.contains(i)
                        } by {
                            assert(self.entries@[i as int].key@ == before.entries@[i as int].key@);
                        }
                    }
                    assert forall|i: int| 0 <= i < self@.len() implies (#[trigger] self@[i]).1.len()
                        > 0 by {
                        if i != j {
                            assert(self@[i] == before@[i]);
                        } else {
                            let vs = before@[i].1;
                            assert(vs.len() > 0);
                            assert(self@[i].1 == put(vs, p, position));
                            lemma_put(vs, p, position);
                        }
                    }
                }
            },
            None => {
                let h = hash(&key);
                let place = self.entries.len();
                let ghost k = key@;
                self.entries.push(Entry { key, variants: AircraftVariants::single(p, position) });
                let mut bucket = match self.buckets.remove(&h) {
                    Some(bucket) => bucket,
                    None => Vec::new(),
                };
                bucket.push(place);
                self.buckets.insert(h, bucket);
                proof {
                    let before = old(self);
                    assert(self@ == inserted(before@, k, p, position));
                    assert(keys(self@) == keys(before@).push(k));
                    assert(distinct(keys(self@))) by {
                        assert forall|a: int, b: int| 0 <= a < b < keys(self@).len() implies keys(
                            self@,
                        )[a] != keys(self@)[b] by {
                            if b == place {
                                assert(keys(before@)[a] == keys(self@)[a]);
                                assert(keys(before@).contains(keys(before@)[a]));
                            } else {
                                assert(keys(before@)[a] != keys(before@)[b]);
                            }
                        }
                    }
                    assert forall|i: int| 0 <= i < self@.len() implies (#[trigger] self@[i]).1.len()
                        > 0 by {
                        if i != place {
                            assert(self@[i] == before@[i]);
                        }
                    }
                    assert(self.table_matches()) by {
                        assert forall|g: u64, t: int|
                            self.buckets@.contains_key(g) && 0 <= t < self.buckets@[g]@.len() implies {
                            let j = #[trigger] self.buckets@[g]@[t];
                            j < self.entries@.len() && code_of(self.entries@[j as int].key@) == g
                        } by {
                            if g == h {
                                if t < self.buckets@[g]@.len() - 1 {
                                    assert(before.buckets@.contains_key(h));
                                    assert(self.buckets@[g]@[t] == before.buckets@[h]@[t]);
                                }
                            } else {
                                assert(self.buckets@[g] == before.buckets@[g]);
                                assert(self.buckets@[g]@[t] == before.buckets@[g]@[t]);
                            }
                        }
                        assert forall|i: usize| i < self.entries@.len() implies {
                            let g = code_of((#[trigger] self.entries@[i as int]).key@);
                            self.buckets@.contains_key(g) && self.buckets@[g]@.contains(i)
                        } by {
                            let g = code_of(self.entries@[i as int].key@);
                            if i == place {
                                assert(self.buckets@[h]@[self.buckets@[h]@.len() - 1] == place);
                            } else {
                                assert(self.entries@[i as int] == before.entries@[i as int]);
                                assert(before.buckets@[g]@.contains(i));
                                let t = choose|t: int|
                                    0 <= t < before.buckets@[g]@.len() && before.buckets@[g]@[t]
                                        == i;
                                if g == h {
                                    assert(self.buckets@[h]@[t] == i);
                                } else {
                                    assert(self.buckets@[g] == before.buckets@[g]);
                                }
                            }
                        }
                    }
                }
            },
        }
    }
}

} // verus!
