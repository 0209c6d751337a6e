//! What the index of a catalog holds, stated over the catalog alone.
//!
//! A catalog is a sequence of records; a record's position is its place in
//! that sequence. Every record is found under three keys: its identifier, its
//! short code in uppercase and its name in uppercase.

use crate::aircraft::index::{
    engine_in, inserted, keys, lemma_put, priorities, put, IndexView, Variants,
};
use crate::aircraft::search::KeyView;
use crate::aircraft::AircraftView;
use crate::scan::{distinct, first_index, lemma_first_index_some, lemma_with_distinct, with};
use crate::text::uppercase;
use vstd::prelude::*;

verus! {

/// The records of a catalog, in order.
pub type Catalog = Seq<AircraftView>;

/// The key that an identifier makes.
pub open spec fn id_key(r: AircraftView) -> KeyView {
    KeyView::Id(r.id)
}

/// The key that a record's short code makes.
pub open spec fn shortname_key(r: AircraftView) -> KeyView {
    KeyView::ShortName(uppercase(r.shortname))
}

/// The key that a record's name makes.
pub open spec fn name_key(r: AircraftView) -> KeyView {
    KeyView::Name(uppercase(r.name))
}

/// Whether `k` is one of the three keys of `r`.
pub open spec fn has_key(r: AircraftView, k: KeyView) -> bool {
    k == id_key(r) || k == shortname_key(r) || k == name_key(r)
}

/// Whether some record of `cat` has the key `k`.
pub open spec fn present(cat: Catalog, k: KeyView) -> bool {
    exists|i: int| 0 <= i < cat.len() && has_key(#[trigger] cat[i], k)
}

/// The position of the last record of `cat` that has the key `k` and the
/// engine priority `p`.
pub open spec fn last_match(cat: Catalog, k: KeyView, p: u8) -> Option<int>
    decreases cat.len(),
{
    if cat.len() == 0 {
        None
    } else if has_key(cat.last(), k) && cat.last().priority == p {
        Some(cat.len() - 1)
    } else {
        last_match(cat.drop_last(), k, p)
    }
}

/// The keys of the records of `cat`, each once, in the order in which they
/// first occur: record by record, and of one record the identifier, then the
/// short code, then the name.
pub open spec fn keys_of(cat: Catalog) -> Seq<KeyView>
    decreases cat.len(),
{
    if cat.len() == 0 {
        Seq::empty()
    } else {
        let r = cat.last();
        with(with(with(keys_of(cat.drop_last()), id_key(r)), shortname_key(r)), name_key(r))
    }
}

/// The engine variants under the key `k`: the engine priorities of the records
/// that have `k`, each once, in the order in which they first occur, and with
/// each the position of the last record that has `k` and that priority.
pub open spec fn variants_of(cat: Catalog, k: KeyView) -> Variants
    decreases cat.len(),
{
    if cat.len() == 0 {
        Seq::empty()
    } else {
        let before = variants_of(cat.drop_last(), k);
        if has_key(cat.last(), k) {
            put(before, cat.last().priority, (cat.len() - 1) as usize)
        } else {
            before
        }
    }
}

/// The index of `cat`: its keys, each with its engine variants.
pub open spec fn index_of(cat: Catalog) -> IndexView {
    Seq::new(keys_of(cat).len(), |j: int| (keys_of(cat)[j], variants_of(cat, keys_of(cat)[j])))
}

/// The keys of a catalog are the keys that its records have, each once.
pub proof fn lemma_keys_of(cat: Catalog)
    ensures
        distinct(keys_of(cat)),
        forall|k: KeyView| keys_of(cat).contains(k) <==> present(cat, k),
        keys(index_of(cat)) == keys_of(cat),
    decreases cat.len(),
{
    assert(keys(index_of(cat)) == keys_of(cat));
    if cat.len() > 0 {
        let prev = cat.drop_last();
        let r = cat.last();
        lemma_keys_of(prev);
        let k0 = keys_of(prev);
        let k1 = with(k0, id_key(r));
        let k2 = with(k1, shortname_key(r));
        lemma_with_distinct(k0, id_key(r));
        lemma_with_distinct(k1, shortname_key(r));
        lemma_with_distinct(k2, name_key(r));
        assert forall|k: KeyView| keys_of(cat).contains(k) <==> present(cat, k) by {
            if present(cat, k) {
                let i = choose|i: int| 0 <= i < cat.len() && has_key(#[trigger] cat[i], k);
                if i < cat.len() - 1 {
                    assert(has_key(prev[i], k));
                    assert(present(prev, k));
                    assert(k0.contains(k));
                }
            }
            if keys_of(cat).contains(k) {
                if k0.contains(k) {
                    assert(present(prev, k));
                    let i = choose|i: int| 0 <= i < prev.len() && has_key(#[trigger] prev[i], k);
                    assert(has_key(cat[i], k));
                } else {
                    assert(has_key(cat[cat.len() - 1], k));
                }
            }
        }
    }
}

/// A key has variants where a record has the key, and what they hold for an
/// engine priority is the position of the last record with that key and
/// priority.
pub proof fn lemma_variants_of(cat: Catalog, k: KeyView)
    requires
        cat.len() <= usize::MAX,
    ensures
        variants_of(cat, k).len() > 0 <==> present(cat, k),
        distinct(priorities(variants_of(cat, k))),
        forall|p: u8|
            engine_in(variants_of(cat, k), p) == match #[trigger] last_match(cat, k, p) {
                Some(i) => Some(i as usize),
                None => None,
            },
        forall|p: u8|
            #![trigger last_match(cat, k, p)]
            match last_match(cat, k, p) {
                Some(i) => 0 <= i < cat.len() && has_key(cat[i], k) && cat[i].priority == p
                    && forall|j: int|
                    i < j < cat.len() ==> !(has_key(#[trigger] cat[j], k) && cat[j].priority == p),
                None => forall|j: int|
                    0 <= j < cat.len() ==> !(has_key(#[trigger] cat[j], k) && cat[j].priority == p),
            },
    decreases cat.len(),
{
    if cat.len() > 0 {
        let prev = cat.drop_last();
        let r = cat.last();
        lemma_variants_of(prev, k);
        let before = variants_of(prev, k);
        if has_key(r, k) {
            lemma_put(before, r.priority, (cat.len() - 1) as usize);
            lemma_with_distinct(priorities(before), r.priority);
            assert(has_key(cat[cat.len() - 1], k));
        } else {
            if present(cat, k) {
                let i = choose|i: int| 0 <= i < cat.len() && has_key(#[trigger] cat[i], k);
                assert(has_key(prev[i], k));
            }
            if present(prev, k) {
                let i = choose|i: int| 0 <= i < prev.len() && has_key(#[trigger] prev[i], k);
                assert(has_key(cat[i], k));
            }
        }
        assert forall|p: u8|
            engine_in(variants_of(cat, k), p) == match #[trigger] last_match(cat, k, p) {
                Some(i) => Some(i as usize),
                None => None,
            } by {
            assert(engine_in(before, p) == match last_match(prev, k, p) {
                Some(i) => Some(i as usize),
                None => None,
            });
            if has_key(r, k) && r.priority != p {
                assert(engine_in(variants_of(cat, k), p) == engine_in(before, p));
            }
        }
        assert forall|p: u8|
            #![trigger last_match(cat, k, p)]
            match last_match(cat, k, p) {
                Some(i) => 0 <= i < cat.len() && has_key(cat[i], k) && cat[i].priority == p
                    && forall|j: int|
                    i < j < cat.len() ==> !(has_key(#[trigger] cat[j], k) && cat[j].priority == p),
                None => forall|j: int|
                    0 <= j < cat.len() ==> !(has_key(#[trigger] cat[j], k) && cat[j].priority == p),
            } by {
            if !(has_key(r, k) && r.priority == p) {
                match last_match(prev, k, p) {
                    Some(i) => {
                        assert(cat[i] == prev[i]);
                        assert forall|j: int| i < j < cat.len() implies !(has_key(
                            #[trigger] cat[j],
                            k,
                        ) && cat[j].priority == p) by {
                            if j < cat.len() - 1 {
                                assert(cat[j] == prev[j]);
                            }
                        }
                    },
                    None => {
                        assert forall|j: int| 0 <= j < cat.len() implies !(has_key(
                            #[trigger] cat[j],
                            k,
                        ) && cat[j].priority == p) by {
                            if j < cat.len() - 1 {
                                assert(cat[j] == prev[j]);
                            }
                        }
                    },
                }
            }
        }
    } else {
        assert(priorities(variants_of(cat, k)).len() == 0);
    }
}

/// Every position among the variants of a key is the position of a record.
pub proof fn lemma_positions(cat: Catalog, k: KeyView)
    requires
        cat.len() <= usize::MAX,
    ensures
        forall|m: int|
            0 <= m < variants_of(cat, k).len() ==> (#[trigger] variants_of(cat, k)[m]).1
                < cat.len(),
    decreases cat.len(),
{
    if cat.len() > 0 {
        let before = variants_of(cat.drop_last(), k);
        lemma_positions(cat.drop_last(), k);
        if has_key(cat.last(), k) {
            let p = cat.last().priority;
            if priorities(before).contains(p) {
                lemma_first_index_some(priorities(before), p);
            }
        }
    }
}

/// An index given as a list of keys and, by a function, the variants of each.
spec fn tabulated(ks: Seq<KeyView>, f: spec_fn(KeyView) -> Variants) -> IndexView {
    Seq::new(ks.len(), |j: int| (ks[j], f(ks[j])))
}

/// `f`, but with `position` entered for `p` in what it gives for `k`.
spec fn entered(f: spec_fn(KeyView) -> Variants, k: KeyView, p: u8, position: usize) -> spec_fn(
    KeyView,
) -> Variants {
    |x: KeyView|
        if x == k {
            put(f(k), p, position)
        } else {
            f(x)
        }
}

/// Whether `f` gives variants for the keys in `ks` only.
spec fn confined(ks: Seq<KeyView>, f: spec_fn(KeyView) -> Variants) -> bool {
    forall|x: KeyView| !ks.contains(x) ==> (#[trigger] f(x)) == Variants::empty()
}

/// Entering a position under a key changes the variants of that key and of no
/// other, and a key that is new comes last.
proof fn lemma_inserted_tabulated(
    ks: Seq<KeyView>,
    f: spec_fn(KeyView) -> Variants,
    k: KeyView,
    p: u8,
    position: usize,
)
    requires
        distinct(ks),
        confined(ks, f),
    ensures
        inserted(tabulated(ks, f), k, p, position) == tabulated(
            with(ks, k),
            entered(f, k, p, position),
        ),
        distinct(with(ks, k)),
        confined(with(ks, k), entered(f, k, p, position)),
{
    let ix = tabulated(ks, f);
    let g = entered(f, k, p, position);
    assert(keys(ix) == ks);
    lemma_with_distinct(ks, k);
    lemma_put(f(k), p, position);
    if ks.contains(k) {
        lemma_first_index_some(ks, k);
        let j = first_index(ks, k).unwrap();
        assert forall|i: int| 0 <= i < ks.len() implies #[trigger] inserted(ix, k, p, position)[i]
            == tabulated(ks, g)[i] by {
            if i != j {
                assert(ks[i] != ks[j]);
            }
        }
        assert(inserted(ix, k, p, position) == tabulated(ks, g));
    } else {
        assert(f(k) == Variants::empty());
        assert(priorities(f(k)).len() == 0);
        assert(put(f(k), p, position) == seq![(p, position)]);
        assert forall|i: int| 0 <= i < ks.len() + 1 implies #[trigger] inserted(
            ix,
            k,
            p,
            position,
        )[i] == tabulated(ks.push(k), g)[i] by {
            if i < ks.len() {
                assert(ks.contains(ks[i]));
            }
        }
        assert(inserted(ix, k, p, position) == tabulated(ks.push(k), g));
    }
}

/// The index of a catalog with one record more is the index of the catalog
/// after the record's position was entered under its three keys, in the order
/// identifier, short code, name.
pub proof fn lemma_index_of_push(cat: Catalog, r: AircraftView)
    requires
        cat.len() < usize::MAX,
    ensures
        index_of(cat.push(r)) == inserted(
            inserted(
                inserted(index_of(cat), id_key(r), r.priority, cat.len() as usize),
                shortname_key(r),
                r.priority,
                cat.len() as usize,
            ),
            name_key(r),
            r.priority,
            cat.len() as usize,
        ),
{
    let next = cat.push(r);
    let at = cat.len() as usize;
    let p = r.priority;
    assert(next.drop_last() == cat);
    assert(next.last() == r);
    let k0 = keys_of(cat);
    let f0 = |x: KeyView| variants_of(cat, x);
    assert(index_of(cat) == tabulated(k0, f0));
    lemma_keys_of(cat);
    assert(confined(k0, f0)) by {
        assert forall|x: KeyView| !k0.contains(x) implies (#[trigger] f0(x))
            == Variants::empty() by {
            lemma_variants_of(cat, x);
        }
    }
    lemma_inserted_tabulated(k0, f0, id_key(r), p, at);
    let k1 = with(k0, id_key(r));
    let f1 = entered(f0, id_key(r), p, at);
    lemma_inserted_tabulated(k1, f1, shortname_key(r), p, at);
    let k2 = with(k1, shortname_key(r));
    let f2 = entered(f1, shortname_key(r), p, at);
    lemma_inserted_tabulated(k2, f2, name_key(r), p, at);
    let k3 = with(k2, name_key(r));
    let f3 = entered(f2, name_key(r), p, at);
    assert(k3 == keys_of(next));
    assert forall|j: int| 0 <= j < k3.len() implies #[trigger] tabulated(k3, f3)[j] == index_of(
        next,
    )[j] by {
        let x = k3[j];
        assert(f3(x) == variants_of(next, x));
    }
    assert(tabulated(k3, f3) == index_of(next));
}

} // verus!
