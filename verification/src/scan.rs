//! First occurrences in sequences.

use vstd::prelude::*;

verus! {

/// Whether `i` is the place of the first `a` in `s`.
pub open spec fn first_at<A>(s: Seq<A>, a: A, i: int) -> bool {
    &&& 0 <= i < s.len()
    &&& s[i] == a
    &&& forall|j: int| 0 <= j < i ==> s[j] != a
}

/// The place of the first `a` in `s`, if `a` occurs in `s`.
pub open spec fn first_index<A>(s: Seq<A>, a: A) -> Option<int> {
    if s.contains(a) {
        Some(choose|i: int| first_at(s, a, i))
    } else {
        None
    }
}

/// Whether no value occurs twice in `s`.
pub open spec fn distinct<A>(s: Seq<A>) -> bool {
    forall|i: int, j: int| 0 <= i < j < s.len() ==> s[i] != s[j]
}

/// `s`, with `a` behind it unless `a` occurs in it.
pub open spec fn with<A>(s: Seq<A>, a: A) -> Seq<A> {
    if s.contains(a) {
        s
    } else {
        s.push(a)
    }
}

/// At most one place is the first.
pub proof fn lemma_first_index<A>(s: Seq<A>, a: A, i: int)
    requires
        first_at(s, a, i),
    ensures
        first_index(s, a) == Some(i),
{
    assert(s.contains(a));
    let k = choose|k: int| first_at(s, a, k);
    assert(first_at(s, a, k));
    assert(k == i) by {
        if k < i {
            assert(s[k] != a);
        } else if i < k {
            assert(s[i] != a);
        }
    }
}

/// Where a value occurs, it occurs for a first time.
pub proof fn lemma_first_index_some<A>(s: Seq<A>, a: A)
    requires
        s.contains(a),
    ensures
        first_index(s, a) is Some,
        first_at(s, a, first_index(s, a).unwrap()),
    decreases s.len(),
{
    let w = choose|i: int| 0 <= i < s.len() && s[i] == a;
    if s.drop_last().contains(a) {
        lemma_first_index_some(s.drop_last(), a);
        let k = first_index(s.drop_last(), a).unwrap();
        assert(first_at(s, a, k)) by {
            assert(s.drop_last()[k] == s[k]);
            assert forall|j: int| 0 <= j < k implies s[j] != a by {
                assert(s.drop_last()[j] == s[j]);
            }
        }
    } else {
        assert(first_at(s, a, s.len() - 1)) by {
            assert(w == s.len() - 1) by {
                if w < s.len() - 1 {
                    assert(s.drop_last()[w] == a);
                }
            }
            assert forall|j: int| 0 <= j < s.len() - 1 implies s[j] != a by {
                assert(s.drop_last()[j] == s[j]);
            }
        }
    }
}

/// In a sequence without repeats, a value's place is its first place.
pub proof fn lemma_first_index_distinct<A>(s: Seq<A>, i: int)
    requires
        distinct(s),
        0 <= i < s.len(),
    ensures
        first_index(s, s[i]) == Some(i),
{
    lemma_first_index(s, s[i], i);
}

/// Adding a value that is new keeps a sequence free of repeats.
pub proof fn lemma_with_distinct<A>(s: Seq<A>, a: A)
    requires
        distinct(s),
    ensures
        distinct(with(s, a)),
        with(s, a).contains(a),
        forall|b: A| s.contains(b) ==> with(s, a).contains(b),
        forall|b: A| with(s, a).contains(b) ==> s.contains(b) || b == a,
{
    let t = with(s, a);
    if !s.contains(a) {
        assert(t[s.len() as int] == a);
        assert forall|b: A| s.contains(b) implies t.contains(b) by {
            let i = choose|i: int| 0 <= i < s.len() && s[i] == b;
            assert(t[i] == b);
        }
    }
}

} // verus!
