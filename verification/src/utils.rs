//! Ranked suggestions: the best few of a run of candidates.
//!
//! A similarity is held as the bit pattern of an `f64` that is zero or more.
//! Among such numbers the greater has the greater bit pattern, so comparing
//! the patterns as integers compares the similarities.

use vstd::prelude::*;

verus! {

/// How many suggestions a ranking keeps.
pub const MAX_SUGGESTIONS: usize = 5;

/// A candidate and how similar it is to what was asked for.
#[derive(Debug, PartialEq, Eq)]
pub struct Suggestion<T> {
    pub item: T,
    /// The bit pattern of the similarity, an `f64` from 0 to 1.
    pub similarity: u64,
}

// ---------------------------------------------------------------------------
// Similarity
// ---------------------------------------------------------------------------

/// The bit pattern of the Jaro-Winkler similarity of two texts, as
/// `jaro_winkler::jaro_winkler` computes it from their UTF-8 bytes.
pub uninterp spec fn jaro_winkler_bits(left: Seq<char>, right: Seq<char>) -> u64;

/// Calls `jaro_winkler::jaro_winkler` and hands back the bit pattern of the
/// `f64` it returns. The function reads nothing but its two arguments, so the
/// contract names its result; it claims nothing of the value.
#[verifier::external_body]
pub(crate) fn similarity(left: &str, right: &str) -> (bits: u64)
    ensures
        bits == jaro_winkler_bits(left@, right@),
{
    jaro_winkler::jaro_winkler(left, right).to_bits()
}

// ---------------------------------------------------------------------------
// Ranking
// ---------------------------------------------------------------------------

/// Whether no suggestion of `best` is more similar than one before it.
pub open spec fn descending<T>(best: Seq<Suggestion<T>>) -> bool {
    forall|i: int, j: int| 0 <= i < j < best.len() ==> best[i].similarity >= best[j].similarity
}

/// The place that a suggestion of the given similarity takes in `best`:
/// behind the leading suggestions that are at least as similar.
pub open spec fn place_of<T>(best: Seq<Suggestion<T>>, similarity: u64) -> int
    decreases best.len(),
{
    if best.len() == 0 || best[0].similarity < similarity {
        0
    } else {
        1 + place_of(best.drop_first(), similarity)
    }
}

/// `best` after `s` has taken its place, cut to the first `cap` suggestions.
pub open spec fn queued<T>(best: Seq<Suggestion<T>>, s: Suggestion<T>, cap: nat) -> Seq<
    Suggestion<T>,
> {
    let longer = best.insert(place_of(best, s.similarity), s);
    if longer.len() > cap {
        longer.take(cap as int)
    } else {
        longer
    }
}

/// The ranking of `candidates`: they are queued one after another, so it holds
/// the `cap` most similar of them, the most similar first, and of two that are
/// equally similar the one that came earlier stands first and is kept longer.
pub open spec fn ranked<T>(candidates: Seq<Suggestion<T>>, cap: nat) -> Seq<Suggestion<T>>
    decreases candidates.len(),
{
    if candidates.len() == 0 {
        Seq::empty()
    } else {
        queued(ranked(candidates.drop_last(), cap), candidates.last(), cap)
    }
}

/// The place of a suggestion lies within the ranking, behind suggestions that
/// are at least as similar and, unless it is the end, before one that is less
/// similar.
pub proof fn lemma_place_of<T>(best: Seq<Suggestion<T>>, similarity: u64)
    ensures
        0 <= place_of(best, similarity) <= best.len(),
        forall|t: int| 0 <= t < place_of(best, similarity) ==> best[t].similarity >= similarity,
        place_of(best, similarity) < best.len() ==> best[place_of(best, similarity)].similarity
            < similarity,
    decreases best.len(),
{
    if !(best.len() == 0 || best[0].similarity < similarity) {
        let rest = best.drop_first();
        lemma_place_of(rest, similarity);
        assert forall|t: int| 0 <= t < place_of(best, similarity) implies best[t].similarity
            >= similarity by {
            if t > 0 {
                assert(best[t] == rest[t - 1]);
            }
        }
    }
}

/// Queuing a suggestion keeps a ranking in descending order and within its
/// bound, brings in nothing but that suggestion, and drops nothing but what
/// is no more similar than all that stays.
pub proof fn lemma_queued<T>(best: Seq<Suggestion<T>>, s: Suggestion<T>, cap: nat)
    requires
        descending(best),
        best.len() <= cap,
        cap > 0,
    ensures
        descending(queued(best, s, cap)),
        queued(best, s, cap).len() == (if best.len() < cap {
            best.len() + 1
        } else {
            cap
        }),
        forall|e: Suggestion<T>| #[trigger]
            queued(best, s, cap).contains(e) ==> best.contains(e) || e == s,
        forall|e: Suggestion<T>|
            best.contains(e) || e == s ==> #[trigger] queued(best, s, cap).contains(e) || (queued(
                best,
                s,
                cap,
            ).len() == cap && e.similarity <= queued(best, s, cap).last().similarity),
        best.len() == cap ==> queued(best, s, cap).last().similarity >= best.last().similarity,
{
    let m = place_of(best, s.similarity);
    lemma_place_of(best, s.similarity);
    let longer = best.insert(m, s);
    let after = queued(best, s, cap);
    assert(descending(longer)) by {
        assert forall|i: int, j: int| 0 <= i < j < longer.len() implies longer[i].similarity
            >= longer[j].similarity by {
            if j < m {
                assert(longer[i] == best[i] && longer[j] == best[j]);
            } else if j == m {
                assert(longer[i] == best[i]);
            } else if i < m {
                assert(longer[i] == best[i] && longer[j] == best[j - 1]);
                assert(best[m].similarity >= best[j - 1].similarity || m == j - 1);
            } else if i == m {
                assert(longer[j] == best[j - 1]);
                assert(best[m].similarity >= best[j - 1].similarity || m == j - 1);
            } else {
                assert(longer[i] == best[i - 1] && longer[j] == best[j - 1]);
            }
        }
    }
    assert forall|e: Suggestion<T>| #[trigger] after.contains(e) implies best.contains(e) || e
        == s by {
        let i = choose|i: int| 0 <= i < after.len() && after[i] == e;
        assert(after[i] == longer[i]);
        if i < m {
            assert(longer[i] == best[i]);
        } else if i > m {
            assert(longer[i] == best[i - 1]);
        }
    }
    assert forall|e: Suggestion<T>| best.contains(e) || e == s implies #[trigger] after.contains(e)
        || (after.len() == cap && e.similarity <= after.last().similarity) by {
        let i = if e == s {
            m
        } else {
            let t = choose|t: int| 0 <= t < best.len() && best[t] == e;
            if t < m {
                t
            } else {
                t + 1
            }
        };
        assert(longer[i] == e);
        if i < after.len() {
            assert(after[i] == e);
        } else {
            assert(after.last() == longer[cap - 1]);
            assert(longer[cap - 1].similarity >= longer[i].similarity);
        }
    }
    if best.len() == cap {
        assert(after.last() == longer[cap - 1]);
        assert(longer[cap as int] == best.last() || m == cap);
        assert(longer[cap - 1].similarity >= best.last().similarity) by {
            if m == cap {
                assert(longer[cap - 1] == best[cap - 1]);
            } else {
                assert(longer[cap - 1].similarity >= longer[cap as int].similarity);
            }
        }
    }
}

/// A ranking holds as many of the candidates as its bound lets it, the most
/// similar first; every one it holds is a candidate, and every candidate it
/// does not hold is no more similar than all that it holds.
pub proof fn lemma_ranked<T>(candidates: Seq<Suggestion<T>>, cap: nat)
    requires
        cap > 0,
    ensures
        descending(ranked(candidates, cap)),
        ranked(candidates, cap).len() == (if candidates.len() < cap {
            candidates.len()
        } else {
            cap
        }),
        forall|e: Suggestion<T>| #[trigger]
            ranked(candidates, cap).contains(e) ==> candidates.contains(e),
        forall|e: Suggestion<T>|
            candidates.contains(e) ==> #[trigger] ranked(candidates, cap).contains(e) || (ranked(
                candidates,
                cap,
            ).len() == cap && e.similarity <= ranked(candidates, cap).last().similarity),
    decreases candidates.len(),
{
    if candidates.len() > 0 {
        let earlier = candidates.drop_last();
        let s = candidates.last();
        let best = ranked(earlier, cap);
        let after = ranked(candidates, cap);
        lemma_ranked(earlier, cap);
        lemma_queued(best, s, cap);
        assert forall|e: Suggestion<T>| #[trigger] after.contains(e) implies candidates.contains(
            e,
        ) by {
            if e == s {
                assert(candidates[candidates.len() - 1] == e);
            } else {
                assert(best.contains(e));
                let i = choose|i: int| 0 <= i < earlier.len() && earlier[i] == e;
                assert(candidates[i] == e);
            }
        }
        assert forall|e: Suggestion<T>| candidates.contains(e) implies #[trigger] after.contains(e)
            || (after.len() == cap && e.similarity <= after.last().similarity) by {
            let i = choose|i: int| 0 <= i < candidates.len() && candidates[i] == e;
            if i < candidates.len() - 1 {
                assert(earlier[i] == e);
                assert(earlier.contains(e));
                if !best.contains(e) {
                    assert(best.len() == cap && e.similarity <= best.last().similarity);
                }
            }
        }
    }
}

/// Queues a suggestion: it takes its place behind the suggestions that are at
/// least as similar, and what then stands beyond the first
/// `MAX_SUGGESTIONS` is dropped.
pub fn queue_suggestions<T>(best: &mut Vec<Suggestion<T>>, item: T, similarity: u64)
    ensures
        final(best)@ == queued(old(best)@, Suggestion { item, similarity }, MAX_SUGGESTIONS as nat),
{
    let mut m: usize = 0;
    assert(best@.skip(0) == best@);
    while m < best.len() && best[m].similarity >= similarity
        invariant
            m <= best.len(),
            *best == *old(best),
            place_of(best@, similarity) == m + place_of(best@.skip(m as int), similarity),
        decreases best.len() - m,
    {
        assert(best@.skip(m as int).drop_first() == best@.skip(m + 1));
        m += 1;
    }
    assert(place_of(best@, similarity) == m);
    if m < MAX_SUGGESTIONS {
        best.insert(m, Suggestion { item, similarity });
        best.truncate(MAX_SUGGESTIONS);
    } else {
        proof {
            let s = Suggestion { item, similarity };
            assert(best@.insert(m as int, s).take(MAX_SUGGESTIONS as int) == best@.subrange(
                0,
                MAX_SUGGESTIONS as int,
            ));
        }
        best.truncate(MAX_SUGGESTIONS);
    }
}

} // verus!
