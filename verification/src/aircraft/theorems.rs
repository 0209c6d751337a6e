//! What holds of every catalog and every query.

use crate::aircraft::catalog::{
    has_key, id_key, keys_of, last_match, lemma_keys_of, lemma_positions, lemma_variants_of,
    present, shortname_key, variants_of, Catalog,
};
use crate::aircraft::custom::{modification, CustomAircraftView, Modification};
use crate::aircraft::index::{engine_in, Variants};
use crate::aircraft::search::{
    candidates_among, found, found_engines, intent, key_text, parsed, resolved, suggested,
    with_intent, AircraftSearchError, KeyView, QueryKeyView, QueryView,
};
use crate::aircraft::{AircraftError, EnginePriority};
use crate::scan::{first_at, first_index, lemma_first_index};
use crate::text::{
    decimal, digit, digits, lemma_number_of_decimal, lemma_trimmed_unchanged,
    lemma_uppercase_ascii, lemma_uppercase_concat, lemma_uppercase_plain, number, plain_upper,
    trimmed, uppercase, whitespace,
};
use crate::utils::{descending, jaro_winkler_bits, lemma_ranked, Suggestion, MAX_SUGGESTIONS};
use vstd::prelude::*;

verus! {

// ---------------------------------------------------------------------------
// Query texts
// ---------------------------------------------------------------------------

/// The query that asks for an identifier: `ID:` and the number.
pub open spec fn id_query(id: u16) -> Seq<char> {
    "ID:"@ + decimal(id as nat)
}

/// The query that asks for a short code with an engine: `SHORTNAME:`, the
/// code, and the engine priority in brackets.
pub open spec fn shortname_query(code: Seq<char>, engine: u8) -> Seq<char> {
    "SHORTNAME:"@ + code + "["@ + decimal(engine as nat) + "]"@
}

/// The query that asks for a name: `NAME:` and the name.
pub open spec fn name_query(name: Seq<char>) -> Seq<char> {
    "NAME:"@ + name
}

/// A number in decimal is digits throughout: no white space, no colon, no
/// bracket, no sign, and nothing that uppercasing changes.
proof fn lemma_decimal_chars(n: nat)
    ensures
        decimal(n).len() > 0,
        digits(decimal(n)),
        plain_upper(decimal(n)),
        trimmed(decimal(n)) == decimal(n),
        !decimal(n).contains('['),
        !decimal(n).contains(']'),
        !decimal(n).contains(':'),
{
    let d = decimal(n);
    lemma_number_of_decimal(n, 0);
    assert forall|i: int| 0 <= i < d.len() implies (#[trigger] d[i]) <= '\u{7f}' && !('a' <= d[i]
        <= 'z') by {
        assert(digit(d[i]));
    }
    assert(digit(d[0]) && digit(d.last()));
    lemma_trimmed_unchanged(d);
    assert forall|c: char| c == '[' || c == ']' || c == ':' implies !d.contains(c) by {
        if d.contains(c) {
            let i = choose|i: int| 0 <= i < d.len() && d[i] == c;
            assert(digit(d[i]));
        }
    }
}

/// The query for an identifier is parsed as one.
pub proof fn lemma_id_query(id: u16)
    ensures
        parsed(id_query(id)) == Ok::<QueryView, AircraftSearchError>(
            QueryView { key: QueryKeyView::Id(id), modifiers: Modification { engine: EnginePriority(0) } },
        ),
{
    reveal_strlit("ID:");
    reveal_strlit("ID");
    reveal_strlit("NAME");
    reveal_strlit("SHORTNAME");
    let d = decimal(id as nat);
    let s = id_query(id);
    lemma_decimal_chars(id as nat);
    lemma_number_of_decimal(id as nat, u16::MAX as nat);
    assert(s.len() == 3 + d.len());
    assert(s[0] == 'I' && s[1] == 'D' && s[2] == ':');
    assert forall|i: int| 3 <= i < s.len() implies digit(#[trigger] s[i]) by {
        assert(s[i] == d[i - 3]);
    }
    assert(digit(s.last()));
    lemma_trimmed_unchanged(s);
    assert(!s.contains('[')) by {
        if s.contains('[') {
            let i = choose|i: int| 0 <= i < s.len() && s[i] == '[';
            assert(i >= 3);
            assert(digit(s[i]));
        }
    }
    assert(plain_upper(s)) by {
        assert forall|i: int| 0 <= i < s.len() implies (#[trigger] s[i]) <= '\u{7f}' && !('a'
            <= s[i] <= 'z') by {
            if i >= 3 {
                assert(digit(s[i]));
            }
        }
    }
    lemma_uppercase_plain(s);
    lemma_first_index(s, ':', 2);
    assert(s.take(2) == "ID"@);
    assert(s.skip(3) == d);
    assert(s.take(2) != "SHORTNAME"@);
    assert(s.take(2) != "NAME"@);
}

/// The query for a short code with an engine is parsed as one, if the code
/// holds no `[`.
pub proof fn lemma_shortname_query(code: Seq<char>, engine: u8)
    requires
        !code.contains('['),
    ensures
        parsed(shortname_query(code, engine)) == Ok::<QueryView, AircraftSearchError>(
            QueryView {
                key: QueryKeyView::ShortName(uppercase(code)),
                modifiers: Modification { engine: EnginePriority(engine) },
            },
        ),
{
    reveal_strlit("SHORTNAME:");
    reveal_strlit("SHORTNAME");
    reveal_strlit("[");
    reveal_strlit("]");
    let scope = "SHORTNAME:"@;
    let d = decimal(engine as nat);
    let s = shortname_query(code, engine);
    let n = code.len() as int;
    lemma_decimal_chars(engine as nat);
    lemma_number_of_decimal(engine as nat, u8::MAX as nat);
    assert(s.len() == 10 + n + 1 + d.len() + 1);
    assert(s[0] == 'S');
    assert(s.last() == ']');
    lemma_trimmed_unchanged(s);
    // The brackets.
    assert(first_at(s, '[', 10 + n)) by {
        assert forall|j: int| 0 <= j < 10 + n implies s[j] != '[' by {
            if j >= 10 {
                assert(s[j] == code[j - 10]);
                assert(code.contains(code[j - 10]));
            } else {
                assert(s[j] == scope[j]);
            }
        }
    }
    lemma_first_index(s, '[', 10 + n);
    let rest = s.skip(10 + n + 1);
    assert(rest == d + "]"@);
    assert(first_at(rest, ']', d.len() as int)) by {
        assert forall|j: int| 0 <= j < d.len() implies rest[j] != ']' by {
            assert(rest[j] == d[j]);
            assert(digit(d[j]));
        }
    }
    lemma_first_index(rest, ']', d.len() as int);
    assert(rest.take(d.len() as int) == d);
    assert(modification(d) == Ok::<Modification, AircraftError>(
        Modification { engine: EnginePriority(engine) },
    ));
    // The body.
    let body = s.take(10 + n);
    assert(body == scope + code);
    lemma_uppercase_concat(scope, code);
    lemma_uppercase_plain(scope);
    let u = uppercase(body);
    assert(u == scope + uppercase(code));
    assert(first_at(u, ':', 9)) by {
        assert forall|j: int| 0 <= j < 9 implies u[j] != ':' by {
            assert(u[j] == scope[j]);
        }
    }
    lemma_first_index(u, ':', 9);
    assert(u.take(9) == "SHORTNAME"@);
    assert(u.skip(10) == uppercase(code));
}

/// Uppercasing ASCII text a second time changes nothing.
pub proof fn uppercase_of_ascii_is_stable(s: Seq<char>)
    requires
        forall|i: int| 0 <= i < s.len() ==> (#[trigger] s[i]) <= '\u{7f}',
    ensures
        uppercase(uppercase(s)) == uppercase(s),
{
    lemma_uppercase_ascii(s);
    lemma_uppercase_plain(uppercase(s));
}

// ---------------------------------------------------------------------------
// Lookups by identifier
// ---------------------------------------------------------------------------

/// A search for the identifier of any record of the catalog finds variants:
/// it never reports that the aircraft is missing. What it finds holds, for
/// the record's engine priority, the position of the last record with that
/// identifier and priority.
pub proof fn id_query_is_found(cat: Catalog, i: int)
    requires
        0 <= i < cat.len() <= usize::MAX,
    ensures
        found_engines(cat, id_query(cat[i].id)) == Ok::<Variants, AircraftSearchError>(
            variants_of(cat, id_key(cat[i])),
        ),
        match engine_in(variants_of(cat, id_key(cat[i])), cat[i].priority) {
            Some(j) => {
                &&& i <= j < cat.len()
                &&& cat[j as int].id == cat[i].id
                &&& cat[j as int].priority == cat[i].priority
                &&& forall|l: int|
                    j < l < cat.len() ==> !(cat[l].id == cat[i].id && cat[l].priority
                        == cat[i].priority)
            },
            None => false,
        },
{
    let k = id_key(cat[i]);
    lemma_id_query(cat[i].id);
    assert(has_key(cat[i], k));
    lemma_variants_of(cat, k);
    match last_match(cat, k, cat[i].priority) {
        Some(j) => {
            assert forall|l: int| j < l < cat.len() implies !(cat[l].id == cat[i].id
                && cat[l].priority == cat[i].priority) by {
                assert(has_key(cat[l], k) == (cat[l].id == cat[i].id));
            }
        },
        None => {},
    }
}

/// A search for the identifier of a record finds variants that hold the
/// record's position for the record's engine priority, unless a later record
/// has the same identifier and the same engine priority.
pub proof fn id_query_leads_to_record(cat: Catalog, i: int)
    requires
        0 <= i < cat.len() <= usize::MAX,
        forall|j: int|
            i < j < cat.len() ==> !((#[trigger] cat[j]).id == cat[i].id && cat[j].priority
                == cat[i].priority),
    ensures
        found_engines(cat, id_query(cat[i].id)) == Ok::<Variants, AircraftSearchError>(
            variants_of(cat, id_key(cat[i])),
        ),
        engine_in(variants_of(cat, id_key(cat[i])), cat[i].priority) == Some(i as usize),
{
    id_query_is_found(cat, i);
}

/// A text that is a number from 0 to 65535 is looked up as an identifier and
/// as nothing else: where no record has that identifier the aircraft is
/// missing, whatever the short codes and names of the records are.
pub proof fn number_is_looked_up_as_identifier(cat: Catalog, id: u16)
    ensures
        found_engines(cat, decimal(id as nat)) == (if present(cat, KeyView::Id(id)) {
            Ok::<Variants, AircraftSearchError>(variants_of(cat, KeyView::Id(id)))
        } else {
            Err::<Variants, AircraftSearchError>(AircraftSearchError::AircraftNotFound)
        }),
{
    let d = decimal(id as nat);
    lemma_decimal_chars(id as nat);
    lemma_number_of_decimal(id as nat, u16::MAX as nat);
    lemma_uppercase_plain(d);
}

/// A text of unknown kind that is a number from 0 to 65535 has the key of
/// that identifier, however long or short it is.
pub proof fn numeric_text_is_identifier(s: Seq<char>)
    requires
        number(s, u16::MAX as nat) is Some,
    ensures
        resolved(QueryKeyView::All(s)) == Some(
            KeyView::Id(number(s, u16::MAX as nat).unwrap() as u16),
        ),
{
}

// ---------------------------------------------------------------------------
// Lookups by short code and engine
// ---------------------------------------------------------------------------

/// A search for the short code of a record with an engine priority gives the
/// last record that has that short code, in uppercase, and that engine
/// priority, and reports that the engine is missing where no record has both.
/// This holds of short codes without a `[` whose uppercase form is its own
/// uppercase form, as that of ASCII text is.
pub proof fn shortname_query_finds_engine(cat: Catalog, i: int, engine: u8)
    requires
        0 <= i < cat.len() <= usize::MAX,
        !cat[i].shortname.contains('['),
        uppercase(uppercase(cat[i].shortname)) == uppercase(cat[i].shortname),
    ensures
        found(cat, shortname_query(cat[i].shortname, engine)) == match last_match(
            cat,
            shortname_key(cat[i]),
            engine,
        ) {
            Some(j) => Ok::<CustomAircraftView, AircraftSearchError>(
                CustomAircraftView {
                    aircraft: cat[j],
                    modifiers: Modification { engine: EnginePriority(engine) },
                },
            ),
            None => Err::<CustomAircraftView, AircraftSearchError>(
                AircraftSearchError::EngineNotFound,
            ),
        },
{
    lemma_shortname_query(cat[i].shortname, engine);
    assert(has_key(cat[i], shortname_key(cat[i])));
}

/// A search for the short code of a record with the record's own engine
/// priority gives that record, unless a later record has the same short code
/// in uppercase and the same engine priority.
pub proof fn shortname_query_finds_record(cat: Catalog, i: int)
    requires
        0 <= i < cat.len() <= usize::MAX,
        !cat[i].shortname.contains('['),
        uppercase(uppercase(cat[i].shortname)) == uppercase(cat[i].shortname),
        forall|j: int|
            i < j < cat.len() ==> !(has_key(#[trigger] cat[j], shortname_key(cat[i]))
                && cat[j].priority == cat[i].priority),
    ensures
        found(cat, shortname_query(cat[i].shortname, cat[i].priority)) == Ok::<
            CustomAircraftView,
            AircraftSearchError,
        >(
            CustomAircraftView {
                aircraft: cat[i],
                modifiers: Modification { engine: EnginePriority(cat[i].priority) },
            },
        ),
{
    shortname_query_finds_engine(cat, i, cat[i].priority);
    lemma_variants_of(cat, shortname_key(cat[i]));
    assert(has_key(cat[i], shortname_key(cat[i])));
}

/// Of two records with the same short code and the same engine priority, a
/// search for that code and engine never gives the earlier: the last record
/// with both is the one that is found.
pub proof fn later_record_replaces_earlier(cat: Catalog, i: int, j: int)
    requires
        0 <= i < j < cat.len() <= usize::MAX,
        cat[i].shortname == cat[j].shortname,
        cat[i].priority == cat[j].priority,
    ensures
        match last_match(cat, shortname_key(cat[i]), cat[i].priority) {
            Some(l) => j <= l < cat.len(),
            None => false,
        },
        engine_in(variants_of(cat, shortname_key(cat[i])), cat[i].priority) != Some(i as usize),
        !cat[i].shortname.contains('[') && uppercase(uppercase(cat[i].shortname)) == uppercase(
            cat[i].shortname,
        ) ==> match found(cat, shortname_query(cat[i].shortname, cat[i].priority)) {
            Ok(custom) => exists|l: int| j <= l < cat.len() && custom.aircraft == cat[l],
            Err(_) => false,
        },
{
    let k = shortname_key(cat[i]);
    lemma_variants_of(cat, k);
    assert(has_key(cat[j], k));
    if !cat[i].shortname.contains('[') && uppercase(uppercase(cat[i].shortname)) == uppercase(
        cat[i].shortname,
    ) {
        shortname_query_finds_engine(cat, i, cat[i].priority);
    }
}

// ---------------------------------------------------------------------------
// Letter case
// ---------------------------------------------------------------------------

/// In a scoped query letter case does not count: two bodies with the same
/// uppercase form, a colon in it, mean the same.
pub proof fn scoped_query_ignores_case(a: Seq<char>, b: Seq<char>, modifiers: Modification)
    requires
        uppercase(a) == uppercase(b),
        uppercase(a).contains(':'),
    ensures
        intent(a) == intent(b),
        with_intent(a, modifiers) == with_intent(b, modifiers),
{
}

/// Two queries for names that differ in letter case only are looked up by the
/// same key.
pub proof fn name_query_ignores_case(a: Seq<char>, b: Seq<char>)
    requires
        uppercase(a) == uppercase(b),
    ensures
        intent(name_query(a)) == Ok::<QueryKeyView, AircraftSearchError>(
            QueryKeyView::Name(uppercase(a)),
        ),
        intent(name_query(a)) == intent(name_query(b)),
{
    reveal_strlit("NAME:");
    reveal_strlit("NAME");
    reveal_strlit("SHORTNAME");
    let scope = "NAME:"@;
    lemma_uppercase_plain(scope);
    lemma_uppercase_concat(scope, a);
    lemma_uppercase_concat(scope, b);
    let u = uppercase(name_query(a));
    assert(u == scope + uppercase(a));
    lemma_first_index(u, ':', 4);
    assert(u.take(4) == "NAME"@);
    assert(u.take(4) != "SHORTNAME"@);
    assert(u.skip(5) == uppercase(a));
}

/// Searches for two names that differ in letter case only give the same:
/// the same record, the same variants, the same suggestions. This holds of
/// names without a `[` that do not end in white space.
pub proof fn name_search_ignores_case(cat: Catalog, a: Seq<char>, b: Seq<char>)
    requires
        uppercase(a) == uppercase(b),
        !a.contains('['),
        !b.contains('['),
        a.len() == 0 || !whitespace(a.last()),
        b.len() == 0 || !whitespace(b.last()),
    ensures
        parsed(name_query(a)) == parsed(name_query(b)),
        found(cat, name_query(a)) == found(cat, name_query(b)),
        found_engines(cat, name_query(a)) == found_engines(cat, name_query(b)),
        suggested(cat, name_query(a)) == suggested(cat, name_query(b)),
{
    name_query_ignores_case(a, b);
    lemma_name_query_is_its_body(a);
    lemma_name_query_is_its_body(b);
}

/// The query for a name without a `[` that does not end in white space is
/// its own body: trimming changes nothing, and there are no brackets.
proof fn lemma_name_query_is_its_body(a: Seq<char>)
    requires
        !a.contains('['),
        a.len() == 0 || !whitespace(a.last()),
    ensures
        trimmed(name_query(a)) == name_query(a),
        first_index(name_query(a), '[') is None,
{
    reveal_strlit("NAME:");
    let q = name_query(a);
    assert(q[0] == 'N');
    assert(q.last() == (if a.len() == 0 {
        ':'
    } else {
        a.last()
    }));
    lemma_trimmed_unchanged(q);
    assert(!q.contains('[')) by {
        if q.contains('[') {
            let i = choose|i: int| 0 <= i < q.len() && q[i] == '[';
            if i >= 5 {
                assert(q[i] == a[i - 5]);
                assert(a.contains(a[i - 5]));
            }
        }
    }
}

// ---------------------------------------------------------------------------
// Brackets
// ---------------------------------------------------------------------------

/// A query with a `[` and no `]` behind it fails for want of the closing
/// bracket, whatever else it holds and whatever is asked of it.
pub proof fn open_bracket_fails(cat: Catalog, s: Seq<char>)
    requires
        trimmed(s).contains('['),
        !trimmed(s).skip(first_index(trimmed(s), '[').unwrap() + 1).contains(']'),
    ensures
        found(cat, s) == Err::<CustomAircraftView, AircraftSearchError>(
            AircraftSearchError::MissingClosingBracket,
        ),
        found_engines(cat, s) == Err::<Variants, AircraftSearchError>(
            AircraftSearchError::MissingClosingBracket,
        ),
        suggested(cat, s) == Err::<Seq<Suggestion<usize>>, AircraftSearchError>(
            AircraftSearchError::MissingClosingBracket,
        ),
{
}

// ---------------------------------------------------------------------------
// Suggestions
// ---------------------------------------------------------------------------

/// Whether `s` is the candidate of a short code or a name among `ks`.
pub open spec fn from_text_key(
    cat: Catalog,
    ks: Seq<KeyView>,
    text: Seq<char>,
    s: Suggestion<usize>,
) -> bool {
    exists|k: KeyView|
        {
            &&& #[trigger] ks.contains(k)
            &&& !(k is Id)
            &&& variants_of(cat, k).len() > 0
            &&& s.item == variants_of(cat, k)[0].1
            &&& s.similarity == jaro_winkler_bits(key_text(k), text)
        }
}

/// Every candidate is the candidate of a short code or a name, none that of
/// an identifier.
proof fn lemma_candidates(cat: Catalog, ks: Seq<KeyView>, text: Seq<char>)
    ensures
        forall|s: Suggestion<usize>| #[trigger]
            candidates_among(cat, ks, text).contains(s) ==> from_text_key(cat, ks, text, s),
    decreases ks.len(),
{
    if ks.len() > 0 {
        let earlier = ks.drop_last();
        let k = ks.last();
        lemma_candidates(cat, earlier, text);
        let before = candidates_among(cat, earlier, text);
        let all = candidates_among(cat, ks, text);
        assert forall|s: Suggestion<usize>| #[trigger] all.contains(s) implies from_text_key(
            cat,
            ks,
            text,
            s,
        ) by {
            let t = choose|t: int| 0 <= t < all.len() && all[t] == s;
            if t < before.len() {
                assert(before[t] == s);
                assert(before.contains(s));
                let w = choose|w: KeyView|
                    {
                        &&& #[trigger] earlier.contains(w)
                        &&& !(w is Id)
                        &&& variants_of(cat, w).len() > 0
                        &&& s.item == variants_of(cat, w)[0].1
                        &&& s.similarity == jaro_winkler_bits(key_text(w), text)
                    };
                let x = choose|x: int| 0 <= x < earlier.len() && earlier[x] == w;
                assert(ks[x] == w);
                assert(ks.contains(w));
            } else {
                assert(ks[ks.len() - 1] == k);
                assert(ks.contains(k));
            }
        }
    }
}

/// Suggestions are never more than `MAX_SUGGESTIONS`, none is more similar
/// than one before it, each names a record of the catalog, and each stands
/// for a short code or a name of the catalog, never for an identifier.
pub proof fn suggestions_are_ranked(cat: Catalog, s: Seq<char>)
    requires
        cat.len() <= usize::MAX,
    ensures
        match suggested(cat, s) {
            Ok(list) => {
                &&& list.len() <= MAX_SUGGESTIONS
                &&& descending(list)
                &&& forall|t: int|
                    0 <= t < list.len() ==> {
                        &&& (#[trigger] list[t]).item < cat.len()
                        &&& from_text_key(
                            cat,
                            keys_of(cat),
                            key_text(resolved(parsed(s).unwrap().key).unwrap()),
                            list[t],
                        )
                    }
            },
            Err(_) => true,
        },
{
    match suggested(cat, s) {
        Ok(list) => {
            let text = key_text(resolved(parsed(s).unwrap().key).unwrap());
            let all = candidates_among(cat, keys_of(cat), text);
            lemma_ranked(all, MAX_SUGGESTIONS as nat);
            lemma_candidates(cat, keys_of(cat), text);
            assert forall|t: int| 0 <= t < list.len() implies {
                &&& (#[trigger] list[t]).item < cat.len()
                &&& from_text_key(cat, keys_of(cat), text, list[t])
            } by {
                assert(list.contains(list[t]));
                assert(all.contains(list[t]));
                let k = choose|k: KeyView|
                    {
                        &&& #[trigger] keys_of(cat).contains(k)
                        &&& !(k is Id)
                        &&& variants_of(cat, k).len() > 0
                        &&& list[t].item == variants_of(cat, k)[0].1
                        &&& list[t].similarity == jaro_winkler_bits(key_text(k), text)
                    };
                lemma_positions(cat, k);
            }
        },
        Err(_) => {},
    }
}

/// The candidate that the key `k` gives for `text`.
pub open spec fn candidate_of(cat: Catalog, k: KeyView, text: Seq<char>) -> Suggestion<usize> {
    Suggestion { item: variants_of(cat, k)[0].1, similarity: jaro_winkler_bits(key_text(k), text) }
}

/// Every short code and every name among the keys gives a candidate.
proof fn lemma_candidates_complete(cat: Catalog, ks: Seq<KeyView>, text: Seq<char>, k: KeyView)
    requires
        ks.contains(k),
        !(k is Id),
        variants_of(cat, k).len() > 0,
    ensures
        candidates_among(cat, ks, text).contains(candidate_of(cat, k, text)),
    decreases ks.len(),
{
    let all = candidates_among(cat, ks, text);
    let earlier = ks.drop_last();
    let before = candidates_among(cat, earlier, text);
    if ks.last() == k {
        assert(all == before.push(candidate_of(cat, k, text)));
        assert(all[all.len() - 1] == candidate_of(cat, k, text));
    } else {
        let i = choose|i: int| 0 <= i < ks.len() && ks[i] == k;
        assert(earlier[i] == k);
        lemma_candidates_complete(cat, earlier, text, k);
        let t = choose|t: int| 0 <= t < before.len() && before[t] == candidate_of(cat, k, text);
        assert(all[t] == before[t]);
    }
}

/// Suggestions are the best of all: a short code or a name of the catalog
/// whose candidate is not among the suggestions is no more similar to the
/// query than the least similar suggestion, and the list is then full.
pub proof fn suggestions_are_the_best(cat: Catalog, s: Seq<char>, k: KeyView)
    requires
        cat.len() <= usize::MAX,
        present(cat, k),
        !(k is Id),
    ensures
        match suggested(cat, s) {
            Ok(list) => {
                let text = key_text(resolved(parsed(s).unwrap().key).unwrap());
                ||| list.contains(candidate_of(cat, k, text))
                ||| (list.len() == MAX_SUGGESTIONS && jaro_winkler_bits(key_text(k), text)
                    <= list.last().similarity)
            },
            Err(_) => true,
        },
{
    match suggested(cat, s) {
        Ok(list) => {
            let text = key_text(resolved(parsed(s).unwrap().key).unwrap());
            let all = candidates_among(cat, keys_of(cat), text);
            lemma_keys_of(cat);
            lemma_variants_of(cat, k);
            lemma_candidates_complete(cat, keys_of(cat), text, k);
            lemma_ranked(all, MAX_SUGGESTIONS as nat);
        },
        Err(_) => {},
    }
}

} // verus!
