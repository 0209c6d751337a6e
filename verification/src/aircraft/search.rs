//! Queries, search keys and the searchable catalog.

use crate::aircraft::catalog::{
    index_of, keys_of, last_match, lemma_index_of_push, lemma_keys_of, lemma_positions,
    lemma_variants_of, present, variants_of, Catalog,
};
use crate::aircraft::custom::{modification, CustomAircraft, CustomAircraftView, Modification};
use crate::aircraft::index::{keys, AircraftVariants, KeyIndex, Variants};
use crate::aircraft::{
    valid_name, valid_shortname, Aircraft, AircraftError, EnginePriority, Id, Name, ShortName,
};
use crate::scan::{first_index, lemma_first_index_some};
use crate::text::{
    chars_of, decimal, find, format_number, number, spells, string_of, to_uppercase, trim, trimmed,
    uppercase,
};
use crate::utils::{
    descending, jaro_winkler_bits, lemma_queued, queue_suggestions, ranked, similarity,
    Suggestion, MAX_SUGGESTIONS,
};
use vstd::prelude::*;
use vstd::slice::slice_subrange;

verus! {

// ---------------------------------------------------------------------------
// Errors
// ---------------------------------------------------------------------------

/// Why a search gave no result.
#[derive(Debug, Clone, Copy, PartialEq, Eq, Structural)]
pub enum AircraftSearchError {
    /// The scope before the colon is none of `SHORTNAME`, `NAME` and `ID`, or
    /// the text is no identifier, short code or name.
    InvalidQueryType,
    /// No record of the catalog has the key.
    AircraftNotFound,
    /// Records have the key, but none with the engine asked for.
    EngineNotFound,
    /// A `[` is followed by no `]`.
    MissingClosingBracket,
    /// A value of the query is malformed.
    Aircraft(AircraftError),
}

impl AircraftSearchError {
    /// The description of the error, for people to read. A malformed value
    /// is described as the value's own error is.
    pub open spec fn message(self) -> Seq<char> {
        match self {
            AircraftSearchError::InvalidQueryType => "Invalid query type"@,
            AircraftSearchError::AircraftNotFound => "Aircraft not found"@,
            AircraftSearchError::EngineNotFound => "Engine does not exist for this aircraft"@,
            AircraftSearchError::MissingClosingBracket => "Found opening `[` but no closing `]`."@,
            AircraftSearchError::Aircraft(e) => e.message(),
        }
    }

    /// Describes the error.
    pub fn to_string(&self) -> (r: String)
        ensures
            r@ == self.message(),
    {
        match self {
            AircraftSearchError::InvalidQueryType => "Invalid query type".to_owned(),
            AircraftSearchError::AircraftNotFound => "Aircraft not found".to_owned(),
            AircraftSearchError::EngineNotFound => "Engine does not exist for this aircraft".to_owned(),
            AircraftSearchError::MissingClosingBracket => "Found opening `[` but no closing `]`.".to_owned(),
            AircraftSearchError::Aircraft(e) => e.to_string(),
        }
    }
}

impl From<AircraftError> for AircraftSearchError {
    /// Wraps the error of a malformed value.
    fn from(e: AircraftError) -> (r: Self) {
        AircraftSearchError::Aircraft(e)
    }
}

impl vstd::std_specs::convert::FromSpecImpl<AircraftError> for AircraftSearchError {
    open spec fn obeys_from_spec() -> bool {
        true
    }

    open spec fn from_spec(e: AircraftError) -> Self {
        AircraftSearchError::Aircraft(e)
    }
}

// ---------------------------------------------------------------------------
// Search keys
// ---------------------------------------------------------------------------

/// What the index is keyed by: an identifier, a short code or a name. Short
/// codes and names are held in uppercase. The kind is part of the key, so a
/// short code never equals a name, nor a number an identifier's text.
#[derive(Debug, PartialEq, Eq, Hash)]
pub enum SearchKey {
    Id(Id),
    ShortName(ShortName),
    Name(Name),
}

/// A search key as plain values.
pub enum KeyView {
    Id(u16),
    ShortName(Seq<char>),
    Name(Seq<char>),
}

impl View for SearchKey {
    type V = KeyView;

    open spec fn view(&self) -> KeyView {
        match self {
            SearchKey::Id(id) => KeyView::Id(id.0),
            SearchKey::ShortName(sn) => KeyView::ShortName(sn@),
            SearchKey::Name(name) => KeyView::Name(name@),
        }
    }
}

impl Clone for SearchKey {
    fn clone(&self) -> (r: Self)
        ensures
            r@ == self@,
    {
        match self {
            SearchKey::Id(id) => SearchKey::Id(*id),
            SearchKey::ShortName(sn) => SearchKey::ShortName(sn.clone()),
            SearchKey::Name(name) => SearchKey::Name(name.clone()),
        }
    }
}

/// The text that a key is compared by when suggestions are ranked: the short
/// code or the name as the key holds it, an identifier in decimal.
pub open spec fn key_text(k: KeyView) -> Seq<char> {
    match k {
        KeyView::Id(id) => decimal(id as nat),
        KeyView::ShortName(s) => s,
        KeyView::Name(s) => s,
    }
}

/// The uppercase form of `s`, as a string.
fn uppercase_string(s: &String) -> (r: String)
    ensures
        r@ == uppercase(s@),
{
    let chars = chars_of(s.as_str());
    let upper = to_uppercase(chars.as_slice());
    string_of(upper.as_slice())
}

impl SearchKey {
    /// The key of an identifier.
    pub fn from_id(id: Id) -> (k: SearchKey)
        ensures
            k@ == KeyView::Id(id.0),
    {
        SearchKey::Id(id)
    }

    /// The key of a short code: the code in uppercase.
    pub fn from_shortname(sn: ShortName) -> (k: SearchKey)
        ensures
            k@ == KeyView::ShortName(uppercase(sn@)),
    {
        SearchKey::ShortName(ShortName(uppercase_string(&sn.0)))
    }

    /// The key of a name: the name in uppercase.
    pub fn from_name(name: Name) -> (k: SearchKey)
        ensures
            k@ == KeyView::Name(uppercase(name@)),
    {
        SearchKey::Name(Name(uppercase_string(&name.0)))
    }

    /// Whether two keys are of one kind and hold the same value.
    pub fn same(&self, other: &SearchKey) -> (b: bool)
        ensures
            b == (self@ == other@),
    {
        match (self, other) {
            (SearchKey::Id(a), SearchKey::Id(b)) => a.0 == b.0,
            (SearchKey::ShortName(a), SearchKey::ShortName(b)) => a.0 == b.0,
            (SearchKey::Name(a), SearchKey::Name(b)) => a.0 == b.0,
            _ => false,
        }
    }

    /// The text that the key is compared by when suggestions are ranked.
    pub fn text(&self) -> (r: String)
        ensures
            r@ == key_text(self@),
    {
        match self {
            SearchKey::Id(id) => {
                let digits = format_number(id.0 as u32);
                string_of(digits.as_slice())
            },
            SearchKey::ShortName(sn) => sn.0.clone(),
            SearchKey::Name(name) => name.0.clone(),
        }
    }
}

// ---------------------------------------------------------------------------
// Queries
// ---------------------------------------------------------------------------

/// What a query looks for: a text of a kind not yet known, or a value of the
/// kind that the query's scope declares.
#[derive(Debug, PartialEq, Eq)]
pub enum QueryKey {
    All(String),
    Id(Id),
    ShortName(ShortName),
    Name(Name),
}

/// What a query looks for, as plain values.
pub enum QueryKeyView {
    All(Seq<char>),
    Id(u16),
    ShortName(Seq<char>),
    Name(Seq<char>),
}

impl View for QueryKey {
    type V = QueryKeyView;

    open spec fn view(&self) -> QueryKeyView {
        match self {
            QueryKey::All(s) => QueryKeyView::All(s@),
            QueryKey::Id(id) => QueryKeyView::Id(id.0),
            QueryKey::ShortName(sn) => QueryKeyView::ShortName(sn@),
            QueryKey::Name(name) => QueryKeyView::Name(name@),
        }
    }
}

/// A parsed query: what it looks for, and the options it selects.
#[derive(Debug, PartialEq, Eq)]
pub struct QueryCtx {
    pub key: QueryKey,
    pub modifiers: Modification,
}

/// A parsed query as plain values.
pub struct QueryView {
    pub key: QueryKeyView,
    pub modifiers: Modification,
}

impl View for QueryCtx {
    type V = QueryView;

    open spec fn view(&self) -> QueryView {
        QueryView { key: self.key@, modifiers: self.modifiers }
    }
}

/// What the body of a query looks for. The body is put in uppercase. Without
/// a colon in that, it is a text of unknown kind, kept as it was written. With
/// one, the first colon parts the scope from the value; both are taken from
/// the uppercase form, and further colons belong to the value.
pub open spec fn intent(body: Seq<char>) -> Result<QueryKeyView, AircraftSearchError> {
    let u = uppercase(body);
    match first_index(u, ':') {
        None => Ok(QueryKeyView::All(body)),
        Some(k) => {
            let scope = u.take(k);
            let value = u.skip(k + 1);
            if scope == "SHORTNAME"@ {
                Ok(QueryKeyView::ShortName(value))
            } else if scope == "NAME"@ {
                Ok(QueryKeyView::Name(value))
            } else if scope == "ID"@ {
                match number(value, u16::MAX as nat) {
                    Some(v) => Ok(QueryKeyView::Id(v as u16)),
                    None => Err(AircraftSearchError::Aircraft(AircraftError::InvalidID)),
                }
            } else {
                Err(AircraftSearchError::InvalidQueryType)
            }
        },
    }
}

/// A query with the options `modifiers` and the body `body`.
pub open spec fn with_intent(body: Seq<char>, modifiers: Modification) -> Result<
    QueryView,
    AircraftSearchError,
> {
    match intent(body) {
        Ok(key) => Ok(QueryView { key, modifiers }),
        Err(e) => Err(e),
    }
}

/// What a query means. White space around it does not count. Without a `[`
/// the whole is the body and the options are the default ones. With one, the
/// body is what stands before the first `[`, and the options are read from
/// what stands between it and the first `]` behind it; what follows that `]`
/// is not looked at. The options are read before the body, so of two mistakes
/// the one between the brackets is the error.
pub open spec fn parsed(s: Seq<char>) -> Result<QueryView, AircraftSearchError> {
    let t = trimmed(s);
    match first_index(t, '[') {
        None => with_intent(t, Modification { engine: EnginePriority(0) }),
        Some(i) => {
            let rest = t.skip(i + 1);
            match first_index(rest, ']') {
                None => Err(AircraftSearchError::MissingClosingBracket),
                Some(j) => match modification(rest.take(j)) {
                    Err(e) => Err(AircraftSearchError::Aircraft(e)),
                    Ok(m) => with_intent(t.take(i), m),
                },
            }
        },
    }
}

/// The key that a query is looked up by. A value of a declared kind gives the
/// key of that kind. A text of unknown kind is tried as an identifier first,
/// then as a short code, then as a name, and is taken as the first that it can
/// be; a text that can be none of them has no key.
pub open spec fn resolved(q: QueryKeyView) -> Option<KeyView> {
    match q {
        QueryKeyView::All(s) => {
            if let Some(v) = number(s, u16::MAX as nat) {
                Some(KeyView::Id(v as u16))
            } else if valid_shortname(s) {
                Some(KeyView::ShortName(uppercase(s)))
            } else if valid_name(s) {
                Some(KeyView::Name(uppercase(s)))
            } else {
                None
            }
        },
        QueryKeyView::Id(id) => Some(KeyView::Id(id)),
        QueryKeyView::ShortName(s) => Some(KeyView::ShortName(uppercase(s))),
        QueryKeyView::Name(s) => Some(KeyView::Name(uppercase(s))),
    }
}

impl QueryKey {
    /// Reads what the body of a query looks for.
    pub fn parse(body: &[char]) -> (r: Result<QueryKey, AircraftSearchError>)
        ensures
            match r {
                Ok(key) => intent(body@) == Ok::<QueryKeyView, AircraftSearchError>(key@),
                Err(e) => intent(body@) == Err::<QueryKeyView, AircraftSearchError>(e),
            },
    {
        let upper = to_uppercase(body);
        let u = upper.as_slice();
        match find(u, ':') {
            None => Ok(QueryKey::All(string_of(body))),
            Some(k) => {
                let scope = slice_subrange(u, 0, k);
                let value = slice_subrange(u, k + 1, u.len());
                if spells(scope, "SHORTNAME") {
                    Ok(QueryKey::ShortName(ShortName(string_of(value))))
                } else if spells(scope, "NAME") {
                    Ok(QueryKey::Name(Name(string_of(value))))
                } else if spells(scope, "ID") {
                    match Id::parse(value) {
                        Ok(id) => Ok(QueryKey::Id(id)),
                        Err(e) => Err(AircraftSearchError::Aircraft(e)),
                    }
                } else {
                    Err(AircraftSearchError::InvalidQueryType)
                }
            },
        }
    }
}

impl QueryCtx {
    /// Parses a query.
    pub fn from_str(s: &str) -> (r: Result<QueryCtx, AircraftSearchError>)
        ensures
            match r {
                Ok(ctx) => parsed(s@) == Ok::<QueryView, AircraftSearchError>(ctx@),
                Err(e) => parsed(s@) == Err::<QueryView, AircraftSearchError>(e),
            },
    {
        let chars = chars_of(s);
        let t = trim(chars.as_slice());
        let n = t.len();
        match find(t, '[') {
            None => match QueryKey::parse(t) {
                Ok(key) => Ok(QueryCtx { key, modifiers: Modification::default() }),
                Err(e) => Err(e),
            },
            Some(i) => {
                let rest = slice_subrange(t, i + 1, n);
                match find(rest, ']') {
                    None => Err(AircraftSearchError::MissingClosingBracket),
                    Some(j) => match Modification::parse(slice_subrange(rest, 0, j)) {
                        Err(e) => Err(AircraftSearchError::Aircraft(e)),
                        Ok(modifiers) => match QueryKey::parse(slice_subrange(t, 0, i)) {
                            Ok(key) => Ok(QueryCtx { key, modifiers }),
                            Err(e) => Err(e),
                        },
                    },
                }
            },
        }
    }

    /// The key that the query is looked up by, if it has one. It is called on
    /// a reference to the query, as in `(&ctx).into()`.
    pub fn into(&self) -> (r: Option<SearchKey>)
        ensures
            match r {
                Some(key) => resolved(self@.key) == Some(key@),
                None => resolved(self@.key) is None,
            },
    {
        match &self.key {
            QueryKey::All(s) => {
                let chars = chars_of(s.as_str());
                if let Ok(id) = Id::parse(chars.as_slice()) {
                    Some(SearchKey::from_id(id))
                } else if let Ok(sn) = ShortName::parse(chars.as_slice()) {
                    Some(SearchKey::from_shortname(sn))
                } else if let Ok(name) = Name::parse(chars.as_slice()) {
                    Some(SearchKey::from_name(name))
                } else {
                    None
                }
            },
            QueryKey::Id(id) => Some(SearchKey::from_id(*id)),
            QueryKey::ShortName(sn) => Some(SearchKey::from_shortname(sn.clone())),
            QueryKey::Name(name) => Some(SearchKey::from_name(name.clone())),
        }
    }
}

// ---------------------------------------------------------------------------
// The searchable catalog
// ---------------------------------------------------------------------------

/// The records of `data` as plain values.
pub open spec fn catalog_of(data: Seq<Aircraft>) -> Catalog {
    Seq::new(data.len(), |i: int| data[i]@)
}

/// The engine variants that the query `q` leads to in `cat`.
pub open spec fn engines_for(cat: Catalog, q: QueryKeyView) -> Result<
    Variants,
    AircraftSearchError,
> {
    match resolved(q) {
        None => Err(AircraftSearchError::InvalidQueryType),
        Some(k) => if present(cat, k) {
            Ok(variants_of(cat, k))
        } else {
            Err(AircraftSearchError::AircraftNotFound)
        },
    }
}

/// The engine variants that the query text `s` leads to in `cat`.
pub open spec fn found_engines(cat: Catalog, s: Seq<char>) -> Result<
    Variants,
    AircraftSearchError,
> {
    match parsed(s) {
        Err(e) => Err(e),
        Ok(q) => engines_for(cat, q.key),
    }
}

/// What a search for the query text `s` finds in `cat`: the last record that
/// has the query's key and the engine priority that the query selects, with
/// the query's options.
pub open spec fn found(cat: Catalog, s: Seq<char>) -> Result<
    CustomAircraftView,
    AircraftSearchError,
> {
    match parsed(s) {
        Err(e) => Err(e),
        Ok(q) => match resolved(q.key) {
            None => Err(AircraftSearchError::InvalidQueryType),
            Some(k) => if !present(cat, k) {
                Err(AircraftSearchError::AircraftNotFound)
            } else {
                match last_match(cat, k, q.modifiers.engine.0) {
                    None => Err(AircraftSearchError::EngineNotFound),
                    Some(i) => Ok(CustomAircraftView { aircraft: cat[i], modifiers: q.modifiers }),
                }
            },
        },
    }
}

/// The candidates that the keys `ks` give for a text: one for each short code
/// and each name, in the order of the keys, none for an identifier. A
/// candidate stands for its key by the record that the key's first engine
/// variant points to, and is as similar as the key's text is to `text`.
pub open spec fn candidates_among(cat: Catalog, ks: Seq<KeyView>, text: Seq<char>) -> Seq<
    Suggestion<usize>,
>
    decreases ks.len(),
{
    if ks.len() == 0 {
        Seq::empty()
    } else {
        let before = candidates_among(cat, ks.drop_last(), text);
        let k = ks.last();
        if k is Id || variants_of(cat, k).len() == 0 {
            before
        } else {
            before.push(
                Suggestion {
                    item: variants_of(cat, k)[0].1,
                    similarity: jaro_winkler_bits(key_text(k), text),
                },
            )
        }
    }
}

/// The suggestions for the query text `s`: the ranking of the candidates that
/// the keys of `cat` give for the text of the query's key. Every suggestion
/// names a record by its position.
pub open spec fn suggested(cat: Catalog, s: Seq<char>) -> Result<
    Seq<Suggestion<usize>>,
    AircraftSearchError,
> {
    match parsed(s) {
        Err(e) => Err(e),
        Ok(q) => match resolved(q.key) {
            None => Err(AircraftSearchError::InvalidQueryType),
            Some(k) => Ok(
                ranked(
                    candidates_among(cat, keys_of(cat), key_text(k)),
                    MAX_SUGGESTIONS as nat,
                ),
            ),
        },
    }
}

/// Whether `list` shows the suggestions of `ranking`: the same similarities in
/// the same order, each with the record at the position that `ranking` names.
pub open spec fn shows(
    cat: Catalog,
    ranking: Seq<Suggestion<usize>>,
    list: Seq<Suggestion<&Aircraft>>,
) -> bool {
    &&& list.len() == ranking.len()
    &&& forall|t: int|
        0 <= t < list.len() ==> {
            &&& ranking[t].item < cat.len()
            &&& (#[trigger] list[t]).item@ == cat[ranking[t].item as int]
            &&& list[t].similarity == ranking[t].similarity
        }
}

/// A catalog of aircraft with its index. Both are made once and never change.
#[derive(Debug)]
pub struct Aircrafts {
    data: Vec<Aircraft>,
    index: KeyIndex,
}

impl Aircrafts {
    /// The index is the index of the records.
    #[verifier::type_invariant]
    spec fn indexed(&self) -> bool {
        &&& self.index.wf()
        &&& self.index@ == index_of(catalog_of(self.data@))
    }

    /// The records, as plain values.
    pub closed spec fn catalog(&self) -> Catalog {
        catalog_of(self.data@)
    }

    /// Makes the catalog of the given records, in their order. Records that
    /// share a key and an engine priority are accepted; the last of them is
    /// the one that a search finds.
    pub fn from_records(data: Vec<Aircraft>) -> (r: Aircrafts)
        ensures
            r.catalog() == catalog_of(data@),
    {
        let ghost cat = catalog_of(data@);
        let mut index = KeyIndex::new();
        let mut i: usize = 0;
        assert(cat.take(0) == Catalog::empty());
        assert(index_of(Catalog::empty()) == index@);
        while i < data.len()
            invariant
                i <= data.len(),
                cat == catalog_of(data@),
                index.wf(),
                index@ == index_of(cat.take(i as int)),
            decreases data.len() - i,
        {
            let record = &data[i];
            let p = record.priority.0;
            proof {
                lemma_index_of_push(cat.take(i as int), cat[i as int]);
                assert(cat.take(i as int).push(cat[i as int]) == cat.take(i + 1));
            }
            index.insert(SearchKey::from_id(record.id), p, i);
            index.insert(SearchKey::from_shortname(record.shortname.clone()), p, i);
            index.insert(SearchKey::from_name(record.name.clone()), p, i);
            i += 1;
        }
        assert(cat.take(data.len() as int) == cat);
        Aircrafts { data, index }
    }

    /// The records, in their order.
    pub fn data(&self) -> (r: &Vec<Aircraft>)
        ensures
            catalog_of(r@) == self.catalog(),
    {
        &self.data
    }

    /// The engine variants that a parsed query leads to.
    pub fn search_by_key(&self, ctx: &QueryCtx) -> (r: Result<
        &AircraftVariants,
        AircraftSearchError,
    >)
        ensures
            match r {
                Ok(variants) => engines_for(self.catalog(), ctx@.key) == Ok::<
                    Variants,
                    AircraftSearchError,
                >(variants@),
                Err(e) => engines_for(self.catalog(), ctx@.key) == Err::<
                    Variants,
                    AircraftSearchError,
                >(e),
            },
    {
        proof {
            use_type_invariant(self);
            lemma_keys_of(self.catalog());
        }
        match ctx.into() {
            None => Err(AircraftSearchError::InvalidQueryType),
            Some(key) => match self.index.get(&key) {
                None => Err(AircraftSearchError::AircraftNotFound),
                Some(variants) => {
                    proof {
                        lemma_first_index_some(keys(self.index@), key@);
                    }
                    Ok(variants)
                },
            },
        }
    }

    /// Searches all engine variants of the aircraft that a query names.
    pub fn search_engines(&self, s: &str) -> (r: Result<&AircraftVariants, AircraftSearchError>)
        ensures
            match r {
                Ok(variants) => found_engines(self.catalog(), s@) == Ok::<
                    Variants,
                    AircraftSearchError,
                >(variants@),
                Err(e) => found_engines(self.catalog(), s@) == Err::<Variants, AircraftSearchError>(
                    e,
                ),
            },
    {
        match QueryCtx::from_str(s) {
            Err(e) => Err(e),
            Ok(ctx) => self.search_by_key(&ctx),
        }
    }

    /// Searches for an aircraft: the record that a query names, with the
    /// engine that the query selects.
    pub fn search(&self, s: &str) -> (r: Result<CustomAircraft, AircraftSearchError>)
        ensures
            match r {
                Ok(custom) => found(self.catalog(), s@) == Ok::<
                    CustomAircraftView,
                    AircraftSearchError,
                >(custom@),
                Err(e) => found(self.catalog(), s@) == Err::<
                    CustomAircraftView,
                    AircraftSearchError,
                >(e),
            },
    {
        let ctx = match QueryCtx::from_str(s) {
            Err(e) => {
                return Err(e);
            },
            Ok(ctx) => ctx,
        };
        let engines = match self.search_by_key(&ctx) {
            Err(e) => {
                return Err(e);
            },
            Ok(engines) => engines,
        };
        let n = self.data.len();
        proof {
            lemma_variants_of(self.catalog(), resolved(ctx@.key).unwrap());
        }
        match engines.get(&ctx.modifiers.engine) {
            Some(i) => Ok(
                CustomAircraft::from_aircraft_and_modifiers(self.data[i].clone(), ctx.modifiers),
            ),
            None => Err(AircraftSearchError::EngineNotFound),
        }
    }

    /// Suggests the records whose short codes and names are most similar to
    /// what a query names: at most `MAX_SUGGESTIONS`, the most similar first.
    pub fn suggest(&self, s: &str) -> (r: Result<Vec<Suggestion<&Aircraft>>, AircraftSearchError>)
        ensures
            match r {
                Ok(list) => match suggested(self.catalog(), s@) {
                    Ok(ranking) => shows(self.catalog(), ranking, list@),
                    Err(_) => false,
                },
                Err(e) => suggested(self.catalog(), s@) == Err::<
                    Seq<Suggestion<usize>>,
                    AircraftSearchError,
                >(e),
            },
    {
        let ctx = match QueryCtx::from_str(s) {
            Err(e) => {
                return Err(e);
            },
            Ok(ctx) => ctx,
        };
        let key = match (&ctx).into() {
            None => {
                return Err(AircraftSearchError::InvalidQueryType);
            },
            Some(key) => key,
        };
        let text = key.text();
        let best = self.rank(text.as_str());
        let mut list: Vec<Suggestion<&Aircraft>> = Vec::new();
        let mut t: usize = 0;
        while t < best.len()
            invariant
                t <= best.len(),
                list@.len() == t,
                forall|u: int| 0 <= u < best@.len() ==> (#[trigger] best@[u]).item < self.data@.len(),
                forall|u: int|
                    0 <= u < t ==> (#[trigger] list@[u]).item@ == self.data@[best@[u].item as int]@
                        && list@[u].similarity == best@[u].similarity,
            decreases best.len() - t,
        {
            list.push(Suggestion { item: &self.data[best[t].item], similarity: best[t].similarity });
            t += 1;
        }
        Ok(list)
    }

    /// Ranks the candidates that the keys give for `text`.
    fn rank(&self, text: &str) -> (best: Vec<Suggestion<usize>>)
        ensures
            best@ == ranked(
                candidates_among(self.catalog(), keys_of(self.catalog()), text@),
                MAX_SUGGESTIONS as nat,
            ),
            forall|u: int| 0 <= u < best@.len() ==> (#[trigger] best@[u]).item < self.data@.len(),
    {
        proof {
            use_type_invariant(self);
            lemma_keys_of(self.catalog());
        }
        let ghost cat = self.catalog();
        let ghost ks = keys_of(cat);
        let n = self.index.len();
        let size = self.data.len();
        let mut best: Vec<Suggestion<usize>> = Vec::new();
        let mut j: usize = 0;
        assert(ks.take(0) == Seq::<KeyView>::empty());
        while j < n
            invariant
                j <= n,
                n == ks.len(),
                size == cat.len(),
                cat == self.catalog(),
                ks == keys_of(cat),
                self.index.wf(),
                self.index@ == index_of(cat),
                best@ == ranked(candidates_among(cat, ks.take(j as int), text@), MAX_SUGGESTIONS as nat),
                descending(best@),
                best@.len() <= MAX_SUGGESTIONS,
                forall|e: Suggestion<usize>| best@.contains(e) ==> e.item < size,
            decreases n - j,
        {
            let (key, variants) = self.index.entry(j);
            let ghost before = best@;
            let ghost earlier = candidates_among(cat, ks.take(j as int), text@);
            proof {
                assert(ks.take(j + 1).drop_last() == ks.take(j as int));
                assert(ks.take(j + 1).last() == ks[j as int]);
                assert(key@ == ks[j as int]);
                assert(variants@ == variants_of(cat, ks[j as int]));
                lemma_positions(cat, key@);
                if !(key@ is Id) && variants@.len() > 0 {
                    let s = Suggestion {
                        item: variants@[0].1,
                        similarity: jaro_winkler_bits(key_text(key@), text@),
                    };
                    assert(candidates_among(cat, ks.take(j + 1), text@) == earlier.push(s));
                    assert(earlier.push(s).drop_last() == earlier);
                    assert(earlier.push(s).last() == s);
                    lemma_queued(before, s, MAX_SUGGESTIONS as nat);
                } else {
                    assert(candidates_among(cat, ks.take(j + 1), text@) == earlier);
                }
            }
            match variants.first() {
                None => {},
                Some((_, position)) => match key {
                    SearchKey::Id(_) => {},
                    SearchKey::ShortName(code) => {
                        let score = similarity(code.0.as_str(), text);
                        queue_suggestions(&mut best, position, score);
                    },
                    SearchKey::Name(name) => {
                        let score = similarity(name.0.as_str(), text);
                        queue_suggestions(&mut best, position, score);
                    },
                },
            }
            j += 1;
        }
        assert(ks.take(n as int) == ks);
        assert forall|u: int| 0 <= u < best@.len() implies (#[trigger] best@[u]).item
            < self.data@.len() by {
            assert(best@.contains(best@[u]));
        }
        best
    }
}

} // verus!
