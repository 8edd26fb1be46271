//! The multi-key airport index: case-insensitive canonicalized keys, typed
//! query parsing, exact lookup and bounded fuzzy suggestion.

use crate::airport::Airport;
use crate::airport::AirportError;
use crate::airport::AirportView;
use crate::airport::Iata;
use crate::airport::Icao;
use crate::airport::Id;
use crate::airport::Name;
use crate::text::ascii_lower;
use crate::text::ascii_upper;
use crate::text::canon_upper;
use crate::text::canonicalize;
use crate::text::dec_digits;
use crate::text::lemma_ascii_case_seq;
use crate::text::lemma_parse_u16_case;
use crate::text::lemma_trim_ascii;
use crate::text::lemma_trim_case;
use crate::text::seq_is_ascii;
use crate::text::parse_u16;
use crate::text::parse_u16_spec;
use crate::text::trim;
use crate::text::trim_spec;
use crate::text::u16_to_string;
use crate::utils::MAX_SUGGESTIONS;
use crate::utils::Suggestion;
use crate::utils::lemma_min_sim_idx;
use crate::utils::lemma_sugg_pairs_push;
use crate::utils::lemma_sugg_pairs_remove;
use crate::utils::min_sim_idx;
use crate::utils::queue_suggestions;
use crate::utils::sort_suggestions_desc;
use crate::utils::sorted_desc;
use crate::utils::sugg_pairs;
use vstd::math::min as int_min;
use vstd::prelude::*;

verus! {

/// Why a query failed.
#[derive(Debug, Clone, Copy, PartialEq, Eq, Structural)]
pub enum AirportSearchError {
    /// The query matches no key grammar (unknown prefix, or a free-form value
    /// no key type accepts).
    InvalidQueryType,
    /// The query parsed to a key, but no record is indexed under it.
    AirportNotFound,
    /// A field value inside the query failed validation.
    Airport(AirportError),
}

/// A canonicalized key under which a record is indexed: string-keyed variants
/// hold the uppercase form of the code or name.
#[derive(Debug)]
pub enum SearchKey {
    Id(Id),
    Iata(Iata),
    Icao(Icao),
    Name(Name),
}

/// The mathematical content of a `SearchKey`.
pub enum SearchKeyView {
    Id(u16),
    Iata(Seq<char>),
    Icao(Seq<char>),
    Name(Seq<char>),
}

impl View for SearchKey {
    type V = SearchKeyView;

    open spec fn view(&self) -> SearchKeyView {
        match self {
            SearchKey::Id(v) => SearchKeyView::Id(v.0),
            SearchKey::Iata(v) => SearchKeyView::Iata(v@),
            SearchKey::Icao(v) => SearchKeyView::Icao(v@),
            SearchKey::Name(v) => SearchKeyView::Name(v@),
        }
    }
}

impl SearchKey {
    /// Key a record by its numeric identifier.
    pub fn from_id(id: Id) -> (r: Self)
        ensures
            r@ == SearchKeyView::Id(id.0),
    {
        SearchKey::Id(id)
    }

    /// Key a record by its short code, canonicalized to uppercase.
    pub fn from_iata(iata: Iata) -> (r: Self)
        ensures
            r@ == SearchKeyView::Iata(canon_upper(iata@)),
    {
        SearchKey::Iata(Iata(canonicalize(iata.0.as_str())))
    }

    /// Key a record by its long code, canonicalized to uppercase.
    pub fn from_icao(icao: Icao) -> (r: Self)
        ensures
            r@ == SearchKeyView::Icao(canon_upper(icao@)),
    {
        SearchKey::Icao(Icao(canonicalize(icao.0.as_str())))
    }

    /// Key a record by its name, canonicalized to uppercase.
    pub fn from_name(name: Name) -> (r: Self)
        ensures
            r@ == SearchKeyView::Name(canon_upper(name@)),
    {
        SearchKey::Name(Name(canonicalize(name.0.as_str())))
    }

    /// Equality of keys, decided on the canonical content.
    pub fn key_eq(&self, other: &SearchKey) -> (r: bool)
        ensures
            r == (self@ == other@),
    {
        match (self, other) {
            (SearchKey::Id(a), SearchKey::Id(b)) => a.0 == b.0,
            (SearchKey::Iata(a), SearchKey::Iata(b)) => a.0 == b.0,
            (SearchKey::Icao(a), SearchKey::Icao(b)) => a.0 == b.0,
            (SearchKey::Name(a), SearchKey::Name(b)) => a.0 == b.0,
            _ => false,
        }
    }
}

/// A parsed query, before it is resolved to a search key: either a typed
/// `PREFIX:VALUE` form or a free-form value.
#[derive(Debug)]
pub enum QueryKey {
    All(String),
    Id(Id),
    Iata(Iata),
    Icao(Icao),
    Name(Name),
}

/// The mathematical content of a `QueryKey`.
pub enum QueryKeyView {
    All(Seq<char>),
    Id(u16),
    Iata(Seq<char>),
    Icao(Seq<char>),
    Name(Seq<char>),
}

impl View for QueryKey {
    type V = QueryKeyView;

    open spec fn view(&self) -> QueryKeyView {
        match self {
            QueryKey::All(v) => QueryKeyView::All(v@),
            QueryKey::Id(v) => QueryKeyView::Id(v.0),
            QueryKey::Iata(v) => QueryKeyView::Iata(v@),
            QueryKey::Icao(v) => QueryKeyView::Icao(v@),
            QueryKey::Name(v) => QueryKeyView::Name(v@),
        }
    }
}

/// The context a query string parses to.
#[derive(Debug)]
pub struct QueryCtx {
    pub key: QueryKey,
}

impl View for QueryCtx {
    type V = QueryKeyView;

    open spec fn view(&self) -> QueryKeyView {
        self.key@
    }
}

// ---------------------------------------------------------------------------
// The query grammar
// ---------------------------------------------------------------------------

pub open spec fn has_colon(u: Seq<char>) -> bool {
    exists|i: int| 0 <= i < u.len() && u[i] == ':'
}

/// Index of the first `':'` of the sequence (its length when there is none).
pub open spec fn first_colon(u: Seq<char>) -> int
    decreases u.len(),
{
    if u.len() == 0 {
        0
    } else if u[0] == ':' {
        0
    } else {
        1 + first_colon(u.drop_first())
    }
}

proof fn lemma_first_colon_at(u: Seq<char>, i: int)
    requires
        0 <= i < u.len(),
        u[i] == ':',
        forall|k: int| 0 <= k < i ==> u[k] != ':',
    ensures
        first_colon(u) == i,
        has_colon(u),
    decreases i,
{
    if i > 0 {
        let rest = u.drop_first();
        assert(forall|k: int| 0 <= k < i - 1 ==> rest[k] != ':');
        lemma_first_colon_at(rest, i - 1);
    }
}

/// The typed-query grammar: the trimmed query is uppercased; a `PREFIX:VALUE`
/// form (split at the first colon) yields a typed key when the prefix is one
/// of `IATA`, `ICAO`, `NAME`, `ID`; without a colon the query is free-form.
pub open spec fn query_ctx_spec(q: Seq<char>) -> Result<QueryKeyView, AirportSearchError> {
    let t = trim_spec(q);
    let u = canon_upper(t);
    if !has_colon(u) {
        Ok(QueryKeyView::All(t))
    } else {
        let ci = first_colon(u);
        let k = u.subrange(0, ci);
        let v = u.subrange(ci + 1, u.len() as int);
        if k == "IATA"@ {
            Ok(QueryKeyView::Iata(v))
        } else if k == "ICAO"@ {
            Ok(QueryKeyView::Icao(v))
        } else if k == "NAME"@ {
            Ok(QueryKeyView::Name(v))
        } else if k == "ID"@ {
            match parse_u16_spec(v) {
                Some(n) => Ok(QueryKeyView::Id(n)),
                None => Err(AirportSearchError::Airport(AirportError::InvalidId)),
            }
        } else {
            Err(AirportSearchError::InvalidQueryType)
        }
    }
}

/// How a parsed query resolves to a search key. A free-form value is tried in
/// fixed priority order: numeric identifier, then short code, then long code,
/// then name; the first accepting key type wins.
pub open spec fn key_of_query(k: QueryKeyView) -> Option<SearchKeyView> {
    match k {
        QueryKeyView::All(t) => {
            if parse_u16_spec(t) is Some {
                Some(SearchKeyView::Id(parse_u16_spec(t)->Some_0))
            } else if 2 <= t.len() <= 3 {
                Some(SearchKeyView::Iata(canon_upper(t)))
            } else if t.len() == 4 {
                Some(SearchKeyView::Icao(canon_upper(t)))
            } else if 1 <= t.len() <= 40 {
                Some(SearchKeyView::Name(canon_upper(t)))
            } else {
                None
            }
        },
        QueryKeyView::Id(n) => Some(SearchKeyView::Id(n)),
        QueryKeyView::Iata(v) => Some(SearchKeyView::Iata(canon_upper(v))),
        QueryKeyView::Icao(v) => Some(SearchKeyView::Icao(canon_upper(v))),
        QueryKeyView::Name(v) => Some(SearchKeyView::Name(canon_upper(v))),
    }
}

/// The full parse pipeline of a query string down to a search key.
pub open spec fn parse_query_spec(q: Seq<char>) -> Result<SearchKeyView, AirportSearchError> {
    match query_ctx_spec(q) {
        Err(e) => Err(e),
        Ok(k) => match key_of_query(k) {
            Some(sk) => Ok(sk),
            None => Err(AirportSearchError::InvalidQueryType),
        },
    }
}

impl QueryCtx {
    /// Parse a query string: trim, uppercase, and split a typed prefix off at
    /// the first colon.
    pub fn parse(s: &str) -> (r: Result<QueryCtx, AirportSearchError>)
        ensures
            query_ctx_spec(s@) matches Ok(k) ==> (r matches Ok(c) && c@ == k),
            query_ctx_spec(s@) matches Err(e) ==> (r matches Err(e2) && e2 == e),
    {
        let t = trim(s);
        let u = canonicalize(t);
        let us = u.as_str();
        let ulen = us.unicode_len();
        let mut ci: usize = 0;
        let mut found = false;
        loop
            invariant_except_break
                !found,
            invariant
                0 <= ci <= ulen,
                ulen == u@.len(),
                us@ == u@,
                forall|k: int| 0 <= k < ci ==> u@[k] != ':',
            ensures
                0 <= ci <= ulen,
                found ==> ci < ulen && u@[ci as int] == ':' && (forall|k: int|
                    0 <= k < ci ==> u@[k] != ':'),
                !found ==> forall|k: int| 0 <= k < u@.len() ==> u@[k] != ':',
            decreases ulen - ci,
        {
            if ci >= ulen {
                break ;
            }
            if us.get_char(ci) == ':' {
                found = true;
                break ;
            }
            ci = ci + 1;
        }
        if !found {
            assert(!has_colon(canon_upper(trim_spec(s@))));
            return Ok(QueryCtx { key: QueryKey::All(t.to_owned()) });
        }
        proof {
            lemma_first_colon_at(u@, ci as int);
        }
        let k = us.substring_char(0, ci).to_owned();
        let v = us.substring_char(ci + 1, ulen).to_owned();
        if k == "IATA".to_owned() {
            Ok(QueryCtx { key: QueryKey::Iata(Iata(v)) })
        } else if k == "ICAO".to_owned() {
            Ok(QueryCtx { key: QueryKey::Icao(Icao(v)) })
        } else if k == "NAME".to_owned() {
            Ok(QueryCtx { key: QueryKey::Name(Name(v)) })
        } else if k == "ID".to_owned() {
            match parse_u16(v.as_str()) {
                Some(n) => Ok(QueryCtx { key: QueryKey::Id(Id(n)) }),
                None => Err(AirportSearchError::Airport(AirportError::InvalidId)),
            }
        } else {
            Err(AirportSearchError::InvalidQueryType)
        }
    }

    /// Resolve the parsed query to a search key; a free-form value is tried
    /// as identifier, short code, long code, then name.
    pub fn into_key(self) -> (r: Option<SearchKey>)
        ensures
            match key_of_query(self@) {
                Some(k) => (r matches Some(sk) && sk@ == k),
                None => r is None,
            },
    {
        match self.key {
            QueryKey::All(s) => {
                match Id::parse(s.as_str()) {
                    Ok(id) => Some(SearchKey::from_id(id)),
                    Err(_) => match Iata::parse(s.as_str()) {
                        Ok(ia) => Some(SearchKey::from_iata(ia)),
                        Err(_) => match Icao::parse(s.as_str()) {
                            Ok(ic) => Some(SearchKey::from_icao(ic)),
                            Err(_) => match Name::parse(s.as_str()) {
                                Ok(nm) => Some(SearchKey::from_name(nm)),
                                Err(_) => None,
                            },
                        },
                    },
                }
            },
            QueryKey::Id(id) => Some(SearchKey::from_id(id)),
            QueryKey::Iata(ia) => Some(SearchKey::from_iata(ia)),
            QueryKey::Icao(ic) => Some(SearchKey::from_icao(ic)),
            QueryKey::Name(nm) => Some(SearchKey::from_name(nm)),
        }
    }
}

// ---------------------------------------------------------------------------
// The index
// ---------------------------------------------------------------------------

/// First match of a key in the index sequence.
pub open spec fn find_key(index: Seq<(SearchKeyView, usize)>, k: SearchKeyView) -> Option<usize>
    decreases index.len(),
{
    if index.len() == 0 {
        None
    } else if index[0].0 == k {
        Some(index[0].1)
    } else {
        find_key(index.drop_first(), k)
    }
}

/// The four keys a record is indexed under.
pub open spec fn record_keys(a: AirportView) -> Seq<SearchKeyView> {
    seq![
        SearchKeyView::Id(a.id),
        SearchKeyView::Iata(canon_upper(a.iata)),
        SearchKeyView::Icao(canon_upper(a.icao)),
        SearchKeyView::Name(canon_upper(a.name)),
    ]
}

/// First-write-wins insertion: a key already present keeps its mapping.
pub open spec fn insert_key(
    index: Seq<(SearchKeyView, usize)>,
    k: SearchKeyView,
    i: usize,
) -> Seq<(SearchKeyView, usize)> {
    if find_key(index, k) is Some {
        index
    } else {
        index.push((k, i))
    }
}

pub open spec fn insert_record(
    index: Seq<(SearchKeyView, usize)>,
    a: AirportView,
    i: usize,
) -> Seq<(SearchKeyView, usize)> {
    insert_key(
        insert_key(
            insert_key(insert_key(index, SearchKeyView::Id(a.id), i), SearchKeyView::Iata(canon_upper(a.iata)), i),
            SearchKeyView::Icao(canon_upper(a.icao)),
            i,
        ),
        SearchKeyView::Name(canon_upper(a.name)),
        i,
    )
}

pub open spec fn build_index_to(data: Seq<AirportView>, n: int) -> Seq<(SearchKeyView, usize)>
    decreases n,
{
    if n <= 0 {
        Seq::empty()
    } else {
        insert_record(build_index_to(data, n - 1), data[n - 1], (n - 1) as usize)
    }
}

/// The index that one pass over the record store builds, inserting the four
/// keys of each record first-write-wins.
pub open spec fn build_index(data: Seq<AirportView>) -> Seq<(SearchKeyView, usize)> {
    build_index_to(data, data.len() as int)
}

proof fn lemma_insert_key_bounds(index: Seq<(SearchKeyView, usize)>, k: SearchKeyView, i: usize, b: int)
    requires
        forall|j: int| 0 <= j < index.len() ==> (#[trigger] index[j]).1 < b,
        i < b,
    ensures
        forall|j: int|
            0 <= j < insert_key(index, k, i).len() ==> (#[trigger] insert_key(index, k, i)[j]).1
                < b,
{
}

proof fn lemma_build_index_bounds(data: Seq<AirportView>, n: int)
    requires
        0 <= n <= data.len(),
    ensures
        forall|j: int|
            0 <= j < build_index_to(data, n).len() ==> (#[trigger] build_index_to(data, n)[j]).1
                < n,
        n == 0 ==> build_index_to(data, n).len() == 0,
    decreases n,
{
    if n > 0 {
        lemma_build_index_bounds(data, n - 1);
        let prev = build_index_to(data, n - 1);
        let a = data[n - 1];
        let i = (n - 1) as usize;
        assert(forall|j: int| 0 <= j < prev.len() ==> (#[trigger] prev[j]).1 < n);
        let s1 = insert_key(prev, SearchKeyView::Id(a.id), i);
        lemma_insert_key_bounds(prev, SearchKeyView::Id(a.id), i, n);
        let s2 = insert_key(s1, SearchKeyView::Iata(canon_upper(a.iata)), i);
        lemma_insert_key_bounds(s1, SearchKeyView::Iata(canon_upper(a.iata)), i, n);
        let s3 = insert_key(s2, SearchKeyView::Icao(canon_upper(a.icao)), i);
        lemma_insert_key_bounds(s2, SearchKeyView::Icao(canon_upper(a.icao)), i, n);
        lemma_insert_key_bounds(s3, SearchKeyView::Name(canon_upper(a.name)), i, n);
    }
}

proof fn lemma_find_key_some(index: Seq<(SearchKeyView, usize)>, k: SearchKeyView)
    requires
        find_key(index, k) is Some,
    ensures
        exists|j: int|
            0 <= j < index.len() && #[trigger] index[j].0 == k && index[j].1 == find_key(index, k)->Some_0,
    decreases index.len(),
{
    if index.len() > 0 && !(index[0].0 == k) {
        lemma_find_key_some(index.drop_first(), k);
        let j0 = choose|j: int|
            0 <= j < index.drop_first().len() && #[trigger] index.drop_first()[j].0 == k
                && index.drop_first()[j].1 == find_key(index.drop_first(), k)->Some_0;
        assert(index[j0 + 1].0 == k);
    }
}

proof fn lemma_find_key_skip(index: Seq<(SearchKeyView, usize)>, k: SearchKeyView, i: int)
    requires
        0 <= i <= index.len(),
        forall|j: int| 0 <= j < i ==> (#[trigger] index[j]).0 != k,
    ensures
        find_key(index, k) == find_key(index.subrange(i, index.len() as int), k),
    decreases i,
{
    if i == 0 {
        assert(index.subrange(0, index.len() as int) =~= index);
    } else {
        let rest = index.drop_first();
        assert(rest =~= index.subrange(1, index.len() as int));
        lemma_find_key_skip(rest, k, i - 1);
        assert(rest.subrange(i - 1, rest.len() as int) =~= index.subrange(
            i,
            index.len() as int,
        ));
    }
}

/// The record store with its multi-key index: built once, read-only
/// afterwards.
#[derive(Debug)]
pub struct Airports {
    data: Vec<Airport>,
    index: Vec<(SearchKey, usize)>,
}

/// The mathematical content of `Airports`.
pub struct AirportsView {
    pub data: Seq<AirportView>,
    pub index: Seq<(SearchKeyView, usize)>,
}

impl View for Airports {
    type V = AirportsView;

    closed spec fn view(&self) -> AirportsView {
        AirportsView {
            data: self.data@.map_values(|a: Airport| a@),
            index: self.index@.map_values(|p: (SearchKey, usize)| (p.0@, p.1)),
        }
    }
}

/// Exact lookup: parse the query to a key, then find the key's mapping.
pub open spec fn search_spec(db: AirportsView, q: Seq<char>) -> Result<int, AirportSearchError> {
    match parse_query_spec(q) {
        Err(e) => Err(e),
        Ok(k) => match find_key(db.index, k) {
            Some(i) => Ok(i as int),
            None => Err(AirportSearchError::AirportNotFound),
        },
    }
}

impl Airports {
    /// The index is exactly what one build pass over the record store
    /// produces.
    pub open spec fn wf(&self) -> bool {
        self@.index == build_index(self@.data)
    }

    pub(crate) fn find(&self, key: &SearchKey) -> (r: Option<usize>)
        ensures
            r == find_key(self@.index, key@),
    {
        let ghost iv = self@.index;
        let n = self.index.len();
        let mut j: usize = 0;
        loop
            invariant
                0 <= j <= n,
                n == self.index@.len(),
                iv == self@.index,
                iv.len() == n,
                forall|m: int| 0 <= m < j ==> (#[trigger] iv[m]).0 != key@,
            ensures
                0 <= j <= n,
                forall|m: int| 0 <= m < j ==> (#[trigger] iv[m]).0 != key@,
                j < n ==> iv[j as int].0 == key@,
            decreases n - j,
        {
            if j >= n {
                break ;
            }
            let p = &self.index[j];
            if p.0.key_eq(key) {
                break ;
            }
            j = j + 1;
        }
        proof {
            lemma_find_key_skip(iv, key@, j as int);
        }
        if j < n {
            let p = &self.index[j];
            proof {
                assert(iv.subrange(j as int, iv.len() as int)[0] == iv[j as int]);
            }
            Some(p.1)
        } else {
            proof {
                assert(iv.subrange(j as int, iv.len() as int).len() == 0);
            }
            None
        }
    }

    fn insert_if_absent(index: &mut Vec<(SearchKey, usize)>, key: SearchKey, i: usize)
        ensures
            final(index)@.map_values(|p: (SearchKey, usize)| (p.0@, p.1)) == insert_key(
                old(index)@.map_values(|p: (SearchKey, usize)| (p.0@, p.1)),
                key@,
                i,
            ),
    {
        let ghost iv = index@.map_values(|p: (SearchKey, usize)| (p.0@, p.1));
        let n = index.len();
        let mut j: usize = 0;
        let mut present = false;
        loop
            invariant_except_break
                !present,
            invariant
                0 <= j <= n,
                n == index@.len(),
                iv == index@.map_values(|p: (SearchKey, usize)| (p.0@, p.1)),
                iv.len() == n,
                forall|m: int| 0 <= m < j ==> (#[trigger] iv[m]).0 != key@,
            ensures
                0 <= j <= n,
                forall|m: int| 0 <= m < j ==> (#[trigger] iv[m]).0 != key@,
                present ==> j < n && iv[j as int].0 == key@,
                !present ==> j == n,
                iv == index@.map_values(|p: (SearchKey, usize)| (p.0@, p.1)),
                n == index@.len(),
            decreases n - j,
        {
            if j >= n {
                break ;
            }
            let p = &index[j];
            if p.0.key_eq(&key) {
                present = true;
                break ;
            }
            j = j + 1;
        }
        proof {
            lemma_find_key_skip(iv, key@, j as int);
        }
        if present {
            proof {
                assert(iv.subrange(j as int, iv.len() as int)[0] == iv[j as int]);
                assert(find_key(iv, key@) is Some);
            }
        } else {
            proof {
                assert(iv.subrange(j as int, iv.len() as int).len() == 0);
                assert(find_key(iv, key@) is None);
            }
            index.push((key, i));
            proof {
                assert(index@.map_values(|p: (SearchKey, usize)| (p.0@, p.1)) =~= iv.push(
                    (key@, i),
                ));
            }
        }
    }

    /// Build the store and its index from the decoded record sequence: for
    /// each record in order, insert its identifier, short code, long code and
    /// name keys, first-write-wins.
    pub fn new(data: Vec<Airport>) -> (r: Airports)
        ensures
            r.wf(),
            r@.data == data@.map_values(|a: Airport| a@),
    {
        let ghost dv = data@.map_values(|a: Airport| a@);
        let mut index: Vec<(SearchKey, usize)> = Vec::new();
        proof {
            assert(index@.map_values(|p: (SearchKey, usize)| (p.0@, p.1)) =~= Seq::<
                (SearchKeyView, usize),
            >::empty());
        }
        let n = data.len();
        let mut i: usize = 0;
        while i < n
            invariant
                0 <= i <= n,
                n == data@.len(),
                dv == data@.map_values(|a: Airport| a@),
                index@.map_values(|p: (SearchKey, usize)| (p.0@, p.1)) == build_index_to(
                    dv,
                    i as int,
                ),
            decreases n - i,
        {
            let ap = &data[i];
            proof {
                assert(ap@ == dv[i as int]);
            }
            Self::insert_if_absent(&mut index, SearchKey::from_id(ap.id), i);
            Self::insert_if_absent(&mut index, SearchKey::from_iata(ap.iata.clone()), i);
            Self::insert_if_absent(&mut index, SearchKey::from_icao(ap.icao.clone()), i);
            Self::insert_if_absent(&mut index, SearchKey::from_name(ap.name.clone()), i);
            i = i + 1;
        }
        Airports { data, index }
    }

    /// Exact lookup of a record by a query string.
    pub fn search<'a>(&'a self, s: &str) -> (r: Result<&'a Airport, AirportSearchError>)
        requires
            self.wf(),
        ensures
            search_spec(self@, s@) matches Ok(i) ==> (r matches Ok(a) && 0 <= i
                < self@.data.len() && a@ == self@.data[i]),
            search_spec(self@, s@) matches Err(e) ==> (r matches Err(e2) && e2 == e),
    {
        let ctx = match QueryCtx::parse(s) {
            Ok(c) => c,
            Err(e) => {
                return Err(e);
            },
        };
        let key = match ctx.into_key() {
            Some(k) => k,
            None => {
                return Err(AirportSearchError::InvalidQueryType);
            },
        };
        match self.find(&key) {
            Some(i) => {
                proof {
                    lemma_find_key_some(self@.index, key@);
                    lemma_build_index_bounds(self@.data, self@.data.len() as int);
                }
                Ok(&self.data[i])
            },
            None => Err(AirportSearchError::AirportNotFound),
        }
    }

    /// The record store (read-only).
    pub fn data(&self) -> (r: &Vec<Airport>)
        ensures
            r@.map_values(|a: Airport| a@) == self@.data,
    {
        &self.data
    }

    /// The key-to-position index (read-only).
    pub fn index(&self) -> (r: &Vec<(SearchKey, usize)>)
        ensures
            r@.map_values(|p: (SearchKey, usize)| (p.0@, p.1)) == self@.index,
    {
        &self.index
    }
}

// ---------------------------------------------------------------------------
// Fuzzy suggestion
// ---------------------------------------------------------------------------

/// The IEEE-754 bit pattern of the `f32` value 1.0: the similarity score of
/// an exact match.
pub const SIM_EXACT: u32 = 0x3F80_0000;

/// The (bit pattern of the) Jaro-Winkler score of two unequal strings: a
/// function of the two strings alone.
pub uninterp spec fn jw_score(a: Seq<char>, b: Seq<char>) -> u32;

/// The similarity score of two strings: exactly 1.0 when they are equal, the
/// Jaro-Winkler score otherwise. Scores are carried as the bit pattern of the
/// (non-negative) `f32` score, on which the unsigned order coincides with the
/// numeric order of the scores.
pub open spec fn similarity_spec(a: Seq<char>, b: Seq<char>) -> u32 {
    if a == b {
        SIM_EXACT
    } else {
        jw_score(a, b)
    }
}

/// Relies on `jaro_winkler::jaro_winkler`: the score depends on the two
/// strings alone, lies in [0.0, 1.0], and is exactly 1.0 for equal strings.
#[verifier::external_body]
fn similarity_bits(a: &str, b: &str) -> (r: u32)
    ensures
        r == similarity_spec(a@, b@),
        r <= SIM_EXACT,
        a@ != b@ ==> r == jw_score(a@, b@),
{
    jaro_winkler::jaro_winkler(a, b).to_bits()
}

/// The string content of a key; identifier keys have none and are excluded
/// from fuzzy matching.
pub open spec fn key_string(k: SearchKeyView) -> Option<Seq<char>> {
    match k {
        SearchKeyView::Id(_) => None,
        SearchKeyView::Iata(v) => Some(v),
        SearchKeyView::Icao(v) => Some(v),
        SearchKeyView::Name(v) => Some(v),
    }
}

/// The canonical string a parsed key is scored against in fuzzy suggestion
/// (an identifier key is rendered as its decimal digits).
pub open spec fn suggest_target(k: SearchKeyView) -> Seq<char> {
    match k {
        SearchKeyView::Id(n) => dec_digits(n as int),
        SearchKeyView::Iata(v) => v,
        SearchKeyView::Icao(v) => v,
        SearchKeyView::Name(v) => v,
    }
}

/// The scored candidates over the first `n` index entries: one per
/// string-keyed entry, pairing the indexed record with the similarity of the
/// entry's key string to the query string `su`.
pub open spec fn cand_to(
    index: Seq<(SearchKeyView, usize)>,
    data: Seq<AirportView>,
    su: Seq<char>,
    n: int,
) -> Seq<(AirportView, u32)>
    decreases n,
{
    if n <= 0 {
        Seq::empty()
    } else {
        let pre = cand_to(index, data, su, n - 1);
        match key_string(index[n - 1].0) {
            None => pre,
            Some(ks) => pre.push((data[index[n - 1].1 as int], similarity_spec(ks, su))),
        }
    }
}

/// All scored candidates of a suggestion pass for the query string `su`.
pub open spec fn candidates(db: AirportsView, su: Seq<char>) -> Seq<(AirportView, u32)> {
    cand_to(db.index, db.data, su, db.index.len() as int)
}

/// Every retained score is at least `b`.
pub open spec fn all_at_least(hp: Seq<(AirportView, u32)>, b: u32) -> bool {
    forall|j: int| 0 <= j < hp.len() ==> b <= (#[trigger] hp[j]).1
}

/// The bounded top-K selection invariant: the retained pairs are among the
/// candidates, exactly min(K, #candidates) many are retained, below capacity
/// the retained pairs are exactly the candidates, and every candidate not
/// retained scores no higher than any retained one.
pub open spec fn topk_inv(cands: Seq<(AirportView, u32)>, hp: Seq<(AirportView, u32)>) -> bool {
    &&& hp.to_multiset().subset_of(cands.to_multiset())
    &&& hp.len() == int_min(cands.len() as int, MAX_SUGGESTIONS as int)
    &&& cands.len() <= MAX_SUGGESTIONS ==> hp.to_multiset() == cands.to_multiset()
    &&& forall|p: (AirportView, u32)|
        #![trigger cands.to_multiset().count(p)]
        cands.to_multiset().count(p) > hp.to_multiset().count(p) ==> all_at_least(hp, p.1)
}

/// One retention step keeps the top-K selection invariant: `mi` points at a
/// minimally-scored retained pair; the candidate `c` is appended below
/// capacity, replaces that minimum when it scores strictly higher, and is
/// discarded otherwise.
proof fn lemma_topk_step(
    cands: Seq<(AirportView, u32)>,
    hp_old: Seq<(AirportView, u32)>,
    hp_new: Seq<(AirportView, u32)>,
    c: (AirportView, u32),
    mi: int,
)
    requires
        topk_inv(cands, hp_old),
        hp_old.len() < MAX_SUGGESTIONS ==> hp_new == hp_old.push(c),
        hp_old.len() >= MAX_SUGGESTIONS ==> 0 <= mi < hp_old.len() && (forall|j: int|
            0 <= j < hp_old.len() ==> hp_old[mi].1 <= (#[trigger] hp_old[j]).1),
        hp_old.len() >= MAX_SUGGESTIONS && c.1 > hp_old[mi].1 ==> hp_new == hp_old.remove(
            mi,
        ).push(c),
        hp_old.len() >= MAX_SUGGESTIONS && c.1 <= hp_old[mi].1 ==> hp_new == hp_old,
    ensures
        topk_inv(cands.push(c), hp_new),
{
    broadcast use vstd::multiset::group_multiset_axioms;

    let cn = cands.push(c);
    vstd::seq_lib::to_multiset_build(cands, c);
    if hp_old.len() < MAX_SUGGESTIONS {
        // below capacity the retained pairs equal the candidates exactly
        assert(cands.len() == hp_old.len());
        vstd::seq_lib::to_multiset_build(hp_old, c);
        assert(hp_new.to_multiset() =~= cn.to_multiset());
        assert(forall|p: (AirportView, u32)| #![trigger cn.to_multiset().count(p)]
            cn.to_multiset().count(p) <= hp_new.to_multiset().count(p));
    } else {
        let pm = hp_old[mi];
        if c.1 > pm.1 {
            vstd::seq_lib::to_multiset_remove(hp_old, mi);
            vstd::seq_lib::to_multiset_build(hp_old.remove(mi), c);
            assert(hp_new.to_multiset() =~= hp_old.to_multiset().remove(pm).insert(c));
            assert(hp_old.contains(pm));
            vstd::seq_lib::to_multiset_contains(hp_old, pm);
            assert(hp_old.to_multiset().count(pm) > 0);
            // (a) the retained pairs stay among the candidates
            assert forall|p: (AirportView, u32)|
                #[trigger] hp_new.to_multiset().count(p) <= cn.to_multiset().count(p) by {
                assert(hp_old.to_multiset().count(p) <= cands.to_multiset().count(p));
            }
            // (b) the count stays at capacity
            assert(hp_new.len() == hp_old.len());
            // (c) every excess candidate scores at most every retained pair
            assert forall|p: (AirportView, u32)|
                #![trigger cn.to_multiset().count(p)]
                cn.to_multiset().count(p) > hp_new.to_multiset().count(p) implies all_at_least(
                hp_new,
                p.1,
            ) by {
                // either p already had excess among the old candidates, or p
                // is the evicted minimum
                if cands.to_multiset().count(p) > hp_old.to_multiset().count(p) {
                    assert(all_at_least(hp_old, p.1));
                    assert(p.1 <= pm.1);
                } else {
                    assert(p == pm);
                }
                assert(p.1 <= pm.1);
                assert forall|j: int| 0 <= j < hp_new.len() implies p.1 <= (#[trigger] hp_new[j]).1 by {
                    if j < hp_new.len() - 1 {
                        assert(hp_new[j] == hp_old.remove(mi)[j]);
                        assert(hp_old.remove(mi)[j] == if j < mi {
                            hp_old[j]
                        } else {
                            hp_old[j + 1]
                        });
                    } else {
                        assert(hp_new[j] == c);
                    }
                }
            }
        } else {
            // the candidate is discarded: it scores at most the retained
            // minimum, hence at most every retained pair
            assert forall|p: (AirportView, u32)|
                #![trigger cn.to_multiset().count(p)]
                cn.to_multiset().count(p) > hp_new.to_multiset().count(p) implies all_at_least(
                hp_new,
                p.1,
            ) by {
                if cands.to_multiset().count(p) > hp_old.to_multiset().count(p) {
                    assert(all_at_least(hp_old, p.1));
                } else {
                    assert(p == c);
                    assert(forall|j: int|
                        0 <= j < hp_old.len() ==> p.1 <= (#[trigger] hp_old[j]).1);
                }
            }
        }
    }
}

impl Airports {
    /// Fuzzy lookup: score every string-keyed index entry against the
    /// canonicalized query and keep the best `MAX_SUGGESTIONS`, ordered by
    /// descending similarity. The result is an exact top-K selection: no
    /// candidate left out scores strictly higher than any returned one.
    pub fn suggest(&self, s: &str) -> (r: Result<Vec<Suggestion<Airport>>, AirportSearchError>)
        requires
            self.wf(),
        ensures
            parse_query_spec(s@) matches Err(e) ==> (r matches Err(e2) && e2 == e),
            parse_query_spec(s@) matches Ok(k) ==> (r matches Ok(v) && {
                let cands = candidates(self@, suggest_target(k));
                let rv = sugg_pairs(v@);
                &&& v@.len() == int_min(cands.len() as int, MAX_SUGGESTIONS as int)
                &&& sorted_desc(v@)
                &&& rv.to_multiset().subset_of(cands.to_multiset())
                &&& forall|p: (AirportView, u32)|
                    #![trigger cands.to_multiset().count(p)]
                    cands.to_multiset().count(p) > rv.to_multiset().count(p) ==> all_at_least(
                        rv,
                        p.1,
                    )
            }),
    {
        let ctx = match QueryCtx::parse(s) {
            Ok(c) => c,
            Err(e) => {
                return Err(e);
            },
        };
        let key = match ctx.into_key() {
            Some(k) => k,
            None => {
                return Err(AirportSearchError::InvalidQueryType);
            },
        };
        let su: String = match &key {
            SearchKey::Id(v) => u16_to_string(v.0),
            SearchKey::Iata(v) => v.0.clone(),
            SearchKey::Icao(v) => v.0.clone(),
            SearchKey::Name(v) => v.0.clone(),
        };
        assert(su@ == suggest_target(key@));
        let ghost dbv = self@;
        let ghost suv = su@;
        proof {
            lemma_build_index_bounds(dbv.data, dbv.data.len() as int);
            assert(cand_to(dbv.index, dbv.data, suv, 0) =~= Seq::<(AirportView, u32)>::empty());
            let hp0 = sugg_pairs(Seq::<Suggestion<Airport>>::empty());
            assert(hp0 =~= Seq::<(AirportView, u32)>::empty());
            vstd::seq_lib::to_multiset_len(hp0);
            vstd::multiset::lemma_multiset_empty_len(hp0.to_multiset());
        }
        let n = self.index.len();
        let mut heap: Vec<Suggestion<Airport>> = Vec::new();
        proof {
            assert(sugg_pairs(heap@) =~= Seq::<(AirportView, u32)>::empty());
            vstd::seq_lib::to_multiset_len(sugg_pairs(heap@));
            vstd::multiset::lemma_multiset_empty_len(sugg_pairs(heap@).to_multiset());
            vstd::seq_lib::to_multiset_len(cand_to(dbv.index, dbv.data, suv, 0));
            vstd::multiset::lemma_multiset_empty_len(
                cand_to(dbv.index, dbv.data, suv, 0).to_multiset(),
            );
            assert(topk_inv(cand_to(dbv.index, dbv.data, suv, 0), sugg_pairs(heap@)));
        }
        let mut i: usize = 0;
        while i < n
            invariant
                0 <= i <= n,
                n == self.index@.len(),
                dbv == self@,
                suv == su@,
                dbv.index.len() == n,
                dbv.data.len() == self.data@.len(),
                forall|j: int|
                    0 <= j < dbv.index.len() ==> (#[trigger] dbv.index[j]).1 < dbv.data.len(),
                topk_inv(cand_to(dbv.index, dbv.data, suv, i as int), sugg_pairs(heap@)),
            decreases n - i,
        {
            let ghost pre = cand_to(dbv.index, dbv.data, suv, i as int);
            let ghost post = cand_to(dbv.index, dbv.data, suv, i + 1);
            let ghost hs_old = heap@;
            let p = &self.index[i];
            proof {
                assert((p.0@, p.1) == dbv.index[i as int]);
            }
            let idx = p.1;
            match &p.0 {
                SearchKey::Id(_) => {
                    proof {
                        assert(post == pre);
                    }
                },
                SearchKey::Iata(v) => {
                    let sim = similarity_bits(v.0.as_str(), su.as_str());
                    let item = self.data[idx].clone();
                    let ghost g = Suggestion { item: item, similarity: sim };
                    let ghost c = (g.item@, g.similarity);
                    queue_suggestions(&mut heap, item, sim);
                    proof {
                        lemma_suggest_step(pre, post, hs_old, heap@, g, c);
                    }
                },
                SearchKey::Icao(v) => {
                    let sim = similarity_bits(v.0.as_str(), su.as_str());
                    let item = self.data[idx].clone();
                    let ghost g = Suggestion { item: item, similarity: sim };
                    let ghost c = (g.item@, g.similarity);
                    queue_suggestions(&mut heap, item, sim);
                    proof {
                        lemma_suggest_step(pre, post, hs_old, heap@, g, c);
                    }
                },
                SearchKey::Name(v) => {
                    let sim = similarity_bits(v.0.as_str(), su.as_str());
                    let item = self.data[idx].clone();
                    let ghost g = Suggestion { item: item, similarity: sim };
                    let ghost c = (g.item@, g.similarity);
                    queue_suggestions(&mut heap, item, sim);
                    proof {
                        lemma_suggest_step(pre, post, hs_old, heap@, g, c);
                    }
                },
            }
            i = i + 1;
        }
        let ghost cands = candidates(dbv, suv);
        proof {
            assert(cand_to(dbv.index, dbv.data, suv, n as int) == cands);
        }
        let sorted = sort_suggestions_desc(heap);
        proof {
            vstd::seq_lib::to_multiset_len(sugg_pairs(sorted@));
            vstd::seq_lib::to_multiset_len(sugg_pairs(heap@));
            lemma_all_at_least_transfer(sugg_pairs(heap@), sugg_pairs(sorted@), cands);
        }
        Ok(sorted)
    }
}

/// The step proof shared by the three string-keyed arms of the suggestion
/// loop: converts the value-level transition of `queue_suggestions` into the
/// pair-level transition of `lemma_topk_step`.
proof fn lemma_suggest_step(
    pre: Seq<(AirportView, u32)>,
    post: Seq<(AirportView, u32)>,
    hs_old: Seq<Suggestion<Airport>>,
    hs_new: Seq<Suggestion<Airport>>,
    g: Suggestion<Airport>,
    c: (AirportView, u32),
)
    requires
        topk_inv(pre, sugg_pairs(hs_old)),
        post == pre.push(c),
        c == (g.item@, g.similarity),
        hs_old.len() < MAX_SUGGESTIONS ==> hs_new == hs_old.push(g),
        hs_old.len() >= MAX_SUGGESTIONS && g.similarity > hs_old[min_sim_idx(
            hs_old,
        )].similarity ==> hs_new == hs_old.remove(min_sim_idx(hs_old)).push(g),
        hs_old.len() >= MAX_SUGGESTIONS && g.similarity <= hs_old[min_sim_idx(
            hs_old,
        )].similarity ==> hs_new == hs_old,
    ensures
        topk_inv(post, sugg_pairs(hs_new)),
{
    let hp_old = sugg_pairs(hs_old);
    if hs_old.len() < MAX_SUGGESTIONS {
        lemma_sugg_pairs_push(hs_old, g);
        lemma_topk_step(pre, hp_old, sugg_pairs(hs_new), c, 0);
    } else {
        lemma_min_sim_idx(hs_old);
        let mi = min_sim_idx(hs_old);
        assert(forall|j: int| 0 <= j < hp_old.len() ==> hp_old[mi].1 <= (#[trigger] hp_old[j]).1)
            by {
            assert(forall|j: int|
                0 <= j < hs_old.len() ==> (#[trigger] hp_old[j]).1 == hs_old[j].similarity);
        }
        if g.similarity > hs_old[mi].similarity {
            lemma_sugg_pairs_remove(hs_old, mi);
            lemma_sugg_pairs_push(hs_old.remove(mi), g);
            assert(sugg_pairs(hs_new) == hp_old.remove(mi).push(c));
        }
        lemma_topk_step(pre, hp_old, sugg_pairs(hs_new), c, mi);
    }
}

/// Multiset-equal pair sequences admit the same lower bounds, so the sorted
/// output keeps the selection property of the unsorted buffer.
proof fn lemma_all_at_least_transfer(
    s1: Seq<(AirportView, u32)>,
    s2: Seq<(AirportView, u32)>,
    cands: Seq<(AirportView, u32)>,
)
    requires
        s1.to_multiset() == s2.to_multiset(),
    ensures
        forall|b: u32| all_at_least(s1, b) ==> #[trigger] all_at_least(s2, b),
{
    assert forall|b: u32| all_at_least(s1, b) implies #[trigger] all_at_least(s2, b) by {
        assert forall|j: int| 0 <= j < s2.len() implies b <= (#[trigger] s2[j]).1 by {
            assert(s2.contains(s2[j]));
            vstd::seq_lib::to_multiset_contains(s2, s2[j]);
            vstd::seq_lib::to_multiset_contains(s1, s2[j]);
            assert(s1.contains(s2[j]));
            let k = choose|k: int| 0 <= k < s1.len() && s1[k] == s2[j];
            assert(b <= s1[k].1);
        }
    }
}

// ---------------------------------------------------------------------------
// Laws
// ---------------------------------------------------------------------------

proof fn lemma_find_key_push(
    s: Seq<(SearchKeyView, usize)>,
    p: (SearchKeyView, usize),
    k: SearchKeyView,
)
    ensures
        find_key(s.push(p), k) == match find_key(s, k) {
            Some(v) => Some(v),
            None => if p.0 == k {
                Some(p.1)
            } else {
                None
            },
        },
    decreases s.len(),
{
    if s.len() == 0 {
        assert(s.push(p)[0] == p);
        assert(s.push(p).drop_first() =~= Seq::<(SearchKeyView, usize)>::empty());
        if p.0 == k {
            assert(find_key(s.push(p), k) == Some(p.1));
        } else {
            assert(find_key(s.push(p), k) == find_key(s.push(p).drop_first(), k));
        }
    } else {
        assert(s.push(p)[0] == s[0]);
        assert(s.push(p).drop_first() =~= s.drop_first().push(p));
        lemma_find_key_push(s.drop_first(), p, k);
        if s[0].0 == k {
            assert(find_key(s.push(p), k) == Some(s[0].1));
            assert(find_key(s, k) == Some(s[0].1));
        } else {
            assert(find_key(s.push(p), k) == find_key(s.drop_first().push(p), k));
            assert(find_key(s, k) == find_key(s.drop_first(), k));
        }
    }
}

proof fn lemma_insert_key_find(
    s: Seq<(SearchKeyView, usize)>,
    k: SearchKeyView,
    i: usize,
    k2: SearchKeyView,
)
    ensures
        find_key(insert_key(s, k, i), k2) == if k2 == k && find_key(s, k) is None {
            Some(i)
        } else {
            find_key(s, k2)
        },
{
    if find_key(s, k) is None {
        lemma_find_key_push(s, (k, i), k2);
    }
}

proof fn lemma_insert_record_find(
    s: Seq<(SearchKeyView, usize)>,
    a: AirportView,
    i: usize,
    k: SearchKeyView,
)
    ensures
        record_keys(a).contains(k) && find_key(s, k) is None ==> find_key(
            insert_record(s, a, i),
            k,
        ) == Some(i),
        !record_keys(a).contains(k) ==> find_key(insert_record(s, a, i), k) == find_key(s, k),
        find_key(s, k) is Some ==> find_key(insert_record(s, a, i), k) == find_key(s, k),
{
    let k0 = SearchKeyView::Id(a.id);
    let k1 = SearchKeyView::Iata(canon_upper(a.iata));
    let k2 = SearchKeyView::Icao(canon_upper(a.icao));
    let k3 = SearchKeyView::Name(canon_upper(a.name));
    let s0 = insert_key(s, k0, i);
    let s1 = insert_key(s0, k1, i);
    let s2 = insert_key(s1, k2, i);
    lemma_insert_key_find(s, k0, i, k);
    lemma_insert_key_find(s0, k1, i, k);
    lemma_insert_key_find(s1, k2, i, k);
    lemma_insert_key_find(s2, k3, i, k);
    lemma_insert_key_find(s, k0, i, k0);
    lemma_insert_key_find(s0, k1, i, k1);
    lemma_insert_key_find(s1, k2, i, k2);
    lemma_insert_key_find(s2, k3, i, k3);
    lemma_insert_key_find(s0, k1, i, k0);
    lemma_insert_key_find(s1, k2, i, k0);
    lemma_insert_key_find(s2, k3, i, k0);
    lemma_insert_key_find(s1, k2, i, k1);
    lemma_insert_key_find(s2, k3, i, k1);
    lemma_insert_key_find(s2, k3, i, k2);
    if record_keys(a).contains(k) {
        assert(record_keys(a)[0] == k0);
        assert(record_keys(a)[1] == k1);
        assert(record_keys(a)[2] == k2);
        assert(record_keys(a)[3] == k3);
        assert(k == k0 || k == k1 || k == k2 || k == k3);
    } else {
        assert(k != k0 && k != k1 && k != k2 && k != k3) by {
            assert(record_keys(a)[0] == k0);
            assert(record_keys(a)[1] == k1);
            assert(record_keys(a)[2] == k2);
            assert(record_keys(a)[3] == k3);
        }
    }
}

proof fn lemma_build_index_unreached(data: Seq<AirportView>, k: SearchKeyView, n: int)
    requires
        0 <= n <= data.len(),
        forall|j: int| 0 <= j < n ==> !record_keys(#[trigger] data[j]).contains(k),
    ensures
        find_key(build_index_to(data, n), k) is None,
    decreases n,
{
    if n > 0 {
        lemma_build_index_unreached(data, k, n - 1);
        lemma_insert_record_find(build_index_to(data, n - 1), data[n - 1], (n - 1) as usize, k);
    }
}

proof fn lemma_build_index_first_write(data: Seq<AirportView>, i: int, k: SearchKeyView, n: int)
    requires
        0 <= i < n <= data.len(),
        record_keys(data[i]).contains(k),
        forall|j: int| 0 <= j < i ==> !record_keys(#[trigger] data[j]).contains(k),
    ensures
        find_key(build_index_to(data, n), k) == Some(i as usize),
    decreases n,
{
    if n == i + 1 {
        lemma_build_index_unreached(data, k, i);
        lemma_insert_record_find(build_index_to(data, i), data[i], i as usize, k);
    } else {
        lemma_build_index_first_write(data, i, k, n - 1);
        lemma_insert_record_find(build_index_to(data, n - 1), data[n - 1], (n - 1) as usize, k);
    }
}

/// The collision policy of the index: a key maps to the first record (in
/// store order) that exposes it, so records inserted later are unreachable
/// under any key an earlier record already claimed.
pub proof fn lemma_first_write_wins(data: Seq<AirportView>, i: int, k: SearchKeyView)
    requires
        0 <= i < data.len(),
        record_keys(data[i]).contains(k),
        forall|j: int| 0 <= j < i ==> !record_keys(#[trigger] data[j]).contains(k),
    ensures
        find_key(build_index(data), k) == Some(i as usize),
{
    lemma_build_index_first_write(data, i, k, data.len() as int);
}

/// The parse pipeline is case-insensitive on ASCII queries: a query, its
/// ASCII uppercase form and its ASCII lowercase form parse to the same search
/// key (or fail alike).
pub proof fn lemma_parse_case_insensitive(q: Seq<char>)
    requires
        seq_is_ascii(q),
    ensures
        parse_query_spec(ascii_upper(q)) == parse_query_spec(q),
        parse_query_spec(ascii_lower(q)) == parse_query_spec(q),
{
    let t = trim_spec(q);
    lemma_trim_ascii(q);
    lemma_trim_case(q);
    lemma_ascii_case_seq(q);
    lemma_ascii_case_seq(t);
    let tu = trim_spec(ascii_upper(q));
    let tl = trim_spec(ascii_lower(q));
    assert(tu == ascii_upper(t));
    assert(tl == ascii_lower(t));
    // the canonicalized query core is the same in all three pipelines
    assert(canon_upper(t) == ascii_upper(t));
    assert(seq_is_ascii(tu));
    assert(canon_upper(tu) == ascii_upper(ascii_upper(t)));
    assert(seq_is_ascii(tl));
    assert(canon_upper(tl) == ascii_upper(ascii_lower(t)));
    let u = canon_upper(t);
    assert(canon_upper(tu) == u);
    assert(canon_upper(tl) == u);
    if !has_colon(u) {
        // the free-form grammar is case-blind: lengths, decimal parsing and
        // canonicalization all agree
        lemma_parse_u16_case(t);
        assert(tu.len() == t.len());
        assert(tl.len() == t.len());
        assert(key_of_query(QueryKeyView::All(tu)) == key_of_query(QueryKeyView::All(t)));
        assert(key_of_query(QueryKeyView::All(tl)) == key_of_query(QueryKeyView::All(t)));
    }
}

/// Case-insensitivity of exact lookup on ASCII queries: the query, its ASCII
/// uppercase form and its ASCII lowercase form find the same record (or fail
/// with the same error).
pub proof fn lemma_search_case_insensitive(db: AirportsView, q: Seq<char>)
    requires
        seq_is_ascii(q),
    ensures
        search_spec(db, ascii_upper(q)) == search_spec(db, q),
        search_spec(db, ascii_lower(q)) == search_spec(db, q),
{
    lemma_parse_case_insensitive(q);
}

proof fn lemma_cand_contains(
    index: Seq<(SearchKeyView, usize)>,
    data: Seq<AirportView>,
    su: Seq<char>,
    j: int,
    n: int,
)
    requires
        0 <= j < n <= index.len(),
        key_string(index[j].0) is Some,
    ensures
        cand_to(index, data, su, n).contains(
            (data[index[j].1 as int], similarity_spec(key_string(index[j].0)->Some_0, su)),
        ),
    decreases n,
{
    let c = (data[index[j].1 as int], similarity_spec(key_string(index[j].0)->Some_0, su));
    if j == n - 1 {
        let pre = cand_to(index, data, su, n - 1);
        assert(cand_to(index, data, su, n) == pre.push(c));
        assert(cand_to(index, data, su, n)[pre.len() as int] == c);
    } else {
        lemma_cand_contains(index, data, su, j, n - 1);
        let pre = cand_to(index, data, su, n - 1);
        let w = choose|w: int| 0 <= w < pre.len() && pre[w] == c;
        assert(cand_to(index, data, su, n)[w] == c);
    }
}

/// Exact-then-fuzzy: when exact lookup succeeds, the key it matched is the
/// suggestion target of the same query and scores exactly 1.0 against it;
/// for a string-keyed query the matched record therefore appears among the
/// fuzzy candidates with the exact-match score.
pub proof fn lemma_exact_match_full_similarity(db: AirportsView, q: Seq<char>)
    requires
        search_spec(db, q) is Ok,
    ensures
        parse_query_spec(q) is Ok,
        similarity_spec(
            suggest_target(parse_query_spec(q)->Ok_0),
            suggest_target(parse_query_spec(q)->Ok_0),
        ) == SIM_EXACT,
        key_string(parse_query_spec(q)->Ok_0) is Some ==> candidates(
            db,
            suggest_target(parse_query_spec(q)->Ok_0),
        ).contains((db.data[search_spec(db, q)->Ok_0], SIM_EXACT)),
{
    let k = parse_query_spec(q)->Ok_0;
    if key_string(k) is Some {
        lemma_find_key_some(db.index, k);
        let j = choose|j: int|
            0 <= j < db.index.len() && #[trigger] db.index[j].0 == k && db.index[j].1 == find_key(
                db.index,
                k,
            )->Some_0;
        assert(key_string(k)->Some_0 == suggest_target(k));
        lemma_cand_contains(db.index, db.data, suggest_target(k), j, db.index.len() as int);
    }
}

} // verus!
