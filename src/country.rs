//! Country records and the filter that builds the record store.
//!
//! A country is a quiz subject: its numeric code `ccn3` is its identity, its
//! common name is what the player picks, and its capital is what a question
//! is phrased around.

use vstd::prelude::*;
use crate::text::{contains, is_substring};

verus! {

/// The two names of a country as the source data gives them.
#[derive(Debug)]
pub struct Name {
    pub common: String,
    pub official: String,
}

/// A country as the source data gives it, with every capital it lists.
#[derive(Debug)]
pub struct SourceCountry {
    pub cca2: String,
    pub cca3: String,
    pub ccn3: String,
    pub name: Name,
    pub capital: Vec<String>,
}

/// One row of the flat record file.
#[derive(Debug)]
pub struct Country {
    pub cca2: String,
    pub cca3: String,
    pub ccn3: String,
    pub name_common: String,
    pub name_official: String,
    pub capital: String,
}

/// A capital can carry a question about its country: it is not empty, and
/// neither it nor the country's name holds the other.
pub open spec fn capital_fits(capital: Seq<char>, name: Seq<char>) -> bool {
    &&& capital.len() > 0
    &&& !is_substring(name, capital)
    &&& !is_substring(capital, name)
}

/// The capital that a flat record keeps of a source record: the first one
/// listed, or the empty string when none is.
pub open spec fn first_capital(capitals: Seq<String>) -> Seq<char> {
    if capitals.len() > 0 {
        capitals[0]@
    } else {
        Seq::empty()
    }
}

impl SourceCountry {
    /// `c` is the flat record of this source record.
    pub open spec fn flattens_to(&self, c: Country) -> bool {
        &&& c.cca2 == self.cca2
        &&& c.cca3 == self.cca3
        &&& c.ccn3 == self.ccn3
        &&& c.name_common == self.name.common
        &&& c.name_official == self.name.official
        &&& c.capital@ == first_capital(self.capital@)
    }
}

impl Country {
    /// The identity of the record: two records with the same key are the
    /// same quiz subject.
    pub open spec fn key(&self) -> Seq<char> {
        self.ccn3@
    }

    /// What the player is shown and picks.
    pub open spec fn display_name(&self) -> Seq<char> {
        self.name_common@
    }

    /// What a question is phrased around.
    pub open spec fn prompt(&self) -> Seq<char> {
        self.capital@
    }

    pub open spec fn has_valid_capital(&self) -> bool {
        capital_fits(self.capital@, self.name_common@)
    }

    /// Flattens a source record: its first capital is kept, or the empty
    /// string when it lists none.
    pub fn from_source(source: SourceCountry) -> (r: Country)
        ensures
            source.flattens_to(r),
    {
        let capital = if source.capital.len() > 0 {
            source.capital[0].clone()
        } else {
            String::new()
        };
        Country {
            cca2: source.cca2,
            cca3: source.cca3,
            ccn3: source.ccn3,
            capital,
            name_common: source.name.common,
            name_official: source.name.official,
        }
    }

    /// Whether the record can carry a question (see `capital_fits`).
    pub fn is_valid_capital(&self) -> (r: bool)
        ensures
            r == self.has_valid_capital(),
    {
        !self.capital.as_str().is_empty() && !contains(&self.capital, &self.name_common) && !contains(
            &self.name_common,
            &self.capital,
        )
    }
}

/// Records are equal when their keys are.
impl PartialEq for Country {
    fn eq(&self, other: &Country) -> (r: bool) {
        self.ccn3 == other.ccn3
    }
}

impl vstd::std_specs::cmp::PartialEqSpecImpl for Country {
    open spec fn obeys_eq_spec() -> bool {
        true
    }

    open spec fn eq_spec(&self, other: &Country) -> bool {
        self.key() == other.key()
    }
}

/// Flattens every source record, in order.
pub fn transform_from_source(source_countries: Vec<SourceCountry>) -> (r: Vec<Country>)
    ensures
        r.len() == source_countries.len(),
        forall|i: int| 0 <= i < r.len() ==> (#[trigger] source_countries[i]).flattens_to(r[i]),
{
    let ghost sources = source_countries@;
    let mut countries: Vec<Country> = Vec::new();
    for source_country in it: source_countries
        invariant
            it.seq() == sources,
            countries.len() == it.index(),
            forall|i: int| 0 <= i < countries.len() ==> (#[trigger] sources[i]).flattens_to(countries[i]),
    {
        let country = Country::from_source(source_country);
        countries.push(country);
    }
    countries
}

/// The record store built from `raw`: the records whose capital can carry a
/// question, in the order of `raw`.
pub open spec fn record_store(raw: Seq<Country>) -> Seq<Country> {
    raw.filter(|c: Country| c.has_valid_capital())
}

/// Builds the record store: keeps, in order, the records whose capital can
/// carry a question.
pub fn validate_countries(countries: Vec<Country>) -> (r: Vec<Country>)
    ensures
        r@ == record_store(countries@),
        forall|i: int| 0 <= i < r.len() ==> (#[trigger] r[i]).has_valid_capital(),
{
    let ghost raw = countries@;
    let ghost keep = |c: Country| c.has_valid_capital();
    let mut valid_countries: Vec<Country> = Vec::new();
    for country in it: countries
        invariant
            it.seq() == raw,
            it.index() <= raw.len(),
            keep == (|c: Country| c.has_valid_capital()),
            valid_countries@ == raw.take(it.index() as int).filter(keep),
    {
        let ghost i = it.index() as int;
        proof {
            assert(country == raw[i]);
            assert(raw.take(i + 1).drop_last() =~= raw.take(i));
            assert(raw.take(i + 1).last() == raw[i]);
            reveal(Seq::filter);
        }
        if country.is_valid_capital() {
            valid_countries.push(country);
        }
    }
    proof {
        assert(raw.take(raw.len() as int) =~= raw);
        assert forall|i: int| 0 <= i < valid_countries.len() implies (
        #[trigger] valid_countries[i]).has_valid_capital() by {
            raw.lemma_filter_pred(keep, i);
        }
    }
    valid_countries
}

/// `store` holds records of `raw` in the order of `raw`: its i-th record is
/// the record of `raw` at `positions[i]`, and the positions increase.
pub open spec fn kept_in_order(raw: Seq<Country>, store: Seq<Country>, positions: Seq<int>) -> bool {
    &&& positions.len() == store.len()
    &&& forall|i: int|
        0 <= i < positions.len() ==> 0 <= #[trigger] positions[i] < raw.len() && raw[positions[i]]
            == store[i]
    &&& forall|i: int, j: int|
        0 <= i < j < positions.len() ==> #[trigger] positions[i] < #[trigger] positions[j]
}

/// The record store keeps the order of the records it is built from.
proof fn lemma_record_store_in_order(raw: Seq<Country>)
    ensures
        exists|positions: Seq<int>| kept_in_order(raw, record_store(raw), positions),
    decreases raw.len(),
{
    reveal(Seq::filter);
    if raw.len() == 0 {
        assert(kept_in_order(raw, record_store(raw), Seq::empty()));
    } else {
        let init = raw.drop_last();
        lemma_record_store_in_order(init);
        let p = choose|p: Seq<int>| kept_in_order(init, record_store(init), p);
        if raw.last().has_valid_capital() {
            let q = p.push(raw.len() - 1);
            assert(record_store(raw) == record_store(init).push(raw.last()));
            assert forall|i: int| 0 <= i < q.len() implies 0 <= #[trigger] q[i] < raw.len()
                && raw[q[i]] == record_store(raw)[i] by {
                if i < p.len() {
                    assert(q[i] == p[i]);
                    assert(init[p[i]] == raw[p[i]]);
                }
            }
            assert forall|i: int, j: int| 0 <= i < j < q.len() implies #[trigger] q[i]
                < #[trigger] q[j] by {
                if j < p.len() {
                    assert(q[i] == p[i] && q[j] == p[j]);
                } else {
                    assert(q[i] == p[i]);
                }
            }
            assert(kept_in_order(raw, record_store(raw), q));
        } else {
            assert(record_store(raw) == record_store(init));
            assert forall|i: int| 0 <= i < p.len() implies 0 <= #[trigger] p[i] < raw.len()
                && raw[p[i]] == record_store(raw)[i] by {
                assert(init[p[i]] == raw[p[i]]);
            }
            assert(kept_in_order(raw, record_store(raw), p));
        }
    }
}

/// Building the record store twice from the same records gives the same
/// store, record for record, and both keep the order of those records.
pub proof fn lemma_record_store_deterministic(first: Seq<Country>, second: Seq<Country>)
    requires
        first == second,
    ensures
        record_store(first) == record_store(second),
        exists|positions: Seq<int>| kept_in_order(first, record_store(first), positions),
{
    lemma_record_store_in_order(first);
}

/// Every record that the store keeps has a capital that can carry a
/// question: not empty, and neither it nor the country's name holds the
/// other.
pub proof fn lemma_record_store_valid(raw: Seq<Country>, i: int)
    requires
        0 <= i < record_store(raw).len(),
    ensures
        record_store(raw)[i].capital@.len() > 0,
        !is_substring(record_store(raw)[i].name_common@, record_store(raw)[i].capital@),
        !is_substring(record_store(raw)[i].capital@, record_store(raw)[i].name_common@),
{
    raw.lemma_filter_pred(|c: Country| c.has_valid_capital(), i);
}

} // verus!
