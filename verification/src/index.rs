use std::collections::HashMap;
use vstd::prelude::*;
use vstd::std_specs::hash::*;
use crate::model::Country;

verus! {

broadcast use group_hash_axioms;

/// The index that a catalog yields when its records are entered one after
/// another: a later record replaces an earlier one with the same id.
pub open spec fn index_of(records: Seq<Country>) -> Map<u32, Seq<char>>
    decreases records.len(),
{
    if records.len() == 0 {
        Map::empty()
    } else {
        index_of(records.drop_last()).insert(records.last().id, records.last().code@)
    }
}

/// The code that stands in for a country that the index does not know.
pub open spec fn fallback_code() -> Seq<char> {
    seq!['X', 'X']
}

/// The code under which a country is filed: its own where the index knows
/// the country, the fallback code where it does not.
pub open spec fn resolve_code(index: Map<u32, Seq<char>>, country_id: u32) -> Seq<char> {
    if index.contains_key(country_id) {
        index[country_id]
    } else {
        fallback_code()
    }
}

/// Whether two records of a catalog never share an id.
pub open spec fn distinct_ids(records: Seq<Country>) -> bool {
    forall|i: int, j: int|
        0 <= i < j < records.len() ==> (#[trigger] records[i]).id != (#[trigger] records[j]).id
}

/// The index holds an id exactly when some record of the catalog bears it.
pub proof fn lemma_index_keys(records: Seq<Country>, id: u32)
    ensures
        index_of(records).contains_key(id) <==> exists|i: int|
            0 <= i < records.len() && (#[trigger] records[i]).id == id,
    decreases records.len(),
{
    if records.len() > 0 {
        let init = records.drop_last();
        lemma_index_keys(init, id);
        if index_of(records).contains_key(id) {
            if records.last().id == id {
                assert(records[records.len() - 1].id == id);
            } else {
                let i = choose|i: int| 0 <= i < init.len() && (#[trigger] init[i]).id == id;
                assert(records[i].id == id);
            }
        }
        if exists|i: int| 0 <= i < records.len() && (#[trigger] records[i]).id == id {
            let i = choose|i: int| 0 <= i < records.len() && (#[trigger] records[i]).id == id;
            if i < init.len() {
                assert(init[i].id == id);
            }
        }
    }
}

/// Of the records that share an id, the last one gives the index its code.
pub proof fn lemma_index_last_wins(records: Seq<Country>, i: int)
    requires
        0 <= i < records.len(),
        forall|j: int| i < j < records.len() ==> (#[trigger] records[j]).id != records[i].id,
    ensures
        index_of(records).contains_key(records[i].id),
        index_of(records)[records[i].id] == records[i].code@,
    decreases records.len(),
{
    let init = records.drop_last();
    if i < records.len() - 1 {
        assert(init[i] == records[i]);
        assert forall|j: int| i < j < init.len() implies (#[trigger] init[j]).id != init[i].id by {
            assert(init[j] == records[j]);
        }
        lemma_index_last_wins(init, i);
        assert(records[records.len() - 1].id != records[i].id);
    }
}

/// Where no id repeats, every record is found again in the index: its id is
/// there, filed under its code.
pub proof fn lemma_index_round_trip(records: Seq<Country>)
    requires
        distinct_ids(records),
    ensures
        forall|i: int|
            0 <= i < records.len() ==> index_of(records).contains_key((#[trigger] records[i]).id)
                && index_of(records)[records[i].id] == records[i].code@,
{
    assert forall|i: int| 0 <= i < records.len() implies index_of(records).contains_key(
        (#[trigger] records[i]).id,
    ) && index_of(records)[records[i].id] == records[i].code@ by {
        lemma_index_last_wins(records, i);
    }
}

/// The index is finite and never holds more entries than the catalog has
/// records; where no id repeats it holds exactly as many.
pub proof fn lemma_index_len(records: Seq<Country>)
    ensures
        index_of(records).dom().finite(),
        index_of(records).len() <= records.len(),
        distinct_ids(records) ==> index_of(records).len() == records.len(),
    decreases records.len(),
{
    if records.len() > 0 {
        let init = records.drop_last();
        let last = records.last();
        lemma_index_len(init);
        lemma_index_keys(init, last.id);
        if distinct_ids(records) {
            assert forall|i: int, j: int| 0 <= i < j < init.len() implies (#[trigger] init[i]).id
                != (#[trigger] init[j]).id by {
                assert(init[i] == records[i]);
                assert(init[j] == records[j]);
            }
            if index_of(init).contains_key(last.id) {
                let i = choose|i: int| 0 <= i < init.len() && (#[trigger] init[i]).id == last.id;
                assert(records[i].id == records[records.len() - 1].id);
            }
        }
    }
}

/// A lookup from country id to country code. Built once, read afterwards.
pub struct CountryIndex {
    codes: HashMap<u32, String>,
}

impl View for CountryIndex {
    type V = Map<u32, Seq<char>>;

    closed spec fn view(&self) -> Map<u32, Seq<char>> {
        self.codes@.map_values(|s: String| s@)
    }
}

impl CountryIndex {
    /// Enters the records of a country catalog into an index, in their order.
    ///
    /// The index then holds the ids that occur in the catalog and no others, and
    /// files each under the code of the last record that bears it.
    pub fn from_records(countries: Vec<Country>) -> (index: CountryIndex)
        ensures
            index@ == index_of(countries@),
            forall|id: u32|
                index@.contains_key(id) <==> exists|i: int|
                    0 <= i < countries@.len() && (#[trigger] countries@[i]).id == id,
            forall|i: int|
                0 <= i < countries@.len() && (forall|j: int|
                    i < j < countries@.len() ==> (#[trigger] countries@[j]).id != countries@[i].id)
                    ==> index@[(#[trigger] countries@[i]).id] == countries@[i].code@,
            index@.len() <= countries@.len(),
            distinct_ids(countries@) ==> index@.len() == countries@.len(),
    {
        proof {
            lemma_index_len(countries@);
            assert forall|id: u32|
                index_of(countries@).contains_key(id) <==> exists|i: int|
                    0 <= i < countries@.len() && (#[trigger] countries@[i]).id == id by {
                lemma_index_keys(countries@, id);
            }
            assert forall|i: int|
                0 <= i < countries@.len() && (forall|j: int|
                    i < j < countries@.len() ==> (#[trigger] countries@[j]).id != countries@[i].id)
                    implies index_of(countries@)[(#[trigger] countries@[i]).id] == countries@[i].code@ by {
                lemma_index_last_wins(countries@, i);
            }
        }
        let mut codes: HashMap<u32, String> = HashMap::new();
        for country in it: countries
            invariant
                it.seq() == countries@,
                codes@.map_values(|s: String| s@) =~= index_of(countries@.take(it.index() as int)),
        {
            proof {
                let done = it.seq().take(it.index() as int);
                let next = it.seq().take(it.index() + 1);
                assert(next.drop_last() =~= done);
                assert(next.last() == country);
            }
            codes.insert(country.id, country.code);
        }
        assert(countries@.take(countries@.len() as int) =~= countries@);
        CountryIndex { codes }
    }

    /// The number of countries in the index.
    pub fn len(&self) -> (n: usize)
        ensures
            n == self@.len(),
    {
        assert(self@.dom() =~= self.codes@.dom());
        self.codes.len()
    }

    /// The code of a country, if the index knows the country.
    pub fn get(&self, country_id: u32) -> (code: Option<&String>)
        ensures
            code is Some <==> self@.contains_key(country_id),
            code is Some ==> code->0@ == self@[country_id],
    {
        self.codes.get(&country_id)
    }

    /// The code under which a country is filed, known to the index or not.
    pub fn code_for(&self, country_id: u32) -> (code: &str)
        ensures
            code@ == resolve_code(self@, country_id),
    {
        match self.codes.get(&country_id) {
            Some(code) => code.as_str(),
            None => {
                proof {
                    reveal_strlit("XX");
                }
                assert("XX"@ =~= fallback_code());
                "XX"
            },
        }
    }
}

} // verus!
