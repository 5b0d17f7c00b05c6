use vstd::prelude::*;
use crate::error::ProcessingError;
use crate::index::{distinct_ids, index_of, CountryIndex};
use crate::model::{Country, State};

verus! {

/// Completes the load of the country catalog from the outcome of parsing it.
///
/// A catalog that did not parse stops the run with the parser's error; no
/// part of it is used. One that parsed is entered into an index, record by
/// record, a later record replacing an earlier one with the same id.
pub fn load_countries(parsed: Result<Vec<Country>, serde_json::Error>) -> (r: Result<
    CountryIndex,
    ProcessingError,
>)
    ensures
        match parsed {
            Ok(countries) => r is Ok && r->Ok_0@ == index_of(countries@) && r->Ok_0@.len()
                <= countries@.len() && (distinct_ids(countries@) ==> r->Ok_0@.len()
                == countries@.len()),
            Err(e) => r == Err::<CountryIndex, ProcessingError>(ProcessingError::Json(e)),
        },
{
    match parsed {
        Ok(countries) => Ok(CountryIndex::from_records(countries)),
        Err(e) => Err(ProcessingError::Json(e)),
    }
}

/// Completes the load of the region catalog from the outcome of parsing it.
///
/// A catalog that did not parse stops the run with the parser's error. One
/// that parsed is handed on as it is: the same states, in the same order.
pub fn load_states(parsed: Result<Vec<State>, serde_json::Error>) -> (r: Result<
    Vec<State>,
    ProcessingError,
>)
    ensures
        match parsed {
            Ok(states) => r == Ok::<Vec<State>, ProcessingError>(states),
            Err(e) => r == Err::<Vec<State>, ProcessingError>(ProcessingError::Json(e)),
        },
{
    match parsed {
        Ok(states) => Ok(states),
        Err(e) => Err(ProcessingError::Json(e)),
    }
}

} // verus!
