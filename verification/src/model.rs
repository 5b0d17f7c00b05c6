use vstd::prelude::*;

verus! {

/// One row of the country catalog.
#[derive(Debug, Clone, PartialEq, Eq)]
pub struct Country {
    pub id: u32,
    /// The short code under which the country's artifact is named.
    pub code: String,
}

/// A city, owned by the state that lists it. Coordinates are carried as the
/// raw text of the source and are never interpreted.
#[derive(Debug, Clone, PartialEq, Eq)]
pub struct City {
    pub id: u32,
    pub name: String,
    pub latitude: Option<String>,
    pub longitude: Option<String>,
}

/// A state or province. `country_id` refers to the country catalog but need
/// not occur in it.
#[derive(Debug, Clone, PartialEq, Eq)]
pub struct State {
    pub id: u32,
    pub country_id: u32,
    pub name: String,
    pub state_code: Option<String>,
    pub latitude: Option<String>,
    pub longitude: Option<String>,
    pub cities: Vec<City>,
}

} // verus!
