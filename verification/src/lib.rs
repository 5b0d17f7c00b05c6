//! Partitioning of a geographic catalog (countries, states, cities) into one
//! artifact per country.
//!
//! The library holds the rules of the pipeline and proves them: the size
//! gate on input files, the index from country id to country code, the
//! stable grouping of states by country, and the naming and ordering of the
//! artifacts. Reading, parsing and writing are left to the caller, who hands
//! in what was read and carries out what is planned.

pub mod decimal;
pub mod error;
pub mod grouping;
pub mod index;
pub mod loader;
pub mod model;
pub mod partition;
pub mod size_guard;
