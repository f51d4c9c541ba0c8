//! Constellation records as stored in the data files.

use vstd::prelude::*;

verus! {

/// A constellation as one row of the data file: its Latin name, its
/// abbreviation, and its border polygons written as JSON.
pub struct ConstellationRaw {
    pub name_latin: String,
    pub abbreviation: String,
    pub polygons: String,
}

} // verus!
