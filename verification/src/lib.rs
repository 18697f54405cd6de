//! Element store, parameters, types, transactions and undo/redo.

pub mod compound;
pub mod detail;
pub mod digits;
pub mod document;
pub mod doors;
pub mod element;
pub mod generate;
pub mod library;
pub mod material;
pub mod names;
pub mod natural;
pub mod ops;
pub mod params;
pub mod plans;
pub mod sketch;
pub mod sun;
pub mod text;
pub mod units;
pub mod visibility;

use vstd::prelude::*;

verus! {

/// Version of this crate, as its package declares it.
pub fn crate_version() -> (v: &'static str)
    ensures
        v@ == "0.1.0"@,
{
    "0.1.0"
}

} // verus!
