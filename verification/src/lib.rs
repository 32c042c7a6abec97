use vstd::prelude::*;

pub mod columns;
pub mod db;
pub mod geometry;
pub mod instances;
pub mod instances_reader;
pub mod kinds;
pub mod laws;
pub mod lefdef;
pub mod lookup;
pub mod name_index;
pub mod netlist;
pub mod nets_reader;
pub mod numeric;
pub mod reading_laws;
pub mod units;
pub mod utils;

verus! {

} // verus!
