//! Turns data sources into base-12 digit sequences and walks them through space.
use vstd::prelude::*;

pub mod text;
pub mod config;
pub mod constants;
pub mod converters;
pub mod dna;
pub mod fractals;
pub mod lattice;
pub mod math;
pub mod walk;

verus! {

/// Every entry of `d` is a base-12 digit.
pub open spec fn all_base12(d: Seq<u8>) -> bool {
    forall|i: int| 0 <= i < d.len() ==> #[trigger] d[i] < 12
}

} // verus!
