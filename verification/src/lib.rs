use vstd::prelude::*;

pub mod bits;
pub mod calendar;
pub mod constants;
pub mod solver;
pub mod sorting;
pub mod system;
pub mod text;
pub mod timekeeping;
pub mod rank;
pub mod extract;
pub mod tui;
pub mod utils;

verus! {

} // verus!
