//! A dice-notation parser and roll-evaluation engine for tabletop games:
//! it parses notation such as `2d6+1d4+3` into a roll specification, rolls
//! the requested dice, classifies action and progress rolls into tiered
//! outcomes, and renders every roll kind as one canonical display string.

use vstd::prelude::*;

pub mod display;
pub mod parse_roll_spec;
pub mod rolls;
mod rng;

verus! {

/// The numeric type used when parsing inputs.
pub type InputType = u8;

/// The numeric type used for intermediate computations and outputs.
pub type OutputType = u32;

} // verus!
