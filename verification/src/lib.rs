//! Track-library logic: musical key notation, filtering, sorting and the
//! state of the track browser.
use vstd::prelude::*;

pub mod analysis;
pub mod audio;
pub mod cli;
pub mod digits;
pub mod filter;
pub mod key_format;
pub mod number;
pub mod order;
pub mod positions;
pub mod scanner;
pub mod sort;
pub mod tempo;
pub mod text;
pub mod tui;

verus! {

} // verus!
