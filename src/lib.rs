//! Status-line metrics: parsing of kernel pseudo-file contents and of the
//! audio-control command's output into typed values, and the rendering of
//! those values into one display line.
use vstd::prelude::*;

pub mod format;
pub mod reader;
pub mod statistics;
pub mod table;
pub mod text;

verus! {

} // verus!
