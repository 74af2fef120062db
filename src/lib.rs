//! Circuit timing engine: turns a stream of GPS fixes into lap and split
//! times on a circuit made of oriented start/finish gates.
//!
//! All quantities are integers: coordinates in units of 1e-7 degree,
//! headings in units of 1e-4 degree, gate sizes and accuracies in
//! millimetres, durations in milliseconds.
use vstd::prelude::*;

pub mod course;
pub mod filter;
pub mod geofence;
pub mod heading;
pub mod shell;
pub mod timing;

verus! {

} // verus!
