//! Direction-of-travel gate: is the current heading compatible with the
//! heading recorded for a gate?
use vstd::prelude::*;

verus! {

/// One degree of heading, in the unit used for headings (1e-4 degree).
pub const DEGREE: u32 = 10_000;

/// Half-width of the accepted heading window: 30 degrees.
pub const HEADING_TOLERANCE: u32 = 300_000;

/// A full turn: 360 degrees.
pub const FULL_TURN: u32 = 3_600_000;

/// The heading window around a recorded heading `rec`: within 30 degrees,
/// with wraparound at the 0/360 boundary.
pub open spec fn heading_window(rec: int, cur: int) -> bool {
    ||| rec - 300_000 <= cur <= rec + 300_000
    ||| (rec < 300_000 && cur >= 3_300_000 + rec)
    ||| (rec > 3_300_000 && cur <= rec - 3_300_000)
}

/// Whether travelling with heading `cur` crosses a gate recorded with
/// heading `rec`. A missing recorded heading, or a current heading of 0
/// (no track data from the GPS source), is always accepted.
pub open spec fn heading_ok(rec: Option<u32>, cur: u32) -> bool {
    match rec {
        None => true,
        Some(r) => cur == 0 || heading_window(r as int, cur as int),
    }
}

/// Decides whether the current heading `current_heading` is compatible with
/// the heading recorded for a gate, allowing 30 degrees either way.
pub fn right_direction(recorded_heading: Option<u32>, current_heading: u32) -> (r: bool)
    ensures
        r == heading_ok(recorded_heading, current_heading),
{
    match recorded_heading {
        None => true,
        Some(rec) => {
            if current_heading == 0 {
                return true;
            }
            let cur = current_heading as u64;
            let rec = rec as u64;
            let tol = HEADING_TOLERANCE as u64;
            if cur + tol >= rec && cur <= rec + tol {
                return true;
            }
            if rec < tol && cur >= (FULL_TURN - HEADING_TOLERANCE) as u64 + rec {
                return true;
            }
            if rec > (FULL_TURN - HEADING_TOLERANCE) as u64 && cur + (FULL_TURN
                - HEADING_TOLERANCE) as u64 <= rec {
                return true;
            }
            false
        },
    }
}

/// A missing recorded heading or a zero current heading never blocks a
/// crossing.
pub proof fn lemma_missing_heading_accepts(rec: Option<u32>, cur: u32)
    ensures
        heading_ok(None, cur),
        heading_ok(rec, 0),
{
}

} // verus!
