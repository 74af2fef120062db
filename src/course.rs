//! The course: its segments and the timing history accumulated over a
//! driving session.
use vstd::prelude::*;
use crate::geofence::{MAX_LAT, MAX_LON, Point, valid_point};

verus! {

/// A track coordinate, in units of 1e-7 degree, with the heading (1e-4
/// degree) recorded for it when it defines a gate.
#[derive(Clone, Copy, Debug, PartialEq, Eq)]
pub struct Coord {
    pub lat: i64,
    pub lon: i64,
    pub head: Option<u32>,
}

impl Coord {
    pub fn new(lat: i64, lon: i64, head: Option<u32>) -> (r: Coord)
        ensures
            r == (Coord { lat, lon, head }),
    {
        Coord { lat, lon, head }
    }

    pub open spec fn point(self) -> Point {
        Point { lat: self.lat, lon: self.lon }
    }

    pub fn point_exec(&self) -> (r: Point)
        ensures
            r == self.point(),
    {
        Point { lat: self.lat, lon: self.lon }
    }

    pub open spec fn valid(self) -> bool {
        valid_point(self.point())
    }

    pub fn is_valid(&self) -> (r: bool)
        ensures
            r == self.valid(),
    {
        -MAX_LAT <= self.lat && self.lat <= MAX_LAT && -MAX_LON <= self.lon && self.lon <= MAX_LON
    }
}

/// One timed section of a circuit, from its start gate to its finish gate.
#[derive(Clone, Copy, Debug, PartialEq, Eq)]
pub struct Segment {
    pub start: Coord,
    pub finish: Coord,
}

impl Segment {
    pub fn new(start: Coord, finish: Coord) -> (r: Segment)
        ensures
            r == (Segment { start, finish }),
    {
        Segment { start, finish }
    }

    pub open spec fn valid(self) -> bool {
        self.start.valid() && self.finish.valid()
    }

    pub fn is_valid(&self) -> (r: bool)
        ensures
            r == self.valid(),
    {
        self.start.is_valid() && self.finish.is_valid()
    }
}

/// A recorded position and the time since the lap started, in milliseconds.
pub type Split = Vec<(Coord, u64)>;

/// Every recorded position of every split is at a valid place.
pub open spec fn valid_splits(s: Seq<Split>) -> bool {
    forall|i: int, j: int| 0 <= i < s.len() && 0 <= j < s[i]@.len() ==> (#[trigger] s[i]@[j]).0.valid()
}

/// Whether `s` is in ascending order.
pub open spec fn sorted(s: Seq<u64>) -> bool {
    forall|i: int, j: int| 0 <= i <= j < s.len() ==> s[i] <= s[j]
}

/// The circuit and its timing history; durations in milliseconds.
pub struct Course {
    pub times: Vec<u64>,
    pub last: u64,
    pub best: u64,
    pub best_times: Vec<Split>,
    pub last_location_time: Option<u64>,
    pub worst: u64,
    pub segments: Vec<Segment>,
}

impl Course {
    /// Lap times stay sorted, with the best first and the worst last, and
    /// the circuit has at least one segment, every one at a valid place.
    pub open spec fn wf(&self) -> bool {
        &&& sorted(self.times@)
        &&& self.times.len() > 0 ==> self.best == self.times[0] && self.worst == self.times[self.times.len() - 1]
        &&& valid_splits(self.best_times@)
        &&& self.segments.len() > 0
        &&& forall|i: int| 0 <= i < self.segments.len() ==> (#[trigger] self.segments[i]).valid()
    }

    /// Whether the course holds its invariant: what a course read back
    /// from storage must satisfy before timing can use it.
    pub fn is_well_formed(&self) -> (r: bool)
        ensures
            r == self.wf(),
    {
        let n = self.times.len();
        let mut i: usize = 1;
        while i < n
            invariant
                1 <= i <= n || n == 0,
                n == self.times@.len(),
                forall|a: int, b: int| 0 <= a <= b < i && b < n ==> self.times@[a] <= self.times@[b],
            decreases n - i,
        {
            if self.times[i - 1] > self.times[i] {
                return false;
            }
            i = i + 1;
        }
        assert(sorted(self.times@));
        if n > 0 && (self.best != self.times[0] || self.worst != self.times[n - 1]) {
            return false;
        }
        if self.segments.len() == 0 {
            return false;
        }
        let mut k: usize = 0;
        while k < self.segments.len()
            invariant
                k <= self.segments@.len(),
                forall|j: int| 0 <= j < k ==> (#[trigger] self.segments@[j]).valid(),
            decreases self.segments.len() - k,
        {
            if !self.segments[k].is_valid() {
                return false;
            }
            k = k + 1;
        }
        let mut a: usize = 0;
        while a < self.best_times.len()
            invariant
                a <= self.best_times@.len(),
                forall|x: int, y: int| 0 <= x < a && 0 <= y < self.best_times@[x]@.len()
                    ==> (#[trigger] self.best_times@[x]@[y]).0.valid(),
            decreases self.best_times.len() - a,
        {
            let split = &self.best_times[a];
            let mut b: usize = 0;
            while b < split.len()
                invariant
                    a < self.best_times@.len(),
                    split == self.best_times@[a as int],
                    b <= split@.len(),
                    forall|x: int, y: int| 0 <= x < a && 0 <= y < self.best_times@[x]@.len()
                        ==> (#[trigger] self.best_times@[x]@[y]).0.valid(),
                    forall|y: int| 0 <= y < b ==> (#[trigger] split@[y]).0.valid(),
                decreases split.len() - b,
            {
                if !split[b].0.is_valid() {
                    return false;
                }
                b = b + 1;
            }
            a = a + 1;
        }
        true
    }

    /// A course over `segments` with no lap recorded yet.
    pub fn new(segments: Vec<Segment>) -> (r: Course)
        requires
            segments.len() > 0,
            forall|i: int| 0 <= i < segments.len() ==> (#[trigger] segments[i]).valid(),
        ensures
            r.wf(),
            r.segments == segments,
            r.times@.len() == 0,
            r.best_times@.len() == 0,
            r.last == 0 && r.best == 0 && r.worst == 0,
            r.last_location_time.is_none(),
    {
        Course {
            times: Vec::new(),
            last: 0,
            best: 0,
            best_times: Vec::new(),
            last_location_time: None,
            worst: 0,
            segments,
        }
    }

    /// Records a completed lap of `elapsed` milliseconds whose split
    /// snapshots are `lap`: the time joins the sorted history, `last`,
    /// `best` and `worst` follow it, and `lap` replaces the best-lap
    /// snapshot when the lap is a new best. Returns whether it was.
    pub fn record_lap(&mut self, elapsed: u64, lap: Vec<Split>) -> (new_best: bool)
        requires
            old(self).wf(),
            valid_splits(lap@),
        ensures
            final(self).wf(),
            exists|i: int| 0 <= i <= old(self).times.len() && final(self).times@ == old(self).times@.insert(i, elapsed),
            final(self).last == elapsed,
            final(self).best == final(self).times[0],
            final(self).worst == final(self).times[final(self).times.len() - 1],
            new_best == (elapsed == final(self).best),
            new_best ==> final(self).best_times == lap,
            !new_best ==> final(self).best_times == old(self).best_times,
            final(self).segments == old(self).segments,
            final(self).last_location_time == old(self).last_location_time,
    {
        let mut i: usize = 0;
        while i < self.times.len() && self.times[i] <= elapsed
            invariant
                0 <= i <= self.times.len(),
                forall|j: int| 0 <= j < i ==> self.times[j] <= elapsed,
            decreases self.times.len() - i,
        {
            i = i + 1;
        }
        let ghost before = self.times@;
        self.times.insert(i, elapsed);
        assert(sorted(self.times@)) by {
            assert forall|a: int, b: int| 0 <= a <= b < self.times@.len() implies self.times@[a] <= self.times@[b] by {
                if a < i && b > i {
                    assert(before[a] <= elapsed);
                }
                if a == i && b > i {
                    assert(i < before.len());
                    assert(before[i as int] > elapsed);
                    assert(before[i as int] <= before[b - 1]);
                }
            }
        }
        self.last = elapsed;
        self.best = self.times[0];
        self.worst = self.times[self.times.len() - 1];
        if self.best == elapsed {
            self.best_times = lap;
            true
        } else {
            false
        }
    }
}


/// The segment spanning one recorded track section: from its first point
/// to its last.
pub open spec fn section_segment(points: Seq<Coord>) -> Segment {
    Segment { start: points[0], finish: points.last() }
}

/// Builds one segment per recorded track section, in order, each from the
/// section's first point to its last.
pub fn segments_from_track(track: &Vec<Vec<Coord>>) -> (r: Vec<Segment>)
    requires
        forall|i: int| 0 <= i < track@.len() ==> (#[trigger] track@[i])@.len() > 0,
    ensures
        r@.len() == track@.len(),
        forall|i: int| 0 <= i < track@.len() ==> #[trigger] r@[i] == section_segment(track@[i]@),
{
    let mut r: Vec<Segment> = Vec::new();
    let mut i: usize = 0;
    while i < track.len()
        invariant
            i <= track@.len(),
            r@.len() == i,
            forall|k: int| 0 <= k < track@.len() ==> (#[trigger] track@[k])@.len() > 0,
            forall|k: int| 0 <= k < i ==> #[trigger] r@[k] == section_segment(track@[k]@),
        decreases track.len() - i,
    {
        let points = &track[i];
        assert(track@[i as int]@.len() > 0);
        r.push(Segment { start: points[0], finish: points[points.len() - 1] });
        i = i + 1;
    }
    r
}

} // verus!
