//! The timing state machine: consumes filtered positions and headings,
//! detects gate crossings, and accumulates lap and split times.
use vstd::prelude::*;
use crate::course::{Coord, Course, Split, valid_splits};
use crate::geofence::{
    Gate,
    GateConfig,
    Point,
    contains_point,
    gate_of,
    genereate_polygon,
    lat_lon_comp,
    lemma_gate_bounded,
    point_in_gate,
    valid_point,
    within_metre,
};
use crate::heading::{heading_ok, right_direction};

verus! {

/// A filtered GPS fix: position (1e-7 degree), direction of travel (1e-4
/// degree, 0 when unknown) and the time it was taken (milliseconds).
#[derive(Clone, Copy, Debug, PartialEq, Eq, Structural)]
pub struct Fix {
    pub lat: i64,
    pub lon: i64,
    pub track: u32,
    pub time_ms: u64,
}

impl Fix {
    pub open spec fn point(self) -> Point {
        Point { lat: self.lat, lon: self.lon }
    }

    /// The position as it is recorded in a split.
    pub open spec fn coord(self) -> Coord {
        Coord { lat: self.lat, lon: self.lon, head: None }
    }
}

/// The lap summary published when a lap completes, in milliseconds.
#[derive(Clone, Copy, Debug, PartialEq, Eq, Structural)]
pub struct LapSummary {
    pub last: u64,
    pub best: u64,
    pub worst: u64,
}

/// Everything one fix gives rise to, in the order it is published.
#[derive(Debug)]
pub struct FixOutcome {
    /// A lap started at this fix.
    pub lap_started: bool,
    /// Time since the lap started, while a lap runs on.
    pub elapsed: Option<u64>,
    /// The summary of the lap this fix completed.
    pub lap: Option<LapSummary>,
    /// Signed deltas against the best lap: `(true, d)` ahead by `d`,
    /// `(false, d)` behind by `d`.
    pub deltas: Vec<(bool, u64)>,
    /// Whether the run is ahead of the best lap at this point, when known.
    pub ahead: Option<bool>,
}

/// A position inside a gate, with a compatible heading, crosses it.
pub open spec fn crosses(g: Gate, head: Option<u32>, fix: Fix) -> bool {
    point_in_gate(g, fix.point()) && heading_ok(head, fix.track)
}

pub open spec fn sat_sub(a: int, b: int) -> int {
    if a >= b {
        a - b
    } else {
        0
    }
}

/// The deltas of `current` against `reference`: ahead when the reference
/// is larger, behind when it is smaller, both (by 0) when they are equal.
pub open spec fn deltas_of(reference: int, current: int) -> Seq<(bool, u64)> {
    let ahead: Seq<(bool, u64)> = if reference >= current {
        seq![(true, (reference - current) as u64)]
    } else {
        seq![]
    };
    let behind: Seq<(bool, u64)> = if current >= reference {
        seq![(false, (current - reference) as u64)]
    } else {
        seq![]
    };
    ahead + behind
}

/// Mid-lap deltas: against the best lap's time at this point when known,
/// else a neutral zero.
pub open spec fn split_deltas(best: Option<u64>, current: int) -> Seq<(bool, u64)> {
    match best {
        Some(t) => deltas_of(t as int, current),
        None => seq![(false, 0u64)],
    }
}

/// Whether the run is ahead of the best lap at this point; behind wins a tie.
pub open spec fn ahead_of(best: Option<u64>, current: int) -> Option<bool> {
    match best {
        Some(t) => Some(current < t),
        None => None,
    }
}

/// Index of the last recorded point of `s[..n]` within a metre of `pos`.
pub open spec fn last_match(s: Seq<(Coord, u64)>, pos: Point, n: nat) -> Option<int>
    decreases n,
{
    if n == 0 {
        None
    } else if within_metre(s[n - 1].0.point(), pos) {
        Some(n - 1)
    } else {
        last_match(s, pos, (n - 1) as nat)
    }
}

/// The best lap's split time at `pos`: for the last point of `bt[..n]`
/// within a metre of `pos`, its time since the start of its split.
pub open spec fn best_time_at(bt: Seq<Split>, pos: Point, n: nat) -> Option<u64>
    decreases n,
{
    if n == 0 {
        None
    } else {
        let s = bt[n - 1]@;
        match last_match(s, pos, s.len()) {
            Some(j) => Some(sat_sub(s[j].1 as int, s[0].1 as int) as u64),
            None => best_time_at(bt, pos, (n - 1) as nat),
        }
    }
}

pub open spec fn splits_view(v: Seq<Split>) -> Seq<Seq<(Coord, u64)>> {
    v.map_values(|s: Split| s@)
}

/// Looks up the best lap's split time at `pos`: the last recorded point
/// within a metre of `pos`, its time measured from the start of its split.
pub fn best_lap_time_at(best_times: &Vec<Split>, pos: Point) -> (r: Option<u64>)
    requires
        valid_splits(best_times@),
        valid_point(pos),
    ensures
        r == best_time_at(best_times@, pos, best_times@.len()),
{
    let mut i: usize = best_times.len();
    while i > 0
        invariant
            i <= best_times.len(),
            valid_splits(best_times@),
            valid_point(pos),
            best_time_at(best_times@, pos, best_times@.len()) == best_time_at(best_times@, pos, i as nat),
        decreases i,
    {
        let s = &best_times[i - 1];
        let mut j: usize = s.len();
        while j > 0
            invariant
                j <= s.len(),
                s == best_times@[i - 1],
                valid_splits(best_times@),
                valid_point(pos),
                0 < i <= best_times.len(),
                best_time_at(best_times@, pos, best_times@.len()) == best_time_at(best_times@, pos, i as nat),
                last_match(s@, pos, s@.len()) == last_match(s@, pos, j as nat),
            decreases j,
        {
            assert(s@[j - 1].0.valid());
            if lat_lon_comp(s[j - 1].0.point_exec(), pos) {
                let first = s[0].1;
                let here = s[j - 1].1;
                assert(last_match(s@, pos, j as nat) == Some((j - 1) as int));
                assert(best_time_at(best_times@, pos, i as nat) == Some(
                    sat_sub(here as int, first as int) as u64,
                ));
                return Some(if here >= first { here - first } else { 0 });
            }
            j = j - 1;
        }
        i = i - 1;
    }
    None
}

/// The deltas of `current` against `reference`, as `deltas_of` gives them.
pub fn time_deltas(reference: u64, current: u64) -> (r: Vec<(bool, u64)>)
    ensures
        r@ == deltas_of(reference as int, current as int),
{
    let mut r: Vec<(bool, u64)> = Vec::new();
    if reference >= current {
        r.push((true, reference - current));
    }
    if current >= reference {
        r.push((false, current - reference));
    }
    assert(r@ =~= deltas_of(reference as int, current as int));
    r
}

/// Mid-lap deltas of the split time `current` against the best lap's
/// split time `best` at the same place, and whether the run is ahead.
pub fn split_delta(best: Option<u64>, current: u64) -> (r: (Vec<(bool, u64)>, Option<bool>))
    ensures
        r.0@ == split_deltas(best, current as int),
        r.1 == ahead_of(best, current as int),
{
    match best {
        Some(t) => (time_deltas(t, current), Some(current < t)),
        None => {
            let v: Vec<(bool, u64)> = vec![(false, 0)];
            assert(v@ =~= seq![(false, 0u64)]);
            (v, None)
        },
    }
}


/// A gate placed at coordinate `c`.
pub open spec fn gate_at(c: Coord, cfg: GateConfig) -> Gate {
    gate_of(c.lat, c.lon, c.head, cfg)
}

/// The running state of lap timing on one course.
pub struct LapTimer {
    /// Dimensions of every gate.
    pub gates: GateConfig,
    /// Start gate of the first segment.
    pub start_gate: Gate,
    /// Finish gate of the last segment.
    pub finish_gate: Gate,
    /// Start gate of each segment, in course order.
    pub split_gates: Vec<Gate>,
    pub on_track: bool,
    /// Time the current lap started, in milliseconds.
    pub lap_start: u64,
    /// Time since the lap started at the latest fix, in milliseconds.
    pub elapsed: u64,
    /// The open split: points recorded since the last split closed.
    pub segment_times: Split,
    /// The splits closed so far in this lap.
    pub lap_times: Vec<Split>,
}

/// Whether `fix` crosses the start gate of some segment.
pub open spec fn splits_at(t: LapTimer, course: Course, fix: Fix) -> bool {
    exists|i: int| 0 <= i < t.split_gates@.len() && #[trigger] crosses(t.split_gates@[i], course.segments@[i].start.head, fix)
}

/// Whether `fix` starts a lap.
pub open spec fn starts_lap(t: LapTimer, course: Course, fix: Fix) -> bool {
    !t.on_track && crosses(t.start_gate, course.segments@[0].start.head, fix)
}

/// Whether `fix` completes a lap.
pub open spec fn finishes_lap(t: LapTimer, course: Course, fix: Fix) -> bool {
    t.on_track && crosses(t.finish_gate, course.segments@.last().finish.head, fix)
}

/// Time since the lap started, at `fix`.
pub open spec fn elapsed_at(t: LapTimer, course: Course, fix: Fix) -> int {
    if starts_lap(t, course, fix) {
        0
    } else if t.on_track {
        sat_sub(fix.time_ms as int, t.lap_start as int)
    } else {
        t.elapsed as int
    }
}

/// The closed splits and the open split once `fix` is recorded at
/// `elapsed`: the point joins the open split, which closes when the fix
/// crosses a segment's start gate. A lap that starts at `fix` starts
/// from no split.
pub open spec fn after_point(t: LapTimer, course: Course, fix: Fix) -> (Seq<Seq<(Coord, u64)>>, Seq<(Coord, u64)>) {
    let fresh = starts_lap(t, course, fix);
    let laps = if fresh { Seq::empty() } else { splits_view(t.lap_times@) };
    let open = if fresh { Seq::empty() } else { t.segment_times@ };
    let buf = open.push((fix.coord(), elapsed_at(t, course, fix) as u64));
    if splits_at(t, course, fix) {
        (laps.push(buf), Seq::empty())
    } else {
        (laps, buf)
    }
}

/// Every split of a lap completed at `fix`: the closed ones and the open
/// one, when it holds any point.
pub open spec fn completed_lap(t: LapTimer, course: Course, fix: Fix) -> Seq<Seq<(Coord, u64)>> {
    let (laps, buf) = after_point(t, course, fix);
    if buf.len() > 0 {
        laps.push(buf)
    } else {
        laps
    }
}

impl LapTimer {
    /// Gates match those of the course, and every recorded point is valid.
    pub open spec fn wf_for(&self, course: &Course) -> bool {
        &&& course.wf()
        &&& self.gates.valid()
        &&& self.start_gate == gate_at(course.segments@[0].start, self.gates)
        &&& self.finish_gate == gate_at(course.segments@.last().finish, self.gates)
        &&& self.split_gates@.len() == course.segments@.len()
        &&& forall|i: int| 0 <= i < self.split_gates@.len() ==> #[trigger] self.split_gates@[i] == gate_at(course.segments@[i].start, self.gates)
        &&& valid_splits(self.lap_times@)
        &&& forall|j: int| 0 <= j < self.segment_times@.len() ==> (#[trigger] self.segment_times@[j]).0.valid()
    }

    /// Timing for `course` with gates of dimensions `gates`, off track.
    pub fn new(course: &Course, gates: GateConfig) -> (r: LapTimer)
        requires
            course.wf(),
            gates.valid(),
        ensures
            r.wf_for(course),
            r.gates == gates,
            !r.on_track,
            r.lap_start == 0,
            r.elapsed == 0,
            r.segment_times@.len() == 0,
            r.lap_times@.len() == 0,
    {
        let first = course.segments[0].start;
        let last = course.segments[course.segments.len() - 1].finish;
        assert(course.segments@[0].valid());
        assert(course.segments@[course.segments@.len() - 1].valid());
        let start_gate = genereate_polygon(first.lat, first.lon, first.head, gates);
        let finish_gate = genereate_polygon(last.lat, last.lon, last.head, gates);
        let mut split_gates: Vec<Gate> = Vec::new();
        let mut i: usize = 0;
        while i < course.segments.len()
            invariant
                course.wf(),
                gates.valid(),
                i <= course.segments@.len(),
                split_gates@.len() == i,
                forall|k: int| 0 <= k < i ==> #[trigger] split_gates@[k] == gate_at(course.segments@[k].start, gates),
            decreases course.segments.len() - i,
        {
            let c = course.segments[i].start;
            assert(course.segments@[i as int].valid());
            split_gates.push(genereate_polygon(c.lat, c.lon, c.head, gates));
            i = i + 1;
        }
        LapTimer {
            gates,
            start_gate,
            finish_gate,
            split_gates,
            on_track: false,
            lap_start: 0,
            elapsed: 0,
            segment_times: Vec::new(),
            lap_times: Vec::new(),
        }
    }
}

/// Whether `fix` crosses gate `g`, recorded at heading `head`.
fn crosses_exec(g: &Gate, head: Option<u32>, fix: Fix, Ghost(c): Ghost<Coord>, Ghost(cfg): Ghost<GateConfig>) -> (r: bool)
    requires
        c.valid(),
        cfg.valid(),
        *g == gate_at(c, cfg),
        valid_point(fix.point()),
    ensures
        r == crosses(*g, head, fix),
{
    proof {
        lemma_gate_bounded(c.lat, c.lon, c.head, cfg);
    }
    contains_point(g, Point { lat: fix.lat, lon: fix.lon }) && right_direction(head, fix.track)
}


proof fn lemma_splits_view_push(v: Seq<Split>, s: Split)
    ensures
        splits_view(v.push(s)) == splits_view(v).push(s@),
{
    assert(splits_view(v.push(s)) =~= splits_view(v).push(s@));
}

/// The split time of the latest point: its time since the first point
/// of its split, that is of the open split or, when the point just closed
/// a split, of the split it closed.
pub open spec fn split_elapsed(laps: Seq<Seq<(Coord, u64)>>, buf: Seq<(Coord, u64)>, elapsed: int) -> int {
    if buf.len() > 0 {
        sat_sub(elapsed, buf[0].1 as int)
    } else if laps.len() > 0 && laps.last().len() > 0 {
        sat_sub(elapsed, laps.last()[0].1 as int)
    } else {
        0
    }
}

impl LapTimer {
    /// Whether `fix` crosses the start gate of some segment.
    fn split_hit(&self, course: &Course, fix: Fix) -> (r: bool)
        requires
            self.wf_for(course),
            valid_point(fix.point()),
        ensures
            r == splits_at(*self, *course, fix),
    {
        let mut i: usize = 0;
        while i < self.split_gates.len()
            invariant
                self.wf_for(course),
                valid_point(fix.point()),
                i <= self.split_gates@.len(),
                forall|k: int| 0 <= k < i ==> !#[trigger] crosses(self.split_gates@[k], course.segments@[k].start.head, fix),
            decreases self.split_gates.len() - i,
        {
            let c = course.segments[i].start;
            assert(course.segments@[i as int].valid());
            if crosses_exec(&self.split_gates[i], c.head, fix, Ghost(c), Ghost(self.gates)) {
                return true;
            }
            i = i + 1;
        }
        false
    }

    /// Closes the open split: it joins the closed splits and a new, empty
    /// one opens.
    fn close_split(&mut self)
        ensures
            final(self).lap_times@ == old(self).lap_times@.push(old(self).segment_times),
            splits_view(final(self).lap_times@) == splits_view(old(self).lap_times@).push(old(self).segment_times@),
            final(self).segment_times@.len() == 0,
            final(self).gates == old(self).gates,
            final(self).start_gate == old(self).start_gate,
            final(self).finish_gate == old(self).finish_gate,
            final(self).split_gates == old(self).split_gates,
            final(self).on_track == old(self).on_track,
            final(self).lap_start == old(self).lap_start,
            final(self).elapsed == old(self).elapsed,
    {
        let mut buf: Split = Vec::new();
        std::mem::swap(&mut buf, &mut self.segment_times);
        self.lap_times.push(buf);
        proof {
            lemma_splits_view_push(old(self).lap_times@, old(self).segment_times);
        }
    }

    /// Runs one filtered fix through the state machine. Off track, a fix
    /// crossing the first segment's start gate starts a lap. On track, a
    /// fix crossing the last segment's finish gate completes the lap and
    /// records it in `course`; any other fix reports the time since the
    /// lap started. Every fix of a lap joins the open split, which closes
    /// at each segment's start gate; while the lap runs on, the fix is
    /// compared with the best lap at the same place.
    #[verifier::rlimit(50)]
    pub fn process_fix(&mut self, course: &mut Course, fix: Fix) -> (out: FixOutcome)
        requires
            old(self).wf_for(old(course)),
            valid_point(fix.point()),
        ensures
            final(self).wf_for(final(course)),
            final(course).segments == old(course).segments,
            final(self).gates == old(self).gates,
            ({
                let t = *old(self);
                let c = *old(course);
                let starts = starts_lap(t, c, fix);
                let finishes = finishes_lap(t, c, fix);
                let elapsed = elapsed_at(t, c, fix);
                let (laps, buf) = after_point(t, c, fix);
                &&& final(self).on_track == (starts || (t.on_track && !finishes))
                &&& final(self).lap_start == (if starts { fix.time_ms } else { t.lap_start })
                &&& final(self).elapsed == elapsed
                &&& out.lap_started == starts
                &&& out.elapsed == (if t.on_track && !finishes { Some(elapsed as u64) } else { None })
                &&& finishes ==> {
                    &&& exists|i: int| 0 <= i <= c.times@.len() && final(course).times@ == #[trigger] c.times@.insert(i, elapsed as u64)
                    &&& final(course).last == elapsed
                    &&& final(course).best == final(course).times@[0]
                    &&& final(course).worst == final(course).times@.last()
                    &&& elapsed == final(course).best ==> splits_view(final(course).best_times@) == completed_lap(t, c, fix)
                    &&& elapsed != final(course).best ==> final(course).best_times == c.best_times
                    &&& final(course).last_location_time == c.last_location_time
                    &&& out.lap == Some(LapSummary { last: final(course).last, best: final(course).best, worst: final(course).worst })
                    &&& out.deltas@ == deltas_of(final(course).best as int, elapsed)
                    &&& out.ahead.is_none()
                    &&& final(self).lap_times@.len() == 0
                    &&& final(self).segment_times@.len() == 0
                }
                &&& !finishes ==> {
                    &&& final(course).times == c.times
                    &&& final(course).last == c.last
                    &&& final(course).best == c.best
                    &&& final(course).worst == c.worst
                    &&& final(course).best_times == c.best_times
                    &&& out.lap.is_none()
                }
                &&& final(self).on_track ==> {
                    &&& splits_view(final(self).lap_times@) == laps
                    &&& final(self).segment_times@ == buf
                    &&& final(course).last_location_time == best_time_at(c.best_times@, fix.point(), c.best_times@.len())
                    &&& out.deltas@ == split_deltas(final(course).last_location_time, split_elapsed(laps, buf, elapsed))
                    &&& out.ahead == ahead_of(final(course).last_location_time, split_elapsed(laps, buf, elapsed))
                    &&& final(course).last_location_time.is_none() ==> out.deltas@ == seq![(false, 0u64)] && out.ahead.is_none()
                }
                &&& !final(self).on_track && !finishes ==> {
                    &&& final(self).lap_times == t.lap_times
                    &&& final(self).segment_times == t.segment_times
                    &&& final(course).last_location_time == c.last_location_time
                    &&& out.deltas@.len() == 0
                    &&& out.ahead.is_none()
                }
            }),
    {
        let ghost t = *self;
        let ghost c0 = *course;
        let n = course.segments.len();
        let first = course.segments[0].start;
        let last = course.segments[n - 1].finish;
        assert(course.segments@[0].valid());
        assert(course.segments@[n - 1].valid());
        let was_on = self.on_track;
        let starts = !was_on && crosses_exec(&self.start_gate, first.head, fix, Ghost(first), Ghost(self.gates));
        let finishes = was_on && crosses_exec(&self.finish_gate, last.head, fix, Ghost(last), Ghost(self.gates));
        if starts {
            self.on_track = true;
            self.lap_start = fix.time_ms;
            self.elapsed = 0;
            self.lap_times = Vec::new();
            self.segment_times = Vec::new();
        } else if was_on {
            self.elapsed = if fix.time_ms >= self.lap_start { fix.time_ms - self.lap_start } else { 0 };
        }
        assert(self.split_gates == t.split_gates);
        assert(splits_at(*self, c0, fix) == splits_at(t, c0, fix));
        let mut out = FixOutcome { lap_started: starts, elapsed: None, lap: None, deltas: Vec::new(), ahead: None };
        if starts || was_on {
            let ghost before = self.segment_times@;
            self.segment_times.push((Coord { lat: fix.lat, lon: fix.lon, head: None }, self.elapsed));
            assert(self.segment_times@ == before.push((fix.coord(), self.elapsed)));
            if self.split_hit(course, fix) {
                self.close_split();
            }
            assert(splits_view(self.lap_times@) == after_point(t, c0, fix).0);
            assert(self.segment_times@ == after_point(t, c0, fix).1);
        }
        if finishes {
            self.on_track = false;
            if self.segment_times.len() > 0 {
                self.close_split();
            }
            assert(splits_view(self.lap_times@) == completed_lap(t, c0, fix));
            let mut lap: Vec<Split> = Vec::new();
            std::mem::swap(&mut lap, &mut self.lap_times);
            let elapsed = self.elapsed;
            course.record_lap(elapsed, lap);
            out.lap = Some(LapSummary { last: course.last, best: course.best, worst: course.worst });
            out.deltas = time_deltas(course.best, elapsed);
        } else if was_on {
            out.elapsed = Some(self.elapsed);
        }
        if self.on_track {
            course.last_location_time = best_lap_time_at(&course.best_times, Point { lat: fix.lat, lon: fix.lon });
            let n = self.lap_times.len();
            let d = if self.segment_times.len() > 0 {
                let s0 = self.segment_times[0].1;
                if self.elapsed >= s0 { self.elapsed - s0 } else { 0 }
            } else if n > 0 && self.lap_times[n - 1].len() > 0 {
                let s0 = self.lap_times[n - 1][0].1;
                assert(splits_view(self.lap_times@).last() == self.lap_times@[n - 1]@);
                if self.elapsed >= s0 { self.elapsed - s0 } else { 0 }
            } else {
                0
            };
            let (deltas, ahead) = split_delta(course.last_location_time, d);
            out.deltas = deltas;
            out.ahead = ahead;
        }
        out
    }
}


/// Splits a duration in milliseconds into whole minutes, the seconds
/// within the minute and the milliseconds within the second, as a lap
/// clock shows them.
pub fn clock_fields(ms: u64) -> (r: (u64, u64, u64))
    ensures
        r.0 * 60_000 + r.1 * 1000 + r.2 == ms,
        r.1 < 60,
        r.2 < 1000,
{
    let secs = ms / 1000;
    (secs / 60, secs % 60, ms % 1000)
}

} // verus!
