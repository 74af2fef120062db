use laptimer::course::{segments_from_track, Coord, Course, Segment};
use laptimer::geofence::{GateConfig, Point};
use laptimer::shell::{decide, take_request, Decision, WorkerEvent, WorkerState};
use laptimer::timing::{best_lap_time_at, clock_fields, split_delta, time_deltas, Fix, LapSummary, LapTimer};

const S_LAT: i64 = 373_244_790;
const S_LON: i64 = -1_219_246_013;
const F_LAT: i64 = 373_254_790;
const F_LON: i64 = -1_219_246_013;
const S_HEAD: u32 = 450_000;
const F_HEAD: u32 = 900_000;

fn one_segment_course() -> Course {
    Course::new(vec![Segment::new(
        Coord::new(S_LAT, S_LON, Some(S_HEAD)),
        Coord::new(F_LAT, F_LON, Some(F_HEAD)),
    )])
}

fn at_start(time_ms: u64) -> Fix {
    Fix { lat: S_LAT, lon: S_LON, track: S_HEAD, time_ms }
}

fn at_finish(time_ms: u64) -> Fix {
    Fix { lat: F_LAT, lon: F_LON, track: F_HEAD, time_ms }
}

fn mid(lat: i64, time_ms: u64) -> Fix {
    Fix { lat, lon: S_LON, track: 0, time_ms }
}

fn rec(lat: i64, lon: i64, t: u64) -> (Coord, u64) {
    (Coord::new(lat, lon, None), t)
}

fn flat(course: &Course) -> Vec<(Coord, u64)> {
    course.best_times.iter().flat_map(|s| s.iter().copied()).collect()
}

#[test]
fn single_lap_scenario() {
    let mut course = one_segment_course();
    let mut timer = LapTimer::new(&course, GateConfig::standard());
    let out = timer.process_fix(&mut course, at_start(0));
    assert!(out.lap_started);
    assert!(timer.on_track);
    let out = timer.process_fix(&mut course, at_finish(12_345));
    assert_eq!(out.lap, Some(LapSummary { last: 12_345, best: 12_345, worst: 12_345 }));
    assert!(!timer.on_track);
    assert_eq!(course.times, vec![12_345]);
    assert_eq!(course.best, 12_345);
    assert_eq!(course.worst, 12_345);
    assert_eq!(course.last, 12_345);
    assert_eq!(flat(&course), vec![rec(S_LAT, S_LON, 0), rec(F_LAT, F_LON, 12_345)]);
    assert_eq!(out.deltas, vec![(true, 0), (false, 0)]);
}

#[test]
fn best_lap_replacement() {
    let mut course = one_segment_course();
    let mut timer = LapTimer::new(&course, GateConfig::standard());
    timer.process_fix(&mut course, at_start(0));
    timer.process_fix(&mut course, mid(373_248_000, 5_000));
    timer.process_fix(&mut course, at_finish(12_000));
    let first_lap = flat(&course);
    assert_eq!(first_lap[1], rec(373_248_000, S_LON, 5_000));

    timer.process_fix(&mut course, at_start(20_000));
    timer.process_fix(&mut course, mid(373_249_000, 25_000));
    let out = timer.process_fix(&mut course, at_finish(31_000));
    assert_eq!(course.best, 11_000);
    assert_eq!(course.worst, 12_000);
    assert_eq!(course.last, 11_000);
    assert_eq!(course.times, vec![11_000, 12_000]);
    assert_eq!(
        flat(&course),
        vec![rec(S_LAT, S_LON, 0), rec(373_249_000, S_LON, 5_000), rec(F_LAT, F_LON, 11_000)]
    );
    assert_ne!(flat(&course), first_lap);
    assert_eq!(out.lap, Some(LapSummary { last: 11_000, best: 11_000, worst: 12_000 }));
}

#[test]
fn slower_lap_keeps_best_snapshot() {
    let mut course = one_segment_course();
    let mut timer = LapTimer::new(&course, GateConfig::standard());
    timer.process_fix(&mut course, at_start(0));
    timer.process_fix(&mut course, at_finish(10_000));
    let best = flat(&course);
    timer.process_fix(&mut course, at_start(20_000));
    timer.process_fix(&mut course, mid(373_249_000, 25_000));
    let out = timer.process_fix(&mut course, at_finish(33_000));
    assert_eq!(course.times, vec![10_000, 13_000]);
    assert_eq!(course.best, 10_000);
    assert_eq!(course.worst, 13_000);
    assert_eq!(course.last, 13_000);
    assert_eq!(flat(&course), best);
    assert_eq!(out.deltas, vec![(false, 3_000)]);
}

#[test]
fn times_stay_sorted() {
    let mut course = one_segment_course();
    for t in [5u64, 3, 9, 3, 1] {
        course.record_lap(t, Vec::new());
    }
    assert_eq!(course.times, vec![1, 3, 3, 5, 9]);
    assert_eq!(course.best, 1);
    assert_eq!(course.worst, 9);
    assert_eq!(course.last, 1);
}

#[test]
fn wrong_heading_does_not_start() {
    let mut course = one_segment_course();
    let mut timer = LapTimer::new(&course, GateConfig::standard());
    let out = timer.process_fix(&mut course, Fix { lat: S_LAT, lon: S_LON, track: 2_250_000, time_ms: 0 });
    assert!(!out.lap_started);
    assert!(!timer.on_track);
    // unknown track data is accepted
    let out = timer.process_fix(&mut course, Fix { lat: S_LAT, lon: S_LON, track: 0, time_ms: 1 });
    assert!(out.lap_started);
}

#[test]
fn off_track_finish_is_ignored() {
    let mut course = one_segment_course();
    let mut timer = LapTimer::new(&course, GateConfig::standard());
    let out = timer.process_fix(&mut course, at_finish(1_000));
    assert!(out.lap.is_none());
    assert!(course.times.is_empty());
    assert!(out.deltas.is_empty());
}

#[test]
fn elapsed_reported_while_on_track() {
    let mut course = one_segment_course();
    let mut timer = LapTimer::new(&course, GateConfig::standard());
    timer.process_fix(&mut course, at_start(1_000));
    let out = timer.process_fix(&mut course, mid(373_248_000, 4_500));
    assert_eq!(out.elapsed, Some(3_500));
    assert!(out.lap.is_none());
    // no best lap yet: neutral delta
    assert_eq!(out.deltas, vec![(false, 0)]);
    assert_eq!(out.ahead, None);
}

#[test]
fn mid_lap_delta_against_best() {
    let mut course = one_segment_course();
    let mut timer = LapTimer::new(&course, GateConfig::standard());
    timer.process_fix(&mut course, at_start(0));
    timer.process_fix(&mut course, mid(373_247_000, 3_000));
    timer.process_fix(&mut course, mid(373_248_000, 6_000));
    timer.process_fix(&mut course, at_finish(12_000));
    // best: [[S@0], [A@3000, B@6000, F@12000]]; B is 3000 into its split
    timer.process_fix(&mut course, at_start(20_000));
    timer.process_fix(&mut course, mid(373_247_000, 22_000));
    let out = timer.process_fix(&mut course, mid(373_248_000, 24_500));
    // current split: A@2000, B@4500 -> 2500 into it; best 3000 -> ahead by 500
    assert_eq!(course.last_location_time, Some(3_000));
    assert_eq!(out.deltas, vec![(true, 500)]);
    assert_eq!(out.ahead, Some(true));
}

#[test]
fn two_segment_splits() {
    let mut course = two_segment_course();
    let mut timer = LapTimer::new(&course, GateConfig::standard());
    timer.process_fix(&mut course, at_start(0));
    timer.process_fix(&mut course, mid(373_247_000, 2_000));
    timer.process_fix(&mut course, mid(373_249_790, 4_000));
    timer.process_fix(&mut course, mid(373_252_000, 6_000));
    timer.process_fix(&mut course, at_finish(8_000));
    assert_eq!(course.best_times.len(), 3);
    assert_eq!(course.best_times[0], vec![rec(S_LAT, S_LON, 0)]);
    assert_eq!(
        course.best_times[1],
        vec![rec(373_247_000, S_LON, 2_000), rec(373_249_790, S_LON, 4_000)]
    );
    assert_eq!(
        course.best_times[2],
        vec![rec(373_252_000, S_LON, 6_000), rec(F_LAT, F_LON, 8_000)]
    );
}

#[test]
fn lookup_uses_last_match() {
    let bt = vec![
        vec![rec(10, 10, 100), rec(2_000, 2_000, 150)],
        vec![rec(1_000, 1_000, 300), rec(10, 10, 700)],
    ];
    assert_eq!(best_lap_time_at(&bt, Point { lat: 10, lon: 10 }), Some(400));
    assert_eq!(best_lap_time_at(&bt, Point { lat: 2_000, lon: 2_000 }), Some(50));
    assert_eq!(best_lap_time_at(&bt, Point { lat: 5_000, lon: 5_000 }), None);
    assert_eq!(best_lap_time_at(&Vec::new(), Point { lat: 10, lon: 10 }), None);
}

#[test]
fn deltas_sign_convention() {
    assert_eq!(time_deltas(10, 4), vec![(true, 6)]);
    assert_eq!(time_deltas(4, 10), vec![(false, 6)]);
    assert_eq!(time_deltas(7, 7), vec![(true, 0), (false, 0)]);
    assert_eq!(split_delta(None, 5), (vec![(false, 0)], None));
    assert_eq!(split_delta(Some(9), 5), (vec![(true, 4)], Some(true)));
    assert_eq!(split_delta(Some(5), 9), (vec![(false, 4)], Some(false)));
    assert_eq!(split_delta(Some(5), 5), (vec![(true, 0), (false, 0)], Some(false)));
}

#[test]
fn worker_decisions() {
    let d = decide(WorkerState::Connecting, WorkerEvent::ConnectFailed, false, false);
    assert_eq!(d, Decision { next: WorkerState::Connecting, sleep_ms: 5_000, save: false, stop: false });
    let d = decide(WorkerState::Connecting, WorkerEvent::ConnectFailed, true, false);
    assert!(d.stop);
    let d = decide(WorkerState::Connecting, WorkerEvent::Connected, false, true);
    assert_eq!(d, Decision { next: WorkerState::Running, sleep_ms: 0, save: false, stop: false });
    let d = decide(WorkerState::Running, WorkerEvent::FixFailed, false, true);
    assert_eq!(d, Decision { next: WorkerState::Running, sleep_ms: 30, save: false, stop: false });
    let d = decide(WorkerState::Running, WorkerEvent::FixProcessed, false, true);
    assert_eq!(d, Decision { next: WorkerState::Running, sleep_ms: 0, save: true, stop: false });
    let d = decide(WorkerState::Running, WorkerEvent::FixProcessed, true, true);
    assert_eq!(d, Decision { next: WorkerState::Stopped, sleep_ms: 0, save: true, stop: true });
    let d = decide(WorkerState::Stopped, WorkerEvent::FixProcessed, false, true);
    assert_eq!(d, Decision { next: WorkerState::Stopped, sleep_ms: 0, save: false, stop: true });
}

#[test]
fn save_request_is_one_shot() {
    let mut flag = true;
    assert!(take_request(&mut flag));
    assert!(!flag);
    assert!(!take_request(&mut flag));
}

#[test]
fn clock_fields_split() {
    assert_eq!(clock_fields(12_345), (0, 12, 345));
    assert_eq!(clock_fields(0), (0, 0, 0));
    assert_eq!(clock_fields(3_723_004), (62, 3, 4));
}

#[test]
fn segments_from_track_sections() {
    let a = Coord::new(1, 2, Some(10));
    let b = Coord::new(3, 4, None);
    let c = Coord::new(5, 6, Some(20));
    let segs = segments_from_track(&vec![vec![a, b, c], vec![b]]);
    assert_eq!(segs, vec![Segment::new(a, c), Segment::new(b, b)]);
}

#[test]
fn record_lap_reports_new_best() {
    let mut course = one_segment_course();
    assert!(course.record_lap(9_000, vec![vec![rec(1, 1, 0)]]));
    assert!(!course.record_lap(9_500, vec![vec![rec(2, 2, 0)]]));
    assert_eq!(course.best_times, vec![vec![rec(1, 1, 0)]]);
    // an equal time counts as a new best and replaces the snapshot
    assert!(course.record_lap(9_000, vec![vec![rec(3, 3, 0)]]));
    assert_eq!(course.best_times, vec![vec![rec(3, 3, 0)]]);
    assert_eq!(course.times, vec![9_000, 9_000, 9_500]);
}

fn two_segment_course() -> Course {
    let seg1 = Segment::new(Coord::new(S_LAT, S_LON, Some(S_HEAD)), Coord::new(373_249_790, S_LON, None));
    let seg2 = Segment::new(Coord::new(373_249_790, S_LON, None), Coord::new(F_LAT, F_LON, Some(F_HEAD)));
    Course::new(vec![seg1, seg2])
}

#[test]
fn no_match_gives_neutral_delta() {
    let mut course = one_segment_course();
    let mut timer = LapTimer::new(&course, GateConfig::standard());
    timer.process_fix(&mut course, at_start(0));
    timer.process_fix(&mut course, mid(373_247_000, 3_000));
    timer.process_fix(&mut course, at_finish(12_000));
    timer.process_fix(&mut course, at_start(20_000));
    let out = timer.process_fix(&mut course, mid(373_247_000, 22_000));
    assert_eq!(course.last_location_time, Some(0));
    assert_eq!(out.ahead, Some(false));
    // a place the best lap never passed: no stale comparison
    let out = timer.process_fix(&mut course, mid(373_251_000, 24_000));
    assert_eq!(course.last_location_time, None);
    assert_eq!(out.deltas, vec![(false, 0)]);
    assert_eq!(out.ahead, None);
}

#[test]
fn split_gate_delta_uses_closed_split() {
    let mut course = two_segment_course();
    let mut timer = LapTimer::new(&course, GateConfig::standard());
    timer.process_fix(&mut course, at_start(0));
    timer.process_fix(&mut course, mid(373_247_000, 2_000));
    timer.process_fix(&mut course, mid(373_249_790, 4_000));
    timer.process_fix(&mut course, mid(373_252_000, 6_000));
    timer.process_fix(&mut course, at_finish(8_000));
    timer.process_fix(&mut course, at_start(10_000));
    timer.process_fix(&mut course, mid(373_247_000, 11_500));
    // closes the split [P@1500, Q@3000]: 1500 into it against the best's 2000
    let out = timer.process_fix(&mut course, mid(373_249_790, 13_000));
    assert_eq!(course.last_location_time, Some(2_000));
    assert_eq!(out.deltas, vec![(true, 500)]);
    assert_eq!(out.ahead, Some(true));
}

#[test]
fn well_formed_course_check() {
    let mut course = one_segment_course();
    assert!(course.is_well_formed());
    course.record_lap(9_000, Vec::new());
    course.record_lap(7_000, Vec::new());
    assert!(course.is_well_formed());
    let mut unsorted = one_segment_course();
    unsorted.times = vec![9_000, 7_000];
    unsorted.best = 9_000;
    unsorted.worst = 7_000;
    assert!(!unsorted.is_well_formed());
    let mut wrong_best = one_segment_course();
    wrong_best.times = vec![7_000, 9_000];
    wrong_best.best = 9_000;
    wrong_best.worst = 9_000;
    assert!(!wrong_best.is_well_formed());
    let mut bad_point = one_segment_course();
    bad_point.best_times = vec![vec![rec(900_000_001, 0, 0)]];
    assert!(!bad_point.is_well_formed());
    let empty = Course { segments: Vec::new(), ..one_segment_course() };
    assert!(!empty.is_well_formed());
}
