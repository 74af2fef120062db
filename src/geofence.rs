//! Gate construction and point-in-gate tests in a flat lat/lon
//! approximation (1 degree of latitude is 111,111 m, 1 degree of longitude
//! is 111,111 * cos(lat) m).
use vstd::prelude::*;
use crate::heading::{DEGREE, FULL_TURN};

verus! {

/// Fixed-point scale of sines and cosines: 1.0 is `UNIT`.
pub const UNIT: i64 = 1_000_000;

/// Largest accepted latitude magnitude (90 degrees, in 1e-7 degree).
pub const MAX_LAT: i64 = 900_000_000;

/// Largest accepted longitude magnitude (180 degrees, in 1e-7 degree).
pub const MAX_LON: i64 = 1_800_000_000;

/// Largest accepted gate half-length or half-width, in millimetres.
pub const MAX_GATE_HALF: i64 = 1_000_000;

/// Millimetres times `UNIT` per 1e-7 degree of latitude: 111,111 m per degree.
pub const LAT_DIVISOR: i64 = 11_111_100;

/// Metres per degree used by the flat-earth approximation.
pub const METRES_PER_DEGREE: i64 = 111_111;

/// A position, latitude and longitude in units of 1e-7 degree.
#[derive(Clone, Copy, Debug, PartialEq, Eq, Structural)]
pub struct Point {
    pub lat: i64,
    pub lon: i64,
}

/// Dimensions of a gate, in millimetres: half its length along the
/// direction of travel and half its width across it.
#[derive(Clone, Copy, Debug, PartialEq, Eq, Structural)]
pub struct GateConfig {
    pub half_length: i64,
    pub half_width: i64,
}

impl GateConfig {
    pub open spec fn valid(self) -> bool {
        0 <= self.half_length <= MAX_GATE_HALF && 0 <= self.half_width <= MAX_GATE_HALF
    }

    /// A gate 10 m long and 2 m wide.
    pub fn standard() -> (r: GateConfig)
        ensures
            r.valid(),
            r.half_length == 5000,
            r.half_width == 1000,
    {
        GateConfig { half_length: 5000, half_width: 1000 }
    }
}

/// The four corners of a gate, in order around the quadrilateral.
#[derive(Clone, Copy, Debug, PartialEq, Eq, Structural)]
pub struct Gate {
    pub front_left: Point,
    pub back_left: Point,
    pub back_right: Point,
    pub front_right: Point,
}

pub open spec fn valid_point(p: Point) -> bool {
    -MAX_LAT <= p.lat <= MAX_LAT && -MAX_LON <= p.lon <= MAX_LON
}

/// Bhaskara's rational approximation of the sine on [0, 180] degrees,
/// scaled by `UNIT`; `a` is in units of 1e-4 degree.
pub open spec fn half_sine(a: int) -> int {
    let p = a * (1_800_000 - a);
    (4 * p * 1_000_000) / (40_500 * 100_000_000 - p)
}

/// Approximate sine of the angle `a` (1e-4 degree), scaled by `UNIT`.
pub open spec fn sine(a: int) -> int {
    let b = a % 3_600_000;
    if b < 1_800_000 {
        half_sine(b)
    } else {
        -half_sine(b - 1_800_000)
    }
}

/// Approximate cosine of the angle `a` (1e-4 degree), scaled by `UNIT`.
pub open spec fn cosine(a: int) -> int {
    sine(a + 900_000)
}

proof fn lemma_half_sine_bounds(a: int)
    requires
        0 <= a <= 1_800_000,
    ensures
        0 <= half_sine(a) <= UNIT,
{
    let p = a * (1_800_000 - a);
    assert(0 <= p <= 810_000_000_000) by (nonlinear_arith)
        requires
            0 <= a <= 1_800_000,
            p == a * (1_800_000 - a),
    {
        assert((a - 900_000) * (a - 900_000) >= 0);
    }
    let num = 4 * p * 1_000_000;
    let den = 40_500 * 100_000_000 - p;
    assert(den > 0);
    assert(num <= 1_000_000 * den);
    assert(num / den <= 1_000_000) by (nonlinear_arith)
        requires
            num <= 1_000_000 * den,
            den > 0,
            num >= 0,
    {
        vstd::arithmetic::div_mod::lemma_div_is_ordered(num, 1_000_000 * den, den);
        vstd::arithmetic::div_mod::lemma_div_multiples_vanish(1_000_000, den);
    }
    assert(num / den >= 0) by (nonlinear_arith)
        requires
            num >= 0,
            den > 0,
    ;
}

proof fn lemma_sine_bounds(a: int)
    requires
        a >= 0,
    ensures
        -UNIT <= sine(a) <= UNIT,
{
    let b = a % 3_600_000;
    if b < 1_800_000 {
        lemma_half_sine_bounds(b);
    } else {
        lemma_half_sine_bounds(b - 1_800_000);
    }
}

fn half_sine_exec(a: u64) -> (r: i64)
    requires
        a <= 1_800_000,
    ensures
        r == half_sine(a as int),
        0 <= r <= UNIT,
{
    proof {
        lemma_half_sine_bounds(a as int);
        assert(a * (1_800_000 - a) <= 810_000_000_000) by (nonlinear_arith)
            requires
                a <= 1_800_000,
        {
            assert((a - 900_000) * (a - 900_000) >= 0);
        }
    }
    let p: u64 = a * (1_800_000 - a);
    let num: u64 = 4 * p * 1_000_000;
    let den: u64 = 4_050_000_000_000 - p;
    (num / den) as i64
}

/// Approximate sine of an angle given in 1e-4 degree, scaled by `UNIT`.
pub fn sine_of(angle: u64) -> (r: i64)
    ensures
        r == sine(angle as int),
        -UNIT <= r <= UNIT,
{
    let b = angle % (FULL_TURN as u64);
    proof {
        lemma_sine_bounds(angle as int);
    }
    if b < 1_800_000 {
        half_sine_exec(b)
    } else {
        -half_sine_exec(b - 1_800_000)
    }
}

/// Approximate cosine of an angle given in 1e-4 degree, scaled by `UNIT`.
pub fn cosine_of(angle: u64) -> (r: i64)
    ensures
        r == cosine(angle as int),
        -UNIT <= r <= UNIT,
{
    proof {
        lemma_sine_bounds(angle as int + 900_000);
    }
    sine_of(angle % (FULL_TURN as u64) + 90 * (DEGREE as u64))
}


/// Division rounding toward zero, as Rust's `/` does.
pub open spec fn trunc_div(n: int, d: int) -> int {
    if n >= 0 {
        n / d
    } else {
        -((-n) / d)
    }
}

fn trunc_div_exec(n: i64, d: i64) -> (r: i64)
    requires
        d > 0,
        n > i64::MIN,
    ensures
        r == trunc_div(n as int, d as int),
{
    if n >= 0 {
        n / d
    } else {
        -((-n) / d)
    }
}

proof fn lemma_trunc_div_bound(n: int, d: int, m: int)
    requires
        d > 0,
        -m <= n <= m,
    ensures
        -(m / d) <= trunc_div(n, d) <= m / d,
{
    if n >= 0 {
        vstd::arithmetic::div_mod::lemma_div_is_ordered(n, m, d);
    } else {
        vstd::arithmetic::div_mod::lemma_div_is_ordered(-n, m, d);
    }
}

/// Cosine of a latitude (1e-7 degree), scaled by `UNIT`, never below 1 so
/// that it can divide.
pub open spec fn lat_cosine(lat: int) -> int {
    let a = if lat >= 0 { lat } else { -lat };
    let c = cosine(a / 1000);
    if c < 1 {
        1
    } else {
        c
    }
}

fn lat_cosine_exec(lat: i64) -> (r: i64)
    requires
        -MAX_LAT <= lat <= MAX_LAT,
    ensures
        r == lat_cosine(lat as int),
        1 <= r <= UNIT,
{
    let a: i64 = if lat >= 0 { lat } else { -lat };
    let c = cosine_of((a / 1000) as u64);
    if c < 1 {
        1
    } else {
        c
    }
}

/// The heading used for a gate: a missing heading counts as 0 degrees.
pub open spec fn gate_heading(head: Option<u32>) -> int {
    match head {
        Some(h) => h as int,
        None => 0,
    }
}

/// Offset, in 1e-7 degree, of a local displacement (`along`, `across`) in
/// millimetres times `UNIT`, at latitude `lat`.
pub open spec fn offset(lat: int, along: int, across: int) -> Point {
    Point {
        lat: trunc_div(across, LAT_DIVISOR as int) as i64,
        lon: (-trunc_div(along * 10_000, METRES_PER_DEGREE * lat_cosine(lat))) as i64,
    }
}

/// Offset of the front-left corner from a gate's own position.
pub open spec fn front_offset(lat: int, h: int, cfg: GateConfig) -> Point {
    let (c, s) = (cosine(h), sine(h));
    offset(lat, cfg.half_length * c - cfg.half_width * s, cfg.half_length * s + cfg.half_width * c)
}

/// Offset of the back-left corner from a gate's own position.
pub open spec fn back_offset(lat: int, h: int, cfg: GateConfig) -> Point {
    let (c, s) = (cosine(h), sine(h));
    offset(lat, cfg.half_length * c + cfg.half_width * s, cfg.half_length * s - cfg.half_width * c)
}

pub open spec fn plus(p: Point, o: Point) -> Point {
    Point { lat: (p.lat + o.lat) as i64, lon: (p.lon + o.lon) as i64 }
}

pub open spec fn minus(p: Point, o: Point) -> Point {
    Point { lat: (p.lat - o.lat) as i64, lon: (p.lon - o.lon) as i64 }
}

/// A gate around `(lat, lon)` facing heading `head`: a parallelogram
/// symmetric about its own position.
pub open spec fn gate_of(lat: i64, lon: i64, head: Option<u32>, cfg: GateConfig) -> Gate {
    let c = Point { lat, lon };
    let u = front_offset(lat as int, gate_heading(head), cfg);
    let w = back_offset(lat as int, gate_heading(head), cfg);
    Gate { front_left: plus(c, u), back_left: plus(c, w), back_right: minus(c, u), front_right: minus(c, w) }
}

/// Largest latitude offset, in 1e-7 degree, of a gate corner.
pub open spec fn lat_reach(cfg: GateConfig) -> int {
    ((cfg.half_length + cfg.half_width) * UNIT) / (LAT_DIVISOR as int)
}

/// Largest longitude offset, in 1e-7 degree, of a gate corner at `lat`.
pub open spec fn lon_reach(lat: int, cfg: GateConfig) -> int {
    ((cfg.half_length + cfg.half_width) * UNIT * 10_000) / (METRES_PER_DEGREE * lat_cosine(lat))
}

proof fn lemma_rotation_bound(l: int, w: int, c: int, s: int)
    requires
        0 <= l <= MAX_GATE_HALF,
        0 <= w <= MAX_GATE_HALF,
        -UNIT <= c <= UNIT,
        -UNIT <= s <= UNIT,
    ensures
        -(l + w) * UNIT <= l * c - w * s <= (l + w) * UNIT,
        -(l + w) * UNIT <= l * c + w * s <= (l + w) * UNIT,
        -(l + w) * UNIT <= l * s + w * c <= (l + w) * UNIT,
        -(l + w) * UNIT <= l * s - w * c <= (l + w) * UNIT,
{
    assert(-l * UNIT <= l * c <= l * UNIT) by (nonlinear_arith)
        requires 0 <= l, -UNIT <= c <= UNIT;
    assert(-l * UNIT <= l * s <= l * UNIT) by (nonlinear_arith)
        requires 0 <= l, -UNIT <= s <= UNIT;
    assert(-w * UNIT <= w * c <= w * UNIT) by (nonlinear_arith)
        requires 0 <= w, -UNIT <= c <= UNIT;
    assert(-w * UNIT <= w * s <= w * UNIT) by (nonlinear_arith)
        requires 0 <= w, -UNIT <= s <= UNIT;
}

proof fn lemma_offset_bound(lat: int, along: int, across: int, m: int)
    requires
        -MAX_LAT <= lat <= MAX_LAT,
        0 <= m <= 2 * MAX_GATE_HALF * UNIT,
        -m <= along <= m,
        -m <= across <= m,
    ensures
        -(m / (LAT_DIVISOR as int)) <= offset(lat, along, across).lat <= m / (LAT_DIVISOR as int),
        -((m * 10_000) / (METRES_PER_DEGREE * lat_cosine(lat))) <= offset(lat, along, across).lon
            <= (m * 10_000) / (METRES_PER_DEGREE * lat_cosine(lat)),
        m / (LAT_DIVISOR as int) <= 200_000,
        (m * 10_000) / (METRES_PER_DEGREE * lat_cosine(lat)) <= 200_000_000_000,
{
    let a = if lat >= 0 { lat } else { -lat };
    lemma_sine_bounds(a / 1000 + 900_000);
    let d = METRES_PER_DEGREE * lat_cosine(lat);
    assert(d >= METRES_PER_DEGREE);
    lemma_trunc_div_bound(across, LAT_DIVISOR as int, m);
    assert(-(m * 10_000) <= along * 10_000 <= m * 10_000);
    lemma_trunc_div_bound(along * 10_000, d, m * 10_000);
    vstd::arithmetic::div_mod::lemma_div_is_ordered(m, 2 * MAX_GATE_HALF * UNIT, LAT_DIVISOR as int);
    vstd::arithmetic::div_mod::lemma_div_is_ordered_by_denominator(m * 10_000, METRES_PER_DEGREE as int, d);
    vstd::arithmetic::div_mod::lemma_div_is_ordered(m * 10_000, 2 * MAX_GATE_HALF * UNIT * 10_000, METRES_PER_DEGREE as int);
}

proof fn lemma_gate_offsets_bounded(lat: int, h: int, cfg: GateConfig)
    requires
        -MAX_LAT <= lat <= MAX_LAT,
        h >= 0,
        cfg.valid(),
    ensures
        -lat_reach(cfg) <= front_offset(lat, h, cfg).lat <= lat_reach(cfg),
        -lat_reach(cfg) <= back_offset(lat, h, cfg).lat <= lat_reach(cfg),
        -lon_reach(lat, cfg) <= front_offset(lat, h, cfg).lon <= lon_reach(lat, cfg),
        -lon_reach(lat, cfg) <= back_offset(lat, h, cfg).lon <= lon_reach(lat, cfg),
        lat_reach(cfg) <= 200_000,
        lon_reach(lat, cfg) <= 200_000_000_000,
{
    lemma_sine_bounds(h);
    lemma_sine_bounds(h + 900_000);
    let (c, s) = (cosine(h), sine(h));
    let (l, w) = (cfg.half_length as int, cfg.half_width as int);
    lemma_rotation_bound(l, w, c, s);
    let m = (l + w) * UNIT;
    lemma_offset_bound(lat, l * c - w * s, l * s + w * c, m);
    lemma_offset_bound(lat, l * c + w * s, l * s - w * c, m);
}

/// Builds a gate polygon around `(lat, lon)` for a gate recorded with
/// heading `track` (0 degrees when missing): a rectangle `cfg.half_length`
/// either side along the heading and `cfg.half_width` either side across it.
pub fn genereate_polygon(lat: i64, lon: i64, track: Option<u32>, cfg: GateConfig) -> (r: Gate)
    requires
        valid_point(Point { lat, lon }),
        cfg.valid(),
    ensures
        r == gate_of(lat, lon, track, cfg),
{
    let h: u64 = match track {
        Some(t) => t as u64,
        None => 0,
    };
    let c = cosine_of(h);
    let s = sine_of(h);
    let cl = lat_cosine_exec(lat);
    proof {
        lemma_gate_offsets_bounded(lat as int, h as int, cfg);
        lemma_rotation_bound(cfg.half_length as int, cfg.half_width as int, c as int, s as int);
        assert(METRES_PER_DEGREE * cl <= METRES_PER_DEGREE * UNIT) by (nonlinear_arith)
            requires cl <= UNIT;
    }
    let (l, w) = (cfg.half_length, cfg.half_width);
    let lon_div = METRES_PER_DEGREE * cl;
    let u = Point {
        lat: trunc_div_exec(l * s + w * c, LAT_DIVISOR),
        lon: -trunc_div_exec((l * c - w * s) * 10_000, lon_div),
    };
    let v = Point {
        lat: trunc_div_exec(l * s - w * c, LAT_DIVISOR),
        lon: -trunc_div_exec((l * c + w * s) * 10_000, lon_div),
    };
    Gate {
        front_left: Point { lat: lat + u.lat, lon: lon + u.lon },
        back_left: Point { lat: lat + v.lat, lon: lon + v.lon },
        back_right: Point { lat: lat - u.lat, lon: lon - u.lon },
        front_right: Point { lat: lat - v.lat, lon: lon - v.lon },
    }
}


/// Cross product of the edge `a -> b` with `a -> q`: positive when `q`
/// lies to one side of the edge, negative on the other, 0 on its line.
pub open spec fn cross(a: Point, b: Point, q: Point) -> int {
    (b.lat - a.lat) * (q.lon - a.lon) - (b.lon - a.lon) * (q.lat - a.lat)
}

pub open spec fn min4(a: int, b: int, c: int, d: int) -> int {
    vstd::math::min(vstd::math::min(a, b), vstd::math::min(c, d))
}

pub open spec fn max4(a: int, b: int, c: int, d: int) -> int {
    vstd::math::max(vstd::math::max(a, b), vstd::math::max(c, d))
}

/// Whether `q` lies in the axis-aligned box around a gate's corners.
pub open spec fn in_bounds(g: Gate, q: Point) -> bool {
    &&& min4(g.front_left.lat as int, g.back_left.lat as int, g.back_right.lat as int, g.front_right.lat as int) <= q.lat
    &&& q.lat <= max4(g.front_left.lat as int, g.back_left.lat as int, g.back_right.lat as int, g.front_right.lat as int)
    &&& min4(g.front_left.lon as int, g.back_left.lon as int, g.back_right.lon as int, g.front_right.lon as int) <= q.lon
    &&& q.lon <= max4(g.front_left.lon as int, g.back_left.lon as int, g.back_right.lon as int, g.front_right.lon as int)
}

/// Whether `q` lies inside the convex gate polygon or on its boundary.
pub open spec fn point_in_gate(g: Gate, q: Point) -> bool {
    let c1 = cross(g.front_left, g.back_left, q);
    let c2 = cross(g.back_left, g.back_right, q);
    let c3 = cross(g.back_right, g.front_right, q);
    let c4 = cross(g.front_right, g.front_left, q);
    &&& in_bounds(g, q)
    &&& ((c1 >= 0 && c2 >= 0 && c3 >= 0 && c4 >= 0) || (c1 <= 0 && c2 <= 0 && c3 <= 0 && c4 <= 0))
}

/// Bound on the magnitude of gate corner coordinates.
pub const MAX_CORNER: i64 = 1_000_000_000_000;

pub open spec fn bounded_point(p: Point) -> bool {
    -MAX_CORNER <= p.lat <= MAX_CORNER && -MAX_CORNER <= p.lon <= MAX_CORNER
}

pub open spec fn bounded_gate(g: Gate) -> bool {
    &&& bounded_point(g.front_left)
    &&& bounded_point(g.back_left)
    &&& bounded_point(g.back_right)
    &&& bounded_point(g.front_right)
}

/// Every gate built from a valid position and configuration has bounded
/// corners.
pub proof fn lemma_gate_bounded(lat: i64, lon: i64, head: Option<u32>, cfg: GateConfig)
    requires
        valid_point(Point { lat, lon }),
        cfg.valid(),
    ensures
        bounded_gate(gate_of(lat, lon, head, cfg)),
{
    lemma_gate_offsets_bounded(lat as int, gate_heading(head), cfg);
}

fn cross_exec(a: Point, b: Point, q: Point) -> (r: i128)
    requires
        bounded_point(a),
        bounded_point(b),
        bounded_point(q),
    ensures
        r == cross(a, b, q),
{
    let (alat, alon) = (a.lat as i128, a.lon as i128);
    let x1 = b.lat as i128 - alat;
    let y1 = b.lon as i128 - alon;
    let x2 = q.lat as i128 - alat;
    let y2 = q.lon as i128 - alon;
    proof {
        assert(-4_000_000_000_000_000_000_000_000 <= x1 * y2 <= 4_000_000_000_000_000_000_000_000) by (nonlinear_arith)
            requires -2_000_000_000_000 <= x1 <= 2_000_000_000_000, -2_000_000_000_000 <= y2 <= 2_000_000_000_000;
        assert(-4_000_000_000_000_000_000_000_000 <= y1 * x2 <= 4_000_000_000_000_000_000_000_000) by (nonlinear_arith)
            requires -2_000_000_000_000 <= y1 <= 2_000_000_000_000, -2_000_000_000_000 <= x2 <= 2_000_000_000_000;
    }
    x1 * y2 - y1 * x2
}

fn min_exec(a: i64, b: i64) -> (r: i64)
    ensures
        r == vstd::math::min(a as int, b as int),
{
    if a <= b {
        a
    } else {
        b
    }
}

fn max_exec(a: i64, b: i64) -> (r: i64)
    ensures
        r == vstd::math::max(a as int, b as int),
{
    if a >= b {
        a
    } else {
        b
    }
}

/// Whether the point `q` lies inside gate `g` (its boundary included).
pub fn contains_point(g: &Gate, q: Point) -> (r: bool)
    requires
        bounded_gate(*g),
        valid_point(q),
    ensures
        r == point_in_gate(*g, q),
{
    let lat_lo = min_exec(min_exec(g.front_left.lat, g.back_left.lat), min_exec(g.back_right.lat, g.front_right.lat));
    let lat_hi = max_exec(max_exec(g.front_left.lat, g.back_left.lat), max_exec(g.back_right.lat, g.front_right.lat));
    let lon_lo = min_exec(min_exec(g.front_left.lon, g.back_left.lon), min_exec(g.back_right.lon, g.front_right.lon));
    let lon_hi = max_exec(max_exec(g.front_left.lon, g.back_left.lon), max_exec(g.back_right.lon, g.front_right.lon));
    if q.lat < lat_lo || q.lat > lat_hi || q.lon < lon_lo || q.lon > lon_hi {
        return false;
    }
    let c1 = cross_exec(g.front_left, g.back_left, q);
    let c2 = cross_exec(g.back_left, g.back_right, q);
    let c3 = cross_exec(g.back_right, g.front_right, q);
    let c4 = cross_exec(g.front_right, g.front_left, q);
    (c1 >= 0 && c2 >= 0 && c3 >= 0 && c4 >= 0) || (c1 <= 0 && c2 <= 0 && c3 <= 0 && c4 <= 0)
}

/// Building a gate is deterministic: the same position, heading and
/// dimensions always give the same polygon.
pub proof fn lemma_gate_deterministic(
    lat: i64,
    lon: i64,
    head: Option<u32>,
    cfg: GateConfig,
    g1: Gate,
    g2: Gate,
)
    requires
        g1 == gate_of(lat, lon, head, cfg),
        g2 == gate_of(lat, lon, head, cfg),
    ensures
        g1 == g2,
{
}

/// A gate always contains its own position.
pub proof fn lemma_gate_contains_own_position(lat: i64, lon: i64, head: Option<u32>, cfg: GateConfig)
    requires
        valid_point(Point { lat, lon }),
        cfg.valid(),
    ensures
        point_in_gate(gate_of(lat, lon, head, cfg), Point { lat, lon }),
{
    let g = gate_of(lat, lon, head, cfg);
    let c = Point { lat, lon };
    let u = front_offset(lat as int, gate_heading(head), cfg);
    let w = back_offset(lat as int, gate_heading(head), cfg);
    lemma_gate_offsets_bounded(lat as int, gate_heading(head), cfg);
    let (ux, uy, wx, wy) = (u.lat as int, u.lon as int, w.lat as int, w.lon as int);
    let k = ux * wy - uy * wx;
    assert(cross(g.front_left, g.back_left, c) == k) by (nonlinear_arith)
        requires g.front_left.lat == lat + ux, g.front_left.lon == lon + uy,
            g.back_left.lat == lat + wx, g.back_left.lon == lon + wy, c.lat == lat, c.lon == lon,
            k == ux * wy - uy * wx;
    assert(cross(g.back_left, g.back_right, c) == k) by (nonlinear_arith)
        requires g.back_left.lat == lat + wx, g.back_left.lon == lon + wy,
            g.back_right.lat == lat - ux, g.back_right.lon == lon - uy, c.lat == lat, c.lon == lon,
            k == ux * wy - uy * wx;
    assert(cross(g.back_right, g.front_right, c) == k) by (nonlinear_arith)
        requires g.back_right.lat == lat - ux, g.back_right.lon == lon - uy,
            g.front_right.lat == lat - wx, g.front_right.lon == lon - wy, c.lat == lat, c.lon == lon,
            k == ux * wy - uy * wx;
    assert(cross(g.front_right, g.front_left, c) == k) by (nonlinear_arith)
        requires g.front_right.lat == lat - wx, g.front_right.lon == lon - wy,
            g.front_left.lat == lat + ux, g.front_left.lon == lon + uy, c.lat == lat, c.lon == lon,
            k == ux * wy - uy * wx;
}

/// A point farther from a gate's position than its corners reach, along
/// the latitude or the longitude axis, lies outside it.
pub proof fn lemma_far_point_outside(lat: i64, lon: i64, head: Option<u32>, cfg: GateConfig, q: Point)
    requires
        valid_point(Point { lat, lon }),
        cfg.valid(),
        q.lat - lat > lat_reach(cfg) || lat - q.lat > lat_reach(cfg)
            || q.lon - lon > lon_reach(lat as int, cfg) || lon - q.lon > lon_reach(lat as int, cfg),
    ensures
        !point_in_gate(gate_of(lat, lon, head, cfg), q),
{
    lemma_gate_offsets_bounded(lat as int, gate_heading(head), cfg);
}


/// The latitude halfway between two positions, rounded toward zero.
pub open spec fn mid_lat(a: Point, b: Point) -> int {
    trunc_div(a.lat + b.lat, 2)
}

/// Whether two positions lie less than one metre apart in the flat-earth
/// approximation, the longitude scaled at their middle latitude
/// (distances scaled by 1e13 to stay in integers).
pub open spec fn within_metre(a: Point, b: Point) -> bool {
    let dy = (b.lat - a.lat) * METRES_PER_DEGREE * UNIT;
    let dx = (b.lon - a.lon) * METRES_PER_DEGREE * lat_cosine(mid_lat(a, b));
    dy * dy + dx * dx < 100_000_000_000_000_000_000_000_000
}

/// Matching positions within a metre does not depend on their order.
pub proof fn lemma_within_metre_symmetric(a: Point, b: Point)
    ensures
        within_metre(a, b) == within_metre(b, a),
{
    let c = lat_cosine(mid_lat(a, b));
    assert(mid_lat(a, b) == mid_lat(b, a));
    let (y, x) = ((b.lat - a.lat) as int, (b.lon - a.lon) as int);
    assert((y * METRES_PER_DEGREE * UNIT) * (y * METRES_PER_DEGREE * UNIT)
        == (-y * METRES_PER_DEGREE * UNIT) * (-y * METRES_PER_DEGREE * UNIT)) by (nonlinear_arith);
    assert((x * METRES_PER_DEGREE * c) * (x * METRES_PER_DEGREE * c)
        == (-x * METRES_PER_DEGREE * c) * (-x * METRES_PER_DEGREE * c)) by (nonlinear_arith);
}

/// Whether the positions `a` and `b` are the same place, to within one metre.
pub fn lat_lon_comp(a: Point, b: Point) -> (r: bool)
    requires
        valid_point(a),
        valid_point(b),
    ensures
        r == within_metre(a, b),
{
    let mid = trunc_div_exec(a.lat + b.lat, 2);
    let cl = lat_cosine_exec(mid);
    let dlat: i64 = b.lat - a.lat;
    let dlon: i64 = b.lon - a.lon;
    let adlat: u64 = if dlat >= 0 { dlat as u64 } else { (-dlat) as u64 };
    let adlon: u64 = if dlon >= 0 { dlon as u64 } else { (-dlon) as u64 };
    let ghost dy = (b.lat - a.lat) * METRES_PER_DEGREE * UNIT;
    let ghost dx = (b.lon - a.lon) * METRES_PER_DEGREE * lat_cosine(mid_lat(a, b));
    if adlat > 1000 {
        proof {
            assert(dy * dy >= 100_000_000_000_000_000_000_000_000) by (nonlinear_arith)
                requires dy == dlat * 111_111_000_000, dlat > 1000 || dlat < -1000;
            assert(dx * dx >= 0) by (nonlinear_arith);
        }
        return false;
    }
    proof {
        assert(adlon * (cl as u64) <= 3_600_000_000 * 1_000_000) by (nonlinear_arith)
            requires adlon <= 3_600_000_000, 1 <= cl <= 1_000_000;
    }
    let m: u64 = adlon * (cl as u64);
    if m > 100_000_000_000 {
        proof {
            assert(dx * dx >= 100_000_000_000_000_000_000_000_000) by (nonlinear_arith)
                requires dx == dlon * 111_111 * cl, m == adlon * cl, adlon == dlon || adlon == -dlon,
                    m > 100_000_000_000, cl >= 1;
            assert(dy * dy >= 0) by (nonlinear_arith);
        }
        return false;
    }
    let y: u128 = adlat as u128 * 111_111_000_000;
    let x: u128 = m as u128 * 111_111;
    proof {
        assert(y * y == dy * dy) by (nonlinear_arith)
            requires y == adlat * 111_111_000_000, dy == dlat * 111_111_000_000, adlat == dlat || adlat == -dlat;
        assert(x * x == dx * dx) by (nonlinear_arith)
            requires x == m * 111_111, m == adlon * cl, dx == dlon * 111_111 * cl, adlon == dlon || adlon == -dlon;
        assert(y * y <= 111_111_000_000_000 * 111_111_000_000_000) by (nonlinear_arith)
            requires y <= 111_111_000_000_000;
        assert(x * x <= 11_111_100_000_000_000 * 11_111_100_000_000_000) by (nonlinear_arith)
            requires x <= 11_111_100_000_000_000;
    }
    y * y + x * x < 100_000_000_000_000_000_000_000_000
}

} // verus!
