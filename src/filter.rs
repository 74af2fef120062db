//! Single-point Kalman-style smoother for GPS positions: a 1-D filter
//! applied independently to latitude and longitude.
use vstd::prelude::*;
use crate::geofence::{Point, valid_point};

verus! {

/// Smallest accuracy used, in millimetres: a zero accuracy counts as 1 mm.
pub const MIN_ACCURACY: u64 = 1;

/// Largest accuracy used, in millimetres: a coarser one (beyond 1000 km,
/// far past any GPS error) counts as 1000 km, which keeps the products of
/// the update within 128 bits.
pub const MAX_ACCURACY: u64 = 1_000_000_000;

/// Ceiling on the variance, in square millimetres.
pub const VARIANCE_CEILING: u128 = 1_000_000_000_000_000_000;

/// The accuracy (millimetres) after clamping into
/// [`MIN_ACCURACY`, `MAX_ACCURACY`].
pub open spec fn clamp_accuracy(a: int) -> int {
    if a < MIN_ACCURACY {
        MIN_ACCURACY as int
    } else if a > MAX_ACCURACY {
        MAX_ACCURACY as int
    } else {
        a
    }
}

/// Variance grown by `dt_ms` milliseconds of process noise `q`.
pub open spec fn prior_variance(v: int, dt_ms: int, q: int) -> int {
    vstd::math::min(v + dt_ms * q * q / 1000, VARIANCE_CEILING as int)
}

/// Variance after an observation of variance `a2`: `v * (1 - k)` with
/// gain `k = v / (v + a2)`.
pub open spec fn posterior_variance(v: int, a2: int) -> int {
    (v * a2) / (v + a2)
}

/// The estimate moved toward the observation by the gain `v / (v + a2)`.
pub open spec fn blend(est: int, obs: int, v: int, a2: int) -> int {
    if obs >= est {
        est + (v * (obs - est)) / (v + a2)
    } else {
        est - (v * (est - obs)) / (v + a2)
    }
}

/// Elapsed milliseconds between two timestamps; 0 when time went back.
pub open spec fn elapsed_ms(from: int, to: int) -> int {
    if to >= from {
        to - from
    } else {
        0
    }
}

/// Filter state: the last estimate, its time and its variance.
pub struct PositionFilter {
    pub process_noise: u64,
    pub initialised: bool,
    pub estimate: Point,
    pub timestamp_ms: u64,
    pub variance: u128,
}

impl PositionFilter {
    pub open spec fn wf(&self) -> bool {
        &&& self.variance <= VARIANCE_CEILING
        &&& self.initialised ==> valid_point(self.estimate)
    }

    /// A filter that has seen no observation yet, with process noise
    /// `process_noise` (millimetres per second).
    pub fn new(process_noise: u64) -> (r: PositionFilter)
        ensures
            r.wf(),
            !r.initialised,
            r.process_noise == process_noise,
    {
        PositionFilter {
            process_noise,
            initialised: false,
            estimate: Point { lat: 0, lon: 0 },
            timestamp_ms: 0,
            variance: 0,
        }
    }

    /// Feeds the observation `obs`, of accuracy `accuracy` millimetres, taken
    /// at `timestamp_ms`, and returns the filtered position. The first
    /// observation is returned unchanged and seeds the variance with the
    /// squared accuracy.
    pub fn process(&mut self, obs: Point, accuracy: u64, timestamp_ms: u64) -> (r: Point)
        requires
            old(self).wf(),
            valid_point(obs),
        ensures
            final(self).wf(),
            final(self).initialised,
            final(self).process_noise == old(self).process_noise,
            final(self).timestamp_ms == timestamp_ms,
            final(self).estimate == r,
            valid_point(r),
            ({
                let a2 = clamp_accuracy(accuracy as int) * clamp_accuracy(accuracy as int);
                if !old(self).initialised {
                    &&& r == obs
                    &&& final(self).variance == a2
                } else {
                    let q = old(self).process_noise as int;
                    let v = prior_variance(
                        old(self).variance as int,
                        elapsed_ms(old(self).timestamp_ms as int, timestamp_ms as int),
                        q,
                    );
                    &&& r.lat == blend(old(self).estimate.lat as int, obs.lat as int, v, a2)
                    &&& r.lon == blend(old(self).estimate.lon as int, obs.lon as int, v, a2)
                    &&& final(self).variance == posterior_variance(v, a2)
                }
            }),
    {
        let acc: u128 = if accuracy < MIN_ACCURACY {
            MIN_ACCURACY as u128
        } else if accuracy > MAX_ACCURACY {
            MAX_ACCURACY as u128
        } else {
            accuracy as u128
        };
        proof {
            assert(1 <= acc * acc <= 1_000_000_000_000_000_000) by (nonlinear_arith)
                requires 1 <= acc <= 1_000_000_000;
        }
        let a2: u128 = acc * acc;
        if !self.initialised {
            self.initialised = true;
            self.estimate = obs;
            self.timestamp_ms = timestamp_ms;
            self.variance = a2;
            return obs;
        }
        let dt: u128 = if timestamp_ms >= self.timestamp_ms {
            (timestamp_ms - self.timestamp_ms) as u128
        } else {
            0
        };
        let q = self.process_noise as u128;
        proof {
            assert(q * q <= 18_446_744_073_709_551_615 * 18_446_744_073_709_551_615) by (nonlinear_arith)
                requires q <= 18_446_744_073_709_551_615;
            assert(dt * q * q == dt * (q * q)) by (nonlinear_arith);
        }
        let q2: u128 = q * q;
        let growth: u128 = if q2 == 0 || dt <= (VARIANCE_CEILING * 1000) / q2 {
            proof {
                lemma_growth_fits(dt as int, q2 as int);
            }
            dt * q2 / 1000
        } else {
            proof {
                lemma_growth_exceeds(dt as int, q2 as int);
            }
            VARIANCE_CEILING
        };
        let grown: u128 = self.variance + growth;
        let v: u128 = if grown < VARIANCE_CEILING { grown } else { VARIANCE_CEILING };
        let lat = blend_exec(self.estimate.lat, obs.lat, v, a2);
        let lon = blend_exec(self.estimate.lon, obs.lon, v, a2);
        proof {
            assert(v * a2 <= VARIANCE_CEILING * 1_000_000_000_000_000_000) by (nonlinear_arith)
                requires v <= VARIANCE_CEILING, a2 <= 1_000_000_000_000_000_000;
            lemma_posterior_le(v as int, a2 as int);
            lemma_blend_between(self.estimate.lat as int, obs.lat as int, v as int, a2 as int);
            lemma_blend_between(self.estimate.lon as int, obs.lon as int, v as int, a2 as int);
        }
        let r = Point { lat, lon };
        self.estimate = r;
        self.timestamp_ms = timestamp_ms;
        self.variance = (v * a2) / (v + a2);
        r
    }
}

proof fn lemma_growth_fits(dt: int, q2: int)
    requires
        dt >= 0,
        q2 >= 0,
        q2 == 0 || dt <= (VARIANCE_CEILING * 1000) / q2,
    ensures
        0 <= dt * q2 <= VARIANCE_CEILING * 1000,
{
    if q2 > 0 {
        let k = (VARIANCE_CEILING * 1000) / q2;
        vstd::arithmetic::div_mod::lemma_fundamental_div_mod(VARIANCE_CEILING * 1000, q2);
        assert(k * q2 <= VARIANCE_CEILING * 1000) by {
            vstd::arithmetic::div_mod::lemma_mod_pos_bound(VARIANCE_CEILING * 1000, q2);
            assert(k * q2 == q2 * k) by (nonlinear_arith);
        }
        assert(dt * q2 <= k * q2) by (nonlinear_arith)
            requires dt <= k, q2 > 0;
        assert(dt * q2 >= 0) by (nonlinear_arith)
            requires dt >= 0, q2 > 0;
    }
}

proof fn lemma_growth_exceeds(dt: int, q2: int)
    requires
        dt >= 0,
        q2 > 0,
        dt > (VARIANCE_CEILING * 1000) / q2,
    ensures
        dt * q2 / 1000 >= VARIANCE_CEILING,
{
    let x = VARIANCE_CEILING * 1000;
    let k = x / q2;
    vstd::arithmetic::div_mod::lemma_fundamental_div_mod(x, q2);
    vstd::arithmetic::div_mod::lemma_mod_pos_bound(x, q2);
    assert(x < (k + 1) * q2) by (nonlinear_arith)
        requires x == q2 * k + x % q2, x % q2 < q2;
    assert((k + 1) * q2 <= dt * q2) by (nonlinear_arith)
        requires dt >= k + 1, q2 > 0;
    vstd::arithmetic::div_mod::lemma_div_is_ordered(x, dt * q2, 1000);
    assert(x / 1000 == VARIANCE_CEILING);
}

proof fn lemma_blend_between(est: int, obs: int, v: int, a2: int)
    requires
        v >= 0,
        a2 > 0,
    ensures
        obs >= est ==> est <= blend(est, obs, v, a2) <= obs,
        obs < est ==> obs <= blend(est, obs, v, a2) <= est,
{
    let d = if obs >= est { obs - est } else { est - obs };
    assert(v * d <= (v + a2) * d) by (nonlinear_arith)
        requires d >= 0, a2 > 0;
    assert(v * d >= 0) by (nonlinear_arith)
        requires d >= 0, v >= 0;
    vstd::arithmetic::div_mod::lemma_div_is_ordered(v * d, (v + a2) * d, v + a2);
    vstd::arithmetic::div_mod::lemma_div_multiples_vanish(d, v + a2);
    vstd::arithmetic::div_mod::lemma_div_pos_is_pos(v * d, v + a2);
}

fn blend_exec(est: i64, obs: i64, v: u128, a2: u128) -> (r: i64)
    requires
        -2_000_000_000 <= est <= 2_000_000_000,
        -2_000_000_000 <= obs <= 2_000_000_000,
        v <= VARIANCE_CEILING,
        1 <= a2 <= 1_000_000_000_000_000_000,
    ensures
        r == blend(est as int, obs as int, v as int, a2 as int),
{
    proof {
        lemma_blend_between(est as int, obs as int, v as int, a2 as int);
    }
    if obs >= est {
        let d = (obs - est) as u128;
        proof {
            assert(v * d <= VARIANCE_CEILING * 4_000_000_000) by (nonlinear_arith)
                requires v <= VARIANCE_CEILING, d <= 4_000_000_000;
        }
        est + ((v * d) / (v + a2)) as i64
    } else {
        let d = (est - obs) as u128;
        proof {
            assert(v * d <= VARIANCE_CEILING * 4_000_000_000) by (nonlinear_arith)
                requires v <= VARIANCE_CEILING, d <= 4_000_000_000;
        }
        est - ((v * d) / (v + a2)) as i64
    }
}

proof fn lemma_posterior_le(v: int, a2: int)
    requires
        v >= 0,
        a2 > 0,
    ensures
        0 <= posterior_variance(v, a2) <= v,
        posterior_variance(v, a2) <= a2,
{
    assert(v * a2 <= v * (v + a2)) by (nonlinear_arith)
        requires v >= 0, a2 > 0;
    assert(v * a2 <= a2 * (v + a2)) by (nonlinear_arith)
        requires v >= 0, a2 > 0;
    assert(v * a2 >= 0) by (nonlinear_arith)
        requires v >= 0, a2 > 0;
    vstd::arithmetic::div_mod::lemma_div_is_ordered(v * a2, v * (v + a2), v + a2);
    vstd::arithmetic::div_mod::lemma_div_multiples_vanish(v, v + a2);
    vstd::arithmetic::div_mod::lemma_div_is_ordered(v * a2, a2 * (v + a2), v + a2);
    vstd::arithmetic::div_mod::lemma_div_multiples_vanish(a2, v + a2);
    vstd::arithmetic::div_mod::lemma_div_pos_is_pos(v * a2, v + a2);
}


/// Each update moves the estimate toward the observation and never past
/// it: the new estimate lies between the old estimate and the
/// observation, so an observation of the true position never takes the
/// estimate farther from it.
pub proof fn lemma_estimate_moves_toward_observation(est: int, obs: int, v: int, a2: int)
    requires
        v >= 0,
        a2 > 0,
    ensures
        obs >= est ==> est <= blend(est, obs, v, a2) <= obs,
        obs < est ==> obs <= blend(est, obs, v, a2) <= est,
        vstd::math::abs(blend(est, obs, v, a2) - obs) <= vstd::math::abs(est - obs),
{
    lemma_blend_between(est, obs, v, a2);
}

/// The variance after `n` updates that follow the first observation, with
/// the same squared accuracy `a2`, the same interval `dt_ms` between
/// observations and process noise `q`.
pub open spec fn variance_after(a2: int, dt_ms: int, q: int, n: nat) -> int
    decreases n,
{
    if n == 0 {
        a2
    } else {
        posterior_variance(prior_variance(variance_after(a2, dt_ms, q, (n - 1) as nat), dt_ms, q), a2)
    }
}

proof fn lemma_posterior_monotone(v1: int, v2: int, a2: int)
    requires
        0 <= v1 <= v2,
        a2 > 0,
    ensures
        posterior_variance(v1, a2) <= posterior_variance(v2, a2),
{
    let (x1, d1, x2, d2) = (v1 * a2, v1 + a2, v2 * a2, v2 + a2);
    assert(x1 * d2 <= x2 * d1) by (nonlinear_arith)
        requires x1 == v1 * a2, d1 == v1 + a2, x2 == v2 * a2, d2 == v2 + a2, 0 <= v1 <= v2, a2 > 0;
    let q1 = x1 / d1;
    vstd::arithmetic::div_mod::lemma_fundamental_div_mod(x1, d1);
    assert(q1 * d1 <= x1);
    assert(q1 >= 0) by {
        assert(x1 >= 0) by (nonlinear_arith)
            requires x1 == v1 * a2, v1 >= 0, a2 > 0;
        vstd::arithmetic::div_mod::lemma_div_pos_is_pos(x1, d1);
    }
    assert(q1 * d2 <= x2) by (nonlinear_arith)
        requires q1 * d1 <= x1, x1 * d2 <= x2 * d1, d1 > 0, d2 > 0, q1 >= 0;
    vstd::arithmetic::div_mod::lemma_div_is_ordered(q1 * d2, x2, d2);
    vstd::arithmetic::div_mod::lemma_div_multiples_vanish(q1, d2);
}

proof fn lemma_variance_after_bounds(a2: int, dt_ms: int, q: int, n: nat)
    requires
        a2 > 0,
        dt_ms >= 0,
    ensures
        0 <= variance_after(a2, dt_ms, q, n) <= a2,
    decreases n,
{
    if n > 0 {
        lemma_variance_after_bounds(a2, dt_ms, q, (n - 1) as nat);
        let p = prior_variance(variance_after(a2, dt_ms, q, (n - 1) as nat), dt_ms, q);
        assert(dt_ms * q * q >= 0) by (nonlinear_arith)
            requires dt_ms >= 0;
        lemma_posterior_le(p, a2);
    }
}

/// With the accuracy and the interval between observations held fixed,
/// the variance never grows from one update to the next.
pub proof fn lemma_variance_non_increasing(a2: int, dt_ms: int, q: int, n: nat)
    requires
        a2 > 0,
        dt_ms >= 0,
    ensures
        variance_after(a2, dt_ms, q, n + 1) <= variance_after(a2, dt_ms, q, n),
    decreases n,
{
    assert(dt_ms * q * q >= 0) by (nonlinear_arith)
        requires dt_ms >= 0;
    lemma_variance_after_bounds(a2, dt_ms, q, n);
    lemma_variance_after_bounds(a2, dt_ms, q, n + 1);
    if n == 0 {
        lemma_posterior_le(prior_variance(a2, dt_ms, q), a2);
    } else {
        let m = (n - 1) as nat;
        lemma_variance_non_increasing(a2, dt_ms, q, m);
        lemma_variance_after_bounds(a2, dt_ms, q, m);
        let p1 = prior_variance(variance_after(a2, dt_ms, q, n), dt_ms, q);
        let p0 = prior_variance(variance_after(a2, dt_ms, q, m), dt_ms, q);
        assert(0 <= p1 <= p0);
        lemma_posterior_monotone(p1, p0, a2);
    }
}

} // verus!
