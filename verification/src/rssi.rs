//! Noise reduction and ranging: the median filter over an observation
//! window, the path-loss distance model, and the trilateration solver.

use vstd::prelude::*;
use vstd::multiset::Multiset;
use vstd::relations::{sorted_by, total_ordering};
use vstd::seq_lib::lemma_sorted_unique;

use crate::environment::Environment;
use crate::fixed::{
    clamp_i128, div_trunc_i128, floor_div_i64, lemma_mul_bounds, spec_clamp, spec_div_trunc,
};
use crate::sensors::{Sample, SensorCandidate, COORD_LIMIT_MM};

verus! {

/// Reference signal strength at one meter, in dBm: the deployment-wide
/// calibration constant of the path-loss model.
pub const CALIBRATED_RSSI_AT_1M: i8 = -70;

/// The ordering by which observation windows are ranked for the median.
pub open spec fn rssi_order() -> spec_fn(i8, i8) -> bool {
    |a: i8, b: i8| a <= b
}

/// The signal-strength readings of a window, observation order preserved.
pub open spec fn rssis_of(w: Seq<Sample>) -> Seq<i8> {
    w.map_values(|s: Sample| s.rssi)
}

/// The signal-strength readings of a window, sorted ascending.
pub open spec fn sorted_rssis(w: Seq<Sample>) -> Seq<i8> {
    rssis_of(w).sort_by(rssi_order())
}

/// The representative reading of a window: the element at index `len / 2` of
/// the ascending readings. For an even-length window this is the upper of
/// the two middle readings, never an average.
pub open spec fn spec_median(w: Seq<Sample>) -> i8
    recommends
        w.len() > 0,
{
    sorted_rssis(w)[w.len() as int / 2]
}

/// Ascending comparison of readings is a total order.
proof fn lemma_rssi_order_total()
    ensures
        total_ordering(rssi_order()),
{
}

/// Index of a minimal element of a non-empty vector of readings.
fn min_index(v: &Vec<i8>) -> (k: usize)
    requires
        v@.len() > 0,
    ensures
        k < v@.len(),
        forall|i: int| 0 <= i < v@.len() ==> v@[k as int] <= v@[i],
{
    let mut k: usize = 0;
    let mut i: usize = 1;
    while i < v.len()
        invariant
            0 < i <= v@.len(),
            k < i,
            forall|j: int| 0 <= j < i ==> v@[k as int] <= v@[j],
        decreases v@.len() - i,
    {
        if v[i] < v[k] {
            k = i;
        }
        i = i + 1;
    }
    k
}

/// Sorts readings ascending: the result is exactly the sorted permutation of
/// the input.
fn sort_rssis(values: Vec<i8>) -> (out: Vec<i8>)
    ensures
        out@ == values@.sort_by(rssi_order()),
        out@.len() == values@.len(),
{
    let ghost orig: Seq<i8> = values@;
    let mut src = values;
    let mut out: Vec<i8> = Vec::new();
    proof {
        broadcast use vstd::seq_lib::group_to_multiset_ensures;

        assert(out@.to_multiset().add(src@.to_multiset()) =~= orig.to_multiset());
    }
    while src.len() > 0
        invariant
            out@.to_multiset().add(src@.to_multiset()) == orig.to_multiset(),
            sorted_by(out@, rssi_order()),
            forall|i: int, j: int|
                0 <= i < out@.len() && 0 <= j < src@.len() ==> out@[i] <= src@[j],
        decreases src@.len(),
    {
        let k = min_index(&src);
        let x = src.remove(k);
        proof {
            broadcast use vstd::seq_lib::group_to_multiset_ensures;

            assert(forall|i: int| 0 <= i < out@.len() ==> out@[i] <= x);
            assert(out@.push(x).to_multiset().add(src@.to_multiset()) =~= orig.to_multiset());
        }
        out.push(x);
    }
    proof {
        broadcast use vstd::seq_lib::group_to_multiset_ensures;

        lemma_rssi_order_total();
        assert(src@.to_multiset() =~= Multiset::empty());
        assert(out@.to_multiset() =~= orig.to_multiset()) by {
            broadcast use vstd::multiset::group_multiset_axioms;

        }
        orig.lemma_sort_by_ensures(rssi_order());
        lemma_sorted_unique(out@, orig.sort_by(rssi_order()), rssi_order());
        assert(out@.len() == out@.to_multiset().len());
        assert(orig.len() == orig.to_multiset().len());
    }
    out
}

/// Median filter over an observation window: copies the
/// readings, sorts them ascending and returns the element at index
/// `len / 2`, so that an even-length window yields the upper middle reading.
pub fn calculate_rssi_median(window: &Vec<Sample>) -> (m: i8)
    requires
        window@.len() > 0,
    ensures
        m == spec_median(window@),
        rssis_of(window@).contains(m),
{
    let mut values: Vec<i8> = Vec::new();
    let mut i: usize = 0;
    while i < window.len()
        invariant
            i <= window@.len(),
            values@ == rssis_of(window@).subrange(0, i as int),
        decreases window@.len() - i,
    {
        values.push(window[i].rssi);
        proof {
            assert(values@ =~= rssis_of(window@).subrange(0, i + 1));
        }
        i = i + 1;
    }
    proof {
        assert(values@ =~= rssis_of(window@));
    }
    let sorted = sort_rssis(values);
    let m = sorted[sorted.len() / 2];
    proof {
        broadcast use vstd::seq_lib::group_to_multiset_ensures;

        lemma_rssi_order_total();
        rssis_of(window@).lemma_sort_by_ensures(rssi_order());
        let s = sorted_rssis(window@);
        assert(s[window@.len() as int / 2] == m);
        assert(s.contains(m));
        assert(s.to_multiset().count(m) > 0);
        assert(rssis_of(window@).to_multiset().count(m) > 0);
    }
    m
}

/// One step of the fixed-point exponential: if the fraction still holds
/// `bit`, multiply the scale-2^16 mantissa by the scale-2^16 constant `c`
/// (which stands for 10 raised to the weight of `bit`).
pub open spec fn pow_step(acc: int, r: int, bit: int, c: int) -> (int, int) {
    if r >= bit {
        ((acc * c) / 65536, r - bit)
    } else {
        (acc, r)
    }
}

/// 10 raised to `r / 65536` for `0 <= r < 65536`, as a scale-2^16 mantissa:
/// the fraction is consumed bit by bit, multiplying in the scale-2^16
/// constant for 10 raised to each power-of-two weight.
pub open spec fn spec_pow10_frac(r: int) -> int {
    let s01 = pow_step(65536, r, 32768, 207243);
    let s02 = pow_step(s01.0, s01.1, 16384, 116541);
    let s03 = pow_step(s02.0, s02.1, 8192, 87394);
    let s04 = pow_step(s03.0, s03.1, 4096, 75680);
    let s05 = pow_step(s04.0, s04.1, 2048, 70425);
    let s06 = pow_step(s05.0, s05.1, 1024, 67937);
    let s07 = pow_step(s06.0, s06.1, 512, 66726);
    let s08 = pow_step(s07.0, s07.1, 256, 66128);
    let s09 = pow_step(s08.0, s08.1, 128, 65831);
    let s10 = pow_step(s09.0, s09.1, 64, 65684);
    let s11 = pow_step(s10.0, s10.1, 32, 65610);
    let s12 = pow_step(s11.0, s11.1, 16, 65573);
    let s13 = pow_step(s12.0, s12.1, 8, 65554);
    let s14 = pow_step(s13.0, s13.1, 4, 65545);
    let s15 = pow_step(s14.0, s14.1, 2, 65541);
    let s16 = pow_step(s15.0, s15.1, 1, 65538);
    s16.0
}

/// 10 raised to `k`, for the small whole exponents left after the fraction
/// is split off.
pub open spec fn spec_pow10_small(k: int) -> int {
    if k <= 0 {
        1
    } else if k == 1 {
        10
    } else if k == 2 {
        100
    } else if k == 3 {
        1000
    } else {
        10000
    }
}

/// Estimated distance in millimeters for a reading: the inverse log-distance
/// path-loss model `10 ^ ((P0 - rssi) / (10 * exponent))`, evaluated in
/// scale-2^16 fixed point and saturated into `[0, COORD_LIMIT_MM]`. A zero
/// exponent is treated as its limit: the saturation bound for readings below
/// the reference, zero above it.
pub open spec fn spec_rssi_to_distance(rssi: i8, env: Environment) -> int {
    let eh = env.spec_exponent_hundredths() as int;
    let pd = CALIBRATED_RSSI_AT_1M - rssi;
    if eh == 0 {
        if pd >= 0 {
            COORD_LIMIT_MM as int
        } else {
            0
        }
    } else {
        let q = (pd * 655360) / eh;
        let k = q / 65536;
        let r = q - 65536 * k;
        let m = spec_pow10_frac(r);
        if k > 4 {
            COORD_LIMIT_MM as int
        } else if k < -4 {
            0
        } else {
            let raw = if k >= 0 {
                (m * 1000 * spec_pow10_small(k)) / 65536
            } else {
                (m * 1000) / 65536 / spec_pow10_small(-k)
            };
            if raw > COORD_LIMIT_MM {
                COORD_LIMIT_MM as int
            } else {
                raw
            }
        }
    }
}

/// One executable step of the fixed-point exponential.
fn pow_step_exec(acc: u128, r: u32, bit: u32, c: u64) -> (res: (u128, u32))
    requires
        acc <= 0x1_0000_0000_0000_0000,
        c <= 0x40000,
        1 <= bit,
    ensures
        (res.0 as int, res.1 as int) == pow_step(acc as int, r as int, bit as int, c as int),
        res.0 <= 4 * acc,
{
    if r >= bit {
        proof {
            crate::fixed::lemma_mul_bounds(acc as int, c as int, acc as int, 0x40000);
            vstd::arithmetic::div_mod::lemma_div_is_ordered(
                acc as int * c as int,
                acc as int * 0x40000,
                65536,
            );
            assert((acc as int * 0x40000) / 65536 == 4 * acc as int);
        }
        let next: u128 = acc * (c as u128) / 65536;
        (next, r - bit)
    } else {
        (acc, r)
    }
}

/// 10 raised to `k` for `0 <= k <= 4`.
fn pow10_small(k: i64) -> (p: u64)
    requires
        0 <= k <= 4,
    ensures
        p == spec_pow10_small(k as int),
{
    if k <= 0 {
        1
    } else if k == 1 {
        10
    } else if k == 2 {
        100
    } else if k == 3 {
        1000
    } else {
        10000
    }
}

/// Distance model: inverse log-distance path loss, monotone
/// decreasing in the reading. The result is the model's estimate in
/// millimeters, saturated into `[0, COORD_LIMIT_MM]`.
pub fn rssi_to_distance(rssi: i8, environment: Environment) -> (d: i64)
    ensures
        d == spec_rssi_to_distance(rssi, environment),
        0 <= d <= COORD_LIMIT_MM,
{
    let eh: u32 = environment.exponent_hundredths();
    let pd: i64 = (CALIBRATED_RSSI_AT_1M as i64) - (rssi as i64);
    if eh == 0 {
        if pd >= 0 {
            COORD_LIMIT_MM
        } else {
            0
        }
    } else {
        let num: i64 = pd * 655360;
        let q: i64 = floor_div_i64(num, eh as i64);
        let k: i64 = floor_div_i64(q, 65536);
        proof {
            crate::fixed::lemma_div_bounds(num as int, eh as int, 130_000_000);
            vstd::arithmetic::div_mod::lemma_fundamental_div_mod(q as int, 65536);
        }
        let r64: i64 = q - 65536 * k;
        let r: u32 = r64 as u32;
        let s01 = pow_step_exec(65536, r, 32768, 207243);
        let s02 = pow_step_exec(s01.0, s01.1, 16384, 116541);
        let s03 = pow_step_exec(s02.0, s02.1, 8192, 87394);
        let s04 = pow_step_exec(s03.0, s03.1, 4096, 75680);
        let s05 = pow_step_exec(s04.0, s04.1, 2048, 70425);
        let s06 = pow_step_exec(s05.0, s05.1, 1024, 67937);
        let s07 = pow_step_exec(s06.0, s06.1, 512, 66726);
        let s08 = pow_step_exec(s07.0, s07.1, 256, 66128);
        let s09 = pow_step_exec(s08.0, s08.1, 128, 65831);
        let s10 = pow_step_exec(s09.0, s09.1, 64, 65684);
        let s11 = pow_step_exec(s10.0, s10.1, 32, 65610);
        let s12 = pow_step_exec(s11.0, s11.1, 16, 65573);
        let s13 = pow_step_exec(s12.0, s12.1, 8, 65554);
        let s14 = pow_step_exec(s13.0, s13.1, 4, 65545);
        let s15 = pow_step_exec(s14.0, s14.1, 2, 65541);
        let s16 = pow_step_exec(s15.0, s15.1, 1, 65538);
        let m: u128 = s16.0;
        if k > 4 {
            COORD_LIMIT_MM
        } else if k < -4 {
            0
        } else {
            let t: u128 = m * 1000;
            let raw: u128 = if k >= 0 {
                let p = pow10_small(k);
                proof {
                    crate::fixed::lemma_mul_bounds(
                        t as int,
                        p as int,
                        0x400_0000_0000_0000,
                        10000,
                    );
                }
                t * (p as u128) / 65536
            } else {
                let p = pow10_small(-k);
                t / 65536 / (p as u128)
            };
            if raw > COORD_LIMIT_MM as u128 {
                COORD_LIMIT_MM
            } else {
                raw as i64
            }
        }
    }
}

/// Local position estimated from three anchor candidates:
/// subtracting the circle equations pairwise yields a 2-by-2 linear system
/// solved by Cramer's rule. `None` exactly when the denominator vanishes,
/// that is when the three anchors are collinear or two coincide. The
/// components are saturated into `[-COORD_LIMIT_MM, COORD_LIMIT_MM]` and
/// returned as `(y, x)`.
pub open spec fn spec_trilaterate(
    s1: SensorCandidate,
    s2: SensorCandidate,
    s3: SensorCandidate,
) -> Option<(i64, i64)> {
    let d1 = spec_rssi_to_distance(s1.rssi, s1.environment);
    let d2 = spec_rssi_to_distance(s2.rssi, s2.environment);
    let d3 = spec_rssi_to_distance(s3.rssi, s3.environment);
    let a = 2 * (s2.x - s1.x);
    let b = 2 * (s2.y - s1.y);
    let c = d1 * d1 - d2 * d2 + s2.x * s2.x - s1.x * s1.x + s2.y * s2.y - s1.y * s1.y;
    let dd = 2 * (s3.x - s2.x);
    let e = 2 * (s3.y - s2.y);
    let f = d2 * d2 - d3 * d3 + s3.x * s3.x - s2.x * s2.x + s3.y * s3.y - s2.y * s2.y;
    let denom = a * e - b * dd;
    if denom == 0 {
        None
    } else {
        let x = spec_clamp(spec_div_trunc(c * e - b * f, denom), COORD_LIMIT_MM as int);
        let y = spec_clamp(spec_div_trunc(a * f - c * dd, denom), COORD_LIMIT_MM as int);
        Some((y as i64, x as i64))
    }
}

/// The solver is a pure function of the candidate triple: any two results
/// that its contract admits for the same (positions, environments,
/// readings) coincide. There is no hidden state.
pub proof fn lemma_trilaterate_deterministic(
    s1: SensorCandidate,
    s2: SensorCandidate,
    s3: SensorCandidate,
    r1: Option<(i64, i64)>,
    r2: Option<(i64, i64)>,
)
    requires
        r1 == spec_trilaterate(s1, s2, s3),
        r2 == spec_trilaterate(s1, s2, s3),
    ensures
        r1 == r2,
{
}

/// Trilateration solver: ranges each candidate through the
/// distance model, then solves the linearized circle system by Cramer's
/// rule. Returns `None` exactly for degenerate (collinear or coinciding)
/// anchor geometry, never a substituted placeholder position.
pub fn trilaterate(
    s1: &SensorCandidate,
    s2: &SensorCandidate,
    s3: &SensorCandidate,
) -> (r: Option<(i64, i64)>)
    requires
        s1.wf(),
        s2.wf(),
        s3.wf(),
    ensures
        r == spec_trilaterate(*s1, *s2, *s3),
{
    let d1 = rssi_to_distance(s1.rssi, s1.environment);
    let d2 = rssi_to_distance(s2.rssi, s2.environment);
    let d3 = rssi_to_distance(s3.rssi, s3.environment);

    let x1 = s1.x as i128;
    let y1 = s1.y as i128;
    let x2 = s2.x as i128;
    let y2 = s2.y as i128;
    let x3 = s3.x as i128;
    let y3 = s3.y as i128;
    let e1 = d1 as i128;
    let e2 = d2 as i128;
    let e3 = d3 as i128;

    proof {
        let lim: int = COORD_LIMIT_MM as int;
        lemma_mul_bounds(e1 as int, e1 as int, lim, lim);
        lemma_mul_bounds(e2 as int, e2 as int, lim, lim);
        lemma_mul_bounds(e3 as int, e3 as int, lim, lim);
        lemma_mul_bounds(x1 as int, x1 as int, lim, lim);
        lemma_mul_bounds(x2 as int, x2 as int, lim, lim);
        lemma_mul_bounds(x3 as int, x3 as int, lim, lim);
        lemma_mul_bounds(y1 as int, y1 as int, lim, lim);
        lemma_mul_bounds(y2 as int, y2 as int, lim, lim);
        lemma_mul_bounds(y3 as int, y3 as int, lim, lim);
    }
    let a: i128 = 2 * (x2 - x1);
    let b: i128 = 2 * (y2 - y1);
    let c: i128 = e1 * e1 - e2 * e2 + x2 * x2 - x1 * x1 + y2 * y2 - y1 * y1;
    let dd: i128 = 2 * (x3 - x2);
    let e: i128 = 2 * (y3 - y2);
    let f: i128 = e2 * e2 - e3 * e3 + x3 * x3 - x2 * x2 + y3 * y3 - y2 * y2;

    proof {
        lemma_mul_bounds(a as int, e as int, 400_000_000, 400_000_000);
        lemma_mul_bounds(b as int, dd as int, 400_000_000, 400_000_000);
    }
    let denom: i128 = a * e - b * dd;
    if denom == 0 {
        None
    } else {
        proof {
            let cf_lim: int = 60_000_000_000_000_000;
            lemma_mul_bounds(c as int, e as int, cf_lim, 400_000_000);
            lemma_mul_bounds(b as int, f as int, 400_000_000, cf_lim);
            lemma_mul_bounds(a as int, f as int, 400_000_000, cf_lim);
            lemma_mul_bounds(c as int, dd as int, cf_lim, 400_000_000);
        }
        let xnum: i128 = c * e - b * f;
        let ynum: i128 = a * f - c * dd;
        let x = clamp_i128(div_trunc_i128(xnum, denom), COORD_LIMIT_MM as i128);
        let y = clamp_i128(div_trunc_i128(ynum, denom), COORD_LIMIT_MM as i128);
        Some((y as i64, x as i64))
    }
}

} // verus!
