//! Local-to-global coordinate transform: expresses the anchors' geographic
//! offsets in meters on a flat-earth approximation, fits the affine map that
//! carries local coordinates onto those offsets, and applies it to a solved
//! local position.

use vstd::prelude::*;

use crate::fixed::{
    clamp_i128, div_trunc_i128, floor_div_i64, lemma_div_trunc_bounds, lemma_mul_bounds,
    spec_clamp, spec_div_trunc,
};
use crate::sensors::{Sensor, COORD_LIMIT_MM};

verus! {

/// Largest magnitude kept for a meter-offset produced by the affine map, in
/// millimeters.
pub const OFFSET_LIMIT_MM: i128 = 100_000_000_000_000;

/// Largest magnitude kept for a geographic displacement, in nanodegrees.
pub const DELTA_LIMIT_ND: i128 = 1_000_000_000_000_000;

/// Cosine of a latitude given in nanodegrees, as a scale-2^30 fixed-point
/// value: the latitude is brought to scale-2^30 radians through π ≈
/// 3373259426 / 2^30, and the cosine is evaluated by its Taylor series
/// through the tenth power, truncated at zero.
pub open spec fn spec_cos_lat_fp30(lat_nd: int) -> int
    recommends
        -90_000_000_000 <= lat_nd <= 90_000_000_000,
{
    let m = if lat_nd < 0 {
        -lat_nd
    } else {
        lat_nd
    };
    let xfp = (m * 3_373_259_426) / 180_000_000_000;
    let x2 = (xfp * xfp) / 1_073_741_824;
    let t1 = x2 / 2;
    let t2 = (t1 * x2) / 12_884_901_888;
    let t3 = (t2 * x2) / 32_212_254_720;
    let t4 = (t3 * x2) / 60_129_542_144;
    let t5 = (t4 * x2) / 96_636_764_160;
    let c = 1_073_741_824 - t1 + t2 - t3 + t4 - t5;
    if c < 0 {
        0
    } else {
        c
    }
}

/// Fixed-point cosine of a latitude (scale 2^30).
fn cos_lat_fp30(lat_nd: i64) -> (c: u64)
    requires
        -90_000_000_000 <= lat_nd <= 90_000_000_000,
    ensures
        c == spec_cos_lat_fp30(lat_nd as int),
        c <= 2_000_000_000,
{
    let m: u128 = if lat_nd < 0 {
        (-lat_nd) as u128
    } else {
        lat_nd as u128
    };
    let xfp: u128 = m * 3_373_259_426 / 180_000_000_000;
    proof {
        vstd::arithmetic::div_mod::lemma_div_is_ordered(
            m as int * 3_373_259_426,
            303_593_348_340_000_000_000,
            180_000_000_000,
        );
        lemma_mul_bounds(xfp as int, xfp as int, 1_686_629_713, 1_686_629_713);
        vstd::arithmetic::div_mod::lemma_div_is_ordered(
            xfp as int * xfp as int,
            2_844_719_788_774_462_369,
            1_073_741_824,
        );
    }
    let xsq: u128 = xfp * xfp;
    let x2: u128 = xsq / 1_073_741_824;
    let t1: u128 = x2 / 2;
    proof {
        vstd::arithmetic::div_mod::lemma_div_is_ordered(x2 as int, 2_649_351_757, 2);
        lemma_mul_bounds(t1 as int, x2 as int, 1_324_675_878, 2_649_351_757);
        vstd::arithmetic::div_mod::lemma_div_is_ordered(
            t1 as int * x2 as int,
            3_509_532_364_834_817_646,
            12_884_901_888,
        );
    }
    let t2: u128 = t1 * x2 / 12_884_901_888;
    proof {
        lemma_mul_bounds(t2 as int, x2 as int, 272_375_559, 2_649_351_757);
        vstd::arithmetic::div_mod::lemma_div_is_ordered(
            t2 as int * x2 as int,
            721_618_665_800_507_163,
            32_212_254_720,
        );
    }
    let t3: u128 = t2 * x2 / 32_212_254_720;
    proof {
        lemma_mul_bounds(t3 as int, x2 as int, 22_401_991, 2_649_351_757);
        vstd::arithmetic::div_mod::lemma_div_is_ordered(
            t3 as int * x2 as int,
            59_350_754_216_148_187,
            60_129_542_144,
        );
    }
    let t4: u128 = t3 * x2 / 60_129_542_144;
    proof {
        lemma_mul_bounds(t4 as int, x2 as int, 987_048, 2_649_351_757);
        vstd::arithmetic::div_mod::lemma_div_is_ordered(
            t4 as int * x2 as int,
            2_615_037_353_043_336,
            96_636_764_160,
        );
    }
    let t5: u128 = t4 * x2 / 96_636_764_160;
    let plus: u128 = 1_073_741_824 + t2 + t4;
    let minus: u128 = t1 + t3 + t5;
    if minus > plus {
        0
    } else {
        (plus - minus) as u64
    }
}

/// Numerator of the affine interpolation: with `M` the matrix of the
/// anchors' homogeneous local coordinates and `g` the vector of their
/// meter-offsets, this is `det(M) ·(coefficients · (px, py, 1))`, expanded
/// by Cramer's rule so that the single division by `det(M)` happens at the
/// caller.
pub open spec fn spec_affine_num(
    px: int,
    py: int,
    x1: int,
    x2: int,
    x3: int,
    y1: int,
    y2: int,
    y3: int,
    g1: int,
    g2: int,
    g3: int,
) -> int {
    let d0 = (g2 * y3 - g3 * y2) - (g1 * y3 - g3 * y1) + (g1 * y2 - g2 * y1);
    let d1 = (x2 * g3 - x3 * g2) - (x1 * g3 - x3 * g1) + (x1 * g2 - x2 * g1);
    let d2 = g1 * (x2 * y3 - x3 * y2) - g2 * (x1 * y3 - x3 * y1) + g3 * (x1 * y2 - x2 * y1);
    d0 * px + d1 * py + d2
}

/// Executable affine-interpolation numerator over bounded inputs.
fn affine_num(
    px: i64,
    py: i64,
    x1: i64,
    x2: i64,
    x3: i64,
    y1: i64,
    y2: i64,
    y3: i64,
    g1: i128,
    g2: i128,
    g3: i128,
) -> (n: i128)
    requires
        -COORD_LIMIT_MM <= px <= COORD_LIMIT_MM,
        -COORD_LIMIT_MM <= py <= COORD_LIMIT_MM,
        -COORD_LIMIT_MM <= x1 <= COORD_LIMIT_MM,
        -COORD_LIMIT_MM <= x2 <= COORD_LIMIT_MM,
        -COORD_LIMIT_MM <= x3 <= COORD_LIMIT_MM,
        -COORD_LIMIT_MM <= y1 <= COORD_LIMIT_MM,
        -COORD_LIMIT_MM <= y2 <= COORD_LIMIT_MM,
        -COORD_LIMIT_MM <= y3 <= COORD_LIMIT_MM,
        -100_000_000_000 <= g1 <= 100_000_000_000,
        -100_000_000_000 <= g2 <= 100_000_000_000,
        -100_000_000_000 <= g3 <= 100_000_000_000,
    ensures
        n == spec_affine_num(
            px as int,
            py as int,
            x1 as int,
            x2 as int,
            x3 as int,
            y1 as int,
            y2 as int,
            y3 as int,
            g1 as int,
            g2 as int,
            g3 as int,
        ),
        -20_000_000_000_000_000_000_000_000_000 <= n <= 20_000_000_000_000_000_000_000_000_000,
{
    let xa = x1 as i128;
    let xb = x2 as i128;
    let xc = x3 as i128;
    let ya = y1 as i128;
    let yb = y2 as i128;
    let yc = y3 as i128;
    proof {
        let gl: int = 100_000_000_000;
        let cl: int = COORD_LIMIT_MM as int;
        lemma_mul_bounds(g2 as int, yc as int, gl, cl);
        lemma_mul_bounds(g3 as int, yb as int, gl, cl);
        lemma_mul_bounds(g1 as int, yc as int, gl, cl);
        lemma_mul_bounds(g3 as int, ya as int, gl, cl);
        lemma_mul_bounds(g1 as int, yb as int, gl, cl);
        lemma_mul_bounds(g2 as int, ya as int, gl, cl);
        lemma_mul_bounds(xb as int, g3 as int, cl, gl);
        lemma_mul_bounds(xc as int, g2 as int, cl, gl);
        lemma_mul_bounds(xa as int, g3 as int, cl, gl);
        lemma_mul_bounds(xc as int, g1 as int, cl, gl);
        lemma_mul_bounds(xa as int, g2 as int, cl, gl);
        lemma_mul_bounds(xb as int, g1 as int, cl, gl);
        lemma_mul_bounds(xb as int, yc as int, cl, cl);
        lemma_mul_bounds(xc as int, yb as int, cl, cl);
        lemma_mul_bounds(xa as int, yc as int, cl, cl);
        lemma_mul_bounds(xc as int, ya as int, cl, cl);
        lemma_mul_bounds(xa as int, yb as int, cl, cl);
        lemma_mul_bounds(xb as int, ya as int, cl, cl);
    }
    let d0: i128 = (g2 * yc - g3 * yb) - (g1 * yc - g3 * ya) + (g1 * yb - g2 * ya);
    let d1: i128 = (xb * g3 - xc * g2) - (xa * g3 - xc * g1) + (xa * g2 - xb * g1);
    let m1: i128 = xb * yc - xc * yb;
    let m2: i128 = xa * yc - xc * ya;
    let m3: i128 = xa * yb - xb * ya;
    proof {
        lemma_mul_bounds(g1 as int, m1 as int, 100_000_000_000, 20_000_000_000_000_000);
        lemma_mul_bounds(g2 as int, m2 as int, 100_000_000_000, 20_000_000_000_000_000);
        lemma_mul_bounds(g3 as int, m3 as int, 100_000_000_000, 20_000_000_000_000_000);
        lemma_mul_bounds(d0 as int, px as int, 60_000_000_000_000_000_000, COORD_LIMIT_MM as int);
        lemma_mul_bounds(d1 as int, py as int, 60_000_000_000_000_000_000, COORD_LIMIT_MM as int);
    }
    let d2: i128 = g1 * m1 - g2 * m2 + g3 * m3;
    d0 * (px as i128) + d1 * (py as i128) + d2
}

/// Local-to-global transform: `None` exactly when the
/// anchors' local positions are collinear (the homogeneous matrix is
/// singular) or the cosine of the mean latitude rounds to zero; otherwise
/// the solved local position carried onto anchor 1's geographic frame.
/// Offsets and displacements are saturated at `OFFSET_LIMIT_MM` and
/// `DELTA_LIMIT_ND`.
pub open spec fn spec_transform(px: int, py: int, s1: Sensor, s2: Sensor, s3: Sensor) -> Option<
    (i64, i64),
> {
    let mean_lat = (s1.lat + s2.lat + s3.lat) / 3;
    let cf = spec_cos_lat_fp30(mean_lat);
    if cf == 0 {
        None
    } else {
        let gx2 = spec_div_trunc((s2.lon - s1.lon) * 111_320_000 * cf, 1_073_741_824_000_000_000);
        let gx3 = spec_div_trunc((s3.lon - s1.lon) * 111_320_000 * cf, 1_073_741_824_000_000_000);
        let gy2 = spec_div_trunc((s2.lat - s1.lat) * 111_320_000, 1_000_000_000);
        let gy3 = spec_div_trunc((s3.lat - s1.lat) * 111_320_000, 1_000_000_000);
        let det = (s2.x * s3.y - s3.x * s2.y) - (s1.x * s3.y - s3.x * s1.y) + (s1.x * s2.y - s2.x
            * s1.y);
        if det == 0 {
            None
        } else {
            let gxo = spec_clamp(
                spec_div_trunc(
                    spec_affine_num(px, py, s1.x as int, s2.x as int, s3.x as int, s1.y as int, s2.y as int, s3.y as int, 0, gx2, gx3),
                    det,
                ),
                OFFSET_LIMIT_MM as int,
            );
            let gyo = spec_clamp(
                spec_div_trunc(
                    spec_affine_num(px, py, s1.x as int, s2.x as int, s3.x as int, s1.y as int, s2.y as int, s3.y as int, 0, gy2, gy3),
                    det,
                ),
                OFFSET_LIMIT_MM as int,
            );
            let dlat = spec_clamp(
                spec_div_trunc(gyo * 1_000_000_000, 111_320_000),
                DELTA_LIMIT_ND as int,
            );
            let dlon = spec_clamp(
                spec_div_trunc(gxo * 1_073_741_824_000_000_000, 111_320_000 * cf),
                DELTA_LIMIT_ND as int,
            );
            Some(((s1.lat + dlat) as i64, (s1.lon + dlon) as i64))
        }
    }
}

/// Carries a solved local position into geographic coordinates using the
/// three anchors of the resolution. Returns `(lat, lon)` in
/// nanodegrees, or `None` on singular geometry, never a substituted
/// placeholder coordinate.
pub fn transform_local_to_global(
    local_x: i64,
    local_y: i64,
    s1: &Sensor,
    s2: &Sensor,
    s3: &Sensor,
) -> (r: Option<(i64, i64)>)
    requires
        s1.wf(),
        s2.wf(),
        s3.wf(),
        -COORD_LIMIT_MM <= local_x <= COORD_LIMIT_MM,
        -COORD_LIMIT_MM <= local_y <= COORD_LIMIT_MM,
    ensures
        r == spec_transform(local_x as int, local_y as int, *s1, *s2, *s3),
{
    let lat_sum: i64 = s1.lat + s2.lat + s3.lat;
    let mean_lat: i64 = floor_div_i64(lat_sum, 3);
    proof {
        vstd::arithmetic::div_mod::lemma_div_is_ordered(
            lat_sum as int,
            270_000_000_000,
            3,
        );
        vstd::arithmetic::div_mod::lemma_div_is_ordered(
            -270_000_000_000,
            lat_sum as int,
            3,
        );
    }
    let cf: u64 = cos_lat_fp30(mean_lat);
    if cf == 0 {
        return None;
    }
    let cfw: i128 = cf as i128;
    proof {
        lemma_mul_bounds(
            ((s2.lon - s1.lon) as i128 * 111_320_000) as int,
            cfw as int,
            40_075_200_000_000_000_000,
            2_000_000_000,
        );
        lemma_mul_bounds(
            ((s3.lon - s1.lon) as i128 * 111_320_000) as int,
            cfw as int,
            40_075_200_000_000_000_000,
            2_000_000_000,
        );
        lemma_div_trunc_bounds(
            ((s2.lon - s1.lon) as i128 * 111_320_000 * cfw) as int,
            1_073_741_824_000_000_000,
            80_150_400_000_000_000_000_000_000_000,
        );
        lemma_div_trunc_bounds(
            ((s3.lon - s1.lon) as i128 * 111_320_000 * cfw) as int,
            1_073_741_824_000_000_000,
            80_150_400_000_000_000_000_000_000_000,
        );
        lemma_div_trunc_bounds(
            ((s2.lat - s1.lat) as i128 * 111_320_000) as int,
            1_000_000_000,
            20_037_600_000_000_000_000,
        );
        lemma_div_trunc_bounds(
            ((s3.lat - s1.lat) as i128 * 111_320_000) as int,
            1_000_000_000,
            20_037_600_000_000_000_000,
        );
    }
    let gx2: i128 = div_trunc_i128(
        (s2.lon - s1.lon) as i128 * 111_320_000 * cfw,
        1_073_741_824_000_000_000,
    );
    let gx3: i128 = div_trunc_i128(
        (s3.lon - s1.lon) as i128 * 111_320_000 * cfw,
        1_073_741_824_000_000_000,
    );
    let gy2: i128 = div_trunc_i128((s2.lat - s1.lat) as i128 * 111_320_000, 1_000_000_000);
    let gy3: i128 = div_trunc_i128((s3.lat - s1.lat) as i128 * 111_320_000, 1_000_000_000);

    let xa = s1.x as i128;
    let xb = s2.x as i128;
    let xc = s3.x as i128;
    let ya = s1.y as i128;
    let yb = s2.y as i128;
    let yc = s3.y as i128;
    proof {
        let cl: int = COORD_LIMIT_MM as int;
        lemma_mul_bounds(xb as int, yc as int, cl, cl);
        lemma_mul_bounds(xc as int, yb as int, cl, cl);
        lemma_mul_bounds(xa as int, yc as int, cl, cl);
        lemma_mul_bounds(xc as int, ya as int, cl, cl);
        lemma_mul_bounds(xa as int, yb as int, cl, cl);
        lemma_mul_bounds(xb as int, ya as int, cl, cl);
    }
    let det: i128 = (xb * yc - xc * yb) - (xa * yc - xc * ya) + (xa * yb - xb * ya);
    if det == 0 {
        return None;
    }
    let numx: i128 = affine_num(
        local_x,
        local_y,
        s1.x,
        s2.x,
        s3.x,
        s1.y,
        s2.y,
        s3.y,
        0,
        gx2,
        gx3,
    );
    let numy: i128 = affine_num(
        local_x,
        local_y,
        s1.x,
        s2.x,
        s3.x,
        s1.y,
        s2.y,
        s3.y,
        0,
        gy2,
        gy3,
    );
    let gxo: i128 = clamp_i128(div_trunc_i128(numx, det), OFFSET_LIMIT_MM);
    let gyo: i128 = clamp_i128(div_trunc_i128(numy, det), OFFSET_LIMIT_MM);
    let dlat: i128 = clamp_i128(
        div_trunc_i128(gyo * 1_000_000_000, 111_320_000),
        DELTA_LIMIT_ND,
    );
    let dlon: i128 = clamp_i128(
        div_trunc_i128(gxo * 1_073_741_824_000_000_000, 111_320_000 * cfw),
        DELTA_LIMIT_ND,
    );
    let lat: i128 = s1.lat as i128 + dlat;
    let lon: i128 = s1.lon as i128 + dlon;
    Some((lat as i64, lon as i64))
}

} // verus!
