//! Normalized input samples and the mapping from device coordinates to
//! sheet coordinates under the view's zoom factor.

use vstd::prelude::*;

use crate::geometry::{coord_in_range, Vector2, MAX_COORD};

verus! {

/// Pressure is carried in thousandths of full pressure.
pub const PRESSURE_MAX: u16 = 1000;

/// Substituted when the device reports no pressure.
pub const PRESSURE_DEFAULT: u16 = 500;

/// Zoom factors are carried in thousandths.
pub const SCALE_MIN: u32 = 400;

pub const SCALE_MAX: u32 = 3000;

pub const SCALE_DEFAULT: u32 = 1000;

/// Minimum pinch-gesture delta (in thousandths) that triggers a zoom update.
pub const SCALE_ZOOMGESTURE_RES: u32 = 20;

/// Slack around the sheet inside which samples are still accepted.
pub const INPUT_OVERSHOOT: i64 = 30;

/// One normalized pointer or stylus sample.
#[derive(Clone, Copy, PartialEq, Eq, Structural, Debug)]
pub struct InputSample {
    pub pos: Vector2,
    /// In `0 ..= PRESSURE_MAX` thousandths.
    pub pressure: u16,
}

impl InputSample {
    pub open spec fn wf(self) -> bool {
        &&& self.pos.wf()
        &&& self.pressure <= PRESSURE_MAX
    }

    pub fn new(pos: Vector2, pressure: u16) -> (r: InputSample)
        ensures
            r.pos == pos,
            r.pressure == pressure,
    {
        InputSample { pos, pressure }
    }
}

/// Builds the single sample a plain pointer event yields; pointers report
/// no pressure, so the default is substituted.
pub fn retreive_pointer_inputdata(x: i64, y: i64) -> (r: InputSample)
    ensures
        r.pos == (Vector2 { x, y }),
        r.pressure == PRESSURE_DEFAULT,
{
    InputSample { pos: Vector2 { x, y }, pressure: PRESSURE_DEFAULT }
}

/// Builds the newest sample of a stylus event from its axes; the default
/// pressure is substituted when the stylus reports none.
pub fn retreive_stylus_inputdata(x: i64, y: i64, pressure: Option<u16>) -> (r: InputSample)
    ensures
        r.pos == (Vector2 { x, y }),
        r.pressure == (match pressure {
            Option::Some(p) => p,
            Option::None => PRESSURE_DEFAULT,
        }),
{
    let p = match pressure {
        Option::Some(p) => p,
        Option::None => PRESSURE_DEFAULT,
    };
    InputSample { pos: Vector2 { x, y }, pressure: p }
}

/// Integer division rounding towards zero, for positive divisors.
pub open spec fn div_tz(a: int, b: int) -> int
    recommends
        b > 0,
{
    if a >= 0 {
        a / b
    } else {
        -((-a) / b)
    }
}

/// `v * num / den`, rounding towards zero.
pub open spec fn spec_muldiv_tz(v: int, num: int, den: int) -> int
    recommends
        den > 0,
{
    div_tz(v * num, den)
}

/// Magnitude bound under which `muldiv_tz` cannot overflow.
pub const MULDIV_MAX_IN: i64 = 0x2_0000_0000_0000;

pub fn muldiv_tz(v: i64, num: u32, den: u32) -> (r: i64)
    requires
        0 < den,
        num <= 3000,
        -MULDIV_MAX_IN <= v <= MULDIV_MAX_IN,
    ensures
        r == spec_muldiv_tz(v as int, num as int, den as int),
        v >= 0 ==> 0 <= r && r * (den as int) <= v * (num as int),
        v <= 0 ==> r <= 0 && (-r) * (den as int) <= (-v) * (num as int),
{
    proof {
        assert(MULDIV_MAX_IN * 3000 < 0x7fff_ffff_ffff_ffff);
    }
    if v >= 0 {
        proof {
            assert((v as int) * (num as int) <= MULDIV_MAX_IN * 3000) by (nonlinear_arith)
                requires
                    0 <= v <= MULDIV_MAX_IN,
                    0 <= num <= 3000,
            ;
        }
        let prod: u64 = (v as u64) * (num as u64);
        let q: u64 = prod / (den as u64);
        proof {
            lemma_div_bounds(prod as int, den as int);
        }
        q as i64
    } else {
        let neg: u64 = (-v) as u64;
        proof {
            assert((neg as int) * (num as int) <= MULDIV_MAX_IN * 3000) by (nonlinear_arith)
                requires
                    0 <= neg <= MULDIV_MAX_IN,
                    0 <= num <= 3000,
            ;
        }
        let prod: u64 = neg * (num as u64);
        let q: u64 = prod / (den as u64);
        proof {
            lemma_div_bounds(prod as int, den as int);
            assert((-(v as int)) * (num as int) == -((v as int) * (num as int)))
                by (nonlinear_arith);
        }
        -(q as i64)
    }
}

/// Maps one device coordinate to sheet space: add the drag offset, then
/// divide by the zoom factor.
pub open spec fn spec_map_coord(p: int, off: int, scale: int) -> int {
    spec_muldiv_tz(p + off, 1000, scale)
}

/// Maps one sheet coordinate back to device space.
pub open spec fn spec_unmap_coord(q: int, off: int, scale: int) -> int {
    spec_muldiv_tz(q, scale, 1000) - off
}

pub fn map_coord(p: i64, off: i64, scale: u32) -> (q: i64)
    requires
        coord_in_range(p),
        coord_in_range(off),
        SCALE_MIN <= scale <= SCALE_MAX,
    ensures
        q == spec_map_coord(p as int, off as int, scale as int),
        -0x2_0000_0000_0000 <= q <= 0x2_0000_0000_0000,
{
    let t: i64 = p + off;
    let q = muldiv_tz(t, 1000, scale);
    proof {
        if t >= 0 {
            assert(q <= 0x2_0000_0000_0000) by (nonlinear_arith)
                requires
                    0 <= q,
                    q * (scale as int) <= t * 1000,
                    400 <= scale,
                    t <= 2 * MAX_COORD,
            ;
        } else {
            assert(-q <= 0x2_0000_0000_0000) by (nonlinear_arith)
                requires
                    0 <= -q,
                    (-q) * (scale as int) <= (-t) * 1000,
                    400 <= scale,
                    -t <= 2 * MAX_COORD,
            ;
        }
    }
    q
}

pub fn unmap_coord(q: i64, off: i64, scale: u32) -> (p: i64)
    requires
        -0x2_0000_0000_0000 <= q <= 0x2_0000_0000_0000,
        coord_in_range(off),
        SCALE_MIN <= scale <= SCALE_MAX,
    ensures
        p == spec_unmap_coord(q as int, off as int, scale as int),
{
    let s = muldiv_tz(q, scale, 1000);
    proof {
        if q >= 0 {
            assert(s <= 0x6_0000_0000_0000) by (nonlinear_arith)
                requires
                    0 <= s,
                    s * 1000 <= q * (scale as int),
                    q <= 0x2_0000_0000_0000,
                    scale <= 3000,
            ;
        } else {
            assert(-s <= 0x6_0000_0000_0000) by (nonlinear_arith)
                requires
                    0 <= -s,
                    (-s) * 1000 <= (-q) * (scale as int),
                    -q <= 0x2_0000_0000_0000,
                    scale <= 3000,
            ;
        }
    }
    s - off
}

/// Maps a whole sample to sheet space; pressure is untouched.
pub fn map_sample(s: &InputSample, offset: Vector2, scale: u32) -> (r: InputSample)
    requires
        s.pos.wf(),
        offset.wf(),
        SCALE_MIN <= scale <= SCALE_MAX,
    ensures
        r.pos.x == spec_map_coord(s.pos.x as int, offset.x as int, scale as int),
        r.pos.y == spec_map_coord(s.pos.y as int, offset.y as int, scale as int),
        r.pressure == s.pressure,
{
    InputSample {
        pos: Vector2 {
            x: map_coord(s.pos.x, offset.x, scale),
            y: map_coord(s.pos.y, offset.y, scale),
        },
        pressure: s.pressure,
    }
}

/// A value scaled by the zoom factor and rounded to the nearest unit,
/// halves away from zero.
pub open spec fn spec_round_scale(v: int, scale: int) -> int {
    if v >= 0 {
        (v * scale + 500) / 1000
    } else {
        -(((-v) * scale + 500) / 1000)
    }
}

pub fn round_scale(v: i64, scale: u32) -> (r: i64)
    requires
        -0x8000_0000 <= v <= 0x8000_0000,
        SCALE_MIN <= scale <= SCALE_MAX,
    ensures
        r == spec_round_scale(v as int, scale as int),
        -0x2_0000_0000_0000 <= r <= 0x2_0000_0000_0000,
{
    if v >= 0 {
        proof {
            assert((v as int) * (scale as int) + 500 <= 0x8000_0000 * 3000 + 500)
                by (nonlinear_arith)
                requires
                    0 <= v <= 0x8000_0000,
                    0 < scale <= 3000,
            ;
        }
        let prod: u64 = (v as u64) * (scale as u64) + 500;
        let q: u64 = prod / 1000;
        proof {
            lemma_div_bounds(prod as int, 1000);
            crate::input::lemma_mul_div_le(q as int, 1000, prod as int);
        }
        q as i64
    } else {
        let neg: u64 = (-v) as u64;
        proof {
            assert((neg as int) * (scale as int) + 500 <= 0x8000_0000 * 3000 + 500)
                by (nonlinear_arith)
                requires
                    0 <= neg <= 0x8000_0000,
                    0 < scale <= 3000,
            ;
        }
        let prod: u64 = neg * (scale as u64) + 500;
        let q: u64 = prod / 1000;
        proof {
            lemma_div_bounds(prod as int, 1000);
            crate::input::lemma_mul_div_le(q as int, 1000, prod as int);
        }
        -(q as i64)
    }
}

/// A zoomed value keeps a proportional magnitude: scaling by at most
/// three never leaves the safe range.
pub proof fn lemma_muldiv_small(v: int, scale: int, r: int)
    requires
        -MULDIV_MAX_IN <= v <= MULDIV_MAX_IN,
        0 < scale <= 3000,
        v >= 0 ==> 0 <= r && r * 1000 <= v * scale,
        v <= 0 ==> r <= 0 && (-r) * 1000 <= (-v) * scale,
    ensures
        -3 * MULDIV_MAX_IN <= r <= 3 * MULDIV_MAX_IN,
{
    if v >= 0 {
        assert(r <= 3 * MULDIV_MAX_IN) by (nonlinear_arith)
            requires
                0 <= r,
                r * 1000 <= v * scale,
                0 <= v <= MULDIV_MAX_IN,
                0 < scale <= 3000,
        ;
    } else {
        assert(-r <= 3 * MULDIV_MAX_IN) by (nonlinear_arith)
            requires
                0 <= -r,
                (-r) * 1000 <= (-v) * scale,
                0 <= -v <= MULDIV_MAX_IN,
                0 < scale <= 3000,
        ;
    }
}

/// For `h > 0` and `k * h <= m` with `m >= 0`: `k <= m / h`.
pub proof fn lemma_mul_div_le(k: int, h: int, m: int)
    requires
        h > 0,
        m >= 0,
        k * h <= m,
    ensures
        k <= m / h,
{
    lemma_div_bounds(m, h);
    if k > m / h {
        assert(k * h >= (m / h) * h + h) by (nonlinear_arith)
            requires
                k >= m / h + 1,
                h > 0,
        ;
        assert(false);
    }
}

/// For `a >= 0`, `b > 0`: `(a / b) * b <= a < (a / b) * b + b`, and
/// `a / b <= a`.
pub proof fn lemma_div_bounds(a: int, b: int)
    requires
        a >= 0,
        b > 0,
    ensures
        0 <= a / b,
        (a / b) * b <= a,
        a < (a / b) * b + b,
        a / b <= a,
{
    assert(0 <= a / b && (a / b) * b <= a && a < (a / b) * b + b) by (nonlinear_arith)
        requires
            a >= 0,
            b > 0,
    ;
    assert(a / b <= a) by (nonlinear_arith)
        requires
            a >= 0,
            b > 0,
            0 <= a / b,
            (a / b) * b <= a,
    ;
}

/// Coordinate mapping is an approximate inverse: mapping a coordinate at
/// zoom `scale` with offset `off` and mapping back lands within
/// `(scale + 1000) / 1000` units of the original, i.e. within 3 units
/// over the whole zoom range.
pub proof fn lemma_map_roundtrip(p: int, off: int, scale: int)
    requires
        -MAX_COORD <= p <= MAX_COORD,
        -MAX_COORD <= off <= MAX_COORD,
        SCALE_MIN <= scale <= SCALE_MAX,
    ensures
        1000 * (p - spec_unmap_coord(spec_map_coord(p, off, scale), off, scale)) < scale + 1000,
        1000 * (spec_unmap_coord(spec_map_coord(p, off, scale), off, scale) - p) < scale + 1000,
        -3 <= p - spec_unmap_coord(spec_map_coord(p, off, scale), off, scale) <= 3,
{
    let t = p + off;
    let q = div_tz(t * 1000, scale);
    let u = div_tz(q * scale, 1000);
    // q is within one of t * 1000 / scale, so q * scale is within scale of
    // t * 1000; dividing by 1000 keeps u within (scale + 1000) / 1000 of t.
    if t >= 0 {
        lemma_div_bounds(t * 1000, scale);
        assert(q * scale <= t * 1000 && t * 1000 < q * scale + scale) by (nonlinear_arith)
            requires
                q == (t * 1000) / scale,
                scale > 0,
                (q == (t * 1000) / scale ==> ((t * 1000) / scale) * scale <= t * 1000 && t * 1000
                    < ((t * 1000) / scale) * scale + scale),
        ;
        assert(q >= 0);
        lemma_div_bounds(q * scale, 1000);
        assert(u * 1000 <= q * scale && q * scale < u * 1000 + 1000) by (nonlinear_arith)
            requires
                u == (q * scale) / 1000,
                ((q * scale) / 1000) * 1000 <= q * scale,
                q * scale < ((q * scale) / 1000) * 1000 + 1000,
        ;
        assert(u * 1000 <= t * 1000 && t * 1000 < u * 1000 + scale + 1000);
        assert(u <= t) by (nonlinear_arith)
            requires
                u * 1000 <= t * 1000,
        ;
        assert(1000 * (t - u) < scale + 1000);
        assert(t - u <= 3) by (nonlinear_arith)
            requires
                1000 * (t - u) < scale + 1000,
                scale <= 3000,
        ;
    } else {
        let m = -t;
        lemma_div_bounds(m * 1000, scale);
        assert(q == -((m * 1000) / scale)) by {
            assert(t * 1000 < 0) by (nonlinear_arith)
                requires
                    t < 0,
            ;
            assert(-(t * 1000) == m * 1000) by (nonlinear_arith)
                requires
                    m == -t,
            ;
        }
        let qm = (m * 1000) / scale;
        assert(qm * scale <= m * 1000 && m * 1000 < qm * scale + scale) by (nonlinear_arith)
            requires
                qm == (m * 1000) / scale,
                scale > 0,
                (qm * scale <= m * 1000 && m * 1000 < qm * scale + scale),
        ;
        assert(q * scale == -(qm * scale)) by (nonlinear_arith)
            requires
                q == -qm,
        ;
        if qm == 0 {
            assert(u == 0);
            assert(m * 1000 < scale);
            assert(1000 * (t - u) < scale + 1000 && 1000 * (u - t) < scale + 1000)
                by (nonlinear_arith)
                requires
                    u == 0,
                    t == -m,
                    m >= 0,
                    m * 1000 < scale,
            ;
        } else {
            assert(qm > 0);
            assert(q * scale < 0) by (nonlinear_arith)
                requires
                    q == -qm,
                    qm > 0,
                    scale > 0,
            ;
            let um = (qm * scale) / 1000;
            assert(u == -um) by {
                assert(-(q * scale) == qm * scale) by (nonlinear_arith)
                    requires
                        q == -qm,
                ;
            }
            lemma_div_bounds(qm * scale, 1000);
            assert(um * 1000 <= qm * scale && qm * scale < um * 1000 + 1000) by (nonlinear_arith)
                requires
                    um == (qm * scale) / 1000,
                    (um * 1000 <= qm * scale && qm * scale < um * 1000 + 1000),
            ;
            assert(um * 1000 <= m * 1000 && m * 1000 < um * 1000 + scale + 1000);
            assert(1000 * (m - um) < scale + 1000 && um <= m) by (nonlinear_arith)
                requires
                    um * 1000 <= m * 1000,
                    m * 1000 < um * 1000 + scale + 1000,
            ;
            assert(t - u == -(m - um) && u - t == m - um) by (nonlinear_arith)
                requires
                    t == -m,
                    u == -um,
            ;
        }
        assert(1000 * (u - t) < scale + 1000);
        assert(u - t <= 3 && t - u <= 3) by (nonlinear_arith)
            requires
                1000 * (u - t) < scale + 1000,
                1000 * (t - u) < scale + 1000,
                scale <= 3000,
        ;
    }
}

} // verus!
