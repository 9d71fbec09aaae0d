//! Sines and cosines of whole degrees, in fixed point.

use vstd::prelude::*;
use crate::math::UNIT;

verus! {

/// `sin` of 0 to 90 degrees, each multiplied by `UNIT` and rounded to the nearest whole.
pub const QUARTER_SINES: [i64; 91] = [
    0, 175, 349, 523, 698, 872, 1045, 1219, 1392, 1564,
    1736, 1908, 2079, 2250, 2419, 2588, 2756, 2924, 3090, 3256,
    3420, 3584, 3746, 3907, 4067, 4226, 4384, 4540, 4695, 4848,
    5000, 5150, 5299, 5446, 5592, 5736, 5878, 6018, 6157, 6293,
    6428, 6561, 6691, 6820, 6947, 7071, 7193, 7314, 7431, 7547,
    7660, 7771, 7880, 7986, 8090, 8192, 8290, 8387, 8480, 8572,
    8660, 8746, 8829, 8910, 8988, 9063, 9135, 9205, 9272, 9336,
    9397, 9455, 9511, 9563, 9613, 9659, 9703, 9744, 9781, 9816,
    9848, 9877, 9903, 9925, 9945, 9962, 9976, 9986, 9994, 9998,
    10000,
];

/// The sine of `degrees`, in units of 1/`UNIT`: the table entry of the angle's mirror
/// image in the first quarter turn, with the sign of the half turn it lies in.
pub open spec fn sin_spec(degrees: int) -> int {
    let d = degrees % 360;
    if d <= 90 {
        QUARTER_SINES@[d] as int
    } else if d <= 180 {
        QUARTER_SINES@[180 - d] as int
    } else if d <= 270 {
        -(QUARTER_SINES@[d - 180] as int)
    } else {
        -(QUARTER_SINES@[360 - d] as int)
    }
}

/// The cosine of `degrees`: the sine a quarter turn ahead.
pub open spec fn cos_spec(degrees: int) -> int {
    sin_spec(degrees + 90)
}

/// The sine of an angle given in whole degrees.
pub fn sin_degrees(degrees: i32) -> (r: i64)
    ensures
        r == sin_spec(degrees as int),
        -UNIT <= r <= UNIT,
{
    let wide: i64 = degrees as i64;
    let d: i64 = match wide.checked_rem_euclid(360) {
        Some(rem) => rem,
        None => 0,
    };
    let table: [i64; 91] = QUARTER_SINES;
    if d <= 90 {
        table[d as usize]
    } else if d <= 180 {
        table[(180 - d) as usize]
    } else if d <= 270 {
        -table[(d - 180) as usize]
    } else {
        -table[(360 - d) as usize]
    }
}

/// The cosine of an angle given in whole degrees.
pub fn cos_degrees(degrees: i32) -> (r: i64)
    ensures
        r == cos_spec(degrees as int),
        -UNIT <= r <= UNIT,
{
    let wide: i64 = degrees as i64 + 90;
    let d: i64 = match wide.checked_rem_euclid(360) {
        Some(rem) => rem,
        None => 0,
    };
    let table: [i64; 91] = QUARTER_SINES;
    if d <= 90 {
        table[d as usize]
    } else if d <= 180 {
        table[(180 - d) as usize]
    } else if d <= 270 {
        -table[(d - 180) as usize]
    } else {
        -table[(360 - d) as usize]
    }
}

/// Sine is odd and cosine is even: mirroring an angle about zero mirrors the point it
/// names on the circle about the vertical axis.
pub proof fn lemma_mirror(degrees: int)
    ensures
        sin_spec(-degrees) == -sin_spec(degrees),
        cos_spec(-degrees) == cos_spec(degrees),
{
    let d = degrees % 360;
    let m = (-degrees) % 360;
    assert(m == if d == 0 { 0 } else { 360 - d }) by {
        vstd::arithmetic::div_mod::lemma_fundamental_div_mod(degrees, 360);
        vstd::arithmetic::div_mod::lemma_fundamental_div_mod_converse(
            -degrees,
            360,
            if d == 0 { -(degrees / 360) } else { -(degrees / 360) - 1 },
            if d == 0 { 0 } else { 360 - d },
        );
    }
    let dc = (degrees + 90) % 360;
    let mc = (-degrees + 90) % 360;
    assert(dc == if d < 270 { d + 90 } else { d - 270 }) by {
        vstd::arithmetic::div_mod::lemma_fundamental_div_mod(degrees, 360);
        vstd::arithmetic::div_mod::lemma_fundamental_div_mod_converse(
            degrees + 90,
            360,
            if d < 270 { degrees / 360 } else { degrees / 360 + 1 },
            if d < 270 { d + 90 } else { d - 270 },
        );
    }
    assert(mc == if m < 270 { m + 90 } else { m - 270 }) by {
        vstd::arithmetic::div_mod::lemma_fundamental_div_mod(-degrees, 360);
        vstd::arithmetic::div_mod::lemma_fundamental_div_mod_converse(
            -degrees + 90,
            360,
            if m < 270 { (-degrees) / 360 } else { (-degrees) / 360 + 1 },
            if m < 270 { m + 90 } else { m - 270 },
        );
    }
}

/// How far the square of a table entry and the square of its counterpart a quarter
/// turn away may fall short of, or exceed, the square of `UNIT`.
pub const CIRCLE_SLACK: i64 = 12_000;

/// Whether sine and cosine, taken as the sides of a right triangle, give a hypotenuse
/// of length `UNIT` up to the slack that rounding leaves.
pub open spec fn on_unit_circle(sine: int, cosine: int) -> bool {
    -CIRCLE_SLACK <= sine * sine + cosine * cosine - UNIT * UNIT <= CIRCLE_SLACK
}

/// Each entry of the table lies on the unit circle with its counterpart.
proof fn lemma_table_on_circle(k: int)
    requires
        0 <= k <= 90,
    ensures
        on_unit_circle(QUARTER_SINES@[k] as int, QUARTER_SINES@[90 - k] as int),
{
    if k == 0 || k == 90 {
        assert(on_unit_circle(0, 10000));
    }
    if k == 1 || k == 89 {
        assert(on_unit_circle(175, 9998));
    }
    if k == 2 || k == 88 {
        assert(on_unit_circle(349, 9994));
    }
    if k == 3 || k == 87 {
        assert(on_unit_circle(523, 9986));
    }
    if k == 4 || k == 86 {
        assert(on_unit_circle(698, 9976));
    }
    if k == 5 || k == 85 {
        assert(on_unit_circle(872, 9962));
    }
    if k == 6 || k == 84 {
        assert(on_unit_circle(1045, 9945));
    }
    if k == 7 || k == 83 {
        assert(on_unit_circle(1219, 9925));
    }
    if k == 8 || k == 82 {
        assert(on_unit_circle(1392, 9903));
    }
    if k == 9 || k == 81 {
        assert(on_unit_circle(1564, 9877));
    }
    if k == 10 || k == 80 {
        assert(on_unit_circle(1736, 9848));
    }
    if k == 11 || k == 79 {
        assert(on_unit_circle(1908, 9816));
    }
    if k == 12 || k == 78 {
        assert(on_unit_circle(2079, 9781));
    }
    if k == 13 || k == 77 {
        assert(on_unit_circle(2250, 9744));
    }
    if k == 14 || k == 76 {
        assert(on_unit_circle(2419, 9703));
    }
    if k == 15 || k == 75 {
        assert(on_unit_circle(2588, 9659));
    }
    if k == 16 || k == 74 {
        assert(on_unit_circle(2756, 9613));
    }
    if k == 17 || k == 73 {
        assert(on_unit_circle(2924, 9563));
    }
    if k == 18 || k == 72 {
        assert(on_unit_circle(3090, 9511));
    }
    if k == 19 || k == 71 {
        assert(on_unit_circle(3256, 9455));
    }
    if k == 20 || k == 70 {
        assert(on_unit_circle(3420, 9397));
    }
    if k == 21 || k == 69 {
        assert(on_unit_circle(3584, 9336));
    }
    if k == 22 || k == 68 {
        assert(on_unit_circle(3746, 9272));
    }
    if k == 23 || k == 67 {
        assert(on_unit_circle(3907, 9205));
    }
    if k == 24 || k == 66 {
        assert(on_unit_circle(4067, 9135));
    }
    if k == 25 || k == 65 {
        assert(on_unit_circle(4226, 9063));
    }
    if k == 26 || k == 64 {
        assert(on_unit_circle(4384, 8988));
    }
    if k == 27 || k == 63 {
        assert(on_unit_circle(4540, 8910));
    }
    if k == 28 || k == 62 {
        assert(on_unit_circle(4695, 8829));
    }
    if k == 29 || k == 61 {
        assert(on_unit_circle(4848, 8746));
    }
    if k == 30 || k == 60 {
        assert(on_unit_circle(5000, 8660));
    }
    if k == 31 || k == 59 {
        assert(on_unit_circle(5150, 8572));
    }
    if k == 32 || k == 58 {
        assert(on_unit_circle(5299, 8480));
    }
    if k == 33 || k == 57 {
        assert(on_unit_circle(5446, 8387));
    }
    if k == 34 || k == 56 {
        assert(on_unit_circle(5592, 8290));
    }
    if k == 35 || k == 55 {
        assert(on_unit_circle(5736, 8192));
    }
    if k == 36 || k == 54 {
        assert(on_unit_circle(5878, 8090));
    }
    if k == 37 || k == 53 {
        assert(on_unit_circle(6018, 7986));
    }
    if k == 38 || k == 52 {
        assert(on_unit_circle(6157, 7880));
    }
    if k == 39 || k == 51 {
        assert(on_unit_circle(6293, 7771));
    }
    if k == 40 || k == 50 {
        assert(on_unit_circle(6428, 7660));
    }
    if k == 41 || k == 49 {
        assert(on_unit_circle(6561, 7547));
    }
    if k == 42 || k == 48 {
        assert(on_unit_circle(6691, 7431));
    }
    if k == 43 || k == 47 {
        assert(on_unit_circle(6820, 7314));
    }
    if k == 44 || k == 46 {
        assert(on_unit_circle(6947, 7193));
    }
    if k == 45 {
        assert(on_unit_circle(7071, 7071));
    }
}

/// The point that an angle names lies on the circle of radius `UNIT` about the origin,
/// up to the slack that rounding leaves.
pub proof fn lemma_on_unit_circle(degrees: int)
    ensures
        on_unit_circle(sin_spec(degrees), cos_spec(degrees)),
{
    let d = degrees % 360;
    let dc = (degrees + 90) % 360;
    assert(dc == if d < 270 { d + 90 } else { d - 270 }) by {
        vstd::arithmetic::div_mod::lemma_fundamental_div_mod(degrees, 360);
        vstd::arithmetic::div_mod::lemma_fundamental_div_mod_converse(
            degrees + 90,
            360,
            if d < 270 { degrees / 360 } else { degrees / 360 + 1 },
            if d < 270 { d + 90 } else { d - 270 },
        );
    }
    let k = if d <= 90 { d } else if d <= 180 { 180 - d } else if d <= 270 { d - 180 } else { 360 - d };
    lemma_table_on_circle(k);
    lemma_table_on_circle(90 - k);
    let s = QUARTER_SINES@[k] as int;
    let c = QUARTER_SINES@[90 - k] as int;
    assert((-s) * (-s) == s * s) by (nonlinear_arith);
    assert((-c) * (-c) == c * c) by (nonlinear_arith);
}

} // verus!
