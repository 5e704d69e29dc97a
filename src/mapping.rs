//! Linear projection of data values onto a screen interval.

use vstd::prelude::*;
use vstd::arithmetic::div_mod::{lemma_fundamental_div_mod, lemma_mod_bound, lemma_div_multiples_vanish};

verus! {

/// Magnitude bound for the data values that [`to_screen`] maps.
pub const MAP_LIMIT: i128 = 0x400_0000_0000_0000_0000_0000;

/// `a / b` rounded toward negative infinity, for `b != 0`.
pub open spec fn floor_quot(a: int, b: int) -> int {
    if b > 0 {
        a / b
    } else {
        (-a) / (-b)
    }
}

/// Where `value` lands when `[data_min, data_max]` is laid onto
/// `[screen_start, screen_end]`: `data_min` at `screen_start`, `data_max` at
/// `screen_end`, linear in between and beyond, rounded down.
pub open spec fn screen_of(value: int, data_min: int, data_max: int, screen_start: int, screen_end: int) -> int {
    screen_start + floor_quot((value - data_min) * (screen_end - screen_start), data_max - data_min)
}

proof fn lemma_floor_quot(a: int, b: int)
    requires
        b != 0,
    ensures
        b > 0 ==> b * floor_quot(a, b) <= a < b * floor_quot(a, b) + b,
        b < 0 ==> (-b) * floor_quot(a, b) <= -a < (-b) * floor_quot(a, b) - b,
{
    if b > 0 {
        lemma_fundamental_div_mod(a, b);
        lemma_mod_bound(a, b);
    } else {
        lemma_fundamental_div_mod(-a, -b);
        lemma_mod_bound(-a, -b);
    }
}

/// Screen position of `value` on an axis whose data range
/// `[data_min, data_max]` spans `[screen_start, screen_end]`; `None` for an
/// empty data range.
pub fn to_screen(value: i128, data_min: i128, data_max: i128, screen_start: i32, screen_end: i32) -> (r: Option<i128>)
    requires
        -MAP_LIMIT <= value <= MAP_LIMIT,
        -MAP_LIMIT <= data_min <= MAP_LIMIT,
        -MAP_LIMIT <= data_max <= MAP_LIMIT,
    ensures
        r is None <==> data_min == data_max,
        r is Some ==> r->Some_0 == screen_of(
            value as int,
            data_min as int,
            data_max as int,
            screen_start as int,
            screen_end as int,
        ),
{
    if data_min == data_max {
        return None;
    }
    let offset: i128 = value - data_min;
    let extent: i128 = screen_end as i128 - screen_start as i128;
    assert(-0x1000_0000_0000_0000_0000_0000_0000_0000 <= offset * extent
        <= 0x1000_0000_0000_0000_0000_0000_0000_0000) by (nonlinear_arith)
        requires
            -2 * MAP_LIMIT <= offset <= 2 * MAP_LIMIT,
            -0x1_0000_0000 <= extent <= 0x1_0000_0000,
    ;
    let mut num: i128 = offset * extent;
    let mut den: i128 = data_max - data_min;
    if den < 0 {
        num = -num;
        den = -den;
    }
    proof {
        lemma_fundamental_div_mod(num as int, den as int);
        lemma_mod_bound(num as int, den as int);
        let q = num as int / den as int;
        let m = num as int % den as int;
        assert(-0x1000_0000_0000_0000_0000_0000_0000_0000 <= q <= 0x1000_0000_0000_0000_0000_0000_0000_0000)
            by (nonlinear_arith)
            requires
                num == den * q + m,
                0 <= m < den,
                den >= 1,
                -0x1000_0000_0000_0000_0000_0000_0000_0000 <= num <= 0x1000_0000_0000_0000_0000_0000_0000_0000,
        ;
    }
    let q: i128 = match num.checked_div_euclid(den) {
        Some(q) => q,
        None => 0,
    };
    Some(screen_start as i128 + q)
}

/// The projection sends the ends of the data range to the ends of the screen
/// interval exactly, and is affine in between: a value's screen offset is its
/// share of the data range times the screen extent, rounded down.
pub proof fn lemma_to_screen_affine(value: int, data_min: int, data_max: int, screen_start: int, screen_end: int)
    requires
        data_min < data_max,
    ensures
        screen_of(data_min, data_min, data_max, screen_start, screen_end) == screen_start,
        screen_of(data_max, data_min, data_max, screen_start, screen_end) == screen_end,
        ({
            let p = screen_of(value, data_min, data_max, screen_start, screen_end) - screen_start;
            let share = (value - data_min) * (screen_end - screen_start);
            p * (data_max - data_min) <= share < (p + 1) * (data_max - data_min)
        }),
{
    let d = data_max - data_min;
    let e = screen_end - screen_start;
    assert(0 * e == 0);
    assert(0int / d == 0);
    assert(d * e == e * d) by (nonlinear_arith);
    lemma_div_multiples_vanish(e, d);
    lemma_floor_quot((value - data_min) * e, d);
    let p = floor_quot((value - data_min) * e, d);
    assert(p * d == d * p && (p + 1) * d == d * p + d) by (nonlinear_arith);
}

} // verus!
