//! Choosing a "nice" tick step for a value range and enumerating the ticks.
//!
//! Data values are `i64` in a unit of the caller's choosing. Ticks produced in
//! auto mode are fixed-point numbers: a tick value `v` stands for
//! `v / TICK_SCALE` data units. With at most `MAX_TARGET_COUNT` ticks asked
//! for, every step the planner can choose is a whole number of these fine
//! units, so ticks are exact.

use vstd::prelude::*;
use vstd::arithmetic::power::{lemma_pow_increases, pow};
use vstd::arithmetic::div_mod::{lemma_div_multiples_vanish, lemma_fundamental_div_mod};
use vstd::arithmetic::mul::{lemma_mul_inequality, lemma_mul_strict_inequality};
use crate::closest::{dist, is_closest, ints, lemma_closest_unique, pick_closest};

verus! {

/// Fine units per data unit in the tick values of auto mode.
pub const TICK_SCALE: i128 = 10_000;

/// The largest tick count that auto mode accepts.
pub const MAX_TARGET_COUNT: usize = 1000;

/// The most ticks that fixed-step mode produces.
pub const MAX_TICKS: usize = 10_000;

/// Why a tick request was refused.
#[derive(Debug, Clone, Copy, PartialEq, Eq, Structural)]
pub enum PlanError {
    /// A fixed step that is zero or negative.
    InvalidStep,
    /// The request would produce more ticks than the planner allows.
    ExhaustedCapacity,
}

/// Ticks of auto mode: `values[i] == origin + (first_index + i) * step`, all in
/// fine units.
pub struct TickSet {
    pub step: i128,
    pub first_index: i128,
    pub values: Vec<i128>,
}

/// A data value in fine units.
pub open spec fn fine(x: i64) -> int {
    x as int * TICK_SCALE as int
}

/// `q` is a power of ten.
pub open spec fn is_pow10(q: int) -> bool {
    exists|j: nat| q == pow(10, j)
}

/// The allowed mantissas 1, 2, 2.5, 5 and 10, in tenths, times `q`.
pub open spec fn nice_candidates(q: int) -> Seq<int> {
    seq![10 * q, 20 * q, 25 * q, 50 * q, 100 * q]
}

/// Multiplies every member of `s` by `n`.
pub open spec fn scaled(s: Seq<int>, n: int) -> Seq<int> {
    s.map_values(|c: int| c * n)
}

/// `q` is the power of ten that brackets the exact step `w / n` in tenths:
/// `10 * q <= w / n < 100 * q`.
pub open spec fn is_magnitude(w: int, n: int, q: int) -> bool {
    is_pow10(q) && 10 * q * n <= w < 100 * q * n
}

/// `step` is the nice step for a span `w` split into `n` parts: of the allowed
/// mantissas times the bracketing power of ten, the one nearest to `w / n`,
/// ties going to the smaller.
pub open spec fn is_nice_step(w: int, n: int, step: int) -> bool {
    exists|q: int| is_magnitude(w, n, q) && is_closest(scaled(nice_candidates(q), n), w, step * n)
}

/// `step` is 1, 2, 2.5, 5 or 10 times a power of ten, in tenths.
pub open spec fn is_nice_form(step: int) -> bool {
    exists|q: int| is_pow10(q) && nice_candidates(q).contains(step)
}

/// `values` are exactly the points `origin + k * step` that lie in `[lo, hi]`,
/// in ascending order, starting at `k == first`.
pub open spec fn is_grid(values: Seq<int>, origin: int, step: int, first: int, lo: int, hi: int) -> bool {
    &&& forall|i: int| 0 <= i < values.len() ==> #[trigger] values[i] == origin + (first + i) * step
    &&& forall|i: int| 0 <= i < values.len() ==> lo <= #[trigger] values[i] <= hi
    &&& origin + (first - 1) * step < lo
    &&& origin + (first + values.len()) * step > hi
}

/// Strictly ascending.
pub open spec fn is_strictly_ascending(s: Seq<int>) -> bool {
    forall|i: int, j: int| 0 <= i < j < s.len() ==> s[i] < s[j]
}

/// The members of a vector of `i128`, as integers.
pub open spec fn ints_i128(s: Seq<i128>) -> Seq<int> {
    s.map_values(|e: i128| e as int)
}


/// Only one power of ten brackets a given exact step.
proof fn lemma_magnitude_unique(w: int, n: int, q1: int, q2: int)
    requires
        n >= 1,
        is_magnitude(w, n, q1),
        is_magnitude(w, n, q2),
    ensures
        q1 == q2,
{
    let j1 = choose|j: nat| q1 == pow(10, j);
    let j2 = choose|j: nat| q2 == pow(10, j);
    if j1 < j2 {
        lemma_magnitude_order(w, n, j1, j2);
    } else if j2 < j1 {
        lemma_magnitude_order(w, n, j2, j1);
    }
}

proof fn lemma_magnitude_order(w: int, n: int, j1: nat, j2: nat)
    requires
        n >= 1,
        j1 < j2,
        w < 100 * pow(10, j1) * n,
    ensures
        w < 10 * pow(10, j2) * n,
{
    assert(pow(10, j1 + 1) == 10 * pow(10, j1)) by {
        reveal_with_fuel(pow, 2);
    }
    lemma_pow_increases(10, j1 + 1, j2);
    lemma_mul_inequality(10 * pow(10, j1), pow(10, j2), n);
    assert(100 * pow(10, j1) * n == 10 * ((10 * pow(10, j1)) * n)) by (nonlinear_arith);
    assert(10 * pow(10, j2) * n == 10 * (pow(10, j2) * n)) by (nonlinear_arith);
}

/// A span split into `n` parts has exactly one nice step, so auto mode's
/// step is fixed by its inputs.
pub proof fn lemma_nice_step_unique(w: int, n: int, s1: int, s2: int)
    requires
        n >= 1,
        is_nice_step(w, n, s1),
        is_nice_step(w, n, s2),
    ensures
        s1 == s2,
{
    let q1 = choose|q: int| is_magnitude(w, n, q) && is_closest(scaled(nice_candidates(q), n), w, s1 * n);
    let q2 = choose|q: int| is_magnitude(w, n, q) && is_closest(scaled(nice_candidates(q), n), w, s2 * n);
    lemma_magnitude_unique(w, n, q1, q2);
    lemma_closest_unique(scaled(nice_candidates(q1), n), w, s1 * n, s2 * n);
    assert(s1 == s2) by (nonlinear_arith)
        requires
            s1 * n == s2 * n,
            n >= 1,
    ;
}

proof fn lemma_scale_assoc(c: int, q: int, n: int)
    ensures
        c * (q * n) == (c * q) * n,
{
    assert(c * (q * n) == (c * q) * n) by (nonlinear_arith);
}

/// Of the nice candidates for `q` scaled by `n`, the one nearest to `w` is at
/// most a third below `w`: the chosen step never packs in more than half as
/// many ticks again as were asked for.
proof fn lemma_nearest_bound(qn: int, w: int, r: int)
    requires
        qn > 0,
        10 * qn <= w < 100 * qn,
        is_closest(seq![10 * qn, 20 * qn, 25 * qn, 50 * qn, 100 * qn], w, r),
    ensures
        2 * w <= 3 * r,
        r >= 10 * qn,
{
    let s = seq![10 * qn, 20 * qn, 25 * qn, 50 * qn, 100 * qn];
    let i = choose|i: int| 0 <= i < s.len() && s[i] == r;
    assert(dist(s[0], w) >= dist(r, w));
    assert(dist(s[1], w) >= dist(r, w));
    assert(dist(s[2], w) >= dist(r, w));
    assert(dist(s[3], w) >= dist(r, w));
    assert(dist(s[4], w) >= dist(r, w));
    assert(0 <= i < 5);
}

/// The nice step, in fine units, for a span of `w` fine units split into `n`
/// parts.
fn nice_step(w: u128, n: u128) -> (step: u128)
    requires
        1 <= n <= MAX_TARGET_COUNT,
        10 * n <= w <= u64::MAX as int * TICK_SCALE,
    ensures
        step > 0,
        is_nice_step(w as int, n as int, step as int),
        is_nice_form(step as int),
        2 * w <= 3 * (n * step),
        step <= 10 * w,
{
    let mut q: u128 = 1;
    let mut qn: u128 = n;
    let ghost mut j: nat = 0;
    assert(pow(10, 0) == 1) by {
        reveal_with_fuel(pow, 1);
    }
    while 100 * qn <= w
        invariant
            1 <= n <= MAX_TARGET_COUNT,
            w <= u64::MAX as int * TICK_SCALE,
            q == pow(10, j),
            q >= 1,
            q <= qn,
            qn == q * n,
            10 * qn <= w,
        decreases w - qn,
    {
        assert(pow(10, j + 1) == 10 * pow(10, j)) by {
            reveal_with_fuel(pow, 2);
        }
        assert((10 * q) * n == 10 * (q * n)) by (nonlinear_arith);
        q = 10 * q;
        qn = 10 * qn;
        proof {
            j = j + 1;
        }
    }
    assert(qn >= 1) by (nonlinear_arith)
        requires
            qn == q * n,
            q >= 1,
            n >= 1,
    ;
    let candidates: Vec<u128> = vec![10 * qn, 20 * qn, 25 * qn, 50 * qn, 100 * qn];
    let ghost qi = q as int;
    let ghost ni = n as int;
    let ghost cands = scaled(nice_candidates(qi), ni);
    proof {
        lemma_scale_assoc(10, qi, ni);
        lemma_scale_assoc(20, qi, ni);
        lemma_scale_assoc(25, qi, ni);
        lemma_scale_assoc(50, qi, ni);
        lemma_scale_assoc(100, qi, ni);
        assert(ints(candidates@) =~= cands);
        assert(cands =~= seq![10 * qn as int, 20 * qn as int, 25 * qn as int, 50 * qn as int, 100 * qn as int]);
    }
    let chosen = pick_closest(candidates.as_slice(), w);
    proof {
        lemma_nearest_bound(qn as int, w as int, chosen as int);
        assert(is_magnitude(w as int, ni, qi));
    }
    let ghost k = choose|k: int| 0 <= k < cands.len() && cands[k] == chosen;
    let ghost c = nice_candidates(qi)[k];
    assert(chosen == c * ni);
    assert(nice_candidates(qi).contains(c));
    let step = chosen / n;
    proof {
        assert(chosen == ni * c) by (nonlinear_arith)
            requires
                chosen == c * ni,
        ;
        lemma_div_multiples_vanish(c, ni);
        assert(step == c);
        assert(c <= 100 * qi);
        assert(is_nice_step(w as int, ni, step as int));
        assert(is_nice_form(step as int));
        assert(n * step == chosen) by (nonlinear_arith)
            requires
                chosen == c * n,
                step == c,
        ;
    }
    step
}


/// Magnitude bound for the dividends handed to [`floor_div`].
const DIV_LIMIT: i128 = 0x1_0000_0000_0000_0000_0000_0000;

proof fn lemma_quotient_bounded(a: int, b: int, q: int, r: int)
    requires
        b >= 1,
        a == b * q + r,
        0 <= r < b,
    ensures
        a >= 0 ==> 0 <= q <= a,
        a < 0 ==> a <= q < 0,
        b * q <= a < b * q + b,
{
    assert(a >= 0 ==> 0 <= q <= a) by (nonlinear_arith)
        requires
            b >= 1,
            a == b * q + r,
            0 <= r < b,
    ;
    assert(a < 0 ==> a <= q < 0) by (nonlinear_arith)
        requires
            b >= 1,
            a == b * q + r,
            0 <= r < b,
    ;
}

/// `a / b` rounded toward negative infinity.
fn floor_div(a: i128, b: i128) -> (r: i128)
    requires
        b > 0,
        -DIV_LIMIT <= a <= DIV_LIMIT,
    ensures
        r == a / b,
        b * r <= a < b * r + b,
        -DIV_LIMIT <= r <= DIV_LIMIT,
{
    proof {
        lemma_fundamental_div_mod(a as int, b as int);
        vstd::arithmetic::div_mod::lemma_mod_bound(a as int, b as int);
        lemma_quotient_bounded(a as int, b as int, a as int / b as int, a as int % b as int);
    }
    match a.checked_div_euclid(b) {
        Some(r) => r,
        None => 0,
    }
}

/// Facts about the points `origin + k * step` for `first <= k <= last`.
proof fn lemma_grid_point(origin: int, step: int, first: int, k: int, last: int, lo: int, hi: int)
    requires
        step > 0,
        first <= k <= last,
        origin + first * step >= lo,
        origin + last * step <= hi,
    ensures
        lo <= origin + k * step <= hi,
{
    lemma_mul_inequality(first, k, step);
    lemma_mul_inequality(k, last, step);
}

/// The grid points in `[lo, hi]` ascend strictly.
pub proof fn lemma_grid_ascending(values: Seq<int>, origin: int, step: int, first: int, lo: int, hi: int)
    requires
        step > 0,
        is_grid(values, origin, step, first, lo, hi),
    ensures
        is_strictly_ascending(values),
{
    assert forall|i: int, j: int| 0 <= i < j < values.len() implies values[i] < values[j] by {
        lemma_mul_strict_inequality(first + i, first + j, step);
    }
}

proof fn lemma_count_bound(len: int, step: int, n: int, w: int, first: int, origin: int, lo: int, hi: int)
    requires
        step > 0,
        len >= 1,
        n >= 1,
        lo <= origin + first * step,
        origin + (first + len - 1) * step <= hi,
        hi - lo == w,
        2 * w <= 3 * (n * step),
    ensures
        2 * len <= 3 * n + 2,
{
    assert((first + len - 1) * step - first * step == (len - 1) * step) by (nonlinear_arith);
    assert(2 * (len - 1) <= 3 * n) by (nonlinear_arith)
        requires
            step > 0,
            2 * ((len - 1) * step) <= 3 * (n * step),
    ;
}

/// What auto mode gives for `[min, max]`, `target_count` ticks and the grid
/// through `origin`.
pub open spec fn is_plan_result(min: i64, max: i64, target_count: usize, origin: i64, r: Result<TickSet, PlanError>) -> bool {
    &&& (r is Err) <==> (min < max && target_count > MAX_TARGET_COUNT)
    &&& r is Err ==> r->Err_0 == PlanError::ExhaustedCapacity
    &&& r is Ok && (min >= max || target_count == 0) ==> r->Ok_0.values@.len() == 0
    &&& r is Ok && min < max && target_count > 0 ==> {
        let ts = r->Ok_0;
        let v = ints_i128(ts.values@);
        &&& is_nice_step(fine(max) - fine(min), target_count as int, ts.step as int)
        &&& is_nice_form(ts.step as int)
        &&& is_grid(v, fine(origin), ts.step as int, ts.first_index as int, fine(min), fine(max))
        &&& is_strictly_ascending(v)
        &&& 2 * v.len() <= 3 * target_count + 2
    }
}

/// Ticks at a nice step for `[min, max]`, about `target_count` of them, on
/// the grid through `origin`. Values are in fine units (`TICK_SCALE` per data
/// unit).
///
/// An empty or inverted range, or a request for no ticks, gives no ticks.
pub fn plan(min: i64, max: i64, target_count: usize, origin: i64) -> (r: Result<TickSet, PlanError>)
    ensures
        is_plan_result(min, max, target_count, origin, r),
{
    if min >= max || target_count == 0 {
        return Ok(TickSet { step: 0, first_index: 0, values: Vec::new() });
    }
    if target_count > MAX_TARGET_COUNT {
        return Err(PlanError::ExhaustedCapacity);
    }
    let lo: i128 = min as i128 * TICK_SCALE;
    let hi: i128 = max as i128 * TICK_SCALE;
    let o: i128 = origin as i128 * TICK_SCALE;
    let w: u128 = (hi - lo) as u128;
    let n: u128 = target_count as u128;
    let step_u = nice_step(w, n);
    let step: i128 = step_u as i128;
    let first: i128 = -floor_div(o - lo, step);
    let last: i128 = floor_div(hi - o, step);
    proof {
        assert(step * (first - 1) == -(step * (-first)) - step) by (nonlinear_arith);
        assert(step * first == -(step * (-first))) by (nonlinear_arith);
        assert((first - 1) * step < (last + 1) * step) by (nonlinear_arith)
            requires
                step * (first - 1) < lo - o,
                hi - o < step * last + step,
                lo < hi,
        ;
        assert(first <= last + 1) by (nonlinear_arith)
            requires
                (first - 1) * step < (last + 1) * step,
                step > 0,
        ;
        assert(first * step == step * first && last * step == step * last) by (nonlinear_arith);
    }
    let mut values: Vec<i128> = Vec::new();
    let mut k: i128 = first;
    while k <= last
        invariant
            step > 0,
            first <= k <= last + 1,
            -DIV_LIMIT <= first <= DIV_LIMIT,
            -DIV_LIMIT <= last <= DIV_LIMIT,
            lo == fine(min),
            hi == fine(max),
            o == fine(origin),
            o + first * step >= lo,
            o + last * step <= hi,
            values@.len() == k - first,
            forall|i: int| 0 <= i < values@.len() ==> #[trigger] values@[i] == o + (first + i) * step,
            forall|i: int| 0 <= i < values@.len() ==> lo <= #[trigger] values@[i] <= hi,
        decreases last + 1 - k,
    {
        proof {
            lemma_grid_point(o as int, step as int, first as int, k as int, last as int, lo as int, hi as int);
        }
        let v = o + k * step;
        values.push(v);
        k = k + 1;
    }
    let ghost vs = ints_i128(values@);
    proof {
        assert(o + (first - 1) * step < lo) by (nonlinear_arith)
            requires
                step * (first - 1) < lo - o,
        ;
        assert(o + (last + 1) * step > hi) by (nonlinear_arith)
            requires
                hi - o < step * last + step,
        ;
        assert(is_grid(vs, o as int, step as int, first as int, lo as int, hi as int));
        lemma_grid_ascending(vs, o as int, step as int, first as int, lo as int, hi as int);
        if vs.len() >= 1 {
            assert(vs[vs.len() - 1] == o + (first + vs.len() - 1) * step);
            lemma_count_bound(vs.len() as int, step as int, n as int, w as int, first as int, o as int, lo as int, hi as int);
        }
    }
    Ok(TickSet { step, first_index: first, values })
}


/// The members of a vector of `i64`, as integers.
pub open spec fn ints_i64(s: Seq<i64>) -> Seq<int> {
    s.map_values(|e: i64| e as int)
}

/// Index of the first multiple of `step` at or above `min`.
pub open spec fn fixed_first(min: int, step: int) -> int {
    -((-min) / step)
}

/// Index of the last multiple of `step` below `max`.
pub open spec fn fixed_last(max: int, step: int) -> int {
    (max - 1) / step
}

/// Ticks at every multiple of `step` in `[min, max)`, ascending, in data
/// units.
pub fn plan_fixed(min: i64, max: i64, step: i64) -> (r: Result<Vec<i64>, PlanError>)
    ensures
        (r is Err && r->Err_0 == PlanError::InvalidStep) <==> step <= 0,
        (r is Err && r->Err_0 == PlanError::ExhaustedCapacity) <==> (step > 0
            && fixed_last(max as int, step as int) - fixed_first(min as int, step as int) + 1 > MAX_TICKS),
        r is Ok ==> is_grid(
            ints_i64(r->Ok_0@),
            0,
            step as int,
            fixed_first(min as int, step as int),
            min as int,
            max - 1,
        ),
{
    if step <= 0 {
        return Err(PlanError::InvalidStep);
    }
    let s: i128 = step as i128;
    let first: i128 = -floor_div(-(min as i128), s);
    let last: i128 = floor_div(max as i128 - 1, s);
    if last - first + 1 > MAX_TICKS as i128 {
        return Err(PlanError::ExhaustedCapacity);
    }
    proof {
        assert(s * (first - 1) == -(s * (-first)) - s) by (nonlinear_arith);
        assert(s * first == -(s * (-first))) by (nonlinear_arith);
        assert(first * s == s * first && last * s == s * last) by (nonlinear_arith);
    }
    let mut values: Vec<i64> = Vec::new();
    let mut k: i128 = first;
    if first <= last {
        while k <= last
            invariant
                s == step,
                s > 0,
                first <= k <= last + 1,
                -DIV_LIMIT <= first <= DIV_LIMIT,
                -DIV_LIMIT <= last <= DIV_LIMIT,
                first * s >= min,
                last * s <= max - 1,
                values@.len() == k - first,
                forall|i: int| 0 <= i < values@.len() ==> #[trigger] values@[i] == (first + i) * s,
                forall|i: int| 0 <= i < values@.len() ==> min <= #[trigger] values@[i] <= max - 1,
            decreases last + 1 - k,
        {
            proof {
                lemma_grid_point(0, s as int, first as int, k as int, last as int, min as int, max - 1);
            }
            let v = (k * s) as i64;
            values.push(v);
            k = k + 1;
        }
    }
    let ghost vs = ints_i64(values@);
    proof {
        assert((first - 1) * s < min) by (nonlinear_arith)
            requires
                s * (first - 1) < min,
        ;
        if first <= last {
            assert((last + 1) * s > max - 1) by (nonlinear_arith)
                requires
                    max - 1 < s * last + s,
            ;
        } else {
            assert(first * s > max - 1) by (nonlinear_arith)
                requires
                    max - 1 < s * last + s,
                    first >= last + 1,
                    s > 0,
            ;
        }
        assert(is_grid(vs, 0, s as int, first as int, min as int, max - 1));
    }
    Ok(values)
}

} // verus!
