//! Fan and pump duty curves.
//!
//! A profile is a list of `[liquid temperature, duty %]` points. The cooler
//! wants one duty byte per degree from 20 to 59 C, so the points are sorted,
//! made monotonic with a (59, 100) failsafe, and linearly interpolated with
//! round-to-nearest, the same normalisation liquidctl performs.

use vstd::prelude::*;
use vstd::relations::{sorted_by, total_ordering};
use vstd::seq_lib::{
    lemma_sorted_unique, to_multiset_build, to_multiset_contains, to_multiset_insert, to_multiset_len,
    to_multiset_remove,
};

verus! {

/// Lowest liquid temperature the cooler's curve covers, in degrees C.
pub const CURVE_MIN_TEMP: u8 = 20;

/// Highest liquid temperature the cooler's curve covers; the failsafe point.
pub const CURVE_CRITICAL_TEMP: u8 = 59;

/// Number of duty bytes in a curve: one per degree from 20 to 59 C.
pub const CURVE_LEN: usize = 40;

/// Integer division rounding toward zero, as `/` does on Rust's signed integers.
pub open spec fn trunc_div(a: int, b: int) -> int {
    if a >= 0 {
        a / b
    } else {
        -((-a) / b)
    }
}

/// The pair of points that `interpolate` reads for `x`: walking the profile in
/// order, `upper` is the first point at or above `x` (the last point if there
/// is none), and `lower` the last point at or below `x` seen up to there (the
/// first point if there is none).
pub open spec fn bracket_from(p: Seq<(i32, i32)>, x: int, i: int, lower: (i32, i32)) -> ((i32, i32), (i32, i32))
    decreases p.len() - i,
{
    if i >= p.len() || i < 0 {
        (lower, p.last())
    } else {
        let step = p[i];
        let lower2 = if step.0 <= x { step } else { lower };
        if step.0 >= x {
            (lower2, step)
        } else {
            bracket_from(p, x, i + 1, lower2)
        }
    }
}

pub open spec fn bracket(p: Seq<(i32, i32)>, x: int) -> ((i32, i32), (i32, i32)) {
    bracket_from(p, x, 0, p[0])
}

/// Linear interpolation between two points, rounded to nearest.
pub open spec fn between(lo: (i32, i32), hi: (i32, i32), x: int) -> int {
    let span = hi.0 - lo.0;
    let rise = hi.1 - lo.1;
    lo.1 + trunc_div((x - lo.0) * rise * 2 + span, span * 2)
}

/// The duty `interpolate` gives for `x` on profile `p`.
pub open spec fn spec_interpolate(p: Seq<(i32, i32)>, x: int) -> int {
    let (lo, hi) = bracket(p, x);
    if lo.0 == hi.0 {
        lo.1 as int
    } else {
        between(lo, hi, x)
    }
}

/// Profile points are ordered by temperature, and by falling duty among
/// points at the same temperature.
pub open spec fn point_order(a: (i32, i32), b: (i32, i32)) -> bool {
    a.0 < b.0 || (a.0 == b.0 && a.1 >= b.1)
}

pub open spec fn point_leq() -> spec_fn((i32, i32), (i32, i32)) -> bool {
    |a: (i32, i32), b: (i32, i32)| point_order(a, b)
}

pub open spec fn widen(p: [u8; 2]) -> (i32, i32) {
    (p[0] as i32, p[1] as i32)
}

/// The user's points with the (59, 100) failsafe appended.
pub open spec fn with_failsafe(points: Seq<[u8; 2]>) -> Seq<(i32, i32)> {
    points.map_values(|p: [u8; 2]| widen(p)).push((59i32, 100i32))
}

/// The user's points plus the failsafe, in `point_order`.
pub open spec fn sorted_profile(points: Seq<[u8; 2]>) -> Seq<(i32, i32)> {
    with_failsafe(points).sort_by(point_leq())
}

/// Continue the monotone normalisation of `s` from index `i`, with `acc`
/// holding the points kept so far: a point at an already kept temperature is
/// dropped, a duty below the previous one is raised to it, and the scan ends
/// right after a kept duty of exactly 100.
pub open spec fn normalise_from(s: Seq<(i32, i32)>, i: int, acc: Seq<(i32, i32)>) -> Seq<(i32, i32)>
    decreases s.len() - i,
{
    if i >= s.len() || i < 0 {
        acc
    } else {
        let x = s[i].0;
        let last = acc.last();
        if x == last.0 {
            normalise_from(s, i + 1, acc)
        } else {
            let y = if s[i].1 < last.1 { last.1 } else { s[i].1 };
            if y == 100 {
                acc.push((x, y))
            } else {
                normalise_from(s, i + 1, acc.push((x, y)))
            }
        }
    }
}

/// The monotone profile that a sorted profile is normalised to.
pub open spec fn normalise(s: Seq<(i32, i32)>) -> Seq<(i32, i32)> {
    if s.len() == 0 {
        s
    } else {
        normalise_from(s, 1, seq![s[0]])
    }
}

pub open spec fn clamp(v: int, lo: int, hi: int) -> int {
    if v < lo {
        lo
    } else if v > hi {
        hi
    } else {
        v
    }
}

/// The duty byte for degree `CURVE_MIN_TEMP + i` of the curve built from `points`.
pub open spec fn curve_entry(points: Seq<[u8; 2]>, dmin: u8, dmax: u8, i: int) -> u8 {
    clamp(
        spec_interpolate(normalise(sorted_profile(points)), 20 + i),
        dmin as int,
        dmax as int,
    ) as u8
}

/// The whole curve built from `points`: 40 bytes, for 20 to 59 C.
pub open spec fn spec_curve(points: Seq<[u8; 2]>, dmin: u8, dmax: u8) -> Seq<u8> {
    Seq::new(40, |i: int| curve_entry(points, dmin, dmax, i))
}

// ------------------------------------------------------------------------
// Interpolation
// ------------------------------------------------------------------------

/// A rounded interpolation between `lo` and `hi` stays between their duties
/// when `x` lies in `[lo.0, hi.0)`.
proof fn lemma_between_bounds(lo: (i32, i32), hi: (i32, i32), x: int)
    requires
        lo.0 <= x < hi.0,
    ensures
        lo.1 <= hi.1 ==> lo.1 <= between(lo, hi, x) <= hi.1,
        hi.1 < lo.1 ==> hi.1 <= between(lo, hi, x) <= lo.1,
{
    let span = hi.0 - lo.0;
    let rise = hi.1 - lo.1;
    let d = x - lo.0;
    if rise >= 0 {
        assert(0 <= d * rise * 2 + span) by (nonlinear_arith)
            requires 0 <= d, 0 <= rise, 0 < span;
        assert(d * rise * 2 + span < (rise + 1) * (span * 2)) by (nonlinear_arith)
            requires 0 <= d < span, 0 <= rise;
        assert((d * rise * 2 + span) / (span * 2) <= rise) by (nonlinear_arith)
            requires d * rise * 2 + span < (rise + 1) * (span * 2), 0 < span, 0 <= d * rise * 2 + span;
        assert(0 <= (d * rise * 2 + span) / (span * 2)) by (nonlinear_arith)
            requires 0 < span, 0 <= d * rise * 2 + span;
    } else {
        let n = d * rise * 2 + span;
        if n >= 0 {
            assert(n <= span) by (nonlinear_arith)
                requires n == d * rise * 2 + span, 0 <= d, rise < 0;
            assert(n / (span * 2) == 0) by (nonlinear_arith)
                requires 0 <= n <= span, 0 < span;
        } else {
            let m = -n;
            assert(m < (-rise) * (span * 2)) by (nonlinear_arith)
                requires m == -(d * rise * 2 + span), 0 <= d < span, rise < 0;
            assert(m / (span * 2) <= -rise) by (nonlinear_arith)
                requires m < (-rise) * (span * 2), 0 < span, 0 < m;
            assert(0 <= m / (span * 2)) by (nonlinear_arith)
                requires 0 < span, 0 < m;
        }
    }
}

/// While every point seen so far lies below `x`, the walk keeps the last of
/// them as `lower`; it stops at the first point at or above `x`.
proof fn lemma_bracket_walk(p: Seq<(i32, i32)>, x: int, i: int)
    requires
        1 <= i <= p.len(),
        forall|j: int| 0 <= j < i ==> p[j].0 < x,
    ensures
        ({
            let (lo, hi) = bracket_from(p, x, i, p[i - 1]);
            lo.0 != hi.0 ==> lo.0 <= x < hi.0
        }),
    decreases p.len() - i,
{
    if i < p.len() {
        if p[i].0 < x {
            lemma_bracket_walk(p, x, i + 1);
        }
    }
}

/// The bracket of `x`: whenever its two points differ, the lower one is at
/// or below `x` and the upper one strictly above.
proof fn lemma_bracket_shape(p: Seq<(i32, i32)>, x: int)
    requires
        p.len() > 0,
    ensures
        ({
            let (lo, hi) = bracket(p, x);
            lo.0 != hi.0 ==> lo.0 <= x < hi.0
        }),
{
    if p[0].0 < x {
        lemma_bracket_walk(p, x, 1);
    }
}

/// `interpolate` always returns a duty between those of the two points it
/// interpolates between.
pub proof fn lemma_interpolate_between(p: Seq<(i32, i32)>, x: int)
    requires
        p.len() > 0,
    ensures
        ({
            let (lo, hi) = bracket(p, x);
            let v = spec_interpolate(p, x);
            &&& lo.1 <= hi.1 ==> lo.1 <= v <= hi.1
            &&& hi.1 < lo.1 ==> hi.1 <= v <= lo.1
        }),
{
    lemma_bracket_shape(p, x);
    let (lo, hi) = bracket(p, x);
    if lo.0 != hi.0 {
        lemma_between_bounds(lo, hi, x);
    }
}

/// Linear interpolation over `profile` (pairs of temperature and duty) at
/// temperature `x`, rounded to nearest. Below the first point the first duty
/// holds, above the last point the last duty holds.
pub fn interpolate(profile: &[(i32, i32)], x: i32) -> (r: i32)
    requires
        profile@.len() > 0,
    ensures
        r == spec_interpolate(profile@, x as int),
        x <= profile@[0].0 ==> r == profile@[0].1,
        (forall|j: int| 0 <= j < profile@.len() ==> #[trigger] profile@[j].0 < x) ==> r
            == profile@.last().1,
{
    let ghost p = profile@;
    let mut lower = profile[0];
    let mut upper = profile[profile.len() - 1];
    let mut i: usize = 0;
    while i < profile.len()
        invariant_except_break
            0 <= i <= profile@.len(),
            p == profile@,
            p.len() > 0,
            upper == p.last(),
            bracket(p, x as int) == bracket_from(p, x as int, i as int, lower),
        ensures
            bracket(p, x as int) == (lower, upper),
        decreases profile@.len() - i,
    {
        let step = profile[i];
        if step.0 <= x {
            lower = step;
        }
        if step.0 >= x {
            upper = step;
            break;
        }
        i = i + 1;
    }
    proof {
        lemma_interpolate_between(p, x as int);
        if x <= p[0].0 {
            lemma_bracket_at(p, x as int, 0);
        }
        if forall|j: int| 0 <= j < p.len() ==> #[trigger] p[j].0 < x {
            lemma_bracket_at(p, x as int, p.len() as int);
        }
    }
    if lower.0 == upper.0 {
        return lower.1;
    }
    proof {
        lemma_bracket_shape(p, x as int);
    }
    // Exact arithmetic: no intermediate can overflow in 128 bits.
    let span: i128 = upper.0 as i128 - lower.0 as i128;
    let rise: i128 = upper.1 as i128 - lower.1 as i128;
    let d: i128 = x as i128 - lower.0 as i128;
    assert(0 <= d < span);
    assert(-0x1_0000_0000 <= rise <= 0x1_0000_0000);
    assert(span <= 0x1_0000_0000);
    assert(-0x2_0000_0000_0000_0000 <= d * rise <= 0x2_0000_0000_0000_0000) by (nonlinear_arith)
        requires 0 <= d <= 0x1_0000_0000, -0x1_0000_0000 <= rise <= 0x1_0000_0000;
    let num: i128 = d * rise * 2 + span;
    let q: i128 = num / (span * 2);
    let v: i128 = lower.1 as i128 + q;
    v as i32
}

// ------------------------------------------------------------------------
// Sorting and normalisation
// ------------------------------------------------------------------------

/// `point_order` is a total order.
pub proof fn lemma_point_order_total()
    ensures
        total_ordering(point_leq()),
{
    let leq = point_leq();
    assert forall|a: (i32, i32), b: (i32, i32)| #[trigger] leq(a, b) && #[trigger] leq(b, a) implies a == b by {
        assert(a.0 == b.0 && a.1 == b.1);
    }
    assert forall|a: (i32, i32), b: (i32, i32), c: (i32, i32)| #[trigger] leq(a, b) && #[trigger] leq(b, c) implies leq(a, c) by {
    }
    assert forall|a: (i32, i32), b: (i32, i32)| #[trigger] leq(a, b) || #[trigger] leq(b, a) by {
    }
}

/// Insert `e` into the sorted vector `v`, after every point that orders before it.
fn insert_sorted(v: &mut Vec<(i32, i32)>, e: (i32, i32))
    requires
        sorted_by(old(v)@, point_leq()),
    ensures
        sorted_by(final(v)@, point_leq()),
        final(v)@.to_multiset() == old(v)@.to_multiset().insert(e),
{
    let ghost before = v@;
    let mut j: usize = 0;
    while j < v.len() && (v[j].0 < e.0 || (v[j].0 == e.0 && v[j].1 >= e.1))
        invariant
            0 <= j <= v@.len(),
            v@ == before,
            forall|k: int| 0 <= k < j ==> point_order(#[trigger] v@[k], e),
        decreases v@.len() - j,
    {
        j = j + 1;
    }
    v.insert(j, e);
    proof {
        to_multiset_insert(before, j as int, e);
        let after = v@;
        assert(after == before.insert(j as int, e));
        let leq = point_leq();
        lemma_point_order_total();
        assert forall|a: int, b: int| 0 <= a < b < after.len() implies #[trigger] leq(after[a], after[b]) by {
            if b < j {
                assert(leq(before[a], before[b]));
            } else if b == j {
                assert(point_order(before[a], e));
            } else if a == j {
                // e orders before the point that stopped the search, and so
                // before everything after it.
                assert(!point_order(before[j as int], e));
                assert(point_order(e, before[j as int]));
                if b - 1 > j {
                    assert(leq(before[j as int], before[b - 1]));
                }
            } else if a < j {
                assert(point_order(before[a], e));
                assert(!point_order(before[j as int], e));
                assert(point_order(e, before[j as int]));
                if b - 1 > j {
                    assert(leq(before[j as int], before[b - 1]));
                }
                assert(leq(before[a], before[b - 1]));
            } else {
                assert(leq(before[a - 1], before[b - 1]));
            }
        }
    }
}

/// The user's points with the failsafe appended, sorted by `point_order`.
fn sort_points(points: &[[u8; 2]]) -> (v: Vec<(i32, i32)>)
    ensures
        v@ == sorted_profile(points@),
{
    let ghost w = with_failsafe(points@);
    let mut v: Vec<(i32, i32)> = Vec::new();
    let n = points.len();
    proof {
        broadcast use vstd::seq_lib::group_to_multiset_ensures;
        assert(w.take(0) =~= Seq::<(i32, i32)>::empty());
        assert(v@ =~= Seq::<(i32, i32)>::empty());
    }
    let mut i: usize = 0;
    while i < n
        invariant
            0 <= i <= n,
            n == points@.len(),
            w == with_failsafe(points@),
            w.len() == n + 1,
            sorted_by(v@, point_leq()),
            v@.to_multiset() == w.take(i as int).to_multiset(),
        decreases n - i,
    {
        let e: (i32, i32) = (points[i][0] as i32, points[i][1] as i32);
        assert(e == w[i as int]);
        insert_sorted(&mut v, e);
        proof {
            assert(w.take(i as int + 1) == w.take(i as int).push(e));
            to_multiset_build(w.take(i as int), e);
        }
        i = i + 1;
    }
    let failsafe: (i32, i32) = (CURVE_CRITICAL_TEMP as i32, 100);
    insert_sorted(&mut v, failsafe);
    proof {
        assert(w == w.take(n as int).push(failsafe));
        to_multiset_build(w.take(n as int), failsafe);
    }
    proof {
        lemma_point_order_total();
        w.lemma_sort_by_ensures(point_leq());
        lemma_sorted_unique(v@, w.sort_by(point_leq()), point_leq());
    }
    v
}

/// The monotone normalisation of a non-empty sorted profile.
fn normalise_points(s: &Vec<(i32, i32)>) -> (m: Vec<(i32, i32)>)
    requires
        s@.len() > 0,
    ensures
        m@ == normalise(s@),
        m@.len() > 0,
{
    let mut m: Vec<(i32, i32)> = Vec::new();
    m.push(s[0]);
    assert(m@ == seq![s@[0]]);
    let mut i: usize = 1;
    while i < s.len()
        invariant_except_break
            1 <= i <= s@.len(),
            m@.len() > 0,
            normalise(s@) == normalise_from(s@, i as int, m@),
        ensures
            normalise(s@) == m@,
            m@.len() > 0,
        decreases s@.len() - i,
    {
        let x = s[i].0;
        let last = m[m.len() - 1];
        if x == last.0 {
            i = i + 1;
            continue;
        }
        let y = if s[i].1 < last.1 { last.1 } else { s[i].1 };
        m.push((x, y));
        if y == 100 {
            break;
        }
        i = i + 1;
    }
    m
}

/// Expand `[temperature, duty]` points into one duty byte per degree from 20
/// to 59 C: the points and a (59, 100) failsafe are sorted, made monotonic
/// (see `normalise`), linearly interpolated with rounding, and each duty is
/// clamped to `[dmin, dmax]`.
pub fn build_curve(points: &[[u8; 2]], dmin: u8, dmax: u8) -> (curve: Vec<u8>)
    requires
        dmin <= dmax,
    ensures
        curve@ == spec_curve(points@, dmin, dmax),
        curve@.len() == CURVE_LEN,
        forall|i: int| 0 <= i < curve@.len() ==> dmin <= #[trigger] curve@[i] <= dmax,
{
    let sorted = sort_points(points);
    proof {
        assert(with_failsafe(points@).len() > 0);
        lemma_point_order_total();
        with_failsafe(points@).lemma_sort_by_ensures(point_leq());
        vstd::seq_lib::to_multiset_len(with_failsafe(points@));
        vstd::seq_lib::to_multiset_len(sorted@);
    }
    let mono = normalise_points(&sorted);
    let mut curve: Vec<u8> = Vec::new();
    let mut t: u8 = CURVE_MIN_TEMP;
    while t <= CURVE_CRITICAL_TEMP
        invariant
            CURVE_MIN_TEMP <= t <= CURVE_CRITICAL_TEMP + 1,
            dmin <= dmax,
            mono@ == normalise(sorted_profile(points@)),
            mono@.len() > 0,
            curve@.len() == t - CURVE_MIN_TEMP,
            forall|i: int| 0 <= i < curve@.len() ==> #[trigger] curve@[i] == curve_entry(points@, dmin, dmax, i),
        decreases CURVE_CRITICAL_TEMP + 1 - t,
    {
        let duty = interpolate(mono.as_slice(), t as i32);
        let d: u8 = if duty < dmin as i32 {
            dmin
        } else if duty > dmax as i32 {
            dmax
        } else {
            duty as u8
        };
        curve.push(d);
        t = t + 1;
    }
    assert(curve@ == spec_curve(points@, dmin, dmax));
    curve
}

// ------------------------------------------------------------------------
// Laws of interpolation and of the built curve
// ------------------------------------------------------------------------

/// Temperatures strictly increasing and duties non-decreasing: the shape of a
/// normalised profile.
pub open spec fn is_monotone_profile(p: Seq<(i32, i32)>) -> bool {
    &&& forall|i: int, j: int| 0 <= i < j < p.len() ==> p[i].0 < p[j].0
    &&& forall|i: int, j: int| 0 <= i <= j < p.len() ==> p[i].1 <= p[j].1
}

proof fn lemma_walk_to(p: Seq<(i32, i32)>, x: int, i: int, k: int)
    requires
        1 <= i <= k <= p.len(),
        forall|j: int| 0 <= j < k ==> p[j].0 < x,
        k < p.len() ==> p[k].0 >= x,
    ensures
        bracket_from(p, x, i, p[i - 1]) == (if k == p.len() {
            (p.last(), p.last())
        } else if p[k].0 == x {
            (p[k], p[k])
        } else {
            (p[k - 1], p[k])
        }),
    decreases k - i,
{
    if i < k {
        lemma_walk_to(p, x, i + 1, k);
    }
}

/// Where the walk stops: with `k` the first point at or above `x`, the
/// bracket is that point alone (at a knot, or before the first point), the
/// last point alone (past every point), or the points `k - 1` and `k`.
proof fn lemma_bracket_at(p: Seq<(i32, i32)>, x: int, k: int)
    requires
        p.len() > 0,
        0 <= k <= p.len(),
        forall|j: int| 0 <= j < k ==> p[j].0 < x,
        k < p.len() ==> p[k].0 >= x,
    ensures
        bracket(p, x) == (if k == p.len() {
            (p.last(), p.last())
        } else if k == 0 || p[k].0 == x {
            (p[k], p[k])
        } else {
            (p[k - 1], p[k])
        }),
{
    if k > 0 {
        lemma_walk_to(p, x, 1, k);
    }
}

/// The index of the first point at or above `x`, or the length if none is.
proof fn lemma_first_at_or_above(p: Seq<(i32, i32)>, x: int, from: int) -> (k: int)
    requires
        0 <= from <= p.len(),
        forall|j: int| 0 <= j < from ==> p[j].0 < x,
    ensures
        from <= k <= p.len(),
        forall|j: int| 0 <= j < k ==> p[j].0 < x,
        k < p.len() ==> p[k].0 >= x,
    decreases p.len() - from,
{
    if from == p.len() || p[from].0 >= x {
        from
    } else {
        lemma_first_at_or_above(p, x, from + 1)
    }
}

/// Rounded interpolation within one segment rises with `x` when the duty does.
proof fn lemma_between_monotone(lo: (i32, i32), hi: (i32, i32), x1: int, x2: int)
    requires
        lo.0 <= x1 <= x2 < hi.0,
        lo.1 <= hi.1,
    ensures
        between(lo, hi, x1) <= between(lo, hi, x2),
{
    let span = hi.0 - lo.0;
    let rise = hi.1 - lo.1;
    let n1 = (x1 - lo.0) * rise * 2 + span;
    let n2 = (x2 - lo.0) * rise * 2 + span;
    assert(0 <= n1 <= n2) by (nonlinear_arith)
        requires n1 == (x1 - lo.0) * rise * 2 + span, n2 == (x2 - lo.0) * rise * 2 + span,
            lo.0 <= x1 <= x2, 0 <= rise, 0 < span;
    vstd::arithmetic::div_mod::lemma_div_is_ordered(n1, n2, span * 2);
}

/// On a monotone profile, with `k` the first point at or above `x`, the
/// interpolated duty is at least the duty before `k` and at most the duty at `k`.
proof fn lemma_interpolate_within(p: Seq<(i32, i32)>, x: int, k: int)
    requires
        p.len() > 0,
        is_monotone_profile(p),
        0 <= k <= p.len(),
        forall|j: int| 0 <= j < k ==> p[j].0 < x,
        k < p.len() ==> p[k].0 >= x,
    ensures
        k > 0 ==> p[k - 1].1 <= spec_interpolate(p, x),
        k < p.len() ==> spec_interpolate(p, x) <= p[k].1,
        k < p.len() && p[k].0 == x ==> spec_interpolate(p, x) == p[k].1,
{
    lemma_bracket_at(p, x, k);
    if k < p.len() && k > 0 && p[k].0 != x {
        lemma_between_bounds(p[k - 1], p[k], x);
    }
}

/// On a monotone profile, interpolation is monotone: a higher temperature
/// never gives a lower duty.
pub proof fn lemma_interpolate_monotone(p: Seq<(i32, i32)>, x1: int, x2: int)
    requires
        p.len() > 0,
        is_monotone_profile(p),
        x1 <= x2,
    ensures
        spec_interpolate(p, x1) <= spec_interpolate(p, x2),
{
    let k1 = lemma_first_at_or_above(p, x1, 0);
    let k2 = lemma_first_at_or_above(p, x2, 0);
    lemma_interpolate_within(p, x1, k1);
    lemma_interpolate_within(p, x2, k2);
    if k1 < k2 {
        assert(p[k1].1 <= p[k2 - 1].1);
    } else if k2 < k1 {
        // Impossible: p[k2] >= x2 >= x1 yet every point before k1 is below x1.
        assert(p[k2].0 < x1);
    } else {
        let k = k1;
        if k < p.len() && k > 0 && p[k].0 != x1 && p[k].0 != x2 {
            lemma_bracket_at(p, x1, k);
            lemma_bracket_at(p, x2, k);
            lemma_between_monotone(p[k - 1], p[k], x1, x2);
        } else if k == p.len() || k == 0 {
            lemma_bracket_at(p, x1, k);
            lemma_bracket_at(p, x2, k);
        }
    }
}

/// On a monotone profile, the duty at `x` is at least that of every point at
/// or below `x`; at a point's own temperature it is exactly that point's duty.
pub proof fn lemma_interpolate_at_least_knot(p: Seq<(i32, i32)>, x: int, j: int)
    requires
        p.len() > 0,
        is_monotone_profile(p),
        0 <= j < p.len(),
        p[j].0 <= x,
    ensures
        p[j].1 <= spec_interpolate(p, x),
        p[j].0 == x ==> spec_interpolate(p, x) == p[j].1,
{
    let k = lemma_first_at_or_above(p, x, 0);
    lemma_interpolate_within(p, x, k);
    if j < k {
        assert(p[j].1 <= p[k - 1].1);
    } else {
        assert(p[k].0 <= p[j].0);
        assert(j == k);
    }
}

/// Normalising a profile sorted by temperature yields a monotone profile.
proof fn lemma_normalise_from_monotone(s: Seq<(i32, i32)>, i: int, acc: Seq<(i32, i32)>)
    requires
        1 <= i <= s.len(),
        acc.len() > 0,
        is_monotone_profile(acc),
        forall|a: int, b: int| 0 <= a <= b < s.len() ==> s[a].0 <= s[b].0,
        i < s.len() ==> acc.last().0 <= s[i].0,
    ensures
        is_monotone_profile(normalise_from(s, i, acc)),
        normalise_from(s, i, acc).len() > 0,
    decreases s.len() - i,
{
    if i < s.len() {
        let x = s[i].0;
        let last = acc.last();
        if x == last.0 {
            lemma_normalise_from_monotone(s, i + 1, acc);
        } else {
            let y = if s[i].1 < last.1 { last.1 } else { s[i].1 };
            let acc2 = acc.push((x, y));
            assert(is_monotone_profile(acc2)) by {
                assert forall|a: int, b: int| 0 <= a < b < acc2.len() implies acc2[a].0 < acc2[b].0 by {
                    if b == acc.len() {
                        assert(acc[a].0 <= last.0);
                    }
                }
                assert forall|a: int, b: int| 0 <= a <= b < acc2.len() implies acc2[a].1 <= acc2[b].1 by {
                    if b == acc.len() && a < b {
                        assert(acc[a].1 <= last.1);
                    }
                }
            }
            if y != 100 {
                lemma_normalise_from_monotone(s, i + 1, acc2);
            }
        }
    }
}

/// A normalised profile has a point at or below 59 C whose duty is at least
/// 100: the scan either stopped on a duty of exactly 100 before reaching 59 C,
/// or kept the first 59 C point, which carries the failsafe's duty or more.
proof fn lemma_normalise_from_failsafe(s: Seq<(i32, i32)>, i: int, acc: Seq<(i32, i32)>)
    requires
        1 <= i <= s.len(),
        acc.len() > 0,
        sorted_by(s, point_leq()),
        exists|f: int| i <= f < s.len() && s[f] == (59i32, 100i32),
        forall|j: int| 0 <= j < i ==> s[j].0 < 59,
        acc.last().0 < 59,
    ensures
        exists|j: int|
            0 <= j < normalise_from(s, i, acc).len() && #[trigger] normalise_from(s, i, acc)[j].0 <= 59
                && normalise_from(s, i, acc)[j].1 >= 100,
    decreases s.len() - i,
{
    let f = choose|f: int| i <= f < s.len() && s[f] == (59i32, 100i32);
    let x = s[i].0;
    let last = acc.last();
    if x >= 59 {
        // s[i] is the first 59 C point: sorted, so x == 59 and its duty is at least 100.
        if i < f {
            assert(point_leq()(s[i], s[f]));
        }
        assert(x == 59 && s[i].1 >= 100);
        let y = if s[i].1 < last.1 { last.1 } else { s[i].1 };
        let acc2 = acc.push((x, y));
        assert(acc2[acc.len() as int].0 <= 59 && acc2[acc.len() as int].1 >= 100);
        if y != 100 {
            lemma_normalise_from_keeps(s, i + 1, acc2, acc.len() as int);
        }
        let r = normalise_from(s, i, acc);
        assert(r[acc.len() as int] == acc2[acc.len() as int]);
        assert(r[acc.len() as int].0 <= 59 && r[acc.len() as int].1 >= 100);
    } else if x == last.0 {
        assert(f != i);
        lemma_normalise_from_failsafe(s, i + 1, acc);
        assert(normalise_from(s, i, acc) == normalise_from(s, i + 1, acc));
    } else {
        let y = if s[i].1 < last.1 { last.1 } else { s[i].1 };
        let acc2 = acc.push((x, y));
        if y == 100 {
            let r = normalise_from(s, i, acc);
            assert(r == acc2);
            assert(r[acc.len() as int].0 <= 59 && r[acc.len() as int].1 >= 100);
        } else {
            assert(f != i);
            lemma_normalise_from_failsafe(s, i + 1, acc2);
            assert(normalise_from(s, i, acc) == normalise_from(s, i + 1, acc2));
        }
    }
}

/// The scan only ever appends to what it has kept.
proof fn lemma_normalise_from_keeps(s: Seq<(i32, i32)>, i: int, acc: Seq<(i32, i32)>, j: int)
    requires
        0 <= j < acc.len(),
    ensures
        j < normalise_from(s, i, acc).len(),
        normalise_from(s, i, acc)[j] == acc[j],
    decreases s.len() - i,
{
    if 0 <= i < s.len() {
        let x = s[i].0;
        let last = acc.last();
        if x == last.0 {
            lemma_normalise_from_keeps(s, i + 1, acc, j);
        } else {
            let y = if s[i].1 < last.1 { last.1 } else { s[i].1 };
            if y != 100 {
                lemma_normalise_from_keeps(s, i + 1, acc.push((x, y)), j);
            }
        }
    }
}

/// The normalised form of the sorted profile of any points.
proof fn lemma_normalised_profile(points: Seq<[u8; 2]>)
    ensures
        normalise(sorted_profile(points)).len() > 0,
        is_monotone_profile(normalise(sorted_profile(points))),
        exists|j: int|
            0 <= j < normalise(sorted_profile(points)).len()
                && #[trigger] normalise(sorted_profile(points))[j].0 <= 59
                && normalise(sorted_profile(points))[j].1 >= 100,
{
    let w = with_failsafe(points);
    let s = sorted_profile(points);
    lemma_point_order_total();
    w.lemma_sort_by_ensures(point_leq());
    assert(w[w.len() - 1] == (59i32, 100i32));
    assert(w.contains((59i32, 100i32)));
    vstd::seq_lib::to_multiset_contains(w, (59i32, 100i32));
    vstd::seq_lib::to_multiset_contains(s, (59i32, 100i32));
    assert(s.contains((59i32, 100i32)));
    let f = choose|f: int| 0 <= f < s.len() && s[f] == (59i32, 100i32);
    assert(forall|a: int, b: int| 0 <= a <= b < s.len() ==> s[a].0 <= s[b].0) by {
        assert forall|a: int, b: int| 0 <= a <= b < s.len() implies s[a].0 <= s[b].0 by {
            if a < b {
                assert(point_leq()(s[a], s[b]));
            }
        }
    }
    let acc = seq![s[0]];
    assert(is_monotone_profile(acc));
    if s.len() > 1 {
        assert(acc.last().0 <= s[1].0);
    }
    lemma_normalise_from_monotone(s, 1, acc);
    if s[0].0 >= 59 {
        // The first point is a 59 C point carrying a duty of at least 100.
        if f > 0 {
            assert(point_leq()(s[0], s[f]));
        }
        lemma_normalise_from_keeps(s, 1, acc, 0);
        let m = normalise(s);
        assert(m[0].0 <= 59 && m[0].1 >= 100);
    } else {
        assert(f >= 1);
        lemma_normalise_from_failsafe(s, 1, acc);
    }
}

/// Law: a built curve never falls as the temperature rises.
pub proof fn lemma_curve_monotone(points: Seq<[u8; 2]>, dmin: u8, dmax: u8, i: int, j: int)
    requires
        dmin <= dmax,
        0 <= i <= j < CURVE_LEN,
    ensures
        spec_curve(points, dmin, dmax)[i] <= spec_curve(points, dmin, dmax)[j],
{
    lemma_normalised_profile(points);
    lemma_interpolate_monotone(normalise(sorted_profile(points)), 20 + i, 20 + j);
}

/// Law: the curve always ends at the channel's maximum duty at 59 C (the
/// failsafe), whenever that maximum is 100 or less.
pub proof fn lemma_curve_failsafe(points: Seq<[u8; 2]>, dmin: u8, dmax: u8)
    requires
        dmin <= dmax <= 100,
    ensures
        spec_curve(points, dmin, dmax)[CURVE_LEN - 1] == dmax,
{
    lemma_normalised_profile(points);
    let m = normalise(sorted_profile(points));
    let j = choose|j: int| 0 <= j < m.len() && #[trigger] m[j].0 <= 59 && m[j].1 >= 100;
    lemma_interpolate_at_least_knot(m, 59, j);
}

/// Widening two lists of points that hold the same points, in any order,
/// gives two lists that again hold the same points.
proof fn lemma_widened_same_points(a: Seq<[u8; 2]>, b: Seq<[u8; 2]>)
    requires
        a.to_multiset() == b.to_multiset(),
    ensures
        a.map_values(|p: [u8; 2]| widen(p)).to_multiset() == b.map_values(|p: [u8; 2]| widen(p)).to_multiset(),
    decreases a.len(),
{
    broadcast use vstd::multiset::group_multiset_axioms;

    let f = |p: [u8; 2]| widen(p);
    to_multiset_len(a);
    to_multiset_len(b);
    if a.len() == 0 {
        assert(b.len() == 0);
        assert(a.map_values(f) =~= b.map_values(f));
    } else {
        let x = a.last();
        let a1 = a.drop_last();
        to_multiset_build(a1, x);
        assert(a1.push(x) == a);
        to_multiset_contains(b, x);
        assert(b.to_multiset().count(x) > 0);
        let i = choose|i: int| 0 <= i < b.len() && b[i] == x;
        let b1 = b.remove(i);
        to_multiset_remove(b, i);
        assert(a1.to_multiset() =~= b1.to_multiset());
        lemma_widened_same_points(a1, b1);
        let ma = a.map_values(f);
        let mb = b.map_values(f);
        assert(ma =~= a1.map_values(f).push(f(x)));
        to_multiset_build(a1.map_values(f), f(x));
        assert(mb.remove(i) =~= b1.map_values(f));
        to_multiset_remove(mb, i);
        assert(mb[i] == f(x));
        to_multiset_contains(mb, f(x));
        assert(mb.contains(mb[i]));
        assert(mb.to_multiset() =~= mb.remove(i).to_multiset().insert(f(x)));
    }
}

/// Law: the curve does not depend on the order in which the profile's points
/// are given: two lists holding the same points give the same curve.
pub proof fn lemma_curve_ignores_point_order(points: Seq<[u8; 2]>, q: Seq<[u8; 2]>, dmin: u8, dmax: u8)
    requires
        q.to_multiset() == points.to_multiset(),
    ensures
        sorted_profile(q) == sorted_profile(points),
        spec_curve(q, dmin, dmax) == spec_curve(points, dmin, dmax),
{
    lemma_widened_same_points(q, points);
    let f = |p: [u8; 2]| widen(p);
    let fs = (59i32, 100i32);
    to_multiset_build(q.map_values(f), fs);
    to_multiset_build(points.map_values(f), fs);
    let wq = with_failsafe(q);
    let wp = with_failsafe(points);
    assert(wq.to_multiset() == wp.to_multiset());
    lemma_point_order_total();
    wq.lemma_sort_by_ensures(point_leq());
    wp.lemma_sort_by_ensures(point_leq());
    lemma_sorted_unique(wq.sort_by(point_leq()), wp.sort_by(point_leq()), point_leq());
    assert(spec_curve(q, dmin, dmax) =~= spec_curve(points, dmin, dmax));
}

} // verus!
