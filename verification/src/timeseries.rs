//! An iterator of a sequence of evenly spaced instants.
//!
//! [`TimeSeries`] holds an immutable range (`start`, `end`, a positive `step`,
//! and an end-inclusivity flag) together with a mutable cursor. Walking
//! forward yields `start`, `start + step`, `start + 2*step`, ... while the
//! candidate stays within the end boundary; walking backward yields values one
//! step below the cursor while they do not fall below `start`.
//!
//! The mathematical model is a grid of integers `start + i*step` (nanosecond
//! counts). `enum_count` and `produced_seq` describe exactly which grid points
//! a full forward walk yields; `reported_len` describes the count that `len`
//! and `size_hint` report without enumerating.

use crate::epoch::Duration;
use crate::epoch::Epoch;
use vstd::prelude::*;

verus! {

/// Whether a candidate instant `cand` is still within the end boundary:
/// strictly below `end` in exclusive mode, at most `end` in inclusive mode.
pub open spec fn in_bound(cand: int, end: int, incl: bool) -> bool {
    if incl {
        cand <= end
    } else {
        cand < end
    }
}

/// The `i`-th point of the step grid anchored at `start`.
pub open spec fn grid(start: int, step: int, i: int) -> int {
    start + i * step
}

/// How many grid points a full forward walk yields: the number of `i >= 0`
/// with `in_bound(grid(start, step, i), end, incl)`.
pub open spec fn enum_count(start: int, end: int, step: int, incl: bool) -> int
    recommends
        step > 0,
{
    if !in_bound(start, end, incl) {
        0
    } else if incl {
        (end - start) / step + 1
    } else {
        (end - start - 1) / step + 1
    }
}

/// The exact sequence of instants (as nanosecond counts) that a full forward
/// walk yields.
pub open spec fn produced_seq(start: int, end: int, step: int, incl: bool) -> Seq<int>
    recommends
        step > 0,
{
    Seq::new(enum_count(start, end, step, incl) as nat, |i: int| grid(start, step, i))
}

/// `ceil(a / b)` for a nonnegative numerator and positive denominator.
pub open spec fn ceil_div(a: int, b: int) -> int
    recommends
        a >= 0,
        b > 0,
{
    (a + b - 1) / b
}

/// A count clamped to the largest value `len` can return.
pub open spec fn clamp_count(n: int) -> int {
    if n >= usize::MAX as int {
        usize::MAX as int
    } else {
        n
    }
}

/// The length that `len` reports: the number of whole steps that cover the
/// distance between the boundaries, rounded upward; exclusive mode reports
/// one fewer, since the end slot of the grid is never claimed. The distance
/// enters as a magnitude, so a reversed range reports the same count as its
/// forward counterpart even though a walk over it yields nothing.
pub open spec fn reported_len(start: int, end: int, step: int, incl: bool) -> int
    recommends
        step > 0,
{
    let d = if end >= start {
        end - start
    } else {
        start - end
    };
    let n = ceil_div(d, step);
    let n2 = if incl {
        n
    } else if n == 0 {
        0
    } else {
        n - 1
    };
    clamp_count(n2)
}

/// Multiplying by a positive step and taking the floor quotient are adjoint:
/// `i * s <= d` exactly when `i <= d / s`.
proof fn lemma_mul_le_div(i: int, d: int, s: int)
    requires
        s > 0,
    ensures
        i * s <= d <==> i <= d / s,
{
    let q = d / s;
    let r = d % s;
    vstd::arithmetic::div_mod::lemma_fundamental_div_mod(d, s);
    vstd::arithmetic::div_mod::lemma_mod_division_less_than_divisor(d, s);
    if i <= q {
        vstd::arithmetic::mul::lemma_mul_inequality(i, q, s);
        vstd::arithmetic::mul::lemma_mul_is_commutative(q, s);
    } else {
        vstd::arithmetic::mul::lemma_mul_inequality(q + 1, i, s);
        vstd::arithmetic::mul::lemma_mul_is_distributive_add_other_way(s, q, 1);
        vstd::arithmetic::mul::lemma_mul_is_commutative(q + 1, s);
        vstd::arithmetic::mul::lemma_mul_is_commutative(q, s);
    }
}

/// The grid point `start + i*step` lies within the end boundary exactly when
/// `i` is below the number of points a full forward walk yields.
proof fn lemma_in_bound_iff(start: int, end: int, step: int, incl: bool, i: int)
    requires
        step > 0,
        i >= 0,
    ensures
        in_bound(grid(start, step, i), end, incl) <==> i < enum_count(start, end, step, incl),
{
    vstd::arithmetic::mul::lemma_mul_nonnegative(i, step);
    if incl {
        if start <= end {
            lemma_mul_le_div(i, end - start, step);
        }
    } else {
        if start < end {
            lemma_mul_le_div(i, end - start - 1, step);
        }
    }
}

/// `ceil(n*s / s) == n`: an exact multiple of the step needs exactly `n`
/// whole steps.
proof fn lemma_ceil_div_exact(n: int, s: int)
    requires
        s > 0,
        n >= 0,
    ensures
        ceil_div(n * s, s) == n,
{
    vstd::arithmetic::mul::lemma_mul_nonnegative(n, s);
    assert(n * s + s - 1 == n * s + (s - 1));
    vstd::arithmetic::div_mod::lemma_fundamental_div_mod_converse_div(n * s + s - 1, s, n, s - 1);
}

/// Off an exact multiple, rounding the quotient upward adds exactly one to
/// the floor quotient: for `d >= 1` with `d % s != 0`,
/// `ceil(d/s) == d/s + 1`.
proof fn lemma_ceil_div_inexact(d: int, s: int)
    requires
        s > 0,
        d >= 1,
        d % s != 0,
    ensures
        ceil_div(d, s) == d / s + 1,
{
    let q = d / s;
    let r = d % s;
    vstd::arithmetic::div_mod::lemma_fundamental_div_mod(d, s);
    vstd::arithmetic::div_mod::lemma_mod_division_less_than_divisor(d, s);
    vstd::arithmetic::mul::lemma_mul_is_distributive_add_other_way(s, q, 1);
    assert(d + s - 1 == (q + 1) * s + (r - 1));
    vstd::arithmetic::div_mod::lemma_fundamental_div_mod_converse_div(d + s - 1, s, q + 1, r - 1);
}

/// First element: whenever a forward walk yields anything at all, its first
/// instant is exactly `start`.
pub proof fn lemma_first_element_is_start(start: int, end: int, step: int, incl: bool)
    requires
        step > 0,
        enum_count(start, end, step, incl) > 0,
    ensures
        produced_seq(start, end, step, incl)[0] == start,
{
}

/// Every instant of a forward walk lies at or above `start` and within the
/// end boundary: strictly below `end` in exclusive mode, at most `end` in
/// inclusive mode.
pub proof fn lemma_element_bounds(start: int, end: int, step: int, incl: bool, i: int)
    requires
        step > 0,
        0 <= i < enum_count(start, end, step, incl),
    ensures
        start <= produced_seq(start, end, step, incl)[i],
        in_bound(produced_seq(start, end, step, incl)[i], end, incl),
{
    vstd::arithmetic::mul::lemma_mul_nonnegative(i, step);
    lemma_in_bound_iff(start, end, step, incl, i);
}

/// Exclusive mode never yields the end boundary: every instant of the walk
/// is strictly below `end`.
pub proof fn lemma_exclusive_below_end(start: int, end: int, step: int, i: int)
    requires
        step > 0,
        0 <= i < enum_count(start, end, step, false),
    ensures
        produced_seq(start, end, step, false)[i] < end,
{
    lemma_element_bounds(start, end, step, false, i);
}

/// Inclusive mode reaches an end that lies exactly on the step grid: with
/// `end == start + n*step` the walk yields `n + 1` instants and its last one
/// equals `end`.
pub proof fn lemma_inclusive_reaches_end(start: int, end: int, step: int, n: int)
    requires
        step > 0,
        n >= 0,
        end == start + n * step,
    ensures
        enum_count(start, end, step, true) == n + 1,
        produced_seq(start, end, step, true).last() == end,
{
    vstd::arithmetic::mul::lemma_mul_nonnegative(n, step);
    assert(end - start == n * step + 0);
    vstd::arithmetic::div_mod::lemma_fundamental_div_mod_converse_div(end - start, step, n, 0);
}

/// Monotone spacing: consecutive instants of a forward walk differ by exactly
/// `step`.
pub proof fn lemma_consecutive_difference(start: int, end: int, step: int, incl: bool, i: int)
    requires
        step > 0,
        0 <= i,
        i + 1 < enum_count(start, end, step, incl),
    ensures
        produced_seq(start, end, step, incl)[i + 1] - produced_seq(start, end, step, incl)[i]
            == step,
{
    vstd::arithmetic::mul::lemma_mul_is_distributive_add_other_way(step, i, 1);
}

/// Length agreement, inclusive mode off the grid: when `end` is not an exact
/// step multiple beyond `start`, the count reported before traversal equals
/// the number of instants a full forward walk yields.
pub proof fn lemma_len_agreement_inclusive(start: int, end: int, step: int)
    requires
        step > 0,
        start < end,
        (end - start) % step != 0,
        enum_count(start, end, step, true) <= usize::MAX as int,
    ensures
        reported_len(start, end, step, true) == enum_count(start, end, step, true),
{
    lemma_ceil_div_inexact(end - start, step);
}

/// The exclusive report undercounts a full forward walk by exactly one on any
/// non-empty range: the walk yields `start` and then one instant for every
/// further step strictly before `end`, while the report counts only the
/// latter.
pub proof fn lemma_len_exclusive_relation(start: int, end: int, step: int)
    requires
        step > 0,
        start < end,
        enum_count(start, end, step, false) <= usize::MAX as int,
    ensures
        reported_len(start, end, step, false) == enum_count(start, end, step, false) - 1,
{
    let d = end - start;
    vstd::arithmetic::div_mod::lemma_div_plus_one(d - 1, step);
    vstd::arithmetic::div_mod::lemma_div_pos_is_pos(d - 1, step);
}

/// Reported lengths on an exact grid: with `end == start + n*step` for
/// `n >= 1`, the inclusive report is `n` and the exclusive report is `n - 1`,
/// while the walks themselves yield `n + 1` and `n` instants.
pub proof fn lemma_len_exact_multiple(start: int, end: int, step: int, n: int)
    requires
        step > 0,
        n >= 1,
        end == start + n * step,
        n <= usize::MAX as int,
    ensures
        reported_len(start, end, step, true) == n,
        reported_len(start, end, step, false) == n - 1,
        enum_count(start, end, step, true) == n + 1,
        enum_count(start, end, step, false) == n,
{
    vstd::arithmetic::mul::lemma_mul_inequality(1, n, step);
    lemma_ceil_div_exact(n, step);
    lemma_inclusive_reaches_end(start, end, step, n);
    vstd::arithmetic::mul::lemma_mul_is_distributive_sub_other_way(step, n, 1);
    assert(end - start - 1 == (n - 1) * step + (step - 1));
    vstd::arithmetic::div_mod::lemma_fundamental_div_mod_converse_div(
        end - start - 1,
        step,
        n - 1,
        step - 1,
    );
}

/// An iterator of a sequence of evenly spaced instants.
#[derive(Clone, Debug)]
pub struct TimeSeries {
    start: Epoch,
    end: Epoch,
    step: Duration,
    cur: Epoch,
    incl: bool,
}

impl TimeSeries {
    /// Inclusive lower bound of the range, as a nanosecond count.
    pub closed spec fn spec_start(self) -> int {
        self.start@
    }

    /// Upper bound of the range, as a nanosecond count.
    pub closed spec fn spec_end(self) -> int {
        self.end@
    }

    /// The fixed advance between produced instants, as a nanosecond count.
    pub closed spec fn spec_step(self) -> int {
        self.step@
    }

    /// Whether the end boundary itself may be produced.
    pub closed spec fn spec_incl(self) -> bool {
        self.incl
    }

    /// The cursor, as a nanosecond count: one step behind the next instant a
    /// forward walk would produce.
    pub closed spec fn spec_cur(self) -> int {
        self.cur@
    }

    /// How many instants the forward walk has produced so far: the cursor's
    /// position on the grid, counted from the fresh position one step before
    /// `start`.
    pub closed spec fn spec_index(self) -> int {
        (self.spec_cur() - self.spec_start()) / self.spec_step() + 1
    }

    /// Well-formedness: the step is a positive span, the fresh cursor position
    /// `start - step` is representable, and the cursor sits on the step grid,
    /// either at the fresh position or on a produced instant within the range.
    pub closed spec fn wf(self) -> bool {
        &&& self.spec_step() > 0
        &&& self.spec_start() - self.spec_step() >= i64::MIN as int
        &&& (self.spec_cur() - self.spec_start()) % self.spec_step() == 0
        &&& (self.spec_cur() == self.spec_start() - self.spec_step() || (self.spec_start()
            <= self.spec_cur() && self.spec_cur() <= self.spec_end()))
    }

    /// Returns an iterator of evenly spaced instants, **inclusive** on start
    /// and **exclusive** on end: it yields every grid point strictly below
    /// `end`, beginning at `start` itself.
    pub fn exclusive(start: Epoch, end: Epoch, step: Duration) -> (r: TimeSeries)
        requires
            step@ > 0,
            start@ - step@ >= i64::MIN as int,
        ensures
            r.wf(),
            r.spec_start() == start@,
            r.spec_end() == end@,
            r.spec_step() == step@,
            !r.spec_incl(),
            r.spec_cur() == start@ - step@,
            r.spec_index() == 0,
    {
        let cur = Epoch::from_nanoseconds(start.nanos - step.nanos);
        proof {
            Self::lemma_fresh_cursor(start@, step@);
        }
        TimeSeries { start, end, step, cur, incl: false }
    }

    /// Returns an iterator of evenly spaced instants, inclusive on start
    /// **and** on end: it yields every grid point up to and including `end`,
    /// beginning at `start` itself.
    pub fn inclusive(start: Epoch, end: Epoch, step: Duration) -> (r: TimeSeries)
        requires
            step@ > 0,
            start@ - step@ >= i64::MIN as int,
        ensures
            r.wf(),
            r.spec_start() == start@,
            r.spec_end() == end@,
            r.spec_step() == step@,
            r.spec_incl(),
            r.spec_cur() == start@ - step@,
            r.spec_index() == 0,
    {
        let cur = Epoch::from_nanoseconds(start.nanos - step.nanos);
        proof {
            Self::lemma_fresh_cursor(start@, step@);
        }
        TimeSeries { start, end, step, cur, incl: true }
    }

    /// Produces the next instant of the forward walk, or `None` once the
    /// candidate one step beyond the cursor falls outside the end boundary.
    /// The cursor advances exactly when an instant is produced, so repeated
    /// calls yield `produced_seq` element by element and then keep returning
    /// `None`; every produced instant lies between `start` and the boundary.
    pub fn next(&mut self) -> (r: Option<Epoch>)
        requires
            old(self).wf(),
        ensures
            final(self).wf(),
            final(self).spec_start() == old(self).spec_start(),
            final(self).spec_end() == old(self).spec_end(),
            final(self).spec_step() == old(self).spec_step(),
            final(self).spec_incl() == old(self).spec_incl(),
            ({
                let cand = old(self).spec_cur() + old(self).spec_step();
                if in_bound(cand, old(self).spec_end(), old(self).spec_incl()) {
                    &&& r matches Some(e) && e@ == cand
                    &&& final(self).spec_cur() == cand
                } else {
                    &&& r is None
                    &&& final(self).spec_cur() == old(self).spec_cur()
                }
            }),
            r matches Some(e) ==> old(self).spec_start() <= e@ && in_bound(
                e@,
                old(self).spec_end(),
                old(self).spec_incl(),
            ),
            ({
                let i = old(self).spec_index();
                let n = enum_count(
                    old(self).spec_start(),
                    old(self).spec_end(),
                    old(self).spec_step(),
                    old(self).spec_incl(),
                );
                &&& i >= 0
                &&& (i < n ==> (r matches Some(e) && e@ == produced_seq(
                    old(self).spec_start(),
                    old(self).spec_end(),
                    old(self).spec_step(),
                    old(self).spec_incl(),
                )[i] && final(self).spec_index() == i + 1))
                &&& (i >= n ==> r is None && final(self).spec_index() == i)
            }),
    {
        proof {
            self.lemma_cursor_on_grid();
            lemma_in_bound_iff(
                self.spec_start(),
                self.spec_end(),
                self.spec_step(),
                self.spec_incl(),
                self.spec_index(),
            );
        }
        let ghost i = self.spec_index();
        let cand_wide: i128 = self.cur.nanos as i128 + self.step.nanos as i128;
        let end_wide: i128 = self.end.nanos as i128;
        let stop = if self.incl {
            cand_wide > end_wide
        } else {
            cand_wide >= end_wide
        };
        if stop {
            None
        } else {
            proof {
                assert(i64::MIN as int <= cand_wide as int <= i64::MAX as int);
            }
            let cand: i64 = cand_wide as i64;
            self.cur = Epoch::from_nanoseconds(cand);
            proof {
                let s = old(self).spec_start();
                let st = old(self).spec_step();
                assert(cand as int - s == i * st + 0);
                vstd::arithmetic::div_mod::lemma_fundamental_div_mod_converse_mod(
                    cand as int - s,
                    st,
                    i,
                    0,
                );
                vstd::arithmetic::div_mod::lemma_fundamental_div_mod_converse_div(
                    cand as int - s,
                    st,
                    i,
                    0,
                );
            }
            Some(Epoch::from_nanoseconds(cand))
        }
    }

    /// Produces the instant one step below the cursor, or `None` when that
    /// candidate would fall below `start`. The backward walk never moves the
    /// cursor, so it does not disturb the forward walk's state; no produced
    /// instant is ever less than `start`.
    pub fn next_back(&self) -> (r: Option<Epoch>)
        requires
            self.wf(),
        ensures
            ({
                let cand = self.spec_cur() - self.spec_step();
                if cand >= self.spec_start() {
                    r matches Some(e) && e@ == cand
                } else {
                    r is None
                }
            }),
            r matches Some(e) ==> self.spec_start() <= e@ && e@ < self.spec_cur(),
    {
        let cand_wide: i128 = self.cur.nanos as i128 - self.step.nanos as i128;
        let start_wide: i128 = self.start.nanos as i128;
        if cand_wide < start_wide {
            None
        } else {
            proof {
                assert(i64::MIN as int <= cand_wide as int <= i64::MAX as int);
            }
            Some(Epoch::from_nanoseconds(cand_wide as i64))
        }
    }

    /// The exact count that a caller may rely on before traversing: the
    /// number of whole steps covering the distance between the boundaries,
    /// rounded upward, one fewer in exclusive mode (see `reported_len`). The
    /// count is clamped to `usize::MAX` rather than overflowing.
    pub fn len(&self) -> (r: usize)
        requires
            self.wf(),
        ensures
            r as int == reported_len(
                self.spec_start(),
                self.spec_end(),
                self.spec_step(),
                self.spec_incl(),
            ),
    {
        let s: i128 = self.start.nanos as i128;
        let e: i128 = self.end.nanos as i128;
        let st: i128 = self.step.nanos as i128;
        let d: i128 = if e >= s {
            e - s
        } else {
            s - e
        };
        let du: u128 = d as u128;
        let stu: u128 = st as u128;
        let n: u128 = (du + stu - 1) / stu;
        let n2: u128 = if self.incl {
            n
        } else if n == 0 {
            0
        } else {
            n - 1
        };
        if n2 >= usize::MAX as u128 {
            usize::MAX
        } else {
            n2 as usize
        }
    }

    /// The size hint `(len, Some(len + 1))`: a lower bound equal to the exact
    /// reported count and an upper bound one larger, the upper bound clamped
    /// at `usize::MAX`.
    pub fn size_hint(&self) -> (r: (usize, Option<usize>))
        requires
            self.wf(),
        ensures
            r.0 as int == reported_len(
                self.spec_start(),
                self.spec_end(),
                self.spec_step(),
                self.spec_incl(),
            ),
            r.1 matches Some(hi) && hi as int == clamp_count(
                reported_len(
                    self.spec_start(),
                    self.spec_end(),
                    self.spec_step(),
                    self.spec_incl(),
                ) + 1,
            ),
    {
        let lo = self.len();
        let hi = if lo == usize::MAX {
            usize::MAX
        } else {
            lo + 1
        };
        (lo, Some(hi))
    }

    /// A well-formed cursor decomposes as `start + k*step` with `k >= -1`, so
    /// `spec_index` names the exact grid slot and the next candidate is the
    /// `spec_index`-th grid point.
    proof fn lemma_cursor_on_grid(&self)
        requires
            self.wf(),
        ensures
            self.spec_cur() == grid(self.spec_start(), self.spec_step(), self.spec_index() - 1),
            self.spec_index() >= 0,
            self.spec_cur() + self.spec_step() == grid(
                self.spec_start(),
                self.spec_step(),
                self.spec_index(),
            ),
    {
        let s = self.spec_start();
        let st = self.spec_step();
        let off = self.spec_cur() - s;
        let k = off / st;
        vstd::arithmetic::div_mod::lemma_fundamental_div_mod(off, st);
        assert(off == k * st) by {
            vstd::arithmetic::mul::lemma_mul_is_commutative(st, k);
        }
        if self.spec_cur() == s - st {
            Self::lemma_fresh_cursor(s, st);
        } else {
            assert(off >= 0);
            vstd::arithmetic::div_mod::lemma_div_pos_is_pos(off, st);
        }
        Self::lemma_grid_advance(s, st, k);
    }

    /// Linear step along the grid: point `k + 1` is point `k` plus one step.
    proof fn lemma_grid_advance(start: int, step: int, k: int)
        ensures
            grid(start, step, k + 1) == grid(start, step, k) + step,
    {
        vstd::arithmetic::mul::lemma_mul_is_distributive_add_other_way(step, k, 1);
    }

    /// The fresh cursor `start - step` sits on the grid one slot before
    /// `start`.
    proof fn lemma_fresh_cursor(start: int, step: int)
        requires
            step > 0,
        ensures
            ((start - step) - start) % step == 0,
            ((start - step) - start) / step == -1,
    {
        assert((start - step) - start == (-1) * step + 0) by (nonlinear_arith);
        vstd::arithmetic::div_mod::lemma_fundamental_div_mod_converse_mod(
            (start - step) - start,
            step,
            -1,
            0,
        );
        vstd::arithmetic::div_mod::lemma_fundamental_div_mod_converse_div(
            (start - step) - start,
            step,
            -1,
            0,
        );
    }
}

} // verus!

