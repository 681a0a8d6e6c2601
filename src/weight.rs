//! The weight of a block, computed exactly as a fraction.
//!
//! Units: times in milliseconds, sizes in bytes, the pacing rate in bytes per
//! second, and the blend factor `alpha` in thousandths. A fraction is a pair
//! `(numerator, denominator)`; fractions are compared by cross-multiplication.
use vstd::prelude::*;

use crate::bignat::{add_nat, compare, from_u64, mul_factors, mul_small, product, value};
use crate::block::Block;

verus! {

/// The unit of the blend factor `alpha`: one whole is this many units.
pub const ALPHA_SCALE: u64 = 1000;

/// Milliseconds since the block was created.
pub open spec fn spec_elapsed(b: Block, now: u64) -> int {
    now - b.block_create_time
}

/// The time left before the deadline, in milliseconds, times `2 * rate`:
/// the deadline less the elapsed time, half a round trip, and the time to
/// send the remaining bytes at `rate` bytes per second.
pub open spec fn spec_remaining_time_num(b: Block, rate: u64, rtt: u64, now: u64) -> int {
    2 * rate * (b.block_deadline - spec_elapsed(b, now)) - rate * rtt - 2000 * b.remaining_size
}

/// The block can still meet its deadline; a zero rate never can.
pub open spec fn spec_is_on_time(b: Block, rate: u64, rtt: u64, now: u64) -> bool {
    rate > 0 && spec_remaining_time_num(b, rate, rtt, now) > 0
}

/// The urgency term: for a block on time, the fraction of the deadline still
/// left; for a late block, its lateness as a fraction of the deadline capped
/// at one, plus the penalty `beta`. A zero rate or zero deadline is one late.
pub open spec fn spec_urgency(b: Block, rate: u64, rtt: u64, now: u64, beta: u64) -> (int, int) {
    let d = 2 * rate * b.block_deadline;
    if spec_is_on_time(b, rate, rtt, now) {
        (spec_remaining_time_num(b, rate, rtt, now), d)
    } else if rate == 0 || b.block_deadline == 0 {
        (1 + beta, 1)
    } else {
        let over = -spec_remaining_time_num(b, rate, rtt, now);
        ((if over < d { over } else { d }) + beta * d, d)
    }
}

/// The urgency term of the second pass: the fraction of the deadline already
/// spent. A zero deadline counts as one millisecond.
pub open spec fn spec_elapsed_urgency(b: Block, now: u64) -> (int, int) {
    (spec_elapsed(b, now), if b.block_deadline == 0 { 1 } else { b.block_deadline as int })
}

/// `((1 - alpha) * urgency + alpha * priority / max_priority) * remaining / size`.
pub open spec fn spec_weight(urgency: (int, int), priority: u64, max_priority: u64, alpha: u64, remaining: u64, size: u64) -> (int, int) {
    (
        ((ALPHA_SCALE - alpha) * urgency.0 * max_priority + alpha * priority * urgency.1) * remaining,
        ALPHA_SCALE * urgency.1 * max_priority * size,
    )
}

/// Fraction `x` is below fraction `y`.
pub open spec fn frac_lt(x: (int, int), y: (int, int)) -> bool {
    x.0 * y.1 < y.0 * x.1
}

/// Fractions `x` and `y` are equal.
pub open spec fn frac_eq(x: (int, int), y: (int, int)) -> bool {
    x.0 * y.1 == y.0 * x.1
}

/// What a block must satisfy for its weight to be computed: created no later
/// than `now`, and `0 < remaining_size <= block_size`.
pub open spec fn weighable(b: Block, now: u64) -> bool {
    b.block_create_time <= now && 0 < b.remaining_size <= b.block_size
}

/// A fraction `(pos - neg) / product(den)` held in limbs.
pub struct Weight {
    pub pos: Vec<u64>,
    pub neg: Vec<u64>,
    pub den: Vec<u64>,
}

impl Weight {
    /// The fraction that the limbs stand for.
    pub open spec fn view_frac(&self) -> (int, int) {
        (value(self.pos@) - value(self.neg@), product(self.den@))
    }

    /// The limb vectors are short enough to compute with.
    pub open spec fn small(&self) -> bool {
        self.pos@.len() <= 40 && self.neg@.len() <= 40 && self.den@.len() <= 8
    }
}

/// The product `a * b` in limbs.
fn big_mul2(a: u64, b: u64) -> (r: Vec<u64>)
    ensures
        value(r@) == a * b,
        r@.len() == 2,
{
    let x = from_u64(a);
    mul_small(&x, b)
}

/// The time left before the deadline as two naturals `(ahead, behind)`
/// whose difference is `spec_remaining_time_num`.
fn remaining_time_parts(b: &Block, rate: u64, rtt: u64, now: u64) -> (r: (Vec<u64>, Vec<u64>))
    requires
        b.block_create_time <= now,
    ensures
        value(r.0@) - value(r.1@) == spec_remaining_time_num(*b, rate, rtt, now),
        r.0@.len() <= 4,
        r.1@.len() <= 4,
{
    let elapsed: u64 = now - b.block_create_time;
    let d: u64 = b.block_deadline;
    let two_rate = mul_small(&from_u64(rate), 2);
    // 2 * rate * (deadline - elapsed) split by sign, against the costs.
    let send = big_mul2(2000, b.remaining_size);
    let trip = big_mul2(rate, rtt);
    let costs = add_nat(&trip, &send);
    let (ahead, behind): (Vec<u64>, Vec<u64>) = if d >= elapsed {
        (mul_small(&two_rate, d - elapsed), costs)
    } else {
        let late = mul_small(&two_rate, elapsed - d);
        (from_u64(0), add_nat(&late, &costs))
    };
    assert(value(ahead@) - value(behind@) == spec_remaining_time_num(*b, rate, rtt, now)) by (nonlinear_arith)
        requires
            value(two_rate@) == rate * 2,
            value(send@) == 2000 * b.remaining_size,
            value(trip@) == rate * rtt,
            value(costs@) == value(trip@) + value(send@),
            d >= elapsed ==> value(ahead@) == value(two_rate@) * (d - elapsed) && value(behind@) == value(costs@),
            d < elapsed ==> value(ahead@) == 0 && value(behind@) == value(two_rate@) * (elapsed - d) + value(costs@),
            elapsed == now - b.block_create_time,
            d == b.block_deadline,
    ;
    (ahead, behind)
}

/// Whether the block can still meet its deadline (see `spec_is_on_time`).
pub fn is_on_time(b: &Block, rate: u64, rtt: u64, now: u64) -> (r: bool)
    requires
        b.block_create_time <= now,
    ensures
        r == spec_is_on_time(*b, rate, rtt, now),
{
    if rate == 0 {
        return false;
    }
    let (ahead, behind) = remaining_time_parts(b, rate, rtt, now);
    compare(&ahead, &behind) == 1
}

/// The urgency term of `b` (see `spec_urgency`).
pub fn urgency_weight(b: &Block, rate: u64, rtt: u64, now: u64, beta: u64) -> (r: Weight)
    requires
        b.block_create_time <= now,
    ensures
        r.view_frac() == spec_urgency(*b, rate, rtt, now, beta),
        r.pos@.len() <= 8,
        r.neg@.len() <= 8,
        r.den@.len() <= 3,
{
    let empty: Vec<u64> = Vec::new();
    if rate == 0 || b.block_deadline == 0 {
        let one = from_u64(1);
        let bt = from_u64(beta);
        let pos = add_nat(&one, &bt);
        let den: Vec<u64> = Vec::new();
        proof {
            assert(product(den@) == 1);
            assert(value(empty@) == 0);
            let e = spec_elapsed(*b, now);
            assert(rate == 0 || 2 * rate * (b.block_deadline - e) <= 0) by (nonlinear_arith)
                requires
                    rate == 0 || b.block_deadline == 0,
                    e >= 0,
            ;
            assert(!spec_is_on_time(*b, rate, rtt, now));
        }
        return Weight { pos, neg: empty, den };
    }
    let d: u64 = b.block_deadline;
    let (ahead, behind) = remaining_time_parts(b, rate, rtt, now);
    let mut den: Vec<u64> = Vec::new();
    den.push(2);
    den.push(rate);
    den.push(d);
    proof {
        let s1 = Seq::<u64>::empty().push(2u64);
        let s2 = s1.push(rate);
        assert(den@ =~= s2.push(d));
        assert(s2.push(d).drop_last() =~= s2);
        assert(s2.drop_last() =~= s1);
        assert(s1.drop_last() =~= Seq::<u64>::empty());
        assert(product(Seq::<u64>::empty()) == 1);
        assert(s1.last() == 2u64);
        assert(product(s1) == product(Seq::<u64>::empty()) * 2);
        assert(product(s2) == product(s1) * rate);
        assert(product(den@) == product(s2) * d);
        assert(product(den@) == 2 * rate * d) by (nonlinear_arith)
            requires
                product(den@) == product(s2) * d,
                product(s2) == 2 * rate,
        ;
    }
    if compare(&ahead, &behind) == 1 {
        assert(spec_is_on_time(*b, rate, rtt, now));
        assert(spec_urgency(*b, rate, rtt, now, beta).1 == product(den@));
        return Weight { pos: ahead, neg: behind, den };
    }
    assert(!spec_is_on_time(*b, rate, rtt, now));
    let whole = mul_factors(&from_u64(1), &den);
    let penalty = mul_small(&whole, beta);
    let reach = add_nat(&whole, &ahead);
    let ghost dd: int = 2 * rate * b.block_deadline;
    assert(value(whole@) == dd);
    assert(value(penalty@) == beta * dd) by (nonlinear_arith)
        requires
            value(penalty@) == value(whole@) * beta,
            value(whole@) == dd,
    ;
    if compare(&reach, &behind) != 1 {
        // Late by the whole deadline or more: the lateness is capped at one.
        let pos = add_nat(&whole, &penalty);
        return Weight { pos, neg: empty, den };
    }
    let pos = add_nat(&behind, &penalty);
    Weight { pos, neg: ahead, den }
}

/// The urgency term of the second pass (see `spec_elapsed_urgency`).
pub fn elapsed_urgency(b: &Block, now: u64) -> (r: Weight)
    requires
        b.block_create_time <= now,
    ensures
        r.view_frac() == spec_elapsed_urgency(*b, now),
        r.pos@.len() <= 8,
        r.neg@.len() <= 8,
        r.den@.len() <= 3,
{
    let d: u64 = if b.block_deadline == 0 { 1 } else { b.block_deadline };
    let mut den: Vec<u64> = Vec::new();
    den.push(d);
    proof {
        assert(den@.drop_last() =~= Seq::<u64>::empty());
        assert(product(den@) == product(Seq::<u64>::empty()) * d);
    }
    let neg: Vec<u64> = Vec::new();
    Weight { pos: from_u64(now - b.block_create_time), neg, den }
}

/// Combines an urgency term with the priority and the unsent share into the
/// weight (see `spec_weight`).
pub fn combine_weight(urgency: &Weight, priority: u64, max_priority: u64, alpha: u64, remaining: u64, size: u64) -> (r: Weight)
    requires
        alpha <= ALPHA_SCALE,
        urgency.pos@.len() <= 8,
        urgency.neg@.len() <= 8,
        urgency.den@.len() <= 3,
    ensures
        r.view_frac() == spec_weight(urgency.view_frac(), priority, max_priority, alpha, remaining, size),
        r.small(),
{
    let k: u64 = ALPHA_SCALE - alpha;
    let up = mul_small(&mul_small(&urgency.pos, k), max_priority);
    let pr = mul_factors(&big_mul2(alpha, priority), &urgency.den);
    let pos = mul_small(&add_nat(&up, &pr), remaining);
    let neg = mul_small(&mul_small(&mul_small(&urgency.neg, k), max_priority), remaining);
    let mut den: Vec<u64> = urgency.den.clone();
    let ghost d0 = den@;
    den.push(ALPHA_SCALE);
    den.push(max_priority);
    den.push(size);
    proof {
        assert(urgency.den@ == d0);
        let s1 = d0.push(ALPHA_SCALE);
        let s2 = s1.push(max_priority);
        assert(den@ =~= s2.push(size));
        assert(s2.push(size).drop_last() =~= s2);
        assert(s2.drop_last() =~= s1);
        assert(s1.drop_last() =~= d0);
        assert(product(den@) == product(s2) * size);
        assert(product(s2) == product(s1) * max_priority);
        assert(product(s1) == product(d0) * ALPHA_SCALE);
        let ud = product(d0);
        assert(product(den@) == ALPHA_SCALE * ud * max_priority * size) by (nonlinear_arith)
            requires
                product(den@) == product(s2) * size,
                product(s2) == product(s1) * max_priority,
                product(s1) == ud * ALPHA_SCALE,
        ;
        let p = value(urgency.pos@);
        let n = value(urgency.neg@);
        assert(value(pos@) - value(neg@) == (k * (p - n) * max_priority + alpha * priority * ud) * remaining) by (nonlinear_arith)
            requires
                value(up@) == p * k * max_priority,
                value(pr@) == alpha * priority * ud,
                value(pos@) == (value(up@) + value(pr@)) * remaining,
                value(neg@) == n * k * max_priority * remaining,
        ;
    }
    Weight { pos, neg, den }
}

/// Compares two fractions exactly: -1 when `x` is below `y`, 0 when they are
/// equal, 1 when `x` is above `y`.
pub fn compare_weights(x: &Weight, y: &Weight) -> (r: i8)
    requires
        x.small(),
        y.small(),
    ensures
        r == -1 <==> frac_lt(x.view_frac(), y.view_frac()),
        r == 0 <==> frac_eq(x.view_frac(), y.view_frac()),
        r == 1 <==> frac_lt(y.view_frac(), x.view_frac()),
{
    let lhs = add_nat(&mul_factors(&x.pos, &y.den), &mul_factors(&y.neg, &x.den));
    let rhs = add_nat(&mul_factors(&y.pos, &x.den), &mul_factors(&x.neg, &y.den));
    let c = compare(&lhs, &rhs);
    proof {
        let px = value(x.pos@);
        let nx = value(x.neg@);
        let py = value(y.pos@);
        let ny = value(y.neg@);
        let dx = product(x.den@);
        let dy = product(y.den@);
        assert((px - nx) * dy - (py - ny) * dx == (px * dy + ny * dx) - (py * dx + nx * dy)) by (nonlinear_arith);
    }
    c
}

} // verus!
