//! Properties of the weight and of the selection policy.
use vstd::prelude::*;

use crate::block::Block;
use crate::dtp_scheduler::{
    is_candidate, lemma_frac_trans, lemma_precedes_trans, lemma_weight_den_pos, precedes, DtpScheduler, DtpVariant,
};
use crate::weight::{
    frac_lt, spec_elapsed, spec_elapsed_urgency, spec_is_on_time, spec_remaining_time_num, spec_urgency, weighable,
    ALPHA_SCALE,
};

verus! {

/// The urgency of a weighable block is a fraction with a non-negative
/// numerator and a positive denominator, at most one whole when on time, and
/// at least `beta` wholes when late.
proof fn lemma_urgency_facts(b: Block, rate: u64, rtt: u64, now: u64, beta: u64)
    requires
        weighable(b, now),
    ensures
        spec_urgency(b, rate, rtt, now, beta).0 >= 0,
        spec_urgency(b, rate, rtt, now, beta).1 > 0,
        spec_elapsed_urgency(b, now).0 >= 0,
        spec_elapsed_urgency(b, now).1 > 0,
        spec_is_on_time(b, rate, rtt, now) ==> spec_urgency(b, rate, rtt, now, beta).0 <= spec_urgency(b, rate, rtt, now, beta).1,
        !spec_is_on_time(b, rate, rtt, now) ==> spec_urgency(b, rate, rtt, now, beta).0 >= beta * spec_urgency(b, rate, rtt, now, beta).1,
{
    let d = 2 * rate * b.block_deadline;
    let e = spec_elapsed(b, now);
    assert(rate > 0 && b.block_deadline > 0 ==> d > 0) by (nonlinear_arith)
        requires
            d == 2 * rate * b.block_deadline,
    ;
    if spec_is_on_time(b, rate, rtt, now) {
        let rt = spec_remaining_time_num(b, rate, rtt, now);
        assert(rt <= d && b.block_deadline > 0) by (nonlinear_arith)
            requires
                rt == 2 * rate * (b.block_deadline - e) - rate * rtt - 2000 * b.remaining_size,
                rt > 0,
                rate > 0,
                e >= 0,
                d == 2 * rate * b.block_deadline,
        ;
    } else if rate != 0 && b.block_deadline != 0 {
        let over = -spec_remaining_time_num(b, rate, rtt, now);
        let m = if over < d { over } else { d };
        assert(m + beta * d >= beta * d);
    }
}

/// A block's weight does not decrease when its priority class grows and
/// nothing else about it changes.
pub proof fn lemma_weight_monotone_in_priority(
    s: DtpScheduler,
    b: Block,
    priority: u64,
    rate: u64,
    rtt: u64,
    now: u64,
    second: bool,
)
    requires
        s.wf(),
        weighable(b, now),
        b.block_priority <= priority,
    ensures
        !frac_lt(
            s.pass_weight((Block { block_priority: priority, ..b }), rate, rtt, now, second),
            s.pass_weight(b, rate, rtt, now, second),
        ),
{
    let b2 = Block { block_priority: priority, ..b };
    lemma_urgency_facts(b, rate, rtt, now, s.spec_beta());
    let u = if second { spec_elapsed_urgency(b, now) } else { spec_urgency(b, rate, rtt, now, s.spec_beta()) };
    let k = ALPHA_SCALE - s.spec_alpha();
    let a = s.spec_alpha() as int;
    let m = s.spec_max_prio() as int;
    let w1 = s.pass_weight(b, rate, rtt, now, second);
    let w2 = s.pass_weight(b2, rate, rtt, now, second);
    assert(w1.1 == w2.1);
    lemma_weight_den_pos(s, b, rate, rtt, now, second);
    assert(w1.0 <= w2.0) by (nonlinear_arith)
        requires
            w1.0 == (k * u.0 * m + a * b.block_priority * u.1) * b.remaining_size,
            w2.0 == (k * u.0 * m + a * priority * u.1) * b.remaining_size,
            a >= 0,
            u.1 > 0,
            b.block_priority <= priority,
            b.remaining_size >= 0,
    ;
    assert(w1.0 * w2.1 <= w2.0 * w1.1) by (nonlinear_arith)
        requires
            w1.0 <= w2.0,
            w1.1 == w2.1,
            w1.1 > 0,
    ;
}

/// A block's weight does not decrease as its unsent ratio grows: with the
/// remaining size and all else fixed, a smaller block size never lowers it.
pub proof fn lemma_weight_monotone_in_unsent_ratio(
    s: DtpScheduler,
    b: Block,
    block_size: u64,
    rate: u64,
    rtt: u64,
    now: u64,
    second: bool,
)
    requires
        s.wf(),
        weighable(b, now),
        b.remaining_size <= block_size <= b.block_size,
    ensures
        !frac_lt(
            s.pass_weight((Block { block_size: block_size, ..b }), rate, rtt, now, second),
            s.pass_weight(b, rate, rtt, now, second),
        ),
{
    let b2 = Block { block_size: block_size, ..b };
    lemma_urgency_facts(b, rate, rtt, now, s.spec_beta());
    let u = if second { spec_elapsed_urgency(b, now) } else { spec_urgency(b, rate, rtt, now, s.spec_beta()) };
    let k = ALPHA_SCALE - s.spec_alpha();
    let a = s.spec_alpha() as int;
    let m = s.spec_max_prio() as int;
    let w1 = s.pass_weight(b, rate, rtt, now, second);
    let w2 = s.pass_weight(b2, rate, rtt, now, second);
    assert(w1.0 == w2.0);
    assert(w1.0 >= 0) by (nonlinear_arith)
        requires
            w1.0 == (k * u.0 * m + a * b.block_priority * u.1) * b.remaining_size,
            k >= 0,
            a >= 0,
            m >= 0,
            u.0 >= 0,
            u.1 > 0,
            b.remaining_size >= 0,
    ;
    let c = ALPHA_SCALE * u.1 * m;
    assert(c >= 0) by (nonlinear_arith)
        requires
            c == ALPHA_SCALE * u.1 * m,
            u.1 > 0,
            m > 0,
    ;
    assert(w1.0 * (c * block_size) <= w1.0 * (c * b.block_size)) by (nonlinear_arith)
        requires
            w1.0 >= 0,
            c >= 0,
            block_size <= b.block_size,
    ;
}

/// A block that cannot meet its deadline has an urgency of at least `beta`
/// wholes.
pub proof fn lemma_late_urgency_at_least_beta(b: Block, rate: u64, rtt: u64, now: u64, beta: u64)
    requires
        !spec_is_on_time(b, rate, rtt, now),
        weighable(b, now),
    ensures
        !frac_lt(spec_urgency(b, rate, rtt, now, beta), (beta as int, 1int)),
{
    lemma_urgency_facts(b, rate, rtt, now, beta);
}

/// A late block weighs more in the first pass than a block on time whenever
/// `(1 - alpha) * beta * remaining / size` of the late block exceeds
/// `(1 - alpha) + alpha * priority / max_priority` of the one on time.
pub proof fn lemma_late_heavier_than_on_time(s: DtpScheduler, on_time: Block, late: Block, rate: u64, rtt: u64, now: u64)
    requires
        s.wf(),
        weighable(on_time, now),
        weighable(late, now),
        spec_is_on_time(on_time, rate, rtt, now),
        !spec_is_on_time(late, rate, rtt, now),
        (ALPHA_SCALE - s.spec_alpha()) * s.spec_beta() * late.remaining_size * s.spec_max_prio() > ((ALPHA_SCALE
            - s.spec_alpha()) * s.spec_max_prio() + s.spec_alpha() * on_time.block_priority) * late.block_size,
    ensures
        frac_lt(s.pass_weight(on_time, rate, rtt, now, false), s.pass_weight(late, rate, rtt, now, false)),
{
    let beta = s.spec_beta();
    lemma_urgency_facts(on_time, rate, rtt, now, beta);
    lemma_urgency_facts(late, rate, rtt, now, beta);
    let k = (ALPHA_SCALE - s.spec_alpha()) as int;
    let a = s.spec_alpha() as int;
    let m = s.spec_max_prio() as int;
    let uo = spec_urgency(on_time, rate, rtt, now, beta);
    let uc = spec_urgency(late, rate, rtt, now, beta);
    let wo = s.pass_weight(on_time, rate, rtt, now, false);
    let wc = s.pass_weight(late, rate, rtt, now, false);
    let so = on_time.remaining_size as int;
    let zo = on_time.block_size as int;
    let sc = late.remaining_size as int;
    let zc = late.block_size as int;
    let po = on_time.block_priority as int;
    let pc = late.block_priority as int;
    let bound_on_time = (k * m + a * po, 1000 * m);
    let bound_late = (k * beta * sc, 1000 * zc);
    // The on-time weight is at most (1 - alpha) + alpha * priority / max_priority.
    assert(wo.0 * 1000 * m <= (k * m + a * po) * wo.1) by (nonlinear_arith)
        requires
            wo.0 == (k * uo.0 * m + a * po * uo.1) * so,
            wo.1 == 1000 * uo.1 * m * zo,
            0 <= uo.0 <= uo.1,
            0 <= so <= zo,
            k >= 0,
            a >= 0,
            m > 0,
            po >= 0,
    ;
    // The late weight is at least (1 - alpha) * beta * remaining / size.
    assert(k * beta * sc * wc.1 <= wc.0 * (1000 * zc)) by (nonlinear_arith)
        requires
            wc.0 == (k * uc.0 * m + a * pc * uc.1) * sc,
            wc.1 == 1000 * uc.1 * m * zc,
            uc.0 >= beta * uc.1,
            uc.1 > 0,
            sc >= 0,
            zc > 0,
            k >= 0,
            a >= 0,
            m > 0,
            pc >= 0,
    ;
    assert((k * m + a * po) * (1000 * zc) < k * beta * sc * (1000 * m)) by (nonlinear_arith)
        requires
            k * beta * sc * m > (k * m + a * po) * zc,
    ;
    lemma_weight_den_pos(s, on_time, rate, rtt, now, false);
    lemma_weight_den_pos(s, late, rate, rtt, now, false);
    assert(1000 * m > 0 && 1000 * zc > 0);
    assert(wo.0 * (1000 * m) == wo.0 * 1000 * m) by (nonlinear_arith);
    assert(!frac_lt(bound_on_time, wo));
    assert(frac_lt(bound_on_time, bound_late));
    assert(!frac_lt(wc, bound_late));
    lemma_frac_trans(wo, bound_on_time, bound_late);
    lemma_frac_trans(wo, bound_late, wc);
}

/// Where some block is on time and every late candidate satisfies the bound
/// of `lemma_late_heavier_than_on_time` against every on-time candidate, the
/// selection picks a block that is on time.
pub proof fn lemma_on_time_selected(s: DtpScheduler, blocks: Seq<Block>, rate: u64, rtt: u64, now: u64)
    requires
        s.wf(),
        crate::dtp_scheduler::blocks_valid(blocks, now),
        exists|o: int| is_candidate(blocks, o) && spec_is_on_time(blocks[o], rate, rtt, now),
        forall|c: int, o: int|
            is_candidate(blocks, c) && !spec_is_on_time(#[trigger] blocks[c], rate, rtt, now) && is_candidate(blocks, o)
                && spec_is_on_time(#[trigger] blocks[o], rate, rtt, now) ==> (ALPHA_SCALE - s.spec_alpha()) * s.spec_beta()
                * blocks[c].remaining_size * s.spec_max_prio() > ((ALPHA_SCALE - s.spec_alpha()) * s.spec_max_prio()
                + s.spec_alpha() * blocks[o].block_priority) * blocks[c].block_size,
    ensures
        s.selected_index(blocks, rate, rtt, now) is Some,
        spec_is_on_time(blocks[s.selected_index(blocks, rate, rtt, now)->0], rate, rtt, now),
{
    let o = choose|o: int| is_candidate(blocks, o) && spec_is_on_time(blocks[o], rate, rtt, now);
    assert(s.in_pass(blocks, o, rate, rtt, now, false));
    let second = lemma_selected_is_choice(s, blocks, rate, rtt, now);
    let k = s.selected_index(blocks, rate, rtt, now)->0;
    if !spec_is_on_time(blocks[k], rate, rtt, now) {
        assert(s.spec_variant() == DtpVariant::OverduePenalty);
        assert(blocks[k].is_eligible() && blocks[o].is_eligible());
        lemma_late_heavier_than_on_time(s, blocks[o], blocks[k], rate, rtt, now);
        assert(s.in_pass(blocks, o, rate, rtt, now, second));
    }
}

proof fn lemma_lex_min_exists(member: spec_fn(int) -> bool, w: spec_fn(int) -> (int, int), rem: spec_fn(int) -> int, n: int)
    requires
        n >= 0,
        exists|i: int| 0 <= i < n && #[trigger] member(i),
        forall|i: int| #[trigger] member(i) ==> w(i).1 > 0,
    ensures
        exists|k: int|
            0 <= k < n && #[trigger] member(k) && forall|j: int|
                0 <= j < n && #[trigger] member(j) ==> precedes(w(k), rem(k), k, w(j), rem(j), j),
    decreases n,
{
    let m = n - 1;
    if exists|i: int| 0 <= i < m && #[trigger] member(i) {
        lemma_lex_min_exists(member, w, rem, m);
        let k = choose|k: int|
            0 <= k < m && #[trigger] member(k) && forall|j: int|
                0 <= j < m && #[trigger] member(j) ==> precedes(w(k), rem(k), k, w(j), rem(j), j);
        if member(m) && (frac_lt(w(m), w(k)) || (crate::weight::frac_eq(w(m), w(k)) && rem(m) < rem(k))) {
            assert forall|j: int| 0 <= j < n && #[trigger] member(j) implies precedes(w(m), rem(m), m, w(j), rem(j), j) by {
                if j < m {
                    lemma_precedes_trans(w(m), rem(m), m, w(k), rem(k), k, w(j), rem(j), j);
                }
            }
        } else {
            assert(forall|j: int| 0 <= j < n && #[trigger] member(j) ==> precedes(w(k), rem(k), k, w(j), rem(j), j));
        }
    } else {
        assert(member(m));
        assert(forall|j: int| 0 <= j < n && #[trigger] member(j) ==> precedes(w(m), rem(m), m, w(j), rem(j), j));
    }
}

proof fn lemma_choice_exists(s: DtpScheduler, blocks: Seq<Block>, rate: u64, rtt: u64, now: u64, second: bool)
    requires
        s.wf(),
        crate::dtp_scheduler::blocks_valid(blocks, now),
        s.pass_nonempty(blocks, rate, rtt, now, second),
    ensures
        exists|k: int| s.is_choice(blocks, k, rate, rtt, now, second),
{
    let member = |i: int| s.in_pass(blocks, i, rate, rtt, now, second);
    let w = |i: int| s.pass_weight(blocks[i], rate, rtt, now, second);
    let rem = |i: int| blocks[i].remaining_size as int;
    let n = blocks.len() as int;
    assert forall|i: int| #[trigger] member(i) implies w(i).1 > 0 by {
        assert(blocks[i].is_eligible());
        lemma_weight_den_pos(s, blocks[i], rate, rtt, now, second);
    }
    let i = choose|i: int| s.in_pass(blocks, i, rate, rtt, now, second);
    assert(0 <= i < n && member(i));
    lemma_lex_min_exists(member, w, rem, n);
    let k = choose|k: int|
        0 <= k < n && #[trigger] member(k) && forall|j: int|
            0 <= j < n && #[trigger] member(j) ==> precedes(w(k), rem(k), k, w(j), rem(j), j);
    assert forall|j: int| #[trigger] s.in_pass(blocks, j, rate, rtt, now, second) implies precedes(
        s.pass_weight(blocks[k], rate, rtt, now, second),
        blocks[k].remaining_size as int,
        k,
        s.pass_weight(blocks[j], rate, rtt, now, second),
        blocks[j].remaining_size as int,
        j,
    ) by {
        assert(member(j));
    }
    assert(s.is_choice(blocks, k, rate, rtt, now, second));
}

/// The block that a selection picks, and the pass that picked it.
proof fn lemma_selected_is_choice(s: DtpScheduler, blocks: Seq<Block>, rate: u64, rtt: u64, now: u64) -> (second: bool)
    requires
        s.wf(),
        crate::dtp_scheduler::blocks_valid(blocks, now),
        s.selected_index(blocks, rate, rtt, now) is Some,
    ensures
        second == !s.pass_nonempty(blocks, rate, rtt, now, false),
        s.is_choice(blocks, s.selected_index(blocks, rate, rtt, now)->0, rate, rtt, now, second),
{
    if s.pass_nonempty(blocks, rate, rtt, now, false) {
        lemma_choice_exists(s, blocks, rate, rtt, now, false);
        false
    } else {
        lemma_choice_exists(s, blocks, rate, rtt, now, true);
        true
    }
}

/// Whenever some block is eligible and not waiting for a pending dependency,
/// the selection returns the id of such a block.
pub proof fn lemma_selects_candidate(s: DtpScheduler, blocks: Seq<Block>, rate: u64, rtt: u64, now: u64)
    requires
        s.wf(),
        crate::dtp_scheduler::blocks_valid(blocks, now),
        exists|i: int| is_candidate(blocks, i),
    ensures
        s.selected_index(blocks, rate, rtt, now) is Some,
        is_candidate(blocks, s.selected_index(blocks, rate, rtt, now)->0),
        s.select_result(blocks, rate, rtt, now) == Ok::<u64, crate::dtp_scheduler::SelectError>(
            blocks[s.selected_index(blocks, rate, rtt, now)->0].block_id,
        ),
{
    let i = choose|i: int| is_candidate(blocks, i);
    if !s.pass_nonempty(blocks, rate, rtt, now, false) {
        assert(s.in_pass(blocks, i, rate, rtt, now, true));
        if s.spec_variant() == crate::dtp_scheduler::DtpVariant::OverduePenalty {
            assert(s.in_pass(blocks, i, rate, rtt, now, false));
        }
    }
    lemma_selected_is_choice(s, blocks, rate, rtt, now);
}

/// Of two blocks of the deciding pass with equal weight, the selection never
/// takes the one with more remaining bytes, nor, with equal remaining bytes,
/// the one that comes later. The deciding pass is the first, unless no block
/// takes part in it.
pub proof fn lemma_tie_break(s: DtpScheduler, blocks: Seq<Block>, i: int, j: int, rate: u64, rtt: u64, now: u64, second: bool)
    requires
        s.wf(),
        crate::dtp_scheduler::blocks_valid(blocks, now),
        second == !s.pass_nonempty(blocks, rate, rtt, now, false),
        s.in_pass(blocks, i, rate, rtt, now, second),
        s.in_pass(blocks, j, rate, rtt, now, second),
        s.pass_weight(blocks[i], rate, rtt, now, second) == s.pass_weight(blocks[j], rate, rtt, now, second),
        blocks[i].remaining_size < blocks[j].remaining_size || (blocks[i].remaining_size
            == blocks[j].remaining_size && i < j),
    ensures
        s.selected_index(blocks, rate, rtt, now) is Some,
        s.selected_index(blocks, rate, rtt, now) != Some(j),
{
    if second && s.spec_variant() == crate::dtp_scheduler::DtpVariant::OverduePenalty {
        assert(s.in_pass(blocks, i, rate, rtt, now, false));
    }
    lemma_selected_is_choice(s, blocks, rate, rtt, now);
    assert(s.in_pass(blocks, i, rate, rtt, now, second));
}

/// A block whose dependency is still pending is never selected while some
/// block is eligible and free of pending dependencies; ids are unique.
pub proof fn lemma_blocked_never_selected(s: DtpScheduler, blocks: Seq<Block>, j: int, rate: u64, rtt: u64, now: u64)
    requires
        s.wf(),
        crate::dtp_scheduler::blocks_valid(blocks, now),
        forall|a: int, b: int|
            0 <= a < blocks.len() && 0 <= b < blocks.len() && a != b ==> #[trigger] blocks[a].block_id
                != #[trigger] blocks[b].block_id,
        0 <= j < blocks.len(),
        blocks[j].is_blocked_in(blocks),
        exists|i: int| is_candidate(blocks, i),
    ensures
        s.select_result(blocks, rate, rtt, now) != Ok::<u64, crate::dtp_scheduler::SelectError>(blocks[j].block_id),
{
    lemma_selects_candidate(s, blocks, rate, rtt, now);
    let k = s.selected_index(blocks, rate, rtt, now)->0;
    assert(k != j);
}

/// After a call that returned an id, a call on blocks that are all fully
/// sent returns that same id again.
pub proof fn lemma_fallback_repeats_last(
    s: DtpScheduler,
    next: DtpScheduler,
    first: Seq<Block>,
    later: Seq<Block>,
    rate: u64,
    rtt: u64,
    now: u64,
    rate2: u64,
    rtt2: u64,
    now2: u64,
)
    requires
        s.after_select(next, first, rate, rtt, now),
        s.select_result(first, rate, rtt, now) is Ok,
        forall|i: int| 0 <= i < later.len() ==> #[trigger] later[i].remaining_size == 0,
    ensures
        next.select_result(later, rate2, rtt2, now2) == s.select_result(first, rate, rtt, now),
{
    assert(!next.pass_nonempty(later, rate2, rtt2, now2, false));
    assert(!next.pass_nonempty(later, rate2, rtt2, now2, true));
}

} // verus!
