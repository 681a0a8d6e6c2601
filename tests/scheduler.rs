use dtp_sched::weight::{compare_weights, urgency_weight, Weight};
use dtp_sched::{Block, DtpScheduler, DtpVariant, SelectError};

fn limbs_f64(v: &[u64]) -> f64 {
    let mut r = 0.0;
    for (i, l) in v.iter().enumerate() {
        r += (*l as f64) * 2f64.powi(64 * i as i32);
    }
    r
}

fn approx(w: &Weight) -> f64 {
    let den: f64 = w.den.iter().map(|f| *f as f64).product();
    (limbs_f64(&w.pos) - limbs_f64(&w.neg)) / den
}

fn close(x: f64, y: f64) -> bool {
    (x - y).abs() <= 1e-9 * y.abs().max(1.0)
}

const KB_PER_MS: u64 = 1_024_000;

fn block(id: u64, deadline: u64, priority: u64, remaining: u64, size: u64, created: u64) -> Block {
    Block {
        block_id: id,
        block_create_time: created,
        block_deadline: deadline,
        block_priority: priority,
        block_size: size,
        remaining_size: remaining,
        depend_id: id,
    }
}

#[test]
fn two_block_scenario_weights() {
    let s = DtpScheduler::new();
    let a = block(1, 100, 0, 1000, 1000, 0);
    let b = block(2, 50, 1, 500, 500, 0);
    // A: 100 - 10 - 1000/1024 ms left of 100, priority 0, all unsent.
    let wa = s.block_weight(&a, KB_PER_MS, 20, 0, false);
    assert!(close(approx(&wa), 0.5 * (89.0234375 / 100.0)));
    // B: 50 - 10 - 500/1024 ms left of 50, priority 1 of 2, all unsent.
    let wb = s.block_weight(&b, KB_PER_MS, 20, 0, false);
    assert!(close(approx(&wb), 0.5 * (39.51171875 / 50.0) + 0.5 * 0.5));
    assert_eq!(compare_weights(&wa, &wb), -1);
    let mut s = s;
    let mut blocks = vec![a, b];
    assert_eq!(s.select_block(&mut blocks, KB_PER_MS, 20, 0, 0), Ok(1));
    assert_eq!(s.last_block_id(), Some(1));
    assert_eq!((s.ddl(), s.size(), s.prio()), (100, 1000, 0));
}

#[test]
fn dependency_waits_for_pending_block() {
    let mut s = DtpScheduler::new();
    let mut a = block(1, 100, 0, 1000, 1000, 0);
    a.depend_id = 2;
    let b = block(2, 50, 1, 500, 500, 0);
    let mut blocks = vec![a, b];
    assert_eq!(s.select_block(&mut blocks, KB_PER_MS, 20, 0, 0), Ok(2));
    // Once the dependency is fully sent, the dependent block may go.
    blocks[1].remaining_size = 0;
    assert_eq!(s.select_block(&mut blocks, KB_PER_MS, 20, 0, 0), Ok(1));
}

#[test]
fn dependency_cycle_falls_back() {
    let mut s = DtpScheduler::new();
    let mut a = block(1, 100, 0, 1000, 1000, 0);
    a.depend_id = 2;
    let mut b = block(2, 50, 1, 500, 500, 0);
    b.depend_id = 1;
    let mut blocks = vec![a, b];
    assert_eq!(s.select_block(&mut blocks, KB_PER_MS, 20, 0, 0), Err(SelectError::NoEligibleBlock));
}

#[test]
fn selects_one_of_the_candidates() {
    let mut s = DtpScheduler::new();
    let mut blocks = vec![
        block(7, 10, 2, 0, 100, 0),
        block(8, 300, 1, 40, 100, 5),
        block(9, 200, 0, 90, 100, 10),
    ];
    // Block 8 weighs about 0.2795, block 9 about 0.3897.
    assert_eq!(s.select_block(&mut blocks, 50_000, 30, 0, 20), Ok(8));
}

#[test]
fn weight_grows_with_priority() {
    let s = DtpScheduler::new();
    let lo = block(1, 200, 0, 100, 100, 0);
    let hi = block(1, 200, 2, 100, 100, 0);
    let w_lo = s.block_weight(&lo, KB_PER_MS, 10, 5, false);
    let w_hi = s.block_weight(&hi, KB_PER_MS, 10, 5, false);
    assert_eq!(compare_weights(&w_lo, &w_hi), -1);
    assert!(close(approx(&w_hi) - approx(&w_lo), 0.5));
}

#[test]
fn weight_grows_with_unsent_ratio() {
    let s = DtpScheduler::new();
    let half = block(1, 200, 1, 100, 200, 0);
    let whole = block(1, 200, 1, 100, 100, 0);
    let w_half = s.block_weight(&half, KB_PER_MS, 10, 5, false);
    let w_whole = s.block_weight(&whole, KB_PER_MS, 10, 5, false);
    assert_eq!(compare_weights(&w_half, &w_whole), -1);
    assert!(close(approx(&w_half) * 2.0, approx(&w_whole)));
}

#[test]
fn late_block_carries_penalty() {
    let s = DtpScheduler::new();
    // 50 ms deadline, 120 ms elapsed: late by more than the whole deadline.
    let late = block(1, 50, 0, 100, 100, 0);
    let u = urgency_weight(&late, KB_PER_MS, 0, 120, 100_000);
    assert!(close(approx(&u), 100_001.0));
    let on_time = block(2, 500, 0, 100, 100, 0);
    let w_late = s.block_weight(&late, KB_PER_MS, 0, 120, false);
    let w_on_time = s.block_weight(&on_time, KB_PER_MS, 0, 120, false);
    assert_eq!(compare_weights(&w_on_time, &w_late), -1);
    let mut s = s;
    let mut blocks = vec![late, on_time];
    assert_eq!(s.select_block(&mut blocks, KB_PER_MS, 0, 0, 120), Ok(2));
}

#[test]
fn partial_lateness_is_a_fraction_of_the_deadline() {
    // 100 ms deadline, 125 ms elapsed, nothing else: a quarter late.
    let b = block(1, 100, 0, 1, 1, 0);
    let u = urgency_weight(&b, 1_000_000, 0, 125, 3);
    // The send time of one byte at 1 MB/s is 1 us.
    assert!(close(approx(&u), 3.25001));
}

#[test]
fn zero_pacing_rate_counts_as_late() {
    let b = block(1, 100, 0, 10, 10, 0);
    assert!(close(approx(&urgency_weight(&b, 0, 0, 0, 7)), 8.0));
}

#[test]
fn tie_prefers_smaller_remaining() {
    let mut s = DtpScheduler::new();
    // Rate zero: both late; equal priority and unsent ratio give equal weight.
    let a = block(1, 100, 1, 1000, 2000, 0);
    let b = block(2, 100, 1, 500, 1000, 0);
    assert_eq!(compare_weights(&s.block_weight(&a, 0, 0, 0, false), &s.block_weight(&b, 0, 0, 0, false)), 0);
    let mut blocks = vec![a, b];
    assert_eq!(s.select_block(&mut blocks, 0, 0, 0, 0), Ok(2));
}

#[test]
fn tie_prefers_first_in_order() {
    let mut s = DtpScheduler::new();
    let a = block(4, 100, 1, 500, 1000, 0);
    let b = block(3, 100, 1, 500, 1000, 0);
    let mut blocks = vec![a, b];
    assert_eq!(s.select_block(&mut blocks, 0, 0, 0, 0), Ok(4));
}

#[test]
fn drop_iff_deadline_passed() {
    let s = DtpScheduler::new();
    let b = block(1, 100, 0, 10, 10, 50);
    assert!(!s.should_drop_block(&b, 1, 1, 0, 150));
    assert!(s.should_drop_block(&b, 1, 1, 0, 151));
    let other = block(1, 100, 2, 0, 99, 50);
    assert!(s.should_drop_block(&other, 0, 0, 0, 151));
    assert!(!s.should_drop_block(&b, 1, 1, 0, 10));
}

#[test]
fn exhausted_blocks_repeat_last_choice() {
    let mut s = DtpScheduler::new();
    let mut blocks = vec![block(5, 100, 0, 10, 10, 0)];
    assert_eq!(s.select_block(&mut blocks, KB_PER_MS, 10, 0, 0), Ok(5));
    let mut done = vec![block(6, 100, 0, 0, 10, 0), block(7, 100, 0, 0, 10, 0)];
    assert_eq!(s.select_block(&mut done, KB_PER_MS, 10, 0, 5), Ok(5));
    assert_eq!(s.last_block_id(), Some(5));
    assert_eq!((s.ddl(), s.size(), s.prio()), (0, 0, 0));
}

#[test]
fn first_call_without_candidates_fails() {
    let mut s = DtpScheduler::default();
    let mut empty: Vec<Block> = vec![];
    assert_eq!(s.select_block(&mut empty, KB_PER_MS, 10, 0, 0), Err(SelectError::NoEligibleBlock));
    let mut done = vec![block(6, 100, 0, 0, 10, 0)];
    assert_eq!(s.select_block(&mut done, KB_PER_MS, 10, 0, 0), Err(SelectError::NoEligibleBlock));
    assert_eq!(s.last_block_id(), None);
}

#[test]
fn fresh_scheduler_defaults() {
    let s = DtpScheduler::new();
    assert_eq!(s.variant(), DtpVariant::OverduePenalty);
    assert_eq!((s.ddl(), s.size(), s.prio()), (0, 0, 999_999_999));
    assert_eq!(s.last_block_id(), None);
}

#[test]
fn params_are_checked() {
    assert!(DtpScheduler::with_params(DtpVariant::ElapsedFallback, 1001, 0, 2).is_none());
    assert!(DtpScheduler::with_params(DtpVariant::ElapsedFallback, 500, 0, 0).is_none());
    let s = DtpScheduler::with_params(DtpVariant::ElapsedFallback, 1000, 0, 1).unwrap();
    assert_eq!(s.variant(), DtpVariant::ElapsedFallback);
}

#[test]
fn elapsed_fallback_prefers_on_time_block() {
    let mut s = DtpScheduler::with_params(DtpVariant::ElapsedFallback, 500, 100_000, 2).unwrap();
    // Block 1 is late but has the better priority; block 2 can still make it.
    let late = block(1, 10, 0, 100, 100, 0);
    let on_time = block(2, 1000, 2, 100, 100, 0);
    let mut blocks = vec![late, on_time];
    assert_eq!(s.select_block(&mut blocks, KB_PER_MS, 0, 0, 20), Ok(2));
}

#[test]
fn elapsed_fallback_ranks_late_blocks_by_elapsed_share() {
    let mut s = DtpScheduler::with_params(DtpVariant::ElapsedFallback, 0, 100_000, 2).unwrap();
    // Both late at 40 ms: block 1 has spent 4 deadlines, block 2 only 2.
    let a = block(1, 10, 0, 100, 100, 0);
    let b = block(2, 20, 0, 100, 100, 0);
    assert!(close(approx(&s.block_weight(&a, KB_PER_MS, 0, 40, true)), 4.0));
    assert!(close(approx(&s.block_weight(&b, KB_PER_MS, 0, 40, true)), 2.0));
    let mut blocks = vec![a, b];
    assert_eq!(s.select_block(&mut blocks, KB_PER_MS, 0, 0, 40), Ok(2));
}

#[test]
fn penalty_variant_with_alpha_zero_picks_least_late() {
    let mut s = DtpScheduler::with_params(DtpVariant::OverduePenalty, 0, 10, 2).unwrap();
    let a = block(1, 100, 0, 1, 1, 0);
    let b = block(2, 100, 0, 1, 1, 0);
    let mut blocks = vec![a, b];
    // Created at 0 and 20; at 125 ms block 2 is less late.
    blocks[1].block_create_time = 20;
    assert_eq!(s.select_block(&mut blocks, 1_000_000, 0, 0, 125), Ok(2));
}

#[test]
fn pending_id_lookup() {
    let blocks = vec![block(1, 10, 0, 0, 10, 0), block(2, 10, 0, 5, 10, 0)];
    assert!(!dtp_sched::has_pending_id(&blocks, 1));
    assert!(dtp_sched::has_pending_id(&blocks, 2));
    assert!(!dtp_sched::has_pending_id(&blocks, 3));
}

fn first_choice<S: dtp_sched::Scheduler>(blocks: &mut Vec<Block>) -> Result<u64, SelectError> {
    let mut s = S::new();
    s.select_block(blocks, KB_PER_MS, 20, 0, 0)
}

#[test]
fn scheduler_interface_selects() {
    let mut blocks = vec![block(1, 100, 0, 1000, 1000, 0), block(2, 50, 1, 500, 500, 0)];
    assert_eq!(first_choice::<DtpScheduler>(&mut blocks), Ok(1));
    let s = <DtpScheduler as dtp_sched::Scheduler>::new();
    assert!(dtp_sched::Scheduler::should_drop_block(&s, &blocks[1], 0, 0, 0, 51));
}

#[test]
fn close_weights_are_not_rounded_together() {
    let mut s = DtpScheduler::with_params(DtpVariant::OverduePenalty, 0, 2, 2).unwrap();
    // Late: weight just above one. On time: weight just below one.
    let late = block(1, 10, 0, 1_000_001, 1_999_999, 0);
    let on_time = block(2, 100, 0, 2_000_000, 2_000_000, 10);
    let rate: u64 = 3_000_000_000_000;
    let w_late = s.block_weight(&late, rate, 0, 10, false);
    let w_on_time = s.block_weight(&on_time, rate, 0, 10, false);
    assert_eq!(compare_weights(&w_on_time, &w_late), -1);
    assert!(approx(&w_late) > 1.0);
    assert!(approx(&w_on_time) < 1.0);
    let mut blocks = vec![late, on_time];
    assert_eq!(s.select_block(&mut blocks, rate, 0, 0, 10), Ok(2));
}
