//! The deadline-aware scheduler: which pending block to send next, and which
//! blocks are too late to be worth sending.
use vstd::prelude::*;

use crate::block::{has_pending_id, Block};
use crate::weight::{
    combine_weight, compare_weights, elapsed_urgency, is_on_time, frac_eq, frac_lt, spec_elapsed_urgency,
    spec_is_on_time, spec_urgency, spec_weight, urgency_weight, weighable, Weight, ALPHA_SCALE,
};

verus! {

/// The two selection policies.
#[derive(Clone, Copy, Debug, PartialEq, Eq, Structural)]
pub enum DtpVariant {
    /// One pass over every candidate; late blocks carry the `beta` penalty.
    OverduePenalty,
    /// A first pass over the candidates that can still meet their deadline;
    /// when there is none, a second pass over all candidates that ranks by the
    /// fraction of the deadline already spent.
    ElapsedFallback,
}

/// Why no block could be selected.
#[derive(Clone, Copy, Debug, PartialEq, Eq, Structural)]
pub enum SelectError {
    /// No candidate in this round, and no block was ever selected before.
    NoEligibleBlock,
}

/// A deadline-aware scheduler, one per connection.
pub struct DtpScheduler {
    ddl: u64,
    size: u64,
    prio: u64,
    last_block_id: Option<u64>,
    max_prio: u64,
    /// Blend factor between urgency and priority, in thousandths.
    alpha: u64,
    /// Penalty added to the urgency of a late block, in wholes.
    beta: u64,
    variant: DtpVariant,
}

/// The default blend factor: one half.
pub const DEFAULT_ALPHA: u64 = 500;

/// The default lateness penalty.
pub const DEFAULT_BETA: u64 = 100_000;

/// The default largest priority class.
pub const DEFAULT_MAX_PRIORITY: u64 = 2;

/// The priority recorded before any selection: the lowest there is.
pub const UNSET_PRIORITY: u64 = 999_999_999;

/// `i` comes no later than `j` in the selection order: smaller weight first,
/// then smaller remaining size, then earlier position.
pub open spec fn precedes(wi: (int, int), ri: int, i: int, wj: (int, int), rj: int, j: int) -> bool {
    frac_lt(wi, wj) || (frac_eq(wi, wj) && (ri < rj || (ri == rj && i <= j)))
}

/// The order of fractions with positive denominators is transitive.
pub proof fn lemma_frac_trans(a: (int, int), b: (int, int), c: (int, int))
    requires
        a.1 > 0,
        b.1 > 0,
        c.1 > 0,
    ensures
        !frac_lt(b, a) && !frac_lt(c, b) ==> !frac_lt(c, a),
        frac_lt(a, b) && !frac_lt(c, b) ==> frac_lt(a, c),
        !frac_lt(b, a) && frac_lt(b, c) ==> frac_lt(a, c),
{
    let (a0, a1, b0, b1, c0, c1) = (a.0, a.1, b.0, b.1, c.0, c.1);
    assert(a0 * b1 * c1 <= b0 * a1 * c1 && b0 * c1 * a1 <= c0 * b1 * a1 ==> a0 * c1 <= c0 * a1) by (nonlinear_arith)
        requires
            a1 > 0,
            b1 > 0,
            c1 > 0,
    ;
    assert(a0 * b1 * c1 < b0 * a1 * c1 && b0 * c1 * a1 <= c0 * b1 * a1 ==> a0 * c1 < c0 * a1) by (nonlinear_arith)
        requires
            a1 > 0,
            b1 > 0,
            c1 > 0,
    ;
    assert(a0 * b1 * c1 <= b0 * a1 * c1 && b0 * c1 * a1 < c0 * b1 * a1 ==> a0 * c1 < c0 * a1) by (nonlinear_arith)
        requires
            a1 > 0,
            b1 > 0,
            c1 > 0,
    ;
    assert(a0 * b1 <= b0 * a1 ==> a0 * b1 * c1 <= b0 * a1 * c1) by (nonlinear_arith)
        requires
            c1 > 0,
    ;
    assert(a0 * b1 < b0 * a1 ==> a0 * b1 * c1 < b0 * a1 * c1) by (nonlinear_arith)
        requires
            c1 > 0,
    ;
    assert(b0 * c1 <= c0 * b1 ==> b0 * c1 * a1 <= c0 * b1 * a1) by (nonlinear_arith)
        requires
            a1 > 0,
    ;
    assert(b0 * c1 < c0 * b1 ==> b0 * c1 * a1 < c0 * b1 * a1) by (nonlinear_arith)
        requires
            a1 > 0,
    ;
}

/// The selection order is transitive over fractions with positive denominators.
pub proof fn lemma_precedes_trans(wi: (int, int), ri: int, i: int, wj: (int, int), rj: int, j: int, wk: (int, int), rk: int, k: int)
    requires
        wi.1 > 0,
        wj.1 > 0,
        wk.1 > 0,
        precedes(wi, ri, i, wj, rj, j),
        precedes(wj, rj, j, wk, rk, k),
    ensures
        precedes(wi, ri, i, wk, rk, k),
{
    lemma_frac_trans(wi, wj, wk);
    lemma_frac_trans(wk, wi, wj);
    lemma_frac_trans(wj, wk, wi);
}

/// The block at `i` is eligible and not waiting for a pending dependency.
pub open spec fn is_candidate(blocks: Seq<Block>, i: int) -> bool {
    0 <= i < blocks.len() && blocks[i].is_eligible() && !blocks[i].is_blocked_in(blocks)
}

/// Every eligible block can be weighed at `now`.
pub open spec fn blocks_valid(blocks: Seq<Block>, now: u64) -> bool {
    forall|i: int| 0 <= i < blocks.len() && #[trigger] blocks[i].is_eligible() ==> weighable(blocks[i], now)
}

impl DtpScheduler {
    /// The parameters are in range.
    pub open spec fn wf(self) -> bool {
        self.spec_alpha() <= ALPHA_SCALE && self.spec_max_prio() > 0
    }

    pub closed spec fn spec_variant(self) -> DtpVariant {
        self.variant
    }

    pub closed spec fn spec_alpha(self) -> u64 {
        self.alpha
    }

    pub closed spec fn spec_beta(self) -> u64 {
        self.beta
    }

    pub closed spec fn spec_max_prio(self) -> u64 {
        self.max_prio
    }

    /// The id of the block selected last, if any.
    pub closed spec fn spec_last_block_id(self) -> Option<u64> {
        self.last_block_id
    }

    /// Deadline, remaining size and priority of the block selected in the
    /// latest call, or zeros when that call selected none.
    pub closed spec fn spec_snapshot(self) -> (u64, u64, u64) {
        (self.ddl, self.size, self.prio)
    }

    /// The weight of block `b` in the first pass (`second == false`) or in
    /// the second.
    pub open spec fn pass_weight(self, b: Block, rate: u64, rtt: u64, now: u64, second: bool) -> (int, int) {
        let u = if second {
            spec_elapsed_urgency(b, now)
        } else {
            spec_urgency(b, rate, rtt, now, self.spec_beta())
        };
        spec_weight(u, b.block_priority, self.spec_max_prio(), self.spec_alpha(), b.remaining_size, b.block_size)
    }

    /// The block at `i` takes part in the given pass.
    pub open spec fn in_pass(self, blocks: Seq<Block>, i: int, rate: u64, rtt: u64, now: u64, second: bool) -> bool {
        is_candidate(blocks, i) && (second || self.spec_variant() == DtpVariant::OverduePenalty
            || spec_is_on_time(blocks[i], rate, rtt, now))
    }

    /// The block at `i` is the one that the given pass selects.
    pub open spec fn is_choice(self, blocks: Seq<Block>, i: int, rate: u64, rtt: u64, now: u64, second: bool) -> bool {
        &&& self.in_pass(blocks, i, rate, rtt, now, second)
        &&& forall|j: int| #[trigger] self.in_pass(blocks, j, rate, rtt, now, second) ==> precedes(
            self.pass_weight(blocks[i], rate, rtt, now, second),
            blocks[i].remaining_size as int,
            i,
            self.pass_weight(blocks[j], rate, rtt, now, second),
            blocks[j].remaining_size as int,
            j,
        )
    }

    /// Some block takes part in the given pass.
    pub open spec fn pass_nonempty(self, blocks: Seq<Block>, rate: u64, rtt: u64, now: u64, second: bool) -> bool {
        exists|i: int| self.in_pass(blocks, i, rate, rtt, now, second)
    }

    /// The position of the block that `select_block` picks, if it picks one.
    pub open spec fn selected_index(self, blocks: Seq<Block>, rate: u64, rtt: u64, now: u64) -> Option<int> {
        if self.pass_nonempty(blocks, rate, rtt, now, false) {
            Some(choose|i: int| self.is_choice(blocks, i, rate, rtt, now, false))
        } else if self.spec_variant() == DtpVariant::ElapsedFallback && self.pass_nonempty(blocks, rate, rtt, now, true) {
            Some(choose|i: int| self.is_choice(blocks, i, rate, rtt, now, true))
        } else {
            None
        }
    }

    /// What `select_block` returns.
    pub open spec fn select_result(self, blocks: Seq<Block>, rate: u64, rtt: u64, now: u64) -> Result<u64, SelectError> {
        match self.selected_index(blocks, rate, rtt, now) {
            Some(i) => Ok(blocks[i].block_id),
            None => match self.spec_last_block_id() {
                Some(id) => Ok(id),
                None => Err(SelectError::NoEligibleBlock),
            },
        }
    }

    /// The scheduler after `select_block`: the parameters stay; the selected
    /// block is remembered, or the snapshot is cleared when none is selected.
    pub open spec fn after_select(self, next: DtpScheduler, blocks: Seq<Block>, rate: u64, rtt: u64, now: u64) -> bool {
        &&& next.spec_variant() == self.spec_variant()
        &&& next.spec_alpha() == self.spec_alpha()
        &&& next.spec_beta() == self.spec_beta()
        &&& next.spec_max_prio() == self.spec_max_prio()
        &&& match self.selected_index(blocks, rate, rtt, now) {
            Some(i) => {
                &&& next.spec_last_block_id() == Some(blocks[i].block_id)
                &&& next.spec_snapshot() == (blocks[i].block_deadline, blocks[i].remaining_size, blocks[i].block_priority)
            },
            None => {
                &&& next.spec_last_block_id() == self.spec_last_block_id()
                &&& next.spec_snapshot() == (0u64, 0u64, 0u64)
            },
        }
    }

    /// A scheduler with the default parameters and the single-pass policy.
    pub fn new() -> (r: DtpScheduler)
        ensures
            r.wf(),
            r.spec_variant() == DtpVariant::OverduePenalty,
            r.spec_alpha() == DEFAULT_ALPHA,
            r.spec_beta() == DEFAULT_BETA,
            r.spec_max_prio() == DEFAULT_MAX_PRIORITY,
            r.spec_last_block_id() == None::<u64>,
            r.spec_snapshot() == (0u64, 0u64, UNSET_PRIORITY),
    {
        DtpScheduler {
            ddl: 0,
            size: 0,
            prio: UNSET_PRIORITY,
            last_block_id: None,
            max_prio: DEFAULT_MAX_PRIORITY,
            alpha: DEFAULT_ALPHA,
            beta: DEFAULT_BETA,
            variant: DtpVariant::OverduePenalty,
        }
    }

    /// A scheduler with the given policy and parameters; `None` when `alpha`
    /// exceeds `ALPHA_SCALE` or `max_priority` is zero.
    pub fn with_params(variant: DtpVariant, alpha: u64, beta: u64, max_priority: u64) -> (r: Option<DtpScheduler>)
        ensures
            r is None <==> (alpha > ALPHA_SCALE || max_priority == 0),
            r matches Some(s) ==> {
                &&& s.wf()
                &&& s.spec_variant() == variant
                &&& s.spec_alpha() == alpha
                &&& s.spec_beta() == beta
                &&& s.spec_max_prio() == max_priority
                &&& s.spec_last_block_id() == None::<u64>
                &&& s.spec_snapshot() == (0u64, 0u64, UNSET_PRIORITY)
            },
    {
        if alpha > ALPHA_SCALE || max_priority == 0 {
            return None;
        }
        Some(DtpScheduler {
            ddl: 0,
            size: 0,
            prio: UNSET_PRIORITY,
            last_block_id: None,
            max_prio: max_priority,
            alpha,
            beta,
            variant,
        })
    }

    /// The id of the block selected last, if any.
    pub fn last_block_id(&self) -> (r: Option<u64>)
        ensures
            r == self.spec_last_block_id(),
    {
        self.last_block_id
    }

    /// Deadline of the block selected in the latest call (zero if none).
    pub fn ddl(&self) -> (r: u64)
        ensures
            r == self.spec_snapshot().0,
    {
        self.ddl
    }

    /// Remaining size of the block selected in the latest call (zero if none).
    pub fn size(&self) -> (r: u64)
        ensures
            r == self.spec_snapshot().1,
    {
        self.size
    }

    /// Priority of the block selected in the latest call (zero if none).
    pub fn prio(&self) -> (r: u64)
        ensures
            r == self.spec_snapshot().2,
    {
        self.prio
    }

    /// The selection policy.
    pub fn variant(&self) -> (r: DtpVariant)
        ensures
            r == self.spec_variant(),
    {
        self.variant
    }

    /// Picks the block to send next from `blocks_vec`.
    ///
    /// `pacing_rate` is in bytes per second, `rtt` and `current_time` in
    /// milliseconds; `_next_packet_id` is not used by this policy. When no block
    /// qualifies, the block selected last is returned again, or
    /// `SelectError::NoEligibleBlock` when there was none.
    pub fn select_block(
        &mut self,
        blocks_vec: &mut Vec<Block>,
        pacing_rate: u64,
        rtt: u64,
        _next_packet_id: u64,
        current_time: u64,
    ) -> (r: Result<u64, SelectError>)
        requires
            old(self).wf(),
            blocks_valid(old(blocks_vec)@, current_time),
        ensures
            final(blocks_vec)@ == old(blocks_vec)@,
            final(self).wf(),
            r == old(self).select_result(old(blocks_vec)@, pacing_rate, rtt, current_time),
            old(self).after_select(*final(self), old(blocks_vec)@, pacing_rate, rtt, current_time),
            (exists|i: int| is_candidate(old(blocks_vec)@, i)) ==> exists|i: int|
                is_candidate(old(blocks_vec)@, i) && r == Ok::<u64, SelectError>(old(blocks_vec)@[i].block_id),
    {
        let blocks: &Vec<Block> = blocks_vec;
        let mut pick: Option<usize> = self.best_in_pass(blocks, pacing_rate, rtt, current_time, false);
        if pick.is_none() && self.variant == DtpVariant::ElapsedFallback {
            pick = self.best_in_pass(blocks, pacing_rate, rtt, current_time, true);
        }
        proof {
            let ghost bs = blocks@;
            match pick {
                Some(k) => {
                    if self.pass_nonempty(bs, pacing_rate, rtt, current_time, false) {
                        assert(self.is_choice(bs, k as int, pacing_rate, rtt, current_time, false));
                        let c = choose|i: int| self.is_choice(bs, i, pacing_rate, rtt, current_time, false);
                        lemma_choice_unique(*self, bs, c, k as int, pacing_rate, rtt, current_time, false);
                    } else {
                        assert(self.is_choice(bs, k as int, pacing_rate, rtt, current_time, true));
                        assert(self.in_pass(bs, k as int, pacing_rate, rtt, current_time, true));
                        let c = choose|i: int| self.is_choice(bs, i, pacing_rate, rtt, current_time, true);
                        lemma_choice_unique(*self, bs, c, k as int, pacing_rate, rtt, current_time, true);
                    }
                    assert(self.selected_index(bs, pacing_rate, rtt, current_time) == Some(k as int));
                },
                None => {
                    if exists|i: int| is_candidate(bs, i) {
                        let i = choose|i: int| is_candidate(bs, i);
                        if self.variant == DtpVariant::OverduePenalty {
                            assert(self.in_pass(bs, i, pacing_rate, rtt, current_time, false));
                        } else {
                            assert(self.in_pass(bs, i, pacing_rate, rtt, current_time, true));
                        }
                    }
                    assert(self.selected_index(bs, pacing_rate, rtt, current_time) == None::<int>);
                },
            }
        }
        match pick {
            Some(k) => {
                let b = &blocks[k];
                self.ddl = b.block_deadline;
                self.size = b.remaining_size;
                self.prio = b.block_priority;
                self.last_block_id = Some(b.block_id);
                Ok(b.block_id)
            },
            None => {
                self.ddl = 0;
                self.size = 0;
                self.prio = 0;
                match self.last_block_id {
                    Some(id) => Ok(id),
                    None => Err(SelectError::NoEligibleBlock),
                }
            },
        }
    }

    /// Whether `block` has outlived its deadline at `current_time`, whatever
    /// its priority or size. The other arguments are not used by this policy.
    pub fn should_drop_block(
        &self,
        block: &Block,
        _pacing_rate: u64,
        _rtt: u64,
        _next_packet_id: u64,
        current_time: u64,
    ) -> (r: bool)
        ensures
            r == (current_time - block.block_create_time > block.block_deadline),
    {
        (current_time as i128) - (block.block_create_time as i128) > (block.block_deadline as i128)
    }

    /// The weight of `block` in the first pass, or in the second when
    /// `second_pass` holds (see `pass_weight`), as an exact fraction.
    pub fn block_weight(&self, block: &Block, pacing_rate: u64, rtt: u64, current_time: u64, second_pass: bool) -> (r: Weight)
        requires
            self.wf(),
            weighable(*block, current_time),
        ensures
            r.view_frac() == self.pass_weight(*block, pacing_rate, rtt, current_time, second_pass),
            r.small(),
    {
        let u: Weight = if second_pass {
            elapsed_urgency(block, current_time)
        } else {
            urgency_weight(block, pacing_rate, rtt, current_time, self.beta)
        };
        combine_weight(&u, block.block_priority, self.max_prio, self.alpha, block.remaining_size, block.block_size)
    }

    /// Whether the block at `i` takes part in the given pass (see `in_pass`).
    fn takes_part(&self, blocks: &Vec<Block>, i: usize, rate: u64, rtt: u64, now: u64, second: bool) -> (r: bool)
        requires
            i < blocks@.len(),
            blocks_valid(blocks@, now),
        ensures
            r == self.in_pass(blocks@, i as int, rate, rtt, now, second),
    {
        let b = &blocks[i];
        if b.remaining_size == 0 {
            return false;
        }
        if b.depend_id != b.block_id && has_pending_id(blocks, b.depend_id) {
            return false;
        }
        if second || self.variant == DtpVariant::OverduePenalty {
            return true;
        }
        assert(blocks@[i as int].is_eligible());
        is_on_time(b, rate, rtt, now)
    }

    /// The position of the block that the given pass selects, if any.
    fn best_in_pass(&self, blocks: &Vec<Block>, rate: u64, rtt: u64, now: u64, second: bool) -> (r: Option<usize>)
        requires
            self.wf(),
            blocks_valid(blocks@, now),
        ensures
            match r {
                Some(k) => self.is_choice(blocks@, k as int, rate, rtt, now, second),
                None => !self.pass_nonempty(blocks@, rate, rtt, now, second),
            },
    {
        let n = blocks.len();
        let mut best: Option<usize> = None;
        let mut best_w: Weight = Weight { pos: Vec::new(), neg: Vec::new(), den: Vec::new() };
        let mut i: usize = 0;
        while i < n
            invariant
                n == blocks@.len(),
                0 <= i <= n,
                self.wf(),
                blocks_valid(blocks@, now),
                best_w.small(),
                match best {
                    Some(k) => {
                        &&& k < i
                        &&& self.in_pass(blocks@, k as int, rate, rtt, now, second)
                        &&& best_w.view_frac() == self.pass_weight(blocks@[k as int], rate, rtt, now, second)
                        &&& forall|j: int| 0 <= j < i && #[trigger] self.in_pass(blocks@, j, rate, rtt, now, second) ==> precedes(
                            best_w.view_frac(),
                            blocks@[k as int].remaining_size as int,
                            k as int,
                            self.pass_weight(blocks@[j], rate, rtt, now, second),
                            blocks@[j].remaining_size as int,
                            j,
                        )
                    },
                    None => forall|j: int| 0 <= j < i ==> !#[trigger] self.in_pass(blocks@, j, rate, rtt, now, second),
                },
            decreases n - i,
        {
            if self.takes_part(blocks, i, rate, rtt, now, second) {
                assert(blocks@[i as int].is_eligible());
                let w: Weight = self.block_weight(&blocks[i], rate, rtt, now, second);
                let replace: bool = match best {
                    None => true,
                    Some(k) => {
                        let c: i8 = compare_weights(&w, &best_w);
                        c == -1 || (c == 0 && blocks[i].remaining_size < blocks[k].remaining_size)
                    },
                };
                proof {
                    let bs = blocks@;
                    let wi = self.pass_weight(bs[i as int], rate, rtt, now, second);
                    let ri = bs[i as int].remaining_size as int;
                    match best {
                        Some(k) => {
                            let wk = self.pass_weight(bs[k as int], rate, rtt, now, second);
                            let rk = bs[k as int].remaining_size as int;
                            lemma_weight_den_pos(*self, bs[i as int], rate, rtt, now, second);
                            assert(bs[k as int].is_eligible());
                            lemma_weight_den_pos(*self, bs[k as int], rate, rtt, now, second);
                            if replace {
                                assert(precedes(wi, ri, i as int, wk, rk, k as int));
                                assert forall|j: int| 0 <= j < i + 1 && #[trigger] self.in_pass(bs, j, rate, rtt, now, second) implies precedes(
                                    wi, ri, i as int,
                                    self.pass_weight(bs[j], rate, rtt, now, second),
                                    bs[j].remaining_size as int,
                                    j,
                                ) by {
                                    if j < i {
                                        assert(bs[j].is_eligible());
                                        lemma_weight_den_pos(*self, bs[j], rate, rtt, now, second);
                                        lemma_precedes_trans(wi, ri, i as int, wk, rk, k as int,
                                            self.pass_weight(bs[j], rate, rtt, now, second), bs[j].remaining_size as int, j);
                                    }
                                }
                            } else {
                                assert(precedes(wk, rk, k as int, wi, ri, i as int));
                            }
                        },
                        None => {},
                    }
                }
                if replace {
                    best = Some(i);
                    best_w = w;
                }
            }
            i = i + 1;
        }
        match best {
            Some(k) => {
                assert forall|j: int| #[trigger] self.in_pass(blocks@, j, rate, rtt, now, second) implies precedes(
                    self.pass_weight(blocks@[k as int], rate, rtt, now, second),
                    blocks@[k as int].remaining_size as int,
                    k as int,
                    self.pass_weight(blocks@[j], rate, rtt, now, second),
                    blocks@[j].remaining_size as int,
                    j,
                ) by {}
            },
            None => {},
        }
        best
    }
}

/// A weighable block's weight has a positive denominator.
pub proof fn lemma_weight_den_pos(s: DtpScheduler, b: Block, rate: u64, rtt: u64, now: u64, second: bool)
    requires
        s.wf(),
        weighable(b, now),
    ensures
        s.pass_weight(b, rate, rtt, now, second).1 > 0,
{
    let u = if second {
        spec_elapsed_urgency(b, now)
    } else {
        spec_urgency(b, rate, rtt, now, s.spec_beta())
    };
    if !second && rate > 0 && b.block_deadline > 0 {
        assert(2 * rate * b.block_deadline > 0) by (nonlinear_arith)
            requires
                rate > 0,
                b.block_deadline > 0,
        ;
    }
    if !second && spec_is_on_time(b, rate, rtt, now) {
        let e = crate::weight::spec_elapsed(b, now);
        assert(b.block_deadline > 0) by (nonlinear_arith)
            requires
                2 * rate * (b.block_deadline - e) - rate * rtt - 2000 * b.remaining_size > 0,
                rate > 0,
                e >= 0,
                rtt >= 0,
                b.remaining_size >= 0,
        ;
    }
    assert(u.1 > 0);
    assert(ALPHA_SCALE * u.1 * s.spec_max_prio() * b.block_size > 0) by (nonlinear_arith)
        requires
            u.1 > 0,
            s.spec_max_prio() > 0,
            b.block_size > 0,
    ;
}

impl Default for DtpScheduler {
    fn default() -> (r: DtpScheduler)
        ensures
            r.wf(),
            r.spec_variant() == DtpVariant::OverduePenalty,
            r.spec_alpha() == DEFAULT_ALPHA,
            r.spec_beta() == DEFAULT_BETA,
            r.spec_max_prio() == DEFAULT_MAX_PRIORITY,
            r.spec_last_block_id() == None::<u64>,
            r.spec_snapshot() == (0u64, 0u64, UNSET_PRIORITY),
    {
        DtpScheduler::new()
    }
}

/// The interface shared by interchangeable block-scheduling policies.
pub trait Scheduler: Sized {
    /// The scheduler's parameters are in range.
    spec fn well_formed(&self) -> bool;

    /// A scheduler with the policy's default parameters.
    fn new() -> (r: Self)
        ensures
            r.well_formed(),
    ;

    /// The id of the block to send next; the blocks are left as they are.
    fn select_block(
        &mut self,
        blocks_vec: &mut Vec<Block>,
        pacing_rate: u64,
        rtt: u64,
        next_packet_id: u64,
        current_time: u64,
    ) -> (r: Result<u64, SelectError>)
        requires
            old(self).well_formed(),
            blocks_valid(old(blocks_vec)@, current_time),
        ensures
            final(self).well_formed(),
            final(blocks_vec)@ == old(blocks_vec)@,
    ;

    /// Whether `block` is too late to be worth sending at `current_time`.
    fn should_drop_block(&self, block: &Block, pacing_rate: u64, rtt: u64, next_packet_id: u64, current_time: u64) -> (r: bool);
}

impl Scheduler for DtpScheduler {
    open spec fn well_formed(&self) -> bool {
        self.wf()
    }

    fn new() -> (r: DtpScheduler)
        ensures
            r.spec_variant() == DtpVariant::OverduePenalty,
            r.spec_alpha() == DEFAULT_ALPHA,
            r.spec_beta() == DEFAULT_BETA,
            r.spec_max_prio() == DEFAULT_MAX_PRIORITY,
            r.spec_last_block_id() == None::<u64>,
            r.spec_snapshot() == (0u64, 0u64, UNSET_PRIORITY),
    {
        DtpScheduler::new()
    }

    fn select_block(
        &mut self,
        blocks_vec: &mut Vec<Block>,
        pacing_rate: u64,
        rtt: u64,
        next_packet_id: u64,
        current_time: u64,
    ) -> (r: Result<u64, SelectError>)
        ensures
            r == old(self).select_result(old(blocks_vec)@, pacing_rate, rtt, current_time),
            old(self).after_select(*final(self), old(blocks_vec)@, pacing_rate, rtt, current_time),
    {
        DtpScheduler::select_block(self, blocks_vec, pacing_rate, rtt, next_packet_id, current_time)
    }

    fn should_drop_block(&self, block: &Block, pacing_rate: u64, rtt: u64, next_packet_id: u64, current_time: u64) -> (r: bool)
        ensures
            r == (current_time - block.block_create_time > block.block_deadline),
    {
        DtpScheduler::should_drop_block(self, block, pacing_rate, rtt, next_packet_id, current_time)
    }
}

/// Two blocks that both satisfy `is_choice` for one pass are the same block.
pub proof fn lemma_choice_unique(s: DtpScheduler, blocks: Seq<Block>, i: int, k: int, rate: u64, rtt: u64, now: u64, second: bool)
    requires
        s.is_choice(blocks, i, rate, rtt, now, second),
        s.is_choice(blocks, k, rate, rtt, now, second),
    ensures
        i == k,
{
    assert(s.in_pass(blocks, i, rate, rtt, now, second));
    assert(s.in_pass(blocks, k, rate, rtt, now, second));
}

} // verus!
