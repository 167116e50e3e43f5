use vstd::prelude::*;

use crate::errors::WorthHubError;
use crate::fixed_point::{ln_approx, ln_weight, lemma_ln_weight_floor, MAX_PCT, PRECISION};
use crate::commit_reveal::bytes32_eq;
use crate::state::{status_rank, Commitment, Topic, TopicStatus};

verus! {

/// Σ prediction × stake over the revealed commitments.
pub open spec fn weighted_sum(cs: Seq<Commitment>) -> int
    decreases cs.len(),
{
    if cs.len() == 0 {
        0
    } else {
        let c = cs.last();
        weighted_sum(cs.drop_last()) + if c.revealed {
            c.prediction_value * c.stake_amount
        } else {
            0
        }
    }
}

/// Σ stake over the revealed commitments.
pub open spec fn revealed_stake(cs: Seq<Commitment>) -> int
    decreases cs.len(),
{
    if cs.len() == 0 {
        0
    } else {
        let c = cs.last();
        revealed_stake(cs.drop_last()) + if c.revealed {
            c.stake_amount as int
        } else {
            0
        }
    }
}

/// Σ stake over the commitments never revealed: the loser pool.
pub open spec fn unrevealed_stake(cs: Seq<Commitment>) -> int
    decreases cs.len(),
{
    if cs.len() == 0 {
        0
    } else {
        let c = cs.last();
        unrevealed_stake(cs.drop_last()) + if c.revealed {
            0
        } else {
            c.stake_amount as int
        }
    }
}

/// The three running totals of a prefix fit their machine types.
pub open spec fn totals_fit(cs: Seq<Commitment>) -> bool {
    &&& i128::MIN <= weighted_sum(cs) <= i128::MAX
    &&& revealed_stake(cs) <= u64::MAX
    &&& unrevealed_stake(cs) <= u64::MAX
}

/// Every running total, over every prefix, fits its machine type.
pub open spec fn running_totals_fit(cs: Seq<Commitment>) -> bool {
    forall|i: int| 0 <= i <= cs.len() ==> #[trigger] totals_fit(cs.take(i))
}

/// Division rounding toward zero, as Rust's integer division does.
pub open spec fn trunc_div(a: int, b: int) -> int {
    if a >= 0 {
        a / b
    } else {
        -((-a) / b)
    }
}

/// Stake-weighted mean of the revealed predictions, rounded toward zero; 0 without reveals.
pub open spec fn consensus_of(cs: Seq<Commitment>) -> int {
    if revealed_stake(cs) > 0 {
        trunc_div(weighted_sum(cs), revealed_stake(cs))
    } else {
        0
    }
}

/// The running totals of a settlement pass.
#[derive(Clone, Copy, Debug)]
pub struct StakeTotals {
    /// Σ prediction × stake over revealed commitments
    pub weighted: i128,
    pub revealed_stake: u64,
    /// The loser pool
    pub unrevealed_stake: u64,
}

proof fn lemma_weighted_bounds(cs: Seq<Commitment>)
    ensures
        i64::MIN * revealed_stake(cs) <= weighted_sum(cs) <= i64::MAX * revealed_stake(cs),
        revealed_stake(cs) >= 0,
        unrevealed_stake(cs) >= 0,
    decreases cs.len(),
{
    if cs.len() > 0 {
        lemma_weighted_bounds(cs.drop_last());
        let c = cs.last();
        if c.revealed {
            let p = c.prediction_value as int;
            let s = c.stake_amount as int;
            assert(i64::MIN * s <= p * s <= i64::MAX * s) by (nonlinear_arith)
                requires
                    i64::MIN <= p <= i64::MAX,
                    s >= 0,
            ;
        }
    }
}

/// Sums stakes and stake-weighted predictions over all commitments; `None`
/// when a running total leaves its machine type.
pub fn stake_totals(cs: &Vec<Commitment>) -> (r: Option<StakeTotals>)
    ensures
        r is Some <==> running_totals_fit(cs@),
        r matches Some(t) ==> {
            &&& t.weighted == weighted_sum(cs@)
            &&& t.revealed_stake == revealed_stake(cs@)
            &&& t.unrevealed_stake == unrevealed_stake(cs@)
        },
{
    let mut weighted: i128 = 0;
    let mut revealed: u64 = 0;
    let mut unrevealed: u64 = 0;
    let mut i: usize = 0;
    assert(cs@.take(0) =~= Seq::<Commitment>::empty());
    while i < cs.len()
        invariant
            i <= cs@.len(),
            forall|j: int| 0 <= j <= i ==> #[trigger] totals_fit(cs@.take(j)),
            weighted == weighted_sum(cs@.take(i as int)),
            revealed == revealed_stake(cs@.take(i as int)),
            unrevealed == unrevealed_stake(cs@.take(i as int)),
        decreases cs.len() - i,
    {
        let c = cs[i];
        proof {
            let next = cs@.take(i + 1);
            assert(next.drop_last() =~= cs@.take(i as int));
            assert(next.last() == c);
            let p = c.prediction_value as int;
            let s = c.stake_amount as int;
            assert(i64::MIN * u64::MAX <= p * s <= i64::MAX * u64::MAX) by (nonlinear_arith)
                requires
                    i64::MIN <= p <= i64::MAX,
                    0 <= s <= u64::MAX,
            ;
        }
        if c.revealed {
            let product: i128 = (c.prediction_value as i128) * (c.stake_amount as i128);
            match weighted.checked_add(product) {
                Some(v) => {
                    weighted = v;
                },
                None => {
                    assert(!totals_fit(cs@.take(i + 1)));
                    return None;
                },
            }
            match revealed.checked_add(c.stake_amount) {
                Some(v) => {
                    revealed = v;
                },
                None => {
                    assert(!totals_fit(cs@.take(i + 1)));
                    return None;
                },
            }
        } else {
            match unrevealed.checked_add(c.stake_amount) {
                Some(v) => {
                    unrevealed = v;
                },
                None => {
                    assert(!totals_fit(cs@.take(i + 1)));
                    return None;
                },
            }
        }
        i = i + 1;
        assert(totals_fit(cs@.take(i as int)));
    }
    assert(cs@.take(cs@.len() as int) =~= cs@);
    Some(StakeTotals { weighted, revealed_stake: revealed, unrevealed_stake: unrevealed })
}

/// The stake-weighted consensus from the totals; 0 when nothing was revealed.
pub fn consensus(weighted: i128, revealed_stake: u64) -> (r: i64)
    requires
        i64::MIN * revealed_stake <= weighted <= i64::MAX * revealed_stake,
    ensures
        r == if revealed_stake > 0 {
            trunc_div(weighted as int, revealed_stake as int)
        } else {
            0
        },
{
    if revealed_stake == 0 {
        return 0;
    }
    let s = revealed_stake as i128;
    if weighted >= 0 {
        let q = weighted / s;
        assert(q <= i64::MAX) by (nonlinear_arith)
            requires
                q == weighted / s,
                0 <= weighted <= i64::MAX * s,
                s > 0,
        ;
        q as i64
    } else {
        assert(-weighted <= 0x8000_0000_0000_0000 * u64::MAX) by (nonlinear_arith)
            requires
                i64::MIN * s <= weighted,
                0 < s <= u64::MAX,
        ;
        let m = -weighted;
        let q = m / s;
        assert(q <= 0x8000_0000_0000_0000) by (nonlinear_arith)
            requires
                q == m / s,
                0 <= m <= 0x8000_0000_0000_0000 * s,
                s > 0,
        ;
        (-q) as i64
    }
}

/// Absolute value.
pub open spec fn abs(x: int) -> int {
    if x < 0 {
        -x
    } else {
        x
    }
}

/// The divisor that turns a deviation into a percentage of the consensus: `max(|consensus|, 1)`.
pub open spec fn pct_base(consensus: int) -> int {
    if consensus == 0 {
        1
    } else {
        abs(consensus)
    }
}

/// Limits a percent deviation to `±MAX_PCT`.
pub open spec fn clamp_pct(x: int) -> int {
    if x < -MAX_PCT {
        -MAX_PCT
    } else if x > MAX_PCT {
        MAX_PCT as int
    } else {
        x
    }
}

/// A deviation from the consensus, as a clamped fixed-point fraction of the consensus.
pub open spec fn deviation_pct(delta: int, consensus: int) -> int {
    clamp_pct(trunc_div(delta * PRECISION, pct_base(consensus)))
}

/// How far the truth lies from the consensus, as a clamped percentage.
pub open spec fn truth_edge_pct(truth: int, consensus: int) -> int {
    deviation_pct(truth - consensus, consensus)
}

/// Positive when a prediction leaves the consensus in the direction the truth did.
pub open spec fn alignment(prediction: int, consensus: int, truth: int) -> int {
    deviation_pct(prediction - consensus, consensus) * truth_edge_pct(truth, consensus)
}

/// Accuracy weight: `PRECISION² / (|truth − prediction| + 1)`.
pub open spec fn accuracy(prediction: int, truth: int) -> int {
    (PRECISION * PRECISION) / (abs(truth - prediction) + 1)
}

/// Time weight of a submission order: `PRECISION² / ln_approx(order)`.
pub open spec fn decay(order: nat) -> int {
    (PRECISION * PRECISION) / ln_weight(order)
}

/// Score of a revealed prediction: zero unless aligned with the truth, else
/// alignment × accuracy × decay, rescaled after each product.
pub open spec fn score(prediction: int, order: nat, consensus: int, truth: int) -> int {
    let a = alignment(prediction, consensus, truth);
    if a <= 0 {
        0
    } else {
        ((a * accuracy(prediction, truth)) / (PRECISION as int) * decay(order)) / (PRECISION as int)
    }
}

/// Score of a commitment; unrevealed ones score zero.
pub open spec fn commitment_score(c: Commitment, consensus: int, truth: int) -> int {
    if c.revealed {
        score(c.prediction_value as int, c.submit_order as nat, consensus, truth)
    } else {
        0
    }
}

/// Largest score one prediction can reach.
pub const MAX_SCORE: u128 = 10_000_000_000_000_000_000_000;

/// The clamped fixed-point percentage by which `delta` deviates from `consensus`.
pub fn pct_of(delta: i128, consensus: i64) -> (r: i128)
    requires
        -0x2_0000_0000_0000_0000 <= delta <= 0x2_0000_0000_0000_0000,
    ensures
        r == deviation_pct(delta as int, consensus as int),
        -MAX_PCT <= r <= MAX_PCT,
{
    let base: i128 = if consensus == 0 {
        1
    } else if consensus < 0 {
        -(consensus as i128)
    } else {
        consensus as i128
    };
    assert(base == pct_base(consensus as int));
    assert(-0x2_0000_0000_0000_0000 * 1_000_000 <= delta * 1_000_000 <= 0x2_0000_0000_0000_0000
        * 1_000_000) by (nonlinear_arith)
        requires
            -0x2_0000_0000_0000_0000 <= delta <= 0x2_0000_0000_0000_0000,
    ;
    let scaled: i128 = delta * (PRECISION as i128);
    let q: i128 = if scaled >= 0 {
        scaled / base
    } else {
        let m: i128 = -scaled;
        let mq: i128 = m / base;
        assert(mq <= m) by (nonlinear_arith)
            requires
                mq == m / base,
                m >= 0,
                base >= 1,
        ;
        -mq
    };
    if q < -MAX_PCT {
        -MAX_PCT
    } else if q > MAX_PCT {
        MAX_PCT
    } else {
        q
    }
}

/// The score of one revealed prediction, given the truth's clamped deviation.
pub fn score_of(prediction: i64, submit_order: u32, consensus: i64, truth: i64, truth_edge: i128) -> (r:
    u128)
    requires
        truth_edge == truth_edge_pct(truth as int, consensus as int),
        -MAX_PCT <= truth_edge <= MAX_PCT,
    ensures
        r == score(prediction as int, submit_order as nat, consensus as int, truth as int),
        r <= MAX_SCORE,
{
    let edge = pct_of((prediction as i128) - (consensus as i128), consensus);
    assert(-MAX_PCT * MAX_PCT <= edge * truth_edge <= MAX_PCT * MAX_PCT) by (nonlinear_arith)
        requires
            -MAX_PCT <= edge <= MAX_PCT,
            -MAX_PCT <= truth_edge <= MAX_PCT,
    ;
    let align: i128 = edge * truth_edge;
    if align <= 0 {
        return 0;
    }
    let a: u128 = align as u128;
    let d: i128 = (truth as i128) - (prediction as i128);
    let err: u128 = if d >= 0 {
        d as u128
    } else {
        (-d) as u128
    };
    let w_e: u128 = PRECISION * PRECISION / (err + 1);
    assert(w_e <= PRECISION * PRECISION) by (nonlinear_arith)
        requires
            w_e == PRECISION * PRECISION / (err + 1),
            err >= 0,
    ;
    let ln_val = ln_approx(submit_order);
    let t_f: u128 = PRECISION * PRECISION / ln_val;
    assert(t_f <= PRECISION) by (nonlinear_arith)
        requires
            t_f == PRECISION * PRECISION / (ln_val as int),
            ln_val >= PRECISION,
    ;
    assert(a * w_e <= 10_000_000_000_000_000_000_000_000_000) by (nonlinear_arith)
        requires
            0 < a <= 10_000_000_000_000_000,
            0 <= w_e <= 1_000_000_000_000,
    ;
    let step1: u128 = a * w_e / PRECISION;
    assert(step1 <= 10_000_000_000_000_000_000_000);
    assert(step1 * t_f <= 10_000_000_000_000_000_000_000_000_000) by (nonlinear_arith)
        requires
            0 <= step1 <= 10_000_000_000_000_000_000_000,
            0 <= t_f <= 1_000_000,
    ;
    step1 * t_f / PRECISION
}

/// Sum of a sequence of integers.
pub open spec fn seq_sum(s: Seq<int>) -> int
    decreases s.len(),
{
    if s.len() == 0 {
        0
    } else {
        seq_sum(s.drop_last()) + s.last()
    }
}

/// Every element is non-negative.
pub open spec fn all_nonneg(s: Seq<int>) -> bool {
    forall|i: int| 0 <= i < s.len() ==> #[trigger] s[i] >= 0
}

/// The score of each commitment, in order.
pub open spec fn scores(cs: Seq<Commitment>, truth: int) -> Seq<int> {
    Seq::new(cs.len(), |i: int| commitment_score(cs[i], consensus_of(cs), truth))
}

/// Σ score over all commitments.
pub open spec fn total_score(cs: Seq<Commitment>, truth: int) -> int {
    seq_sum(scores(cs, truth))
}

/// What a commitment is owed before any haircut: nothing if never revealed;
/// its stake plus its share of the loser pool if any score is positive; else its stake.
pub open spec fn payout_due(c: Commitment, loser_pool: int, score: int, total_score: int) -> int {
    if !c.revealed {
        0
    } else if total_score > 0 {
        c.stake_amount + (loser_pool * score) / total_score
    } else {
        c.stake_amount as int
    }
}

/// What each commitment is owed before any haircut, in order.
pub open spec fn payouts_due(cs: Seq<Commitment>, truth: int) -> Seq<int> {
    Seq::new(
        cs.len(),
        |i: int|
            payout_due(cs[i], unrevealed_stake(cs), scores(cs, truth)[i], total_score(cs, truth)),
    )
}

/// What the pool may pay out while keeping its reserve.
pub open spec fn distributable(balance: int, reserve: int) -> int {
    if balance > reserve {
        balance - reserve
    } else {
        0
    }
}

/// Each amount scaled by `d / t`, rounding down.
pub open spec fn scale_by(s: Seq<int>, d: int, t: int) -> Seq<int> {
    Seq::new(s.len(), |i: int| s[i] * d / t)
}

/// The amounts `s` if their sum is at most `d`; else each cut by the same ratio `d / Σ s`.
pub open spec fn haircut(s: Seq<int>, d: int) -> Seq<int> {
    if seq_sum(s) > d {
        scale_by(s, d, seq_sum(s))
    } else {
        s
    }
}

/// The amounts actually paid: what is owed, or, when that exceeds what the
/// pool may pay, every amount cut by the same ratio.
pub open spec fn payout_plan(cs: Seq<Commitment>, truth: int, balance: int, reserve: int) -> Seq<
    int,
> {
    haircut(payouts_due(cs, truth), distributable(balance, reserve))
}

/// A sequence of machine amounts, as integers.
pub open spec fn as_ints(v: Seq<u64>) -> Seq<int> {
    Seq::new(v.len(), |i: int| v[i] as int)
}

/// Every running score total fits in `u128`.
pub open spec fn scores_fit(cs: Seq<Commitment>, truth: int) -> bool {
    forall|k: int| 0 <= k <= cs.len() ==> #[trigger] seq_sum(scores(cs, truth).take(k)) <= u128::MAX
}

/// Every bonus product fits in `u128`, every owed amount and running total in `u64`.
pub open spec fn payouts_fit(cs: Seq<Commitment>, truth: int) -> bool {
    &&& forall|i: int|
        0 <= i < cs.len() ==> unrevealed_stake(cs) * #[trigger] scores(cs, truth)[i] <= u128::MAX
    &&& forall|i: int| 0 <= i < cs.len() ==> #[trigger] payouts_due(cs, truth)[i] <= u64::MAX
    &&& forall|k: int|
        0 <= k <= cs.len() ==> #[trigger] seq_sum(payouts_due(cs, truth).take(k)) <= u64::MAX
}

/// Why the settlement arithmetic over `cs` fails; `None` when it goes through.
pub open spec fn settlement_error(cs: Seq<Commitment>, truth: int) -> Option<WorthHubError> {
    if cs.len() == 0 {
        Some(WorthHubError::NoRevealedCommitments)
    } else if !running_totals_fit(cs) || !scores_fit(cs, truth) || !payouts_fit(cs, truth) {
        Some(WorthHubError::ArithmeticOverflow)
    } else {
        None
    }
}

proof fn lemma_take_step(s: Seq<int>, k: int)
    requires
        0 <= k < s.len(),
    ensures
        seq_sum(s.take(k + 1)) == seq_sum(s.take(k)) + s[k],
{
    assert(s.take(k + 1).drop_last() =~= s.take(k));
}

proof fn lemma_sum_nonneg(s: Seq<int>)
    requires
        all_nonneg(s),
    ensures
        seq_sum(s) >= 0,
    decreases s.len(),
{
    if s.len() > 0 {
        assert(all_nonneg(s.drop_last()));
        lemma_sum_nonneg(s.drop_last());
    }
}

/// In a sequence of non-negative amounts, every prefix sum and every element
/// is at most the whole sum.
pub proof fn lemma_parts_le_sum(s: Seq<int>, k: int)
    requires
        all_nonneg(s),
        0 <= k <= s.len(),
    ensures
        0 <= seq_sum(s.take(k)) <= seq_sum(s),
        k < s.len() ==> s[k] <= seq_sum(s),
    decreases s.len() - k,
{
    assert(all_nonneg(s.take(k)));
    lemma_sum_nonneg(s.take(k));
    if k == s.len() {
        assert(s.take(k) =~= s);
    } else {
        lemma_parts_le_sum(s, k + 1);
        lemma_take_step(s, k);
    }
}

proof fn lemma_scale_sum(s: Seq<int>, d: int, t: int)
    requires
        all_nonneg(s),
        d >= 0,
        t > 0,
    ensures
        seq_sum(scale_by(s, d, t)) * t <= d * seq_sum(s),
    decreases s.len(),
{
    if s.len() > 0 {
        let x = s.last();
        assert(all_nonneg(s.drop_last()));
        lemma_scale_sum(s.drop_last(), d, t);
        assert(scale_by(s, d, t).drop_last() =~= scale_by(s.drop_last(), d, t));
        let a = seq_sum(scale_by(s.drop_last(), d, t));
        let b = seq_sum(s.drop_last());
        assert((a + x * d / t) * t <= d * (b + x)) by (nonlinear_arith)
            requires
                a * t <= d * b,
                x >= 0,
                d >= 0,
                t > 0,
        ;
    }
}

/// Scores are never negative.
pub proof fn lemma_score_nonneg(c: Commitment, consensus: int, truth: int)
    ensures
        commitment_score(c, consensus, truth) >= 0,
{
    if c.revealed {
        let p = c.prediction_value as int;
        let a = alignment(p, consensus, truth);
        if a > 0 {
            let acc = accuracy(p, truth);
            lemma_ln_weight_floor(c.submit_order as nat);
            let dec = decay(c.submit_order as nat);
            assert(acc >= 0) by (nonlinear_arith)
                requires
                    acc == 1_000_000_000_000int / (abs(truth - p) + 1),
                    abs(truth - p) >= 0,
            ;
            assert(dec >= 0) by (nonlinear_arith)
                requires
                    dec == 1_000_000_000_000int / ln_weight(c.submit_order as nat),
                    ln_weight(c.submit_order as nat) >= 1_000_000,
            ;
            assert(((a * acc) / 1_000_000 * dec) / 1_000_000 >= 0) by (nonlinear_arith)
                requires
                    a > 0,
                    acc >= 0,
                    dec >= 0,
            ;
        }
    }
}

proof fn lemma_scores_nonneg(cs: Seq<Commitment>, truth: int)
    ensures
        all_nonneg(scores(cs, truth)),
{
    assert forall|i: int| 0 <= i < cs.len() implies #[trigger] scores(cs, truth)[i] >= 0 by {
        lemma_score_nonneg(cs[i], consensus_of(cs), truth);
    }
}

/// Owed amounts are never negative.
pub proof fn lemma_dues_nonneg(cs: Seq<Commitment>, truth: int)
    ensures
        all_nonneg(payouts_due(cs, truth)),
{
    lemma_scores_nonneg(cs, truth);
    lemma_weighted_bounds(cs);
    let sc = scores(cs, truth);
    let t = total_score(cs, truth);
    let l = unrevealed_stake(cs);
    assert forall|i: int| 0 <= i < cs.len() implies #[trigger] payouts_due(cs, truth)[i] >= 0 by {
        let x = sc[i];
        assert(x >= 0);
        if t > 0 {
            assert((l * x) / t >= 0) by (nonlinear_arith)
                requires
                    l >= 0,
                    x >= 0,
                    t > 0,
            ;
        }
    }
}

/// Conservation: no amount paid is negative and together they never exceed
/// the pool's balance less its reserve, so the swept fee is never negative.
pub proof fn lemma_plan_within_distributable(cs: Seq<Commitment>, truth: int, balance: int, reserve: int)
    ensures
        all_nonneg(payout_plan(cs, truth, balance, reserve)),
        seq_sum(payout_plan(cs, truth, balance, reserve)) <= distributable(balance, reserve),
{
    lemma_dues_nonneg(cs, truth);
    lemma_haircut_within(payouts_due(cs, truth), distributable(balance, reserve));
}

/// A haircut of non-negative amounts stays non-negative and sums to at most `d`.
proof fn lemma_haircut_within(due: Seq<int>, d: int)
    requires
        all_nonneg(due),
        d >= 0,
    ensures
        all_nonneg(haircut(due, d)),
        seq_sum(haircut(due, d)) <= d,
{
    let t = seq_sum(due);
    if t > d {
        lemma_scale_sum(due, d, t);
        let plan = scale_by(due, d, t);
        assert(seq_sum(plan) <= d) by (nonlinear_arith)
            requires
                seq_sum(plan) * t <= d * t,
                t > 0,
        ;
        assert forall|i: int| 0 <= i < plan.len() implies #[trigger] plan[i] >= 0 by {
            let x = due[i];
            assert(x >= 0);
            assert(x * d / t >= 0) by (nonlinear_arith)
                requires
                    x >= 0,
                    d >= 0,
                    t > 0,
            ;
        }
    }
}

/// The score of every commitment and their running total; `None` when the
/// total leaves `u128`.
pub fn score_all(cs: &Vec<Commitment>, consensus: i64, truth: i64) -> (r: Option<(Vec<u128>, u128)>)
    requires
        consensus == consensus_of(cs@),
    ensures
        r is Some <==> scores_fit(cs@, truth as int),
        r matches Some((v, t)) ==> {
            &&& v@.len() == cs@.len()
            &&& forall|i: int| 0 <= i < cs@.len() ==> v@[i] == scores(cs@, truth as int)[i]
            &&& t == total_score(cs@, truth as int)
        },
{
    let ghost sc = scores(cs@, truth as int);
    let truth_edge = pct_of((truth as i128) - (consensus as i128), consensus);
    let mut out: Vec<u128> = Vec::new();
    let mut total: u128 = 0;
    let mut i: usize = 0;
    assert(sc.take(0) =~= Seq::<int>::empty());
    while i < cs.len()
        invariant
            i <= cs@.len(),
            sc == scores(cs@, truth as int),
            consensus == consensus_of(cs@),
            truth_edge == truth_edge_pct(truth as int, consensus as int),
            -MAX_PCT <= truth_edge <= MAX_PCT,
            out@.len() == i,
            forall|j: int| 0 <= j < i ==> out@[j] == sc[j],
            total == seq_sum(sc.take(i as int)),
            forall|k: int| 0 <= k <= i ==> #[trigger] seq_sum(sc.take(k)) <= u128::MAX,
        decreases cs.len() - i,
    {
        let c = cs[i];
        let s: u128 = if c.revealed {
            score_of(c.prediction_value, c.submit_order, consensus, truth, truth_edge)
        } else {
            0
        };
        proof {
            lemma_take_step(sc, i as int);
        }
        match total.checked_add(s) {
            Some(v) => {
                total = v;
            },
            None => {
                assert(seq_sum(sc.take(i + 1)) > u128::MAX);
                return None;
            },
        }
        out.push(s);
        i = i + 1;
    }
    assert(sc.take(cs@.len() as int) =~= sc);
    Some((out, total))
}

/// What each commitment is owed before any haircut, and the sum; `None` when
/// a bonus product leaves `u128` or an amount or the running sum leaves `u64`.
pub fn payouts_owed(
    cs: &Vec<Commitment>,
    score_list: &Vec<u128>,
    loser_pool: u64,
    total: u128,
    truth: i64,
) -> (r: Option<(Vec<u64>, u64)>)
    requires
        score_list@.len() == cs@.len(),
        forall|i: int| 0 <= i < cs@.len() ==> score_list@[i] == scores(cs@, truth as int)[i],
        total == total_score(cs@, truth as int),
        loser_pool == unrevealed_stake(cs@),
    ensures
        r is Some <==> payouts_fit(cs@, truth as int),
        r matches Some((v, t)) ==> {
            &&& as_ints(v@) == payouts_due(cs@, truth as int)
            &&& t == seq_sum(payouts_due(cs@, truth as int))
        },
{
    let ghost sc = scores(cs@, truth as int);
    let ghost due = payouts_due(cs@, truth as int);
    proof {
        lemma_scores_nonneg(cs@, truth as int);
    }
    let mut out: Vec<u64> = Vec::new();
    let mut sum: u64 = 0;
    let mut i: usize = 0;
    assert(due.take(0) =~= Seq::<int>::empty());
    while i < cs.len()
        invariant
            i <= cs@.len(),
            sc == scores(cs@, truth as int),
            due == payouts_due(cs@, truth as int),
            all_nonneg(sc),
            score_list@.len() == cs@.len(),
            forall|j: int| 0 <= j < cs@.len() ==> score_list@[j] == sc[j],
            total == seq_sum(sc),
            loser_pool == unrevealed_stake(cs@),
            out@.len() == i,
            forall|j: int| 0 <= j < i ==> out@[j] == due[j],
            forall|j: int| 0 <= j < i ==> loser_pool * #[trigger] sc[j] <= u128::MAX,
            forall|j: int| 0 <= j < i ==> #[trigger] due[j] <= u64::MAX,
            sum == seq_sum(due.take(i as int)),
            forall|k: int| 0 <= k <= i ==> #[trigger] seq_sum(due.take(k)) <= u64::MAX,
        decreases cs.len() - i,
    {
        let c = cs[i];
        let score = score_list[i];
        proof {
            lemma_parts_le_sum(sc, i as int);
        }
        let owed: u64 = if c.revealed && total > 0 {
            let product = match (loser_pool as u128).checked_mul(score) {
                Some(v) => v,
                None => {
                    return None;
                },
            };
            let bonus: u128 = product / total;
            assert(bonus <= loser_pool) by (nonlinear_arith)
                requires
                    bonus == product / total,
                    product == loser_pool * score,
                    score <= total,
                    total > 0,
            ;
            match c.stake_amount.checked_add(bonus as u64) {
                Some(v) => v,
                None => {
                    return None;
                },
            }
        } else if c.revealed {
            c.stake_amount
        } else {
            0
        };
        assert(loser_pool * sc[i as int] <= u128::MAX) by (nonlinear_arith)
            requires
                loser_pool <= u64::MAX,
                sc[i as int] <= u128::MAX,
                c.revealed && total > 0 ==> loser_pool * sc[i as int] <= u128::MAX,
                !c.revealed ==> sc[i as int] == 0,
                !(total > 0) ==> sc[i as int] == 0,
        ;
        proof {
            lemma_take_step(due, i as int);
        }
        match sum.checked_add(owed) {
            Some(v) => {
                sum = v;
            },
            None => {
                assert(seq_sum(due.take(i + 1)) > u64::MAX);
                return None;
            },
        }
        out.push(owed);
        i = i + 1;
    }
    assert(due.take(cs@.len() as int) =~= due);
    assert(as_ints(out@) =~= due);
    Some((out, sum))
}

/// Applies the proportional haircut to the owed amounts, given their sum, and
/// returns the amounts to pay with their sum.
pub fn apply_haircut(owed: &Vec<u64>, total_owed: u64, distributable: u64) -> (r: (Vec<u64>, u64))
    requires
        total_owed == seq_sum(as_ints(owed@)),
    ensures
        as_ints(r.0@) == haircut(as_ints(owed@), distributable as int),
        r.1 == seq_sum(haircut(as_ints(owed@), distributable as int)),
        r.1 <= distributable,
{
    let ghost due = as_ints(owed@);
    let ghost plan = haircut(due, distributable as int);
    proof {
        lemma_haircut_within(due, distributable as int);
    }
    let mut out: Vec<u64> = Vec::new();
    let mut paid: u64 = 0;
    let mut i: usize = 0;
    assert(plan.take(0) =~= Seq::<int>::empty());
    while i < owed.len()
        invariant
            i <= owed@.len(),
            due == as_ints(owed@),
            all_nonneg(due),
            plan == haircut(due, distributable as int),
            all_nonneg(plan),
            seq_sum(plan) <= distributable,
            total_owed == seq_sum(due),
            out@.len() == i,
            forall|j: int| 0 <= j < i ==> out@[j] == plan[j],
            paid == seq_sum(plan.take(i as int)),
        decreases owed.len() - i,
    {
        let x = owed[i];
        proof {
            lemma_parts_le_sum(due, i as int);
            lemma_parts_le_sum(plan, i + 1);
            lemma_take_step(plan, i as int);
        }
        let pay: u64 = if total_owed > distributable {
            assert((x as int) * (distributable as int) <= u128::MAX) by (nonlinear_arith)
                requires
                    x <= u64::MAX,
                    distributable <= u64::MAX,
            ;
            let scaled: u128 = (x as u128) * (distributable as u128) / (total_owed as u128);
            assert(scaled <= distributable) by (nonlinear_arith)
                requires
                    scaled == (x as int) * (distributable as int) / (total_owed as int),
                    x <= total_owed,
                    total_owed > 0,
                    distributable >= 0,
            ;
            scaled as u64
        } else {
            x
        };
        assert(pay == plan[i as int]);
        paid = paid + pay;
        out.push(pay);
        i = i + 1;
    }
    assert(plan.take(owed@.len() as int) =~= plan);
    assert(as_ints(out@) =~= plan);
    (out, paid)
}

/// The outcome of settling a topic: what each commitment is paid, in the
/// order given, and what is swept to the topic authority.
#[derive(Debug)]
pub struct Settlement {
    pub consensus: i64,
    pub loser_pool: u64,
    pub total_score: u128,
    /// One amount per commitment, in input order
    pub payouts: Vec<u64>,
    /// What is left above the reserve once every payout is made
    pub protocol_fee: u64,
}

/// Consensus, scores and payouts for a topic's full set of commitments,
/// given the truth, the pool's balance and the reserve it must keep.
pub fn compute_settlement(cs: &Vec<Commitment>, truth: i64, vault_balance: u64, reserve: u64) -> (r:
    Result<Settlement, WorthHubError>)
    ensures
        r is Ok <==> settlement_error(cs@, truth as int) is None,
        match r {
            Ok(s) => {
                &&& s.consensus == consensus_of(cs@)
                &&& s.loser_pool == unrevealed_stake(cs@)
                &&& s.total_score == total_score(cs@, truth as int)
                &&& as_ints(s.payouts@) == payout_plan(
                    cs@,
                    truth as int,
                    vault_balance as int,
                    reserve as int,
                )
                &&& s.protocol_fee == distributable(vault_balance as int, reserve as int) - seq_sum(
                    payout_plan(cs@, truth as int, vault_balance as int, reserve as int),
                )
            },
            Err(e) => settlement_error(cs@, truth as int) == Some(e),
        },
{
    if cs.len() == 0 {
        return Err(WorthHubError::NoRevealedCommitments);
    }
    let totals = match stake_totals(cs) {
        Some(t) => t,
        None => {
            return Err(WorthHubError::ArithmeticOverflow);
        },
    };
    proof {
        lemma_weighted_bounds(cs@);
    }
    let consensus = consensus(totals.weighted, totals.revealed_stake);
    let (score_list, total) = match score_all(cs, consensus, truth) {
        Some(p) => p,
        None => {
            return Err(WorthHubError::ArithmeticOverflow);
        },
    };
    let (owed, total_owed) = match payouts_owed(
        cs,
        &score_list,
        totals.unrevealed_stake,
        total,
        truth,
    ) {
        Some(p) => p,
        None => {
            return Err(WorthHubError::ArithmeticOverflow);
        },
    };
    let dist: u64 = if vault_balance > reserve {
        vault_balance - reserve
    } else {
        0
    };
    let (payouts, paid) = apply_haircut(&owed, total_owed, dist);
    Ok(
        Settlement {
            consensus,
            loser_pool: totals.unrevealed_stake,
            total_score: total,
            payouts,
            protocol_fee: dist - paid,
        },
    )
}

/// Why settling is refused, checked in this order.
pub open spec fn settle_error(t: Topic, caller: Seq<u8>, cs: Seq<Commitment>) -> Option<WorthHubError> {
    if t.status != TopicStatus::Finalized {
        Some(WorthHubError::InvalidTopicState)
    } else if caller != t.authority@ && caller != t.oracle_authority@ {
        Some(WorthHubError::UnauthorizedAuthority)
    } else {
        settlement_error(cs, t.truth_value as int)
    }
}

/// Every commitment marked as settled, nothing else changed.
pub open spec fn mark_settled(cs: Seq<Commitment>) -> Seq<Commitment> {
    Seq::new(cs.len(), |i: int| Commitment { settled: true, ..cs[i] })
}

/// The topic once settled.
pub open spec fn topic_after_settle(t: Topic) -> Topic {
    Topic { status: TopicStatus::Settled, ..t }
}

/// Settles a finalized topic over its full set of commitments, as the topic
/// authority or the oracle: computes every payout and the protocol fee, marks
/// every commitment settled and the topic `Settled`. All or nothing: on
/// refusal neither the topic nor any commitment changes.
pub fn handle_settle(
    topic: &mut Topic,
    commitments: &mut Vec<Commitment>,
    caller: &[u8; 32],
    vault_balance: u64,
    reserve: u64,
) -> (r: Result<Settlement, WorthHubError>)
    ensures
        r is Ok <==> settle_error(*old(topic), caller@, old(commitments)@) is None,
        match r {
            Ok(s) => {
                let cs = old(commitments)@;
                let truth = old(topic).truth_value as int;
                &&& *final(topic) == topic_after_settle(*old(topic))
                &&& final(commitments)@ == mark_settled(cs)
                &&& s.consensus == consensus_of(cs)
                &&& s.loser_pool == unrevealed_stake(cs)
                &&& s.total_score == total_score(cs, truth)
                &&& as_ints(s.payouts@) == payout_plan(
                    cs,
                    truth,
                    vault_balance as int,
                    reserve as int,
                )
                &&& s.protocol_fee == distributable(vault_balance as int, reserve as int) - seq_sum(
                    payout_plan(cs, truth, vault_balance as int, reserve as int),
                )
            },
            Err(e) => {
                &&& settle_error(*old(topic), caller@, old(commitments)@) == Some(e)
                &&& *final(topic) == *old(topic)
                &&& final(commitments)@ == old(commitments)@
            },
        },
        status_rank(final(topic).status) >= status_rank(old(topic).status),
{
    if topic.status != TopicStatus::Finalized {
        return Err(WorthHubError::InvalidTopicState);
    }
    if !bytes32_eq(caller, &topic.authority) && !bytes32_eq(caller, &topic.oracle_authority) {
        return Err(WorthHubError::UnauthorizedAuthority);
    }
    let settlement = match compute_settlement(commitments, topic.truth_value, vault_balance, reserve) {
        Ok(s) => s,
        Err(e) => {
            return Err(e);
        },
    };
    let mut marked: Vec<Commitment> = Vec::new();
    let mut i: usize = 0;
    while i < commitments.len()
        invariant
            i <= commitments@.len(),
            marked@.len() == i,
            forall|j: int|
                0 <= j < i ==> marked@[j] == (Commitment { settled: true, ..commitments@[j] }),
        decreases commitments.len() - i,
    {
        let mut c = commitments[i];
        c.settled = true;
        marked.push(c);
        i = i + 1;
    }
    assert(marked@ =~= mark_settled(commitments@));
    *commitments = marked;
    topic.status = TopicStatus::Settled;
    Ok(settlement)
}

/// Settlement happens at most once: once a topic has been settled, a second
/// attempt, by anyone and over any commitments, is refused as out of phase
/// (and so, by `handle_settle`, changes nothing).
pub proof fn lemma_settle_only_once(
    t: Topic,
    caller: Seq<u8>,
    cs: Seq<Commitment>,
    second_caller: Seq<u8>,
)
    requires
        settle_error(t, caller, cs) is None,
    ensures
        settle_error(topic_after_settle(t), second_caller, mark_settled(cs)) == Some(
            WorthHubError::InvalidTopicState,
        ),
{
}

/// With no positive score, every revealed commitment is owed exactly its stake
/// and every unrevealed one nothing.
pub proof fn lemma_zero_score_refunds_stake(cs: Seq<Commitment>, truth: int, i: int)
    requires
        total_score(cs, truth) == 0,
        0 <= i < cs.len(),
    ensures
        payouts_due(cs, truth)[i] == if cs[i].revealed {
            cs[i].stake_amount as int
        } else {
            0
        },
{
}

/// When the truth equals the consensus its edge is zero, so no prediction is
/// aligned, every score and the total score are zero, and every revealed
/// commitment is owed exactly its stake.
pub proof fn lemma_truth_at_consensus(cs: Seq<Commitment>, truth: int)
    requires
        truth == consensus_of(cs),
    ensures
        truth_edge_pct(truth, consensus_of(cs)) == 0,
        forall|i: int| 0 <= i < cs.len() ==> #[trigger] scores(cs, truth)[i] == 0,
        total_score(cs, truth) == 0,
        forall|i: int|
            0 <= i < cs.len() ==> #[trigger] payouts_due(cs, truth)[i] == if cs[i].revealed {
                cs[i].stake_amount as int
            } else {
                0
            },
{
    let c = consensus_of(cs);
    let b = pct_base(c);
    assert(b >= 1);
    assert(0int / b == 0) by (nonlinear_arith)
        requires
            b >= 1,
    ;
    assert(truth - c == 0);
    assert(truth_edge_pct(truth, c) == 0);
    assert forall|i: int| 0 <= i < cs.len() implies #[trigger] scores(cs, truth)[i] == 0 by {
        let p = cs[i].prediction_value as int;
        let e = deviation_pct(p - c, c);
        assert(e * 0 == 0);
        assert(alignment(p, c, truth) == 0);
    }
    lemma_sum_zero(scores(cs, truth));
}

proof fn lemma_sum_zero(s: Seq<int>)
    requires
        forall|i: int| 0 <= i < s.len() ==> #[trigger] s[i] == 0,
    ensures
        seq_sum(s) == 0,
    decreases s.len(),
{
    if s.len() > 0 {
        lemma_sum_zero(s.drop_last());
    }
}

} // verus!
