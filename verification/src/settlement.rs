//! The settlement calculator.
//!
//! Settlement is a pure computation: given the full list of bettor records
//! of one bet and the outcome its owner declared, partition the records into
//! winners and losers, total the two sides' stakes, and owe each winner
//! their stake back plus a floor-divided proportional share of the losing
//! pool. The functions here neither read nor write any state; the lifecycle
//! controller feeds them a bet's records and hands their result to the host
//! as transfers.

use vstd::arithmetic::div_mod::{
    lemma_div_pos_is_pos, lemma_fundamental_div_mod, lemma_mod_division_less_than_divisor,
    lemma_multiply_divide_le,
};
use vstd::arithmetic::mul::{lemma_mul_inequality, lemma_mul_upper_bound};
use vstd::prelude::*;

use crate::types::{BetResult, Bettor, Transfer};

verus! {

/// The largest losing pool the payout computation accepts. A single stake
/// fits in 32 bits and a record list holds fewer than `2^64` entries, so
/// every losing pool that can actually be staked lies below this bound; it
/// exists so that `stake * total_lose` fits the 128-bit machine word.
pub const MAX_LOSING_POOL: u128 = 0x1000000000000000000000000;

/// Sum of the staked amounts of a list of bettor records.
pub open spec fn sum_stakes(bettors: Seq<Bettor>) -> int
    decreases bettors.len(),
{
    if bettors.len() == 0 {
        0
    } else {
        sum_stakes(bettors.drop_last()) + bettors.last().amount
    }
}

/// The records that predicted `outcome`, in their original order.
pub open spec fn winners_of(bettors: Seq<Bettor>, outcome: BetResult) -> Seq<Bettor>
    decreases bettors.len(),
{
    if bettors.len() == 0 {
        Seq::empty()
    } else {
        let rest = winners_of(bettors.drop_last(), outcome);
        if bettors.last().bet_result == outcome {
            rest.push(bettors.last())
        } else {
            rest
        }
    }
}

/// The records that predicted any other outcome, in their original order.
pub open spec fn losers_of(bettors: Seq<Bettor>, outcome: BetResult) -> Seq<Bettor>
    decreases bettors.len(),
{
    if bettors.len() == 0 {
        Seq::empty()
    } else {
        let rest = losers_of(bettors.drop_last(), outcome);
        if bettors.last().bet_result == outcome {
            rest
        } else {
            rest.push(bettors.last())
        }
    }
}

/// Total stake on the declared outcome.
pub open spec fn total_winning(bettors: Seq<Bettor>, outcome: BetResult) -> int {
    sum_stakes(winners_of(bettors, outcome))
}

/// Total stake on every other outcome: the losing pool.
pub open spec fn total_losing(bettors: Seq<Bettor>, outcome: BetResult) -> int {
    sum_stakes(losers_of(bettors, outcome))
}

/// What one winning stake is owed: the stake back, plus the stake's
/// proportional share of the losing pool, rounded down.
pub open spec fn payout_amount(stake: int, total_win: int, total_lose: int) -> int {
    stake + (stake * total_lose) / total_win
}

/// The transfers settlement owes: one per winning record, in record order,
/// each pushing that record's payout of the bet's asset to the bettor who
/// placed it.
pub open spec fn payout_list(
    winners: Seq<Bettor>,
    total_win: int,
    total_lose: int,
    token: u64,
) -> Seq<Transfer>
    decreases winners.len(),
{
    if winners.len() == 0 {
        Seq::empty()
    } else {
        payout_list(winners.drop_last(), total_win, total_lose, token).push(
            Transfer {
                token,
                party: winners.last().bettor_id,
                amount: payout_amount(winners.last().amount as int, total_win, total_lose) as u128,
            },
        )
    }
}

/// Sum of the payouts owed to a list of winning records.
pub open spec fn sum_payouts(winners: Seq<Bettor>, total_win: int, total_lose: int) -> int
    decreases winners.len(),
{
    if winners.len() == 0 {
        0
    } else {
        sum_payouts(winners.drop_last(), total_win, total_lose) + payout_amount(
            winners.last().amount as int,
            total_win,
            total_lose,
        )
    }
}

/// Sum of the amounts of a list of transfers.
pub open spec fn sum_transfers(transfers: Seq<Transfer>) -> int
    decreases transfers.len(),
{
    if transfers.len() == 0 {
        0
    } else {
        sum_transfers(transfers.drop_last()) + transfers.last().amount
    }
}

/// A stake sum is never negative.
pub proof fn lemma_sum_stakes_nonneg(bettors: Seq<Bettor>)
    ensures
        sum_stakes(bettors) >= 0,
    decreases bettors.len(),
{
    if bettors.len() > 0 {
        lemma_sum_stakes_nonneg(bettors.drop_last());
    }
}

/// A stake sum stays below one maximal stake per record.
pub proof fn lemma_sum_stakes_upper(bettors: Seq<Bettor>)
    ensures
        sum_stakes(bettors) <= bettors.len() * 0xffff_ffff,
    decreases bettors.len(),
{
    if bettors.len() > 0 {
        lemma_sum_stakes_upper(bettors.drop_last());
    }
}

/// Each single stake is at most the sum of its whole list.
pub proof fn lemma_stake_le_sum(bettors: Seq<Bettor>, i: int)
    requires
        0 <= i < bettors.len(),
    ensures
        bettors[i].amount <= sum_stakes(bettors),
    decreases bettors.len(),
{
    if i == bettors.len() - 1 {
        lemma_sum_stakes_nonneg(bettors.drop_last());
    } else {
        lemma_stake_le_sum(bettors.drop_last(), i);
    }
}

/// Neither side of the partition has more records than the whole list.
pub proof fn lemma_partition_lens(bettors: Seq<Bettor>, outcome: BetResult)
    ensures
        winners_of(bettors, outcome).len() <= bettors.len(),
        losers_of(bettors, outcome).len() <= bettors.len(),
    decreases bettors.len(),
{
    if bettors.len() > 0 {
        lemma_partition_lens(bettors.drop_last(), outcome);
    }
}

/// The two sides of the partition together stake exactly the whole pool.
pub proof fn lemma_partition_sum(bettors: Seq<Bettor>, outcome: BetResult)
    ensures
        total_winning(bettors, outcome) + total_losing(bettors, outcome) == sum_stakes(bettors),
    decreases bettors.len(),
{
    if bettors.len() > 0 {
        lemma_partition_sum(bettors.drop_last(), outcome);
        let rest_w = winners_of(bettors.drop_last(), outcome);
        let rest_l = losers_of(bettors.drop_last(), outcome);
        assert(rest_w.push(bettors.last()).drop_last() =~= rest_w);
        assert(rest_l.push(bettors.last()).drop_last() =~= rest_l);
    }
}

/// Each winner's proportional share of the losing pool, summed over a list
/// of winning records.
spec fn sum_bonus(winners: Seq<Bettor>, total_win: int, total_lose: int) -> int
    decreases winners.len(),
{
    if winners.len() == 0 {
        0
    } else {
        sum_bonus(winners.drop_last(), total_win, total_lose) + (winners.last().amount
            * total_lose) / total_win
    }
}

/// A payout sum is the winners' own stakes plus their shares of the losing
/// pool.
proof fn lemma_sum_payouts_split(winners: Seq<Bettor>, total_win: int, total_lose: int)
    ensures
        sum_payouts(winners, total_win, total_lose) == sum_stakes(winners) + sum_bonus(
            winners,
            total_win,
            total_lose,
        ),
    decreases winners.len(),
{
    if winners.len() > 0 {
        lemma_sum_payouts_split(winners.drop_last(), total_win, total_lose);
    }
}

/// Floor division loses less than one unit per share: `total_win` times the
/// summed shares falls short of the stakes times the losing pool by at most
/// `total_win - 1` per record.
proof fn lemma_sum_bonus_bounds(winners: Seq<Bettor>, total_win: int, total_lose: int)
    requires
        total_win > 0,
        total_lose >= 0,
    ensures
        total_win * sum_bonus(winners, total_win, total_lose) <= sum_stakes(winners) * total_lose,
        sum_stakes(winners) * total_lose <= total_win * sum_bonus(winners, total_win, total_lose)
            + winners.len() * (total_win - 1),
    decreases winners.len(),
{
    if winners.len() > 0 {
        let d = winners.drop_last();
        let a = winners.last().amount as int;
        let sd = sum_stakes(d);
        let bd = sum_bonus(d, total_win, total_lose);
        let n = d.len() as int;
        lemma_sum_bonus_bounds(d, total_win, total_lose);
        let q = (a * total_lose) / total_win;
        let r = (a * total_lose) % total_win;
        lemma_fundamental_div_mod(a * total_lose, total_win);
        lemma_mod_division_less_than_divisor(a * total_lose, total_win);
        assert((sd + a) * total_lose == sd * total_lose + a * total_lose) by (nonlinear_arith);
        assert(total_win * (bd + q) == total_win * bd + total_win * q) by (nonlinear_arith);
        assert((n + 1) * (total_win - 1) == n * (total_win - 1) + (total_win - 1))
            by (nonlinear_arith);
    }
}

/// Settlement conservation: whenever settlement is defined (some stake sits
/// on the declared outcome), the payouts together return the whole pool —
/// the winning plus the losing stake — up to a floor-division rounding loss
/// of at most one unit per winner beyond the first.
pub proof fn lemma_settlement_conservation(bettors: Seq<Bettor>, outcome: BetResult)
    requires
        total_winning(bettors, outcome) > 0,
    ensures
        ({
            let w = total_winning(bettors, outcome);
            let l = total_losing(bettors, outcome);
            let k = winners_of(bettors, outcome).len() as int;
            let paid = sum_payouts(winners_of(bettors, outcome), w, l);
            &&& w + l - (k - 1) <= paid
            &&& paid <= w + l
        }),
{
    let win = winners_of(bettors, outcome);
    let w = total_winning(bettors, outcome);
    let l = total_losing(bettors, outcome);
    let k = win.len() as int;
    lemma_sum_stakes_nonneg(losers_of(bettors, outcome));
    lemma_sum_payouts_split(win, w, l);
    lemma_sum_bonus_bounds(win, w, l);
    let b = sum_bonus(win, w, l);
    if win.len() == 0 {
        assert(sum_stakes(win) == 0);
    }
    assert(b <= l) by (nonlinear_arith)
        requires
            w > 0,
            w * b <= w * l,
    ;
    assert(l - b <= k - 1) by (nonlinear_arith)
        requires
            w > 0,
            k >= 1,
            w * l <= w * b + k * (w - 1),
    ;
}

/// The transfer list carries the payouts faithfully: when the winners stake
/// `total_win` altogether, every single payout fits the transfer's 128-bit
/// amount, and the transfers sum to exactly the payout sum.
pub proof fn lemma_payout_list_total(
    winners: Seq<Bettor>,
    total_win: int,
    total_lose: int,
    token: u64,
)
    requires
        total_win == sum_stakes(winners),
        total_win > 0,
        0 <= total_lose <= MAX_LOSING_POOL as int,
    ensures
        sum_transfers(payout_list(winners, total_win, total_lose, token)) == sum_payouts(
            winners,
            total_win,
            total_lose,
        ),
{
    assert forall|i: int| 0 <= i < winners.len() implies winners[i].amount <= total_win by {
        lemma_stake_le_sum(winners, i);
    }
    lemma_payout_list_total_rec(winners, total_win, total_lose, token);
}

/// The induction behind [`lemma_payout_list_total`], over any winner list
/// whose single stakes stay below the winning total.
proof fn lemma_payout_list_total_rec(
    winners: Seq<Bettor>,
    total_win: int,
    total_lose: int,
    token: u64,
)
    requires
        total_win > 0,
        0 <= total_lose <= MAX_LOSING_POOL as int,
        forall|i: int| 0 <= i < winners.len() ==> winners[i].amount <= total_win,
    ensures
        sum_transfers(payout_list(winners, total_win, total_lose, token)) == sum_payouts(
            winners,
            total_win,
            total_lose,
        ),
    decreases winners.len(),
{
    if winners.len() > 0 {
        let d = winners.drop_last();
        let a = winners.last().amount as int;
        assert(forall|i: int| 0 <= i < d.len() ==> d[i] == winners[i]);
        lemma_payout_list_total_rec(d, total_win, total_lose, token);
        lemma_div_pos_is_pos(a * total_lose, total_win);
        lemma_mul_inequality(a, total_win, total_lose);
        lemma_multiply_divide_le(a * total_lose, total_win, total_lose);
        let pays = payout_list(d, total_win, total_lose, token);
        let t = Transfer {
            token,
            party: winners.last().bettor_id,
            amount: payout_amount(a, total_win, total_lose) as u128,
        };
        assert(pays.push(t).drop_last() =~= pays);
        assert(0 <= payout_amount(a, total_win, total_lose) <= u128::MAX);
    }
}

/// Partitions the records of one bet by the declared outcome, as settlement
/// sees them: the winning records in their original order, the total stake
/// on the declared outcome, and the total stake against it.
pub fn settle(bettors: &Vec<Bettor>, outcome: BetResult) -> (r: (Vec<Bettor>, u128, u128))
    ensures
        r.0@ == winners_of(bettors@, outcome),
        r.1 as int == total_winning(bettors@, outcome),
        r.2 as int == total_losing(bettors@, outcome),
{
    let mut winners: Vec<Bettor> = Vec::new();
    let mut total_win: u128 = 0;
    let mut total_lose: u128 = 0;
    let mut i: usize = 0;
    while i < bettors.len()
        invariant
            i <= bettors.len(),
            winners@ == winners_of(bettors@.subrange(0, i as int), outcome),
            total_win as int == total_winning(bettors@.subrange(0, i as int), outcome),
            total_lose as int == total_losing(bettors@.subrange(0, i as int), outcome),
            total_win as int + total_lose as int <= i * 0xffff_ffff,
        decreases bettors.len() - i,
    {
        let b = bettors[i];
        proof {
            assert(bettors@.subrange(0, i + 1) =~= bettors@.subrange(0, i as int).push(
                bettors@[i as int],
            ));
            assert(bettors@.subrange(0, i as int).push(bettors@[i as int]).drop_last()
                =~= bettors@.subrange(0, i as int));
            let prefix = bettors@.subrange(0, i as int);
            assert(winners_of(prefix, outcome).push(bettors@[i as int]).drop_last()
                =~= winners_of(prefix, outcome));
            assert(losers_of(prefix, outcome).push(bettors@[i as int]).drop_last()
                =~= losers_of(prefix, outcome));
        }
        if b.bet_result == outcome {
            winners.push(b);
            total_win = total_win + b.amount as u128;
        } else {
            total_lose = total_lose + b.amount as u128;
        }
        i = i + 1;
    }
    proof {
        assert(bettors@.subrange(0, bettors@.len() as int) =~= bettors@);
    }
    (winners, total_win, total_lose)
}

/// Computes the transfer each winner is owed, in record order. `total_win`
/// must be the winners' own stake sum and positive: with no winning stake
/// the proportional share is undefined and settlement refuses to run. The
/// bound on `total_lose` is the machine limit [`MAX_LOSING_POOL`].
pub fn compute_payouts(
    token: u64,
    winners: &Vec<Bettor>,
    total_win: u128,
    total_lose: u128,
) -> (r: Vec<Transfer>)
    requires
        total_win as int == sum_stakes(winners@),
        total_win > 0,
        total_lose <= MAX_LOSING_POOL,
    ensures
        r@ == payout_list(winners@, total_win as int, total_lose as int, token),
{
    let mut r: Vec<Transfer> = Vec::new();
    let mut i: usize = 0;
    while i < winners.len()
        invariant
            i <= winners.len(),
            total_win as int == sum_stakes(winners@),
            total_win > 0,
            total_lose <= MAX_LOSING_POOL,
            r@ == payout_list(winners@.subrange(0, i as int), total_win as int, total_lose as int, token),
        decreases winners.len() - i,
    {
        let b = winners[i];
        proof {
            lemma_stake_le_sum(winners@, i as int);
            lemma_mul_upper_bound(b.amount as int, 0xffff_ffff, total_lose as int, MAX_LOSING_POOL as int);
            lemma_mul_inequality(b.amount as int, total_win as int, total_lose as int);
            lemma_div_pos_is_pos(b.amount as int * total_lose as int, total_win as int);
            lemma_multiply_divide_le(
                b.amount as int * total_lose as int,
                total_win as int,
                total_lose as int,
            );
        }
        let bonus: u128 = (b.amount as u128) * total_lose / total_win;
        let gain: u128 = b.amount as u128 + bonus;
        r.push(Transfer { token, party: b.bettor_id, amount: gain });
        proof {
            assert(winners@.subrange(0, i + 1) =~= winners@.subrange(0, i as int).push(
                winners@[i as int],
            ));
            assert(winners@.subrange(0, i as int).push(winners@[i as int]).drop_last()
                =~= winners@.subrange(0, i as int));
        }
        i = i + 1;
    }
    proof {
        assert(winners@.subrange(0, winners@.len() as int) =~= winners@);
    }
    r
}

} // verus!
