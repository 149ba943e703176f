//! The bet lifecycle controller.
//!
//! [`BetContract`] owns the pool's persistent records — one entry per bet,
//! holding the bet, its owner and its stakes — and is the state machine
//! behind the public operation surface: creation, stake placement, status
//! administration and settlement. The host calls one operation per
//! invocation, passing the caller's canonical identity, and carries out the
//! [`Transfer`] values an operation returns; every operation either succeeds
//! or returns an [`Error`] and leaves the records exactly as they were.
//!
//! Each operation's postcondition is a named transition predicate over the
//! abstract record sequence, so that laws relating several calls can be
//! stated and proved over the predicates themselves.

use vstd::prelude::*;

use crate::settlement::{
    compute_payouts, lemma_partition_lens, lemma_partition_sum, lemma_payout_list_total,
    lemma_settlement_conservation, lemma_sum_stakes_nonneg, lemma_sum_stakes_upper, losers_of,
    payout_list, settle, sum_stakes, sum_transfers, total_losing, total_winning, winners_of,
    MAX_LOSING_POOL,
};
use crate::types::{Bet, BetResult, BetStatus, BetView, Bettor, Error, Transfer};

verus! {

/// The mathematical value of one bet's stored records: the bet itself, the
/// identity that created it (the only identity allowed to settle it, and the
/// one identity barred from staking on it), and the append-only list of
/// placed stakes in placement order.
pub struct BetEntryView {
    pub bet: BetView,
    pub owner: u64,
    pub bettors: Seq<Bettor>,
}

/// One bet's stored records.
struct BetEntry {
    bet: Bet,
    owner: u64,
    bettors: Vec<Bettor>,
}

impl View for BetEntry {
    type V = BetEntryView;

    closed spec fn view(&self) -> BetEntryView {
        BetEntryView { bet: self.bet@, owner: self.owner, bettors: self.bettors@ }
    }
}

/// Whether a record exists for this bet id. Ids are handed out sequentially
/// from 1 and records are never deleted, so existence is a range check.
pub open spec fn bet_exists_spec(entries: Seq<BetEntryView>, bet_id: u32) -> bool {
    1 <= bet_id <= entries.len()
}

/// The stored entry of an existing bet id.
pub open spec fn entry_of(entries: Seq<BetEntryView>, bet_id: u32) -> BetEntryView
    recommends
        bet_exists_spec(entries, bet_id),
{
    entries[bet_id - 1]
}

/// What a status read returns: the stored status, or `BetNotFound` for an
/// id without records. A function of the records alone.
pub open spec fn status_query(entries: Seq<BetEntryView>, bet_id: u32) -> Result<
    BetStatus,
    Error,
> {
    if bet_exists_spec(entries, bet_id) {
        Ok(entry_of(entries, bet_id).bet.status)
    } else {
        Err(Error::BetNotFound)
    }
}

/// The transition of a successful creation: the new bet is appended open
/// and stakeless, the caller is recorded as owner, and the returned id is
/// one past the count of bets created before it.
pub open spec fn create_bet_post(
    pre: Seq<BetEntryView>,
    post: Seq<BetEntryView>,
    caller: u64,
    token: u64,
    team_a: Seq<char>,
    team_b: Seq<char>,
    bet_id: u32,
) -> bool {
    &&& bet_id == pre.len() + 1
    &&& post == pre.push(
        BetEntryView {
            bet: BetView { token, status: BetStatus::Open, team_a, team_b },
            owner: caller,
            bettors: Seq::<Bettor>::empty(),
        },
    )
}

/// The transition of a placement attempt. In validation order: the bet must
/// exist, must be open, and the caller must not be its owner; any failure
/// returns its error and changes nothing. On success exactly one record is
/// appended to this bet's stakes, nothing else changes, and the returned
/// transfer pulls the staked amount of the bet's own asset from the caller
/// into the pool.
pub open spec fn place_bet_post(
    pre: Seq<BetEntryView>,
    post: Seq<BetEntryView>,
    caller: u64,
    bet_id: u32,
    prediction: BetResult,
    amount: u32,
    r: Result<Transfer, Error>,
) -> bool {
    if !bet_exists_spec(pre, bet_id) {
        r == Err::<Transfer, Error>(Error::BetNotFound) && post == pre
    } else {
        let e = entry_of(pre, bet_id);
        if e.bet.status != BetStatus::Open {
            r == Err::<Transfer, Error>(Error::InvalidBetStatus) && post == pre
        } else if caller == e.owner {
            r == Err::<Transfer, Error>(Error::BetActionNotAllowed) && post == pre
        } else {
            &&& r == Ok::<Transfer, Error>(
                Transfer { token: e.bet.token, party: caller, amount: amount as u128 },
            )
            &&& post == pre.update(
                bet_id - 1,
                BetEntryView {
                    bettors: e.bettors.push(
                        Bettor { bettor_id: caller, bet_result: prediction, amount },
                    ),
                    ..e
                },
            )
        }
    }
}

/// The transition of a settlement attempt. In validation order: the bet
/// must exist, must be closed, the caller must be its owner, and some stake
/// must sit on the declared outcome (otherwise the proportional payout is
/// undefined and the attempt fails with `DivisionByZero`); any failure
/// returns its error and changes nothing. On success the bet's status
/// becomes `Complete`, nothing else changes, and the returned transfers push
/// each winner's payout of the bet's asset out of the pool, one per winning
/// record in placement order.
pub open spec fn bet_result_post(
    pre: Seq<BetEntryView>,
    post: Seq<BetEntryView>,
    caller: u64,
    bet_id: u32,
    outcome: BetResult,
    r: Result<Seq<Transfer>, Error>,
) -> bool {
    if !bet_exists_spec(pre, bet_id) {
        r == Err::<Seq<Transfer>, Error>(Error::BetNotFound) && post == pre
    } else {
        let e = entry_of(pre, bet_id);
        if e.bet.status != BetStatus::Close {
            r == Err::<Seq<Transfer>, Error>(Error::InvalidBetStatus) && post == pre
        } else if caller != e.owner {
            r == Err::<Seq<Transfer>, Error>(Error::BetActionNotAllowed) && post == pre
        } else if total_winning(e.bettors, outcome) == 0 {
            r == Err::<Seq<Transfer>, Error>(Error::DivisionByZero) && post == pre
        } else {
            &&& r == Ok::<Seq<Transfer>, Error>(
                payout_list(
                    winners_of(e.bettors, outcome),
                    total_winning(e.bettors, outcome),
                    total_losing(e.bettors, outcome),
                    e.bet.token,
                ),
            )
            &&& post == pre.update(
                bet_id - 1,
                BetEntryView { bet: BetView { status: BetStatus::Complete, ..e.bet }, ..e },
            )
        }
    }
}

/// The transition of a status override: it validates nothing beyond the
/// bet's existence — it is the administrative entry point that closes a bet
/// and could equally reopen or complete one — and on success overwrites the
/// status field alone.
pub open spec fn set_status_post(
    pre: Seq<BetEntryView>,
    post: Seq<BetEntryView>,
    bet_id: u32,
    status: BetStatus,
    r: Result<(), Error>,
) -> bool {
    if !bet_exists_spec(pre, bet_id) {
        r == Err::<(), Error>(Error::BetNotFound) && post == pre
    } else {
        let e = entry_of(pre, bet_id);
        &&& r == Ok::<(), Error>(())
        &&& post == pre.update(
            bet_id - 1,
            BetEntryView { bet: BetView { status, ..e.bet }, ..e },
        )
    }
}

/// A settlement result with the transfer list abstracted to its sequence,
/// as [`bet_result_post`] speaks of it.
pub open spec fn transfers_view(r: Result<Vec<Transfer>, Error>) -> Result<Seq<Transfer>, Error> {
    match r {
        Ok(v) => Ok(v@),
        Err(e) => Err(e),
    }
}

/// The wagering pool's state machine: the persistent records of every bet
/// created so far, and the operations of the public surface. Its value is
/// the sequence of entries in creation order; the bet with id `i` is entry
/// `i - 1`.
pub struct BetContract {
    records: Vec<BetEntry>,
}

impl View for BetContract {
    type V = Seq<BetEntryView>;

    closed spec fn view(&self) -> Seq<BetEntryView> {
        self.records@.map_values(|e: BetEntry| e@)
    }
}

impl BetContract {
    /// A pool with no bets yet; the first created bet gets id 1.
    pub fn new() -> (c: BetContract)
        ensures
            c@ == Seq::<BetEntryView>::empty(),
    {
        let c = BetContract { records: Vec::new() };
        proof {
            assert(c@ =~= Seq::<BetEntryView>::empty());
        }
        c
    }

    /// How many bets have been created. Every id from 1 up to this count
    /// exists, and the next creation returns the next id.
    pub fn bet_count(&self) -> (n: usize)
        ensures
            n == self@.len(),
    {
        self.records.len()
    }

    /// Whether a record exists for this bet id.
    pub fn bet_exists(&self, bet_id: u32) -> (r: bool)
        ensures
            r == bet_exists_spec(self@, bet_id),
    {
        bet_id >= 1 && (bet_id as usize) <= self.records.len()
    }

    /// The stored bet of this id, or `BetNotFound`.
    pub fn get_bet(&self, bet_id: u32) -> (r: Result<&Bet, Error>)
        ensures
            bet_exists_spec(self@, bet_id) ==> (r matches Ok(b) && b@ == entry_of(
                self@,
                bet_id,
            ).bet),
            !bet_exists_spec(self@, bet_id) ==> r == Err::<&Bet, Error>(Error::BetNotFound),
    {
        if bet_id >= 1 && (bet_id as usize) <= self.records.len() {
            let idx = (bet_id - 1) as usize;
            Ok(&self.records[idx].bet)
        } else {
            Err(Error::BetNotFound)
        }
    }

    /// The identity that created this bet. An id that was never created has
    /// no owner record either; such a read reports the missing owner record,
    /// which an intact store can never produce for an existing bet.
    pub fn get_bet_owner(&self, bet_id: u32) -> (r: Result<u64, Error>)
        ensures
            bet_exists_spec(self@, bet_id) ==> r == Ok::<u64, Error>(
                entry_of(self@, bet_id).owner,
            ),
            !bet_exists_spec(self@, bet_id) ==> r == Err::<u64, Error>(Error::BetOwnerNotFound),
    {
        if bet_id >= 1 && (bet_id as usize) <= self.records.len() {
            let idx = (bet_id - 1) as usize;
            Ok(self.records[idx].owner)
        } else {
            Err(Error::BetOwnerNotFound)
        }
    }

    /// All stakes placed on this bet so far, in placement order. An id
    /// without records has an empty list: this read never fails.
    pub fn get_bettors(&self, bet_id: u32) -> (r: Vec<Bettor>)
        ensures
            bet_exists_spec(self@, bet_id) ==> r@ == entry_of(self@, bet_id).bettors,
            !bet_exists_spec(self@, bet_id) ==> r@ == Seq::<Bettor>::empty(),
    {
        let mut out: Vec<Bettor> = Vec::new();
        if bet_id >= 1 && (bet_id as usize) <= self.records.len() {
            let idx = (bet_id - 1) as usize;
            let list = &self.records[idx].bettors;
            let mut i: usize = 0;
            while i < list.len()
                invariant
                    i <= list.len(),
                    out@ == list@.subrange(0, i as int),
                decreases list.len() - i,
            {
                out.push(list[i]);
                proof {
                    assert(list@.subrange(0, i + 1) =~= list@.subrange(0, i as int).push(
                        list@[i as int],
                    ));
                }
                i = i + 1;
            }
            proof {
                assert(list@.subrange(0, list@.len() as int) =~= list@);
            }
        }
        out
    }

    /// Creates a new bet accepting stakes of `token`, labelled with the two
    /// sides' names, owned by the caller, and open for stakes. Returns the
    /// bet's id: ids are sequential from 1 in creation order, assigned
    /// exactly once and never reused. Creation cannot fail; the bound on the
    /// count is the machine limit of the 32-bit id.
    pub fn create_bet(
        &mut self,
        caller: u64,
        token: u64,
        team_a: String,
        team_b: String,
    ) -> (bet_id: u32)
        requires
            old(self)@.len() < u32::MAX,
        ensures
            create_bet_post(old(self)@, final(self)@, caller, token, team_a@, team_b@, bet_id),
    {
        let ghost pre = self@;
        let ghost ta = team_a@;
        let ghost tb = team_b@;
        let bet = Bet { token, status: BetStatus::Open, team_a, team_b };
        let entry = BetEntry { bet, owner: caller, bettors: Vec::new() };
        self.records.push(entry);
        proof {
            assert(self@ =~= pre.push(
                BetEntryView {
                    bet: BetView { token, status: BetStatus::Open, team_a: ta, team_b: tb },
                    owner: caller,
                    bettors: Seq::<Bettor>::empty(),
                },
            ));
        }
        self.records.len() as u32
    }

    /// Places the caller's stake of `amount` on `prediction`. The bet must
    /// exist and be open, and the caller must not be the bet's owner; any
    /// failure leaves the records unchanged. On success the stake is
    /// recorded and the returned transfer, pulling the stake of the bet's
    /// asset from the caller into the pool, must be carried out by the host
    /// within the same invocation, so that a failed pull aborts the whole
    /// operation.
    pub fn place_bet(
        &mut self,
        caller: u64,
        bet_id: u32,
        prediction: BetResult,
        amount: u32,
    ) -> (r: Result<Transfer, Error>)
        ensures
            place_bet_post(old(self)@, final(self)@, caller, bet_id, prediction, amount, r),
    {
        if !(bet_id >= 1 && (bet_id as usize) <= self.records.len()) {
            return Err(Error::BetNotFound);
        }
        let idx = (bet_id - 1) as usize;
        if self.records[idx].bet.status != BetStatus::Open {
            return Err(Error::InvalidBetStatus);
        }
        if caller == self.records[idx].owner {
            return Err(Error::BetActionNotAllowed);
        }
        let ghost pre = self@;
        let token = self.records[idx].bet.token;
        let entry = &mut self.records[idx];
        entry.bettors.push(Bettor { bettor_id: caller, bet_result: prediction, amount });
        proof {
            let e = entry_of(pre, bet_id);
            assert(self@ =~= pre.update(
                bet_id - 1,
                BetEntryView {
                    bettors: e.bettors.push(
                        Bettor { bettor_id: caller, bet_result: prediction, amount },
                    ),
                    ..e
                },
            ));
        }
        Ok(Transfer { token, party: caller, amount: amount as u128 })
    }

    /// Settles the bet: the owner declares the outcome, the stakes are
    /// partitioned, and each winner is owed their stake plus their
    /// proportional share of the losing pool. The bet must exist, be closed,
    /// the caller must be its owner, and some stake must sit on the declared
    /// outcome; any failure leaves the records unchanged. On success the bet
    /// is complete — settlement happens once — and the host must carry the
    /// returned payout transfers out of the pool.
    pub fn bet_result(&mut self, caller: u64, bet_id: u32, outcome: BetResult) -> (r: Result<
        Vec<Transfer>,
        Error,
    >)
        ensures
            bet_result_post(
                old(self)@,
                final(self)@,
                caller,
                bet_id,
                outcome,
                transfers_view(r),
            ),
    {
        if !(bet_id >= 1 && (bet_id as usize) <= self.records.len()) {
            return Err(Error::BetNotFound);
        }
        let idx = (bet_id - 1) as usize;
        if self.records[idx].bet.status != BetStatus::Close {
            return Err(Error::InvalidBetStatus);
        }
        if caller != self.records[idx].owner {
            return Err(Error::BetActionNotAllowed);
        }
        let ghost pre = self@;
        let ghost stakes = entry_of(pre, bet_id).bettors;
        let n_stakes = self.records[idx].bettors.len();
        let (winners, total_win, total_lose) = settle(&self.records[idx].bettors, outcome);
        if total_win == 0 {
            return Err(Error::DivisionByZero);
        }
        proof {
            lemma_partition_lens(stakes, outcome);
            lemma_sum_stakes_upper(losers_of(stakes, outcome));
            assert(losers_of(stakes, outcome).len() * 0xffff_ffff <= n_stakes * 0xffff_ffff);
            assert(total_lose <= MAX_LOSING_POOL);
        }
        let token = self.records[idx].bet.token;
        let payouts = compute_payouts(token, &winners, total_win, total_lose);
        let entry = &mut self.records[idx];
        entry.bet.status = BetStatus::Complete;
        proof {
            let e = entry_of(pre, bet_id);
            assert(self@ =~= pre.update(
                bet_id - 1,
                BetEntryView { bet: BetView { status: BetStatus::Complete, ..e.bet }, ..e },
            ));
        }
        Ok(payouts)
    }

    /// The bet's current status, or `BetNotFound`. A pure read: it is a
    /// function of the stored records alone, so repeated reads with no
    /// mutation between them return the same value.
    pub fn get_status(&self, bet_id: u32) -> (r: Result<BetStatus, Error>)
        ensures
            r == status_query(self@, bet_id),
    {
        if bet_id >= 1 && (bet_id as usize) <= self.records.len() {
            let idx = (bet_id - 1) as usize;
            Ok(self.records[idx].bet.status)
        } else {
            Err(Error::BetNotFound)
        }
    }

    /// Overwrites the bet's status, validating nothing beyond the bet's
    /// existence: the administrative override that closes an open bet, and
    /// could equally reopen or complete one.
    pub fn set_status(&mut self, bet_id: u32, status: BetStatus) -> (r: Result<(), Error>)
        ensures
            set_status_post(old(self)@, final(self)@, bet_id, status, r),
    {
        if !(bet_id >= 1 && (bet_id as usize) <= self.records.len()) {
            return Err(Error::BetNotFound);
        }
        let idx = (bet_id - 1) as usize;
        let ghost pre = self@;
        let entry = &mut self.records[idx];
        entry.bet.status = status;
        proof {
            let e = entry_of(pre, bet_id);
            assert(self@ =~= pre.update(
                bet_id - 1,
                BetEntryView { bet: BetView { status, ..e.bet }, ..e },
            ));
        }
        Ok(())
    }
}

/// Sequential ids: each successful creation returns the id one past the
/// count of bets created before it, so successive creations return
/// consecutive ids — from an empty pool, exactly `1, 2, ...` in call order.
pub proof fn lemma_sequential_ids(
    s0: Seq<BetEntryView>,
    s1: Seq<BetEntryView>,
    s2: Seq<BetEntryView>,
    caller1: u64,
    token1: u64,
    team_a1: Seq<char>,
    team_b1: Seq<char>,
    id1: u32,
    caller2: u64,
    token2: u64,
    team_a2: Seq<char>,
    team_b2: Seq<char>,
    id2: u32,
)
    requires
        create_bet_post(s0, s1, caller1, token1, team_a1, team_b1, id1),
        create_bet_post(s1, s2, caller2, token2, team_a2, team_b2, id2),
    ensures
        id2 == id1 + 1,
        s0.len() == 0 ==> id1 == 1,
{
}

/// Status gating: placing a stake on an existing bet that is not open —
/// closed or complete — always fails with `InvalidBetStatus`, whatever the
/// caller, amount and prediction, and changes nothing.
pub proof fn lemma_place_bet_status_gating(
    pre: Seq<BetEntryView>,
    post: Seq<BetEntryView>,
    caller: u64,
    bet_id: u32,
    prediction: BetResult,
    amount: u32,
    r: Result<Transfer, Error>,
)
    requires
        place_bet_post(pre, post, caller, bet_id, prediction, amount, r),
        bet_exists_spec(pre, bet_id),
        entry_of(pre, bet_id).bet.status != BetStatus::Open,
    ensures
        r == Err::<Transfer, Error>(Error::InvalidBetStatus),
        post == pre,
{
}

/// Self-bet rejection: the bet's creator can never stake on their own bet.
/// The attempt always fails and changes nothing; on an open bet the error
/// is precisely the authorization failure.
pub proof fn lemma_place_bet_self_rejected(
    pre: Seq<BetEntryView>,
    post: Seq<BetEntryView>,
    caller: u64,
    bet_id: u32,
    prediction: BetResult,
    amount: u32,
    r: Result<Transfer, Error>,
)
    requires
        place_bet_post(pre, post, caller, bet_id, prediction, amount, r),
        bet_exists_spec(pre, bet_id),
        caller == entry_of(pre, bet_id).owner,
    ensures
        r is Err,
        post == pre,
        entry_of(pre, bet_id).bet.status == BetStatus::Open ==> r == Err::<Transfer, Error>(
            Error::BetActionNotAllowed,
        ),
{
}

/// Settlement conservation at the operation surface: the transfers a
/// successful settlement returns push the bet's whole pool — every stake
/// ever placed on it — back out, up to a floor-division rounding loss of at
/// most one unit per winner beyond the first. The bound on the record count
/// holds of any list that fits in memory.
pub proof fn lemma_bet_result_conserves_pool(
    pre: Seq<BetEntryView>,
    post: Seq<BetEntryView>,
    caller: u64,
    bet_id: u32,
    outcome: BetResult,
    transfers: Seq<Transfer>,
)
    requires
        bet_result_post(pre, post, caller, bet_id, outcome, Ok(transfers)),
        bet_exists_spec(pre, bet_id) ==> entry_of(pre, bet_id).bettors.len()
            <= 0xffff_ffff_ffff_ffff,
    ensures
        ({
            let stakes = entry_of(pre, bet_id).bettors;
            let pool = sum_stakes(stakes);
            let k = winners_of(stakes, outcome).len() as int;
            &&& sum_transfers(transfers) <= pool
            &&& pool - (k - 1) <= sum_transfers(transfers)
        }),
{
    let stakes = entry_of(pre, bet_id).bettors;
    let w = total_winning(stakes, outcome);
    let l = total_losing(stakes, outcome);
    assert(bet_exists_spec(pre, bet_id));
    assert(entry_of(pre, bet_id).bet.status == BetStatus::Close);
    assert(caller == entry_of(pre, bet_id).owner);
    assert(total_winning(entry_of(pre, bet_id).bettors, outcome) != 0);
    lemma_sum_stakes_nonneg(winners_of(stakes, outcome));
    lemma_partition_sum(stakes, outcome);
    lemma_partition_lens(stakes, outcome);
    lemma_sum_stakes_nonneg(losers_of(stakes, outcome));
    lemma_sum_stakes_upper(losers_of(stakes, outcome));
    assert(losers_of(stakes, outcome).len() * 0xffff_ffff <= stakes.len() * 0xffff_ffff);
    lemma_payout_list_total(winners_of(stakes, outcome), w, l, entry_of(pre, bet_id).bet.token);
    lemma_settlement_conservation(stakes, outcome);
}

/// Idempotent reads: the status query is a function of the stored records
/// alone, so two reads with no mutation between them return the same value.
pub proof fn lemma_get_status_idempotent(
    entries: Seq<BetEntryView>,
    bet_id: u32,
    r1: Result<BetStatus, Error>,
    r2: Result<BetStatus, Error>,
)
    requires
        r1 == status_query(entries, bet_id),
        r2 == status_query(entries, bet_id),
    ensures
        r1 == r2,
{
}

} // verus!
