//! The data model of the wagering pool.
//!
//! Identities (bet owners, bettors, transfer endpoints) are canonical
//! integers supplied by the host's identity service, compared by equality
//! alone. The stake asset is likewise an opaque integer handle: the pool
//! never inspects it, it only hands it back to the host inside [`Transfer`]
//! values.

use vstd::prelude::*;

verus! {

/// Why an operation on the pool was refused.
///
/// Every operation either succeeds or returns one of these and leaves the
/// pool's records exactly as they were.
#[derive(Clone, Copy, Debug, PartialEq, Eq, PartialOrd, Ord, Structural)]
pub enum Error {
    /// The referenced bet id has no stored record.
    BetNotFound,
    /// The bet is in a status that forbids the attempted operation.
    InvalidBetStatus,
    /// No owner record exists for the referenced bet id.
    BetOwnerNotFound,
    /// The caller's identity fails an authorization check: the owner may not
    /// bet on their own event, and only the owner may settle it.
    BetActionNotAllowed,
    /// Settlement was attempted while no winning stake exists, so the
    /// proportional payout is undefined; the settlement is rejected and the
    /// bet stays as it was.
    DivisionByZero,
}

/// The outcome a bettor predicts, or the owner declares: one of the two
/// named sides of the event, or a draw. A draw is a distinct outcome of its
/// own: when the owner declares a draw, only the bettors who predicted a
/// draw win.
#[derive(Clone, Copy, Debug, PartialEq, Eq, Structural)]
pub enum BetResult {
    TeamA,
    TeamB,
    Draw,
}

/// Where a bet stands in its life: open for stakes, closed to new stakes,
/// or settled. The business operations drive it `Open` to `Close` to
/// `Complete`; `set_status` is an unguarded administrative override that can
/// write any status at any time.
#[derive(Clone, Copy, Debug, PartialEq, Eq, Structural)]
pub enum BetStatus {
    Open,
    Close,
    Complete,
}

/// One stake placed by one participant on one bet. Records are append-only:
/// a participant who stakes twice appears twice, and no record is ever
/// changed or removed once placed.
#[derive(Clone, Copy, Debug, PartialEq, Eq, Structural)]
pub struct Bettor {
    /// Identity of the staking participant.
    pub bettor_id: u64,
    /// The outcome this stake is on.
    pub bet_result: BetResult,
    /// The staked amount of the bet's asset.
    pub amount: u32,
}

/// One wagering event: the asset it accepts as stake, where it stands in
/// its life, and the display labels of its two named sides. The asset and
/// the labels are fixed at creation; only the status ever changes.
#[derive(Debug)]
pub struct Bet {
    /// Opaque handle of the fungible asset accepted as stake.
    pub token: u64,
    /// Where the bet stands in its life.
    pub status: BetStatus,
    /// Display label of the first named side.
    pub team_a: String,
    /// Display label of the second named side.
    pub team_b: String,
}

/// The mathematical value of a [`Bet`]: the same fields with the labels as
/// character sequences.
pub struct BetView {
    pub token: u64,
    pub status: BetStatus,
    pub team_a: Seq<char>,
    pub team_b: Seq<char>,
}

impl View for Bet {
    type V = BetView;

    open spec fn view(&self) -> BetView {
        BetView {
            token: self.token,
            status: self.status,
            team_a: self.team_a@,
            team_b: self.team_b@,
        }
    }
}

/// One token movement the host must carry out on the pool's behalf: on a
/// placed stake, pulling `amount` of `token` from `party` into the pool; on
/// settlement, pushing `amount` of `token` from the pool out to `party`.
/// Which direction applies is fixed by the operation that returned the
/// value.
#[derive(Clone, Copy, Debug, PartialEq, Eq, Structural)]
pub struct Transfer {
    /// Opaque handle of the asset to move.
    pub token: u64,
    /// Identity of the participant on the non-pool end of the movement.
    pub party: u64,
    /// How much to move.
    pub amount: u128,
}

} // verus!
