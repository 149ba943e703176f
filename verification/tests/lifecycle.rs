//! The bet lifecycle end to end, driven as a host would drive it: an
//! in-memory token ledger carries out the transfers the pool returns.

use parimutuel::{BetContract, BetResult, BetStatus, Error};

/// The identity holding the pool's escrowed stake.
const POOL: u64 = 0;

/// A single-asset token ledger standing in for the host's token service.
struct Ledger {
    balances: Vec<(u64, u128)>,
}

impl Ledger {
    fn new() -> Ledger {
        Ledger { balances: Vec::new() }
    }

    fn balance(&self, who: u64) -> u128 {
        for &(account, amount) in &self.balances {
            if account == who {
                return amount;
            }
        }
        0
    }

    fn set_balance(&mut self, who: u64, amount: u128) {
        for entry in &mut self.balances {
            if entry.0 == who {
                entry.1 = amount;
                return;
            }
        }
        self.balances.push((who, amount));
    }

    fn mint(&mut self, who: u64, amount: u128) {
        let held = self.balance(who);
        self.set_balance(who, held + amount);
    }

    fn transfer(&mut self, from: u64, to: u64, amount: u128) {
        let held = self.balance(from);
        assert!(held >= amount, "transfer overdraws the source account");
        self.set_balance(from, held - amount);
        let held_to = self.balance(to);
        self.set_balance(to, held_to + amount);
    }
}

/// Places a stake and carries out the pull the pool returns.
fn place(
    contract: &mut BetContract,
    token: &mut Ledger,
    bettor: u64,
    bet_id: u32,
    prediction: BetResult,
    amount: u32,
) {
    let pull = contract.place_bet(bettor, bet_id, prediction, amount).unwrap();
    token.transfer(pull.party, POOL, pull.amount);
}

/// Settles and carries out the payout pushes the pool returns.
fn settle_and_pay(
    contract: &mut BetContract,
    token: &mut Ledger,
    owner: u64,
    bet_id: u32,
    outcome: BetResult,
) {
    let payouts = contract.bet_result(owner, bet_id, outcome).unwrap();
    for push in payouts {
        token.transfer(POOL, push.party, push.amount);
    }
}

#[test]
fn test() {
    let mut contract = BetContract::new();
    let mut token = Ledger::new();
    let bet_owner: u64 = 10;
    let bettors: [u64; 3] = [1, 2, 3];
    for bettor in bettors {
        token.mint(bettor, 100);
    }

    let expected_bet_id = 1u32;
    let bet_id = contract.create_bet(bet_owner, 77, "team_a".to_string(), "team_b".to_string());
    assert_eq!(bet_id, expected_bet_id);
    assert_eq!(contract.get_status(bet_id), Ok(BetStatus::Open));

    // place bets
    place(&mut contract, &mut token, bettors[0], bet_id, BetResult::TeamA, 100);
    place(&mut contract, &mut token, bettors[1], bet_id, BetResult::Draw, 100);
    place(&mut contract, &mut token, bettors[2], bet_id, BetResult::TeamB, 100);

    assert_eq!(token.balance(bettors[0]), 0);
    assert_eq!(token.balance(bettors[1]), 0);
    assert_eq!(token.balance(bettors[2]), 0);
    assert_eq!(token.balance(POOL), 300);

    // close bet
    contract.set_status(bet_id, BetStatus::Close).unwrap();
    assert_eq!(contract.get_status(bet_id), Ok(BetStatus::Close));

    // set bet result
    settle_and_pay(&mut contract, &mut token, bet_owner, bet_id, BetResult::TeamA);

    // the sole winner takes their stake plus the whole losing pool
    assert_eq!(token.balance(bettors[0]), 300);

    // other bettors lost
    assert_eq!(token.balance(bettors[1]), 0);
    assert_eq!(token.balance(bettors[2]), 0);

    // contract balance should be 0
    assert_eq!(token.balance(POOL), 0);

    // bet status should now be complete
    assert_eq!(contract.get_status(bet_id), Ok(BetStatus::Complete));
}

#[test]
fn sequential_ids() {
    let mut contract = BetContract::new();
    let id1 = contract.create_bet(10, 1, "a".to_string(), "b".to_string());
    let id2 = contract.create_bet(11, 2, "c".to_string(), "d".to_string());
    let id3 = contract.create_bet(10, 3, "e".to_string(), "f".to_string());
    assert_eq!(id1, 1);
    assert_eq!(id2, 2);
    assert_eq!(id3, 3);
    assert_eq!(contract.bet_count(), 3);
    assert!(contract.bet_exists(1));
    assert!(contract.bet_exists(3));
    assert!(!contract.bet_exists(0));
    assert!(!contract.bet_exists(4));
}

#[test]
fn status_gating() {
    let mut contract = BetContract::new();
    let bet_id = contract.create_bet(10, 77, "a".to_string(), "b".to_string());
    contract.set_status(bet_id, BetStatus::Close).unwrap();
    assert_eq!(
        contract.place_bet(1, bet_id, BetResult::TeamA, 100),
        Err(Error::InvalidBetStatus)
    );
    contract.set_status(bet_id, BetStatus::Complete).unwrap();
    assert_eq!(
        contract.place_bet(2, bet_id, BetResult::Draw, 1),
        Err(Error::InvalidBetStatus)
    );
    // no stake was recorded by the refused attempts
    assert_eq!(contract.get_bettors(bet_id).len(), 0);
}

#[test]
fn self_bet_rejected() {
    let mut contract = BetContract::new();
    let bet_owner: u64 = 10;
    let bet_id = contract.create_bet(bet_owner, 77, "a".to_string(), "b".to_string());
    assert_eq!(
        contract.place_bet(bet_owner, bet_id, BetResult::TeamA, 100),
        Err(Error::BetActionNotAllowed)
    );
    assert_eq!(contract.get_bettors(bet_id).len(), 0);
}

#[test]
fn settlement_needs_closed_bet_and_owner() {
    let mut contract = BetContract::new();
    let mut token = Ledger::new();
    token.mint(1, 100);
    let bet_owner: u64 = 10;
    let bet_id = contract.create_bet(bet_owner, 77, "a".to_string(), "b".to_string());
    place(&mut contract, &mut token, 1, bet_id, BetResult::TeamA, 100);
    // still open: settlement is refused
    assert_eq!(
        contract.bet_result(bet_owner, bet_id, BetResult::TeamA),
        Err(Error::InvalidBetStatus)
    );
    contract.set_status(bet_id, BetStatus::Close).unwrap();
    // a non-owner may not settle
    assert_eq!(
        contract.bet_result(1, bet_id, BetResult::TeamA),
        Err(Error::BetActionNotAllowed)
    );
    assert_eq!(contract.get_status(bet_id), Ok(BetStatus::Close));
}

#[test]
fn no_winner_settlement_rejected() {
    let mut contract = BetContract::new();
    let mut token = Ledger::new();
    token.mint(1, 100);
    let bet_owner: u64 = 10;
    let bet_id = contract.create_bet(bet_owner, 77, "a".to_string(), "b".to_string());
    place(&mut contract, &mut token, 1, bet_id, BetResult::TeamB, 100);
    contract.set_status(bet_id, BetStatus::Close).unwrap();
    // nobody predicted the declared outcome: the attempt fails and changes nothing
    assert_eq!(
        contract.bet_result(bet_owner, bet_id, BetResult::TeamA),
        Err(Error::DivisionByZero)
    );
    assert_eq!(contract.get_status(bet_id), Ok(BetStatus::Close));
    // the same pool still settles on the outcome that was staked
    settle_and_pay(&mut contract, &mut token, bet_owner, bet_id, BetResult::TeamB);
    assert_eq!(token.balance(1), 100);
    assert_eq!(token.balance(POOL), 0);
    assert_eq!(contract.get_status(bet_id), Ok(BetStatus::Complete));
}

#[test]
fn missing_bet_errors() {
    let mut contract = BetContract::new();
    assert_eq!(contract.get_status(1), Err(Error::BetNotFound));
    assert_eq!(
        contract.place_bet(1, 1, BetResult::TeamA, 5),
        Err(Error::BetNotFound)
    );
    assert_eq!(
        contract.bet_result(1, 1, BetResult::TeamA),
        Err(Error::BetNotFound)
    );
    assert_eq!(contract.set_status(1, BetStatus::Close), Err(Error::BetNotFound));
    assert!(contract.get_bet(1).is_err());
    assert_eq!(contract.get_bet_owner(1), Err(Error::BetOwnerNotFound));
    assert_eq!(contract.get_bettors(1).len(), 0);
    let bet_id = contract.create_bet(10, 77, "a".to_string(), "b".to_string());
    assert_eq!(contract.get_status(0), Err(Error::BetNotFound));
    assert_eq!(contract.get_status(2), Err(Error::BetNotFound));
    assert_eq!(contract.get_status(bet_id), Ok(BetStatus::Open));
    assert_eq!(contract.get_bet_owner(bet_id), Ok(10));
}

#[test]
fn idempotent_status_reads() {
    let mut contract = BetContract::new();
    let bet_id = contract.create_bet(10, 77, "a".to_string(), "b".to_string());
    let first = contract.get_status(bet_id);
    let second = contract.get_status(bet_id);
    assert_eq!(first, second);
    contract.set_status(bet_id, BetStatus::Close).unwrap();
    let third = contract.get_status(bet_id);
    let fourth = contract.get_status(bet_id);
    assert_eq!(third, fourth);
    assert_eq!(third, Ok(BetStatus::Close));
}

#[test]
fn stakes_recorded_in_order() {
    let mut contract = BetContract::new();
    let mut token = Ledger::new();
    token.mint(1, 50);
    token.mint(2, 30);
    let bet_id = contract.create_bet(10, 77, "a".to_string(), "b".to_string());
    place(&mut contract, &mut token, 1, bet_id, BetResult::TeamA, 20);
    place(&mut contract, &mut token, 2, bet_id, BetResult::Draw, 30);
    // the same participant may stake again: records are appended, not merged
    place(&mut contract, &mut token, 1, bet_id, BetResult::TeamB, 10);
    let stakes = contract.get_bettors(bet_id);
    assert_eq!(stakes.len(), 3);
    assert_eq!(stakes[0].bettor_id, 1);
    assert_eq!(stakes[0].bet_result, BetResult::TeamA);
    assert_eq!(stakes[0].amount, 20);
    assert_eq!(stakes[1].bettor_id, 2);
    assert_eq!(stakes[1].bet_result, BetResult::Draw);
    assert_eq!(stakes[1].amount, 30);
    assert_eq!(stakes[2].bettor_id, 1);
    assert_eq!(stakes[2].bet_result, BetResult::TeamB);
    assert_eq!(stakes[2].amount, 10);
    assert_eq!(token.balance(POOL), 60);
}

#[test]
fn set_status_is_an_unguarded_override() {
    let mut contract = BetContract::new();
    let bet_id = contract.create_bet(10, 77, "a".to_string(), "b".to_string());
    contract.set_status(bet_id, BetStatus::Complete).unwrap();
    assert_eq!(contract.get_status(bet_id), Ok(BetStatus::Complete));
    // it can equally move a bet backwards
    contract.set_status(bet_id, BetStatus::Open).unwrap();
    assert_eq!(contract.get_status(bet_id), Ok(BetStatus::Open));
}

#[test]
fn created_bet_keeps_its_fields() {
    let mut contract = BetContract::new();
    let bet_id = contract.create_bet(10, 77, "team_a".to_string(), "team_b".to_string());
    let bet = contract.get_bet(bet_id).unwrap();
    assert_eq!(bet.token, 77);
    assert_eq!(bet.status, BetStatus::Open);
    assert_eq!(bet.team_a, "team_a");
    assert_eq!(bet.team_b, "team_b");
}
