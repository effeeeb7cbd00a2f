//! End-to-end scenarios for the marketplace state machine.

use compute_market::account::{escrow_account, AccountId};
use compute_market::errors::Error;
use compute_market::market::{Event, Marketplace, WorkloadState};
use compute_market::pricing::{ResourcePrice, VolumeType};

fn acct(tag: u64) -> AccountId {
    AccountId { w0: tag, w1: 0, w2: 0, w3: 0 }
}

fn oracle() -> AccountId {
    acct(0xA11CE)
}

fn user() -> AccountId {
    acct(0x11)
}

fn farmer() -> AccountId {
    acct(0x22)
}

fn node_key() -> [u8; 32] {
    let mut k = [0u8; 32];
    let mut i = 0usize;
    while i < 32 {
        k[i] = (i + 1) as u8;
        i += 1;
    }
    k
}

fn node_id() -> Vec<u8> {
    bs58::encode(&node_key()).into_string().into_bytes()
}

fn node_account() -> AccountId {
    compute_market::account::account_from_bytes(&node_key())
}

fn prices_sru10() -> ResourcePrice {
    ResourcePrice { currency: 0, sru: 10, hru: 0, cru: 0, nru: 0, mru: 0 }
}

fn ssd100() -> VolumeType {
    VolumeType { disk_type: 2, size: 100 }
}

const TOKEN_1000: u128 = 1_000_000_000_000_000;

/// A market with one funded contract: created by the user, priced by the
/// oracle, accepted by the farmer and paid at second 1000.
fn funded_market() -> Marketplace {
    let mut m = Marketplace::new(0, oracle());
    let id = m.create_contract(user(), node_id(), ssd100()).unwrap();
    assert_eq!(id, 0);
    assert_eq!(m.set_contract_price(oracle(), 0, prices_sru10(), farmer()), Ok(()));
    assert_eq!(m.accept_contract(farmer(), 0), Ok(()));
    m.set_free_balance(user(), 10 * TOKEN_1000);
    assert_eq!(m.pay(user(), 0, TOKEN_1000, 1_000_000), Ok(()));
    m
}

#[test]
fn create_price_accept_pay_deploy() {
    let mut m = funded_market();
    let c = m.contracts(0).unwrap();
    assert_eq!(c.account_id, escrow_account(0));
    assert_eq!(c.user_account, user());
    assert_eq!(c.farmer_account, farmer());
    assert!(c.accepted);
    assert_eq!(c.resource_prices.sru, 10);
    // pps = 1000 tokens-per-hour scaled: the horizon of 10^15 units is 3600 s
    assert_eq!(c.expires_at, 1000 + 3600);
    assert_eq!(m.free_balance(escrow_account(0)), TOKEN_1000);
    assert_eq!(m.free_balance(user()), 9 * TOKEN_1000);
    assert_eq!(m.contracts_per_expiration(4600), vec![0u64]);
    // the node marks the workload deployed a hundred seconds later; the
    // horizon is recomputed outright from the escrow balance
    assert_eq!(m.contract_deployed(node_account(), 0, 1_100_000), Ok(()));
    let c = m.contracts(0).unwrap();
    assert_eq!(c.workload_state, WorkloadState::Deployed);
    assert_eq!(c.last_claimed, 1_100_000);
    assert_eq!(c.expires_at, 1100 + 3600);
    assert_eq!(m.contracts_per_expiration(4600), Vec::<u64>::new());
    assert_eq!(m.contracts_per_expiration(4700), vec![0u64]);
    assert_eq!(m.reservation_state(0), Some(WorkloadState::Deployed));
}

#[test]
fn repay_extends_horizon() {
    let mut m = funded_market();
    assert_eq!(m.contracts(0).unwrap().expires_at, 4600);
    // a second payment at second 1100 adds the horizon of the paid
    // amount alone (10^15 units, 3600 s); the residual escrow is already
    // counted in the old expiration
    assert_eq!(m.pay(user(), 0, TOKEN_1000, 1_100_000), Ok(()));
    let c = m.contracts(0).unwrap();
    assert_eq!(c.expires_at, 4600 + 3600);
    assert_eq!(m.free_balance(escrow_account(0)), 2 * TOKEN_1000);
    assert_eq!(m.contracts_per_expiration(4600), Vec::<u64>::new());
    assert_eq!(m.contracts_per_expiration(8200), vec![0u64]);
}

#[test]
fn claim_pays_farmer_per_second() {
    let mut m = funded_market();
    assert_eq!(m.contract_deployed(node_account(), 0, 1_000_000), Ok(()));
    // 1800 whole seconds at 10^15/3600 units per second, truncated
    assert_eq!(m.claim_funds(farmer(), 0, 2_800_000), Ok(()));
    assert_eq!(m.free_balance(farmer()), 499_999_999_999_999);
    assert_eq!(m.free_balance(escrow_account(0)), 500_000_000_000_001);
    let c = m.contracts(0).unwrap();
    assert_eq!(c.last_claimed, 2_800_000);
    assert_eq!(c.workload_state, WorkloadState::Deployed);
    let last = m.event_at(m.event_count() - 1).unwrap();
    assert!(matches!(last, Event::ContractFundsClaimed(0)));
    // claiming again with no elapsed second is refused
    assert_eq!(m.claim_funds(farmer(), 0, 2_800_500), Err(Error::ClaimError));
}

#[test]
fn sweeper_decommissions_expired_contract() {
    let mut m = funded_market();
    // the first block only records the time
    m.on_finalize(1, 1_000_000);
    assert_eq!(m.last_block_time(), 1000);
    assert_eq!(m.contracts(0).unwrap().expires_at, 4600);
    // a later block past the expiration sweeps the bucket: the remaining
    // escrow goes to the farmer and the contract is cancelled
    m.on_finalize(2, 4_601_000);
    assert_eq!(m.last_block_time(), 4601);
    let c = m.contracts(0).unwrap();
    assert_eq!(c.workload_state, WorkloadState::Cancelled);
    assert_eq!(m.free_balance(farmer()), TOKEN_1000);
    assert_eq!(m.free_balance(escrow_account(0)), 0);
    assert_eq!(m.contracts_per_expiration(4600), Vec::<u64>::new());
    let last = m.event_at(m.event_count() - 1).unwrap();
    assert!(matches!(last, Event::ContractCancelled(_, 0)));
}

#[test]
fn user_cancel_refunds_escrow() {
    let mut m = funded_market();
    assert_eq!(m.cancel_contract(user(), 0), Ok(()));
    assert_eq!(m.free_balance(user()), 10 * TOKEN_1000);
    assert_eq!(m.free_balance(escrow_account(0)), 0);
    let c = m.contracts(0).unwrap();
    assert_eq!(c.workload_state, WorkloadState::Cancelled);
    assert_eq!(m.contracts_per_expiration(4600), Vec::<u64>::new());
    // a cancelled contract cannot be funded again
    assert_eq!(m.pay(user(), 0, TOKEN_1000, 1_200_000), Err(Error::ContractCancelled));
}

#[test]
fn node_cancel_marks_without_refund() {
    let mut m = funded_market();
    assert_eq!(m.contract_cancelled(node_account(), 0), Ok(()));
    let c = m.contracts(0).unwrap();
    assert_eq!(c.workload_state, WorkloadState::Cancelled);
    // the escrow still holds the funds; the user path refunds them
    assert_eq!(m.free_balance(escrow_account(0)), TOKEN_1000);
    assert_eq!(m.contracts_per_expiration(4600), Vec::<u64>::new());
    assert_eq!(m.cancel_contract(user(), 0), Ok(()));
    assert_eq!(m.free_balance(user()), 10 * TOKEN_1000);
}

#[test]
fn unauthorized_attempts_change_nothing() {
    let mut m = funded_market();
    assert_eq!(m.contract_deployed(node_account(), 0, 1_000_000), Ok(()));
    let before_escrow = m.free_balance(escrow_account(0));
    let stranger = acct(0x999);
    assert_eq!(m.claim_funds(stranger, 0, 3_000_000), Err(Error::UnauthorizedFarmer));
    assert_eq!(m.cancel_contract(stranger, 0), Err(Error::UnauthorizedUser));
    assert_eq!(m.contract_cancelled(stranger, 0), Err(Error::UnauthorizedNode));
    assert_eq!(m.contract_deployed(stranger, 0, 3_000_000), Err(Error::UnauthorizedNode));
    assert_eq!(
        m.set_contract_price(stranger, 0, prices_sru10(), stranger),
        Err(Error::UnauthorizedOracle)
    );
    assert_eq!(m.accept_contract(stranger, 0), Err(Error::UnauthorizedFarmer));
    let c = m.contracts(0).unwrap();
    assert_eq!(c.workload_state, WorkloadState::Deployed);
    assert_eq!(c.farmer_account, farmer());
    assert_eq!(c.last_claimed, 1_000_000);
    assert_eq!(m.free_balance(escrow_account(0)), before_escrow);
    assert_eq!(m.free_balance(stranger), 0);
}

#[test]
fn reservation_ids_increase() {
    let mut m = Marketplace::new(0, oracle());
    let a = m.create_contract(user(), node_id(), ssd100()).unwrap();
    let b = m.create_contract(user(), node_id(), ssd100()).unwrap();
    let c = m.create_contract(acct(0x33), node_id(), ssd100()).unwrap();
    assert_eq!((a, b, c), (0, 1, 2));
    assert_eq!(m.reservations_for_account(user()), vec![0u64, 1]);
    assert_eq!(m.reservations_for_account(acct(0x33)), vec![2u64]);
    assert_ne!(escrow_account(0), escrow_account(1));
    assert_ne!(escrow_account(1), escrow_account(2));
}

#[test]
fn escrows_are_isolated() {
    let mut m = Marketplace::new(0, oracle());
    m.create_contract(user(), node_id(), ssd100()).unwrap();
    m.create_contract(user(), node_id(), ssd100()).unwrap();
    assert_eq!(m.set_contract_price(oracle(), 0, prices_sru10(), farmer()), Ok(()));
    assert_eq!(m.set_contract_price(oracle(), 1, prices_sru10(), farmer()), Ok(()));
    m.set_free_balance(user(), 10 * TOKEN_1000);
    assert_eq!(m.pay(user(), 0, TOKEN_1000, 1_000_000), Ok(()));
    assert_eq!(m.free_balance(escrow_account(0)), TOKEN_1000);
    assert_eq!(m.free_balance(escrow_account(1)), 0);
}

#[test]
fn error_variants_cover_bad_inputs() {
    let mut m = Marketplace::new(0, oracle());
    assert_eq!(m.pay(user(), 7, 1, 0), Err(Error::ContractNotExists));
    assert_eq!(m.accept_contract(farmer(), 7), Err(Error::ContractNotExists));
    assert_eq!(m.claim_funds(farmer(), 7, 0), Err(Error::ContractNotExists));
    assert_eq!(m.cancel_contract(user(), 7), Err(Error::ContractNotExists));
    assert_eq!(
        m.set_contract_price(oracle(), 7, prices_sru10(), farmer()),
        Err(Error::ContractNotExists)
    );
    // an unknown disk kind fails the funding, not the creation
    let id = m
        .create_contract(user(), node_id(), VolumeType { disk_type: 3, size: 5 })
        .unwrap();
    m.set_free_balance(user(), TOKEN_1000);
    assert_eq!(m.pay(user(), id, 1, 1_000_000), Err(Error::InvalidVolume));
    // funding beyond the payer's balance fails the transfer
    let id2 = m.create_contract(user(), node_id(), ssd100()).unwrap();
    assert_eq!(
        m.pay(user(), id2, 100 * TOKEN_1000, 1_000_000),
        Err(Error::CantMakeTransfer)
    );
    // claiming before deployment is refused
    assert_eq!(m.claim_funds(farmer(), id2, 1_000_000), Err(Error::ContractNotDeployed));
}

#[test]
fn pay_with_zero_price_never_expires() {
    // before the oracle sets a price, the rate is zero and the horizon is
    // unbounded; the contract is indexed at the saturated second
    let mut m = Marketplace::new(0, oracle());
    let id = m.create_contract(user(), node_id(), ssd100()).unwrap();
    m.set_free_balance(user(), TOKEN_1000);
    assert_eq!(m.pay(user(), id, TOKEN_1000, 1_000_000), Ok(()));
    assert_eq!(m.contracts(id).unwrap().expires_at, u64::MAX);
}

#[test]
fn minimum_balance_seeds_escrow() {
    let mut m = Marketplace::new(500, oracle());
    let id = m.create_contract(user(), node_id(), ssd100()).unwrap();
    assert_eq!(m.free_balance(escrow_account(id)), 500);
}

#[test]
fn state_never_moves_backwards() {
    let mut m = funded_market();
    assert_eq!(m.contract_cancelled(node_account(), 0), Ok(()));
    // a cancelled workload cannot be deployed or funded again
    assert_eq!(
        m.contract_deployed(node_account(), 0, 2_000_000),
        Err(Error::ContractCancelled)
    );
    assert_eq!(m.pay(user(), 0, TOKEN_1000, 2_000_000), Err(Error::ContractCancelled));
    assert_eq!(m.contracts(0).unwrap().workload_state, WorkloadState::Cancelled);
}

#[test]
fn replicas_agree_on_identical_inputs() {
    let run = || {
        let mut m = funded_market();
        m.contract_deployed(node_account(), 0, 1_000_000).unwrap();
        m.claim_funds(farmer(), 0, 2_800_000).unwrap();
        m.on_finalize(1, 2_800_000);
        m.on_finalize(2, 4_700_000);
        m
    };
    let a = run();
    let b = run();
    let ca = a.contracts(0).unwrap();
    let cb = b.contracts(0).unwrap();
    assert_eq!(ca.expires_at, cb.expires_at);
    assert_eq!(ca.last_claimed, cb.last_claimed);
    assert_eq!(ca.workload_state, cb.workload_state);
    assert_eq!(ca.node_id, cb.node_id);
    assert_eq!(a.free_balance(farmer()), b.free_balance(farmer()));
    assert_eq!(a.free_balance(user()), b.free_balance(user()));
    assert_eq!(
        a.free_balance(escrow_account(0)),
        b.free_balance(escrow_account(0))
    );
    assert_eq!(a.event_count(), b.event_count());
    assert_eq!(a.last_block_time(), b.last_block_time());
}
