//! The laws of the marketplace: properties that hold across operations,
//! stated over the abstract transition functions and proved once and for
//! all.

use vstd::prelude::*;

use crate::account::{is_escrow_account, spec_escrow_account, AccountId};
use crate::errors::Error;
use crate::market::{
    contract_exists, spec_accept_contract, spec_cancel_contract,
    spec_contract_cancelled, spec_contract_deployed, spec_create_contract, spec_decommission,
    spec_node_account, spec_on_finalize, spec_pay, spec_set_contract_price, spec_claim_funds,
    spec_sweep_ids, spec_sweep_range, market_wf, state_rank, MarketV, WorkloadState,
};
use crate::pricing::{
    sat_add64, spec_owed_amount, spec_price_per_hour, spec_price_per_second, spec_rsu,
    spec_solvency_seconds, ResourcePrice, VolumeType,
};
use crate::store::{bal_of, spec_bucket};

verus! {

/// One dispatch of the marketplace, with its inputs.
pub ghost enum Op {
    CreateContract { caller: AccountId, node_id: Seq<u8>, volume: VolumeType },
    Pay { caller: AccountId, id: u64, amount: u128, now_ms: u64 },
    SetContractPrice { caller: AccountId, id: u64, prices: ResourcePrice, farmer: AccountId },
    AcceptContract { caller: AccountId, id: u64 },
    ContractDeployed { caller: AccountId, id: u64, now_ms: u64 },
    ContractCancelled { caller: AccountId, id: u64 },
    CancelContract { caller: AccountId, id: u64 },
    ClaimFunds { caller: AccountId, id: u64, now_ms: u64 },
    OnFinalize { block_number: u64, now_ms: u64 },
}

/// The state after one dispatch.
pub open spec fn spec_step(v: MarketV, op: Op) -> MarketV {
    match op {
        Op::CreateContract { caller, node_id, volume } => spec_create_contract(
            v,
            caller,
            node_id,
            volume,
        ).0,
        Op::Pay { caller, id, amount, now_ms } => spec_pay(v, caller, id, amount, now_ms).0,
        Op::SetContractPrice { caller, id, prices, farmer } => spec_set_contract_price(
            v,
            caller,
            id,
            prices,
            farmer,
        ).0,
        Op::AcceptContract { caller, id } => spec_accept_contract(v, caller, id).0,
        Op::ContractDeployed { caller, id, now_ms } => spec_contract_deployed(
            v,
            caller,
            id,
            now_ms,
        ).0,
        Op::ContractCancelled { caller, id } => spec_contract_cancelled(v, caller, id).0,
        Op::CancelContract { caller, id } => spec_cancel_contract(v, caller, id).0,
        Op::ClaimFunds { caller, id, now_ms } => spec_claim_funds(v, caller, id, now_ms).0,
        Op::OnFinalize { block_number, now_ms } => spec_on_finalize(v, block_number, now_ms),
    }
}

/// Sweeping never forgets a contract.
proof fn lemma_sweep_ids_len(v: MarketV, ids: Seq<u64>)
    ensures
        spec_sweep_ids(v, ids).contracts.len() == v.contracts.len(),
        forall|j: int|
            0 <= j < v.contracts.len() ==> state_rank(
                #[trigger] spec_sweep_ids(v, ids).contracts[j].workload_state,
            ) >= state_rank(v.contracts[j].workload_state),
    decreases ids.len(),
{
    if ids.len() > 0 {
        lemma_sweep_ids_len(spec_decommission(v, ids[0]).0, ids.drop_first());
    }
}

/// Sweeping a range never forgets a contract.
proof fn lemma_sweep_range_len(v: MarketV, t: u64, now: u64)
    ensures
        spec_sweep_range(v, t, now).contracts.len() == v.contracts.len(),
        forall|j: int|
            0 <= j < v.contracts.len() ==> state_rank(
                #[trigger] spec_sweep_range(v, t, now).contracts[j].workload_state,
            ) >= state_rank(v.contracts[j].workload_state),
    decreases now - t,
{
    if t < now {
        lemma_sweep_ids_len(v, spec_bucket(v.expirations, t));
        lemma_sweep_range_len(spec_sweep_ids(v, spec_bucket(v.expirations, t)), (t + 1) as u64, now);
    }
}

/// No dispatch ever forgets a contract: the reservation counter never
/// decreases.
pub proof fn lemma_counter_never_decreases(v: MarketV, op: Op)
    ensures
        spec_step(v, op).contracts.len() >= v.contracts.len(),
{
    match op {
        Op::OnFinalize { block_number, now_ms } => {
            if !(block_number <= 1 || v.last_block_time == 0) {
                lemma_sweep_range_len(v, v.last_block_time, ((now_ms as int) / 1000) as u64);
            }
        },
        _ => {},
    }
}

/// Monotone reservation ids: a creation issues the current counter value,
/// so a creation in any state reached after an earlier successful one
/// issues a strictly larger id.
pub proof fn lemma_monotone_reservation_ids(
    s1: MarketV,
    c1: AccountId,
    n1: Seq<u8>,
    vol1: VolumeType,
    s2: MarketV,
    c2: AccountId,
    n2: Seq<u8>,
    vol2: VolumeType,
)
    requires
        s1.contracts.len() < u64::MAX,
        s2.contracts.len() <= u64::MAX,
        spec_create_contract(s1, c1, n1, vol1).0.contracts.len() <= s2.contracts.len(),
    ensures
        spec_create_contract(s1, c1, n1, vol1).1 == Ok::<u64, Error>(s1.contracts.len() as u64),
        spec_create_contract(s2, c2, n2, vol2).1 == Ok::<u64, Error>(s2.contracts.len() as u64),
        s2.contracts.len() as u64 > s1.contracts.len() as u64,
{
}

/// Escrow isolation, the deposit side: a successful payment raises the
/// reservation's escrow balance by exactly the amount paid, and touches
/// no other reservation's escrow. The payer is an outside account, not a
/// derived escrow.
pub proof fn lemma_escrow_after_pay(
    v: MarketV,
    caller: AccountId,
    id: u64,
    amount: u128,
    now_ms: u64,
)
    requires
        market_wf(v),
        !is_escrow_account(caller),
        spec_pay(v, caller, id, amount, now_ms).1 is Ok,
    ensures
        bal_of(spec_pay(v, caller, id, amount, now_ms).0.balances, spec_escrow_account(id)) == bal_of(
            v.balances,
            spec_escrow_account(id),
        ) + amount,
        forall|j: u64|
            contract_exists(v, j) && j != id ==> bal_of(
                spec_pay(v, caller, id, amount, now_ms).0.balances,
                #[trigger] spec_escrow_account(j),
            ) == bal_of(v.balances, spec_escrow_account(j)),
{
    let c = v.contracts[id as int];
    assert(c.account_id == spec_escrow_account(id));
    assert(caller != spec_escrow_account(id));
}

/// Escrow isolation, the payout side: a successful claim lowers the
/// reservation's escrow balance by exactly what was paid out (the elapsed
/// time at the contract's rate, clamped to the balance), and touches no
/// other reservation's escrow. The farmer is an outside account.
pub proof fn lemma_escrow_after_claim(v: MarketV, caller: AccountId, id: u64, now_ms: u64)
    requires
        market_wf(v),
        contract_exists(v, id),
        !is_escrow_account(v.contracts[id as int].farmer_account),
        spec_claim_funds(v, caller, id, now_ms).1 is Ok,
    ensures
        ({
            let c = v.contracts[id as int];
            let pps = spec_price_per_second(
                spec_price_per_hour(c.resource_prices, spec_rsu(v.volumes[id as int]).unwrap()),
            );
            let owed = spec_owed_amount(crate::market::spec_elapsed_seconds(c.last_claimed, now_ms), pps);
            let bal = bal_of(v.balances, spec_escrow_account(id));
            let paid = if owed <= bal {
                owed
            } else {
                bal
            };
            bal_of(
                spec_claim_funds(v, caller, id, now_ms).0.balances,
                spec_escrow_account(id),
            ) == bal - paid
        }),
        forall|j: u64|
            contract_exists(v, j) && j != id ==> bal_of(
                spec_claim_funds(v, caller, id, now_ms).0.balances,
                #[trigger] spec_escrow_account(j),
            ) == bal_of(v.balances, spec_escrow_account(j)),
{
    let c = v.contracts[id as int];
    assert(c.account_id == spec_escrow_account(id));
}

/// Escrow isolation, the refund side: a successful user cancellation
/// empties the reservation's escrow into the user's account and touches
/// no other reservation's escrow. The user is an outside account.
pub proof fn lemma_escrow_after_cancel(v: MarketV, caller: AccountId, id: u64)
    requires
        market_wf(v),
        contract_exists(v, id),
        !is_escrow_account(v.contracts[id as int].user_account),
        spec_cancel_contract(v, caller, id).1 is Ok,
    ensures
        bal_of(spec_cancel_contract(v, caller, id).0.balances, spec_escrow_account(id)) == 0,
        bal_of(
            spec_cancel_contract(v, caller, id).0.balances,
            v.contracts[id as int].user_account,
        ) == bal_of(v.balances, v.contracts[id as int].user_account) + bal_of(
            v.balances,
            spec_escrow_account(id),
        ),
        forall|j: u64|
            contract_exists(v, j) && j != id ==> bal_of(
                spec_cancel_contract(v, caller, id).0.balances,
                #[trigger] spec_escrow_account(j),
            ) == bal_of(v.balances, spec_escrow_account(j)),
{
    let c = v.contracts[id as int];
    assert(c.account_id == spec_escrow_account(id));
}

/// Escrow isolation, the sweep side: a successful decommission empties
/// the reservation's escrow into the farmer's account and touches no
/// other reservation's escrow. The farmer is an outside account.
pub proof fn lemma_escrow_after_decommission(v: MarketV, id: u64)
    requires
        market_wf(v),
        contract_exists(v, id),
        !is_escrow_account(v.contracts[id as int].farmer_account),
        spec_decommission(v, id).1 is Ok,
    ensures
        bal_of(spec_decommission(v, id).0.balances, spec_escrow_account(id)) == 0,
        bal_of(spec_decommission(v, id).0.balances, v.contracts[id as int].farmer_account) == bal_of(
            v.balances,
            v.contracts[id as int].farmer_account,
        ) + bal_of(v.balances, spec_escrow_account(id)),
        forall|j: u64|
            contract_exists(v, j) && j != id ==> bal_of(
                spec_decommission(v, id).0.balances,
                #[trigger] spec_escrow_account(j),
            ) == bal_of(v.balances, spec_escrow_account(j)),
{
    let c = v.contracts[id as int];
    assert(c.account_id == spec_escrow_account(id));
}

/// Escrow isolation, the frame side: pricing, acceptance, a node-side
/// cancellation, or a creation never move money out of or into any
/// already-existing reservation's escrow.
pub proof fn lemma_escrow_untouched(v: MarketV, op: Op, j: u64)
    requires
        market_wf(v),
        contract_exists(v, j),
        op matches Op::SetContractPrice { .. } || op matches Op::AcceptContract { .. }
            || op matches Op::ContractCancelled { .. } || op matches Op::CreateContract { .. },
    ensures
        bal_of(spec_step(v, op).balances, spec_escrow_account(j)) == bal_of(
            v.balances,
            spec_escrow_account(j),
        ),
{
    match op {
        Op::CreateContract { caller, node_id, volume } => {
            let id = v.contracts.len() as u64;
            assert(j != id);
            assert(spec_escrow_account(j) != spec_escrow_account(id));
        },
        _ => {},
    }
}

/// Horizon consistency on a first funding: after a successful `pay` on a
/// contract with no horizon, the expiration is the wall-clock second plus
/// the seconds the whole escrow balance can pay for.
pub proof fn lemma_pay_horizon_fresh(
    v: MarketV,
    caller: AccountId,
    id: u64,
    amount: u128,
    now_ms: u64,
)
    requires
        market_wf(v),
        contract_exists(v, id),
        v.contracts[id as int].expires_at == 0,
        spec_pay(v, caller, id, amount, now_ms).1 is Ok,
    ensures
        ({
            let c = v.contracts[id as int];
            let pps = spec_price_per_second(
                spec_price_per_hour(c.resource_prices, spec_rsu(v.volumes[id as int]).unwrap()),
            );
            let bal = bal_of(spec_pay(v, caller, id, amount, now_ms).0.balances, c.account_id);
            spec_pay(v, caller, id, amount, now_ms).0.contracts[id as int].expires_at == sat_add64(
                ((now_ms as int) / 1000) as u64,
                spec_solvency_seconds(bal, pps),
            )
        }),
{
}

/// Horizon consistency on a refunding: after a successful `pay` on a
/// contract that already has a horizon, the horizon grows by exactly the
/// seconds the paid amount can pay for, whatever escrow balance remained.
pub proof fn lemma_pay_horizon_extends(
    v: MarketV,
    caller: AccountId,
    id: u64,
    amount: u128,
    now_ms: u64,
)
    requires
        market_wf(v),
        contract_exists(v, id),
        v.contracts[id as int].expires_at > 0,
        spec_pay(v, caller, id, amount, now_ms).1 is Ok,
    ensures
        ({
            let c = v.contracts[id as int];
            let pps = spec_price_per_second(
                spec_price_per_hour(c.resource_prices, spec_rsu(v.volumes[id as int]).unwrap()),
            );
            spec_pay(v, caller, id, amount, now_ms).0.contracts[id as int].expires_at == sat_add64(
                c.expires_at,
                spec_solvency_seconds(amount, pps),
            )
        }),
{
}

/// State monotonicity: no dispatch ever moves a workload backwards along
/// created -> deployed -> cancelled.
pub proof fn lemma_state_monotone(v: MarketV, op: Op)
    requires
        market_wf(v),
    ensures
        forall|j: int|
            0 <= j < v.contracts.len() ==> state_rank(
                #[trigger] spec_step(v, op).contracts[j].workload_state,
            ) >= state_rank(v.contracts[j].workload_state),
{
    let w = spec_step(v, op);
    match op {
        Op::CreateContract { caller, node_id, volume } => {
            assert(w.contracts == v.contracts.push(
                spec_create_contract(v, caller, node_id, volume).0.contracts.last(),
            ));
        },
        Op::Pay { caller, id, amount, now_ms } => {
            assert forall|j: int| 0 <= j < v.contracts.len() implies state_rank(
                #[trigger] w.contracts[j].workload_state,
            ) >= state_rank(v.contracts[j].workload_state) by {
                assert(w == spec_pay(v, caller, id, amount, now_ms).0);
            }
        },
        Op::SetContractPrice { caller, id, prices, farmer } => {
            assert forall|j: int| 0 <= j < v.contracts.len() implies state_rank(
                #[trigger] w.contracts[j].workload_state,
            ) >= state_rank(v.contracts[j].workload_state) by {
                assert(w == spec_set_contract_price(v, caller, id, prices, farmer).0);
            }
        },
        Op::AcceptContract { caller, id } => {
            assert forall|j: int| 0 <= j < v.contracts.len() implies state_rank(
                #[trigger] w.contracts[j].workload_state,
            ) >= state_rank(v.contracts[j].workload_state) by {
                assert(w == spec_accept_contract(v, caller, id).0);
            }
        },
        Op::ContractDeployed { caller, id, now_ms } => {
            assert forall|j: int| 0 <= j < v.contracts.len() implies state_rank(
                #[trigger] w.contracts[j].workload_state,
            ) >= state_rank(v.contracts[j].workload_state) by {
                assert(w == spec_contract_deployed(v, caller, id, now_ms).0);
            }
        },
        Op::ContractCancelled { caller, id } => {
            assert forall|j: int| 0 <= j < v.contracts.len() implies state_rank(
                #[trigger] w.contracts[j].workload_state,
            ) >= state_rank(v.contracts[j].workload_state) by {
                assert(w == spec_contract_cancelled(v, caller, id).0);
            }
        },
        Op::CancelContract { caller, id } => {
            assert forall|j: int| 0 <= j < v.contracts.len() implies state_rank(
                #[trigger] w.contracts[j].workload_state,
            ) >= state_rank(v.contracts[j].workload_state) by {
                assert(w == spec_cancel_contract(v, caller, id).0);
            }
        },
        Op::ClaimFunds { caller, id, now_ms } => {
            assert forall|j: int| 0 <= j < v.contracts.len() implies state_rank(
                #[trigger] w.contracts[j].workload_state,
            ) >= state_rank(v.contracts[j].workload_state) by {
                assert(w == spec_claim_funds(v, caller, id, now_ms).0);
            }
        },
        Op::OnFinalize { block_number, now_ms } => {
            if !(block_number <= 1 || v.last_block_time == 0) {
                lemma_sweep_range_len(v, v.last_block_time, ((now_ms as int) / 1000) as u64);
            }
        },
    }
}

/// Index consistency: in a well-formed state, a live contract with a
/// horizon sits in the bucket of its own expiration second, and a
/// cancelled contract, or one without a horizon, sits in no bucket at
/// all.
pub proof fn lemma_index_consistency(v: MarketV, id: u64)
    requires
        market_wf(v),
        contract_exists(v, id),
    ensures
        v.contracts[id as int].expires_at > 0 && v.contracts[id as int].workload_state
            != WorkloadState::Cancelled ==> spec_bucket(
            v.expirations,
            v.contracts[id as int].expires_at,
        ).contains(id),
        v.contracts[id as int].workload_state == WorkloadState::Cancelled || v.contracts[id as int].expires_at
            == 0 ==> forall|t: u64| !spec_bucket(v.expirations, t).contains(id),
{
    if v.contracts[id as int].workload_state == WorkloadState::Cancelled || v.contracts[id as int].expires_at
        == 0 {
        assert forall|t: u64| !spec_bucket(v.expirations, t).contains(id) by {
            if spec_bucket(v.expirations, t).contains(id) {
                let k = choose|k: int|
                    0 <= k < spec_bucket(v.expirations, t).len() && spec_bucket(v.expirations, t)[k]
                        == id;
            }
        }
    }
}

/// Index consistency after a decommission: a successful decommission
/// leaves the id in no bucket.
pub proof fn lemma_decommission_unindexes(v: MarketV, id: u64)
    requires
        market_wf(v),
        spec_decommission(v, id).1 is Ok,
    ensures
        forall|t: u64| !spec_bucket(spec_decommission(v, id).0.expirations, t).contains(id),
{
    crate::market::lemma_decommission_wf(v, id);
    let w = spec_decommission(v, id).0;
    assert(w.contracts[id as int].workload_state == WorkloadState::Cancelled);
    lemma_index_consistency(w, id);
}

/// Authorization is total: every mutating dispatch, called with a signer
/// that does not match its required role, returns exactly its
/// authorization error and changes nothing.
pub proof fn lemma_authorization_total(v: MarketV, caller: AccountId, id: u64)
    requires
        contract_exists(v, id),
    ensures
        caller != v.oracle_account ==> spec_set_contract_price(
            v,
            caller,
            id,
            v.contracts[id as int].resource_prices,
            caller,
        ) == (v, Err::<(), Error>(Error::UnauthorizedOracle)),
        caller != v.contracts[id as int].farmer_account ==> spec_accept_contract(v, caller, id) == (
            v,
            Err::<(), Error>(Error::UnauthorizedFarmer),
        ),
        v.contracts[id as int].workload_state == WorkloadState::Deployed && caller
            != v.contracts[id as int].farmer_account ==> forall|now_ms: u64|
            spec_claim_funds(v, caller, id, now_ms) == (
                v,
                Err::<(), Error>(Error::UnauthorizedFarmer),
            ),
        caller != v.contracts[id as int].user_account ==> spec_cancel_contract(v, caller, id) == (
            v,
            Err::<(), Error>(Error::UnauthorizedUser),
        ),
        spec_node_account(v.contracts[id as int].node_id) != Some(caller) ==> forall|now_ms: u64|
            spec_contract_deployed(v, caller, id, now_ms) == (
                v,
                Err::<(), Error>(Error::UnauthorizedNode),
            ),
        spec_node_account(v.contracts[id as int].node_id) != Some(caller)
            ==> spec_contract_cancelled(v, caller, id) == (
            v,
            Err::<(), Error>(Error::UnauthorizedNode),
        ),
{
}

/// Determinism: the marketplace is a pure function of its state and
/// inputs, so replicas that agree on the state and see the same dispatch
/// stay in agreement.
pub proof fn lemma_deterministic(v1: MarketV, v2: MarketV, op: Op)
    requires
        v1 == v2,
    ensures
        spec_step(v1, op) == spec_step(v2, op),
{
}

} // verus!
