//! The marketplace state machine: contracts, escrow, dispatch operations
//! and the expiration sweeper.
//!
//! Every operation is specified by a function from the abstract state (a
//! [`MarketV`]) and its inputs to the next abstract state and its result;
//! the executable methods are proved to follow those functions exactly, so
//! any two replicas fed the same inputs hold identical state.

use vstd::prelude::*;

use crate::account::{account_from_bytes, escrow_account, spec_account_from_bytes,
    spec_escrow_account, AccountId};
use crate::errors::Error;
use crate::foreign::{base58_of, decode_base58};
use crate::pricing::{price_per_hour, price_per_second, sat_add, sat_add64, solvency_seconds,
    owed_amount, spec_owed_amount, spec_price_per_hour, spec_price_per_second, spec_rsu,
    spec_solvency_seconds, ResourcePrice, VolumeType};
use crate::store::{bal_of, remove_first, spec_bucket, spec_reservations, spec_transfer,
    AccountIndex, Ledger, TimeIndex};

verus! {

/// The life-cycle state of a contract's workload.
#[derive(PartialEq, Eq, Structural, Clone, Copy, Debug)]
pub enum WorkloadState {
    Created,
    Deployed,
    Cancelled,
}

impl Default for WorkloadState {
    /// A fresh workload starts out as created.
    fn default() -> (r: WorkloadState)
        ensures
            r == WorkloadState::Created,
    {
        WorkloadState::Created
    }
}

/// The position of a state along the one-way life cycle
/// created -> deployed -> cancelled.
pub open spec fn state_rank(s: WorkloadState) -> int {
    match s {
        WorkloadState::Created => 0,
        WorkloadState::Deployed => 1,
        WorkloadState::Cancelled => 2,
    }
}

/// A reservation: who asked for it, on which node, under which prices, and
/// how long its escrow can pay for it.
pub struct Contract {
    pub resource_prices: ResourcePrice,
    pub account_id: AccountId,
    pub node_id: Vec<u8>,
    pub farmer_account: AccountId,
    pub user_account: AccountId,
    pub accepted: bool,
    pub workload_state: WorkloadState,
    pub expires_at: u64,
    pub last_claimed: u64,
}

/// The abstract value of a contract.
#[verifier::ext_equal]
pub ghost struct ContractV {
    pub resource_prices: ResourcePrice,
    pub account_id: AccountId,
    pub node_id: Seq<u8>,
    pub farmer_account: AccountId,
    pub user_account: AccountId,
    pub accepted: bool,
    pub workload_state: WorkloadState,
    pub expires_at: u64,
    pub last_claimed: u64,
}

impl View for Contract {
    type V = ContractV;

    open spec fn view(&self) -> ContractV {
        ContractV {
            resource_prices: self.resource_prices,
            account_id: self.account_id,
            node_id: self.node_id@,
            farmer_account: self.farmer_account,
            user_account: self.user_account,
            accepted: self.accepted,
            workload_state: self.workload_state,
            expires_at: self.expires_at,
            last_claimed: self.last_claimed,
        }
    }
}

/// The base account of the pallet itself: the pallet tag padded with zeros.
pub open spec fn spec_base_account() -> AccountId {
    AccountId { w0: crate::account::PALLET_TAG, w1: 0, w2: 0, w3: 0 }
}

/// A fresh contract before any field is bound: zero prices, the pallet's
/// base account everywhere, a single zero byte for a node id, not accepted,
/// created, with no horizon and nothing claimed.
pub open spec fn spec_default_contract() -> ContractV {
    ContractV {
        resource_prices: ResourcePrice { currency: 0, sru: 0, hru: 0, cru: 0, nru: 0, mru: 0 },
        account_id: spec_base_account(),
        node_id: seq![0u8],
        farmer_account: spec_base_account(),
        user_account: spec_base_account(),
        accepted: false,
        workload_state: WorkloadState::Created,
        expires_at: 0,
        last_claimed: 0,
    }
}

impl Default for Contract {
    /// A fresh, unbound contract.
    fn default() -> (r: Contract)
        ensures
            r@ == spec_default_contract(),
    {
        let base = AccountId { w0: crate::account::PALLET_TAG, w1: 0, w2: 0, w3: 0 };
        let mut node_id: Vec<u8> = Vec::new();
        node_id.push(0);
        proof {
            assert(node_id@ =~= seq![0u8]);
        }
        Contract {
            resource_prices: ResourcePrice { currency: 0, sru: 0, hru: 0, cru: 0, nru: 0, mru: 0 },
            account_id: base,
            node_id,
            farmer_account: base,
            user_account: base,
            accepted: false,
            workload_state: WorkloadState::Created,
            expires_at: 0,
            last_claimed: 0,
        }
    }
}

impl Contract {
    /// An exact copy of the contract.
    pub fn duplicate(&self) -> (r: Contract)
        ensures
            r@ == self@,
    {
        let mut node_id: Vec<u8> = Vec::new();
        let n = self.node_id.len();
        let mut i: usize = 0;
        while i < n
            invariant
                n == self.node_id@.len(),
                0 <= i <= n,
                node_id@ == self.node_id@.take(i as int),
            decreases n - i,
        {
            node_id.push(self.node_id[i]);
            proof {
                assert(node_id@ =~= self.node_id@.take(i + 1));
            }
            i = i + 1;
        }
        proof {
            assert(self.node_id@.take(n as int) =~= self.node_id@);
        }
        Contract {
            resource_prices: self.resource_prices,
            account_id: self.account_id,
            node_id,
            farmer_account: self.farmer_account,
            user_account: self.user_account,
            accepted: self.accepted,
            workload_state: self.workload_state,
            expires_at: self.expires_at,
            last_claimed: self.last_claimed,
        }
    }
}

/// What happened, in order.
pub enum Event {
    ContractAdded(AccountId, Vec<u8>, u64),
    ContractPaid(AccountId, u64),
    ContractUpdated(AccountId, u64),
    ContractDeployed(Vec<u8>, u64),
    ContractCancelled(Vec<u8>, u64),
    ContractAccepted(Vec<u8>, u64),
    ContractFundsClaimed(u64),
}

/// The abstract value of an event.
#[verifier::ext_equal]
pub ghost enum EventV {
    ContractAdded(AccountId, Seq<u8>, u64),
    ContractPaid(AccountId, u64),
    ContractUpdated(AccountId, u64),
    ContractDeployed(Seq<u8>, u64),
    ContractCancelled(Seq<u8>, u64),
    ContractAccepted(Seq<u8>, u64),
    ContractFundsClaimed(u64),
}

impl View for Event {
    type V = EventV;

    open spec fn view(&self) -> EventV {
        match self {
            Event::ContractAdded(a, n, id) => EventV::ContractAdded(*a, n@, *id),
            Event::ContractPaid(a, id) => EventV::ContractPaid(*a, *id),
            Event::ContractUpdated(a, id) => EventV::ContractUpdated(*a, *id),
            Event::ContractDeployed(n, id) => EventV::ContractDeployed(n@, *id),
            Event::ContractCancelled(n, id) => EventV::ContractCancelled(n@, *id),
            Event::ContractAccepted(n, id) => EventV::ContractAccepted(n@, *id),
            Event::ContractFundsClaimed(id) => EventV::ContractFundsClaimed(*id),
        }
    }
}

/// The abstract state of the marketplace.
#[verifier::ext_equal]
pub ghost struct MarketV {
    pub contracts: Seq<ContractV>,
    pub volumes: Seq<VolumeType>,
    pub states: Seq<WorkloadState>,
    pub reservations: Map<AccountId, Seq<u64>>,
    pub expirations: Map<u64, Seq<u64>>,
    pub balances: Map<AccountId, u128>,
    pub last_block_time: u64,
    pub min_balance: u128,
    pub oracle_account: AccountId,
    pub events: Seq<EventV>,
}

/// Whether a reservation id names a contract.
pub open spec fn contract_exists(v: MarketV, id: u64) -> bool {
    id < v.contracts.len()
}

/// The index with `id` appended to the bucket of second `t`.
pub open spec fn index_add(m: Map<u64, Seq<u64>>, t: u64, id: u64) -> Map<u64, Seq<u64>> {
    m.insert(t, spec_bucket(m, t).push(id))
}

/// The index with the first occurrence of `id` taken out of the bucket of
/// second `t`.
pub open spec fn index_remove(m: Map<u64, Seq<u64>>, t: u64, id: u64) -> Map<u64, Seq<u64>> {
    if m.contains_key(t) {
        m.insert(t, remove_first(m[t], id))
    } else {
        m
    }
}

/// Well-formedness of the abstract state. Each contract's escrow account is
/// the one derived from its id, the per-id maps line up, and a live
/// contract with a horizon sits in exactly the index bucket of its own
/// expiration second, once.
pub open spec fn market_wf(v: MarketV) -> bool {
    &&& v.contracts.len() <= u64::MAX
    &&& v.volumes.len() == v.contracts.len()
    &&& v.states.len() == v.contracts.len()
    &&& forall|id: int|
        0 <= id < v.contracts.len() ==> (#[trigger] v.contracts[id]).account_id
            == spec_escrow_account(id as u64)
    &&& forall|id: int|
        0 <= id < v.contracts.len() ==> (#[trigger] v.states[id]) == v.contracts[id].workload_state
    &&& forall|id: int|
        0 <= id < v.contracts.len() && (#[trigger] v.contracts[id]).expires_at > 0
            && v.contracts[id].workload_state != WorkloadState::Cancelled ==> spec_bucket(
            v.expirations,
            v.contracts[id].expires_at,
        ).contains(id as u64)
    &&& forall|t: u64, k: int|
        0 <= k < spec_bucket(v.expirations, t).len() ==> {
            let id = #[trigger] spec_bucket(v.expirations, t)[k];
            &&& id < v.contracts.len()
            &&& v.contracts[id as int].expires_at == t
            &&& t > 0
            &&& v.contracts[id as int].workload_state != WorkloadState::Cancelled
        }
    &&& forall|t: u64, k1: int, k2: int|
        0 <= k1 < k2 < spec_bucket(v.expirations, t).len() ==> #[trigger] spec_bucket(
            v.expirations,
            t,
        )[k1] != #[trigger] spec_bucket(v.expirations, t)[k2]
}

/// The marketplace: all persisted state of the pallet, plus the balances of
/// the host's currency that its operations may touch.
pub struct Marketplace {
    contracts: Vec<Contract>,
    volumes: Vec<VolumeType>,
    states: Vec<WorkloadState>,
    reservations: AccountIndex,
    expirations: TimeIndex,
    balances: Ledger,
    last_block_time: u64,
    min_balance: u128,
    oracle_account: AccountId,
    events: Vec<Event>,
}

impl View for Marketplace {
    type V = MarketV;

    closed spec fn view(&self) -> MarketV {
        MarketV {
            contracts: self.contracts@.map_values(|c: Contract| c@),
            volumes: self.volumes@,
            states: self.states@,
            reservations: self.reservations@,
            expirations: self.expirations@,
            balances: self.balances@,
            last_block_time: self.last_block_time,
            min_balance: self.min_balance,
            oracle_account: self.oracle_account,
            events: self.events@.map_values(|e: Event| e@),
        }
    }
}

impl Marketplace {
    /// The representation invariant together with abstract
    /// well-formedness; every operation preserves it.
    pub open spec fn wf(&self) -> bool {
        &&& self.inv()
        &&& market_wf(self@)
    }

    /// The representation invariant of the backing stores.
    pub closed spec fn inv(&self) -> bool {
        &&& self.reservations.wf()
        &&& self.expirations.wf()
        &&& self.balances.wf()
    }

    /// An empty marketplace, with the host's minimum account endowment and
    /// the account trusted to set prices.
    pub fn new(min_balance: u128, oracle_account: AccountId) -> (r: Marketplace)
        ensures
            r.wf(),
            r@ == (MarketV {
                contracts: Seq::<ContractV>::empty(),
                volumes: Seq::<VolumeType>::empty(),
                states: Seq::<WorkloadState>::empty(),
                reservations: Map::<AccountId, Seq<u64>>::empty(),
                expirations: Map::<u64, Seq<u64>>::empty(),
                balances: Map::<AccountId, u128>::empty(),
                last_block_time: 0,
                min_balance: min_balance,
                oracle_account: oracle_account,
                events: Seq::<EventV>::empty(),
            }),
    {
        let r = Marketplace {
            contracts: Vec::new(),
            volumes: Vec::new(),
            states: Vec::new(),
            reservations: AccountIndex::new(),
            expirations: TimeIndex::new(),
            balances: Ledger::new(),
            last_block_time: 0,
            min_balance,
            oracle_account,
            events: Vec::new(),
        };
        proof {
            assert(r.contracts@.map_values(|c: Contract| c@) =~= Seq::<ContractV>::empty());
            assert(r.events@.map_values(|e: Event| e@) =~= Seq::<EventV>::empty());
        }
        r
    }

    /// The id the next successful creation will take.
    pub fn reservation_id(&self) -> (r: u64)
        ensures
            r == self@.contracts.len(),
    {
        self.contracts.len() as u64
    }

    /// The balance of an account; models the host's free-balance read.
    pub fn free_balance(&self, a: AccountId) -> (r: u128)
        requires
            self.wf(),
        ensures
            r == bal_of(self@.balances, a),
    {
        self.balances.balance_of(a)
    }

    /// Sets the balance of an account outright; models the host's
    /// make-free-balance-be primitive, which endows accounts.
    pub fn set_free_balance(&mut self, a: AccountId, v: u128)
        requires
            old(self).wf(),
        ensures
            final(self).wf(),
            final(self)@ == (MarketV { balances: old(self)@.balances.insert(a, v), ..old(self)@ }),
    {
        self.balances.set_balance(a, v);
    }
}

/// What `create_contract` does: allocates the next id, seeds the derived
/// escrow account with the minimum endowment, stores the default contract
/// bound to the node and the caller, records the volume, and appends the id
/// to the caller's reservations.
pub open spec fn spec_create_contract(
    v: MarketV,
    caller: AccountId,
    node_id: Seq<u8>,
    volume: VolumeType,
) -> (MarketV, Result<u64, Error>) {
    let id = v.contracts.len() as u64;
    let escrow = spec_escrow_account(id);
    let c = ContractV {
        resource_prices: ResourcePrice { currency: 0, sru: 0, hru: 0, cru: 0, nru: 0, mru: 0 },
        account_id: escrow,
        node_id: node_id,
        farmer_account: spec_base_account(),
        user_account: caller,
        accepted: false,
        workload_state: WorkloadState::Created,
        expires_at: 0,
        last_claimed: 0,
    };
    (
        MarketV {
            contracts: v.contracts.push(c),
            volumes: v.volumes.push(volume),
            states: v.states.push(WorkloadState::Created),
            reservations: v.reservations.insert(
                caller,
                spec_reservations(v.reservations, caller).push(id),
            ),
            balances: v.balances.insert(escrow, v.min_balance),
            events: v.events.push(EventV::ContractAdded(caller, node_id, id)),
            ..v
        },
        Ok(id),
    )
}

/// What `set_contract_price` does: only the configured oracle may call it;
/// it overwrites the contract's prices and farmer binding and touches
/// nothing else.
pub open spec fn spec_set_contract_price(
    v: MarketV,
    caller: AccountId,
    id: u64,
    prices: ResourcePrice,
    farmer: AccountId,
) -> (MarketV, Result<(), Error>) {
    if caller != v.oracle_account {
        (v, Err(Error::UnauthorizedOracle))
    } else if !contract_exists(v, id) {
        (v, Err(Error::ContractNotExists))
    } else {
        let c = v.contracts[id as int];
        let c2 = ContractV { resource_prices: prices, farmer_account: farmer, ..c };
        (
            MarketV {
                contracts: v.contracts.update(id as int, c2),
                events: v.events.push(EventV::ContractUpdated(c.account_id, id)),
                ..v
            },
            Ok(()),
        )
    }
}

/// What `accept_contract` does: only the farmer bound to the contract may
/// accept it, and acceptance only ever turns the flag on.
pub open spec fn spec_accept_contract(v: MarketV, caller: AccountId, id: u64) -> (
    MarketV,
    Result<(), Error>,
) {
    if !contract_exists(v, id) {
        (v, Err(Error::ContractNotExists))
    } else {
        let c = v.contracts[id as int];
        if caller != c.farmer_account {
            (v, Err(Error::UnauthorizedFarmer))
        } else {
            let c2 = ContractV { accepted: true, ..c };
            (
                MarketV {
                    contracts: v.contracts.update(id as int, c2),
                    events: v.events.push(EventV::ContractAccepted(c.node_id, id)),
                    ..v
                },
                Ok(()),
            )
        }
    }
}

/// Copies a byte string.
pub(crate) fn copy_bytes(v: &[u8]) -> (r: Vec<u8>)
    ensures
        r@ == v@,
{
    let mut r: Vec<u8> = Vec::new();
    let n = v.len();
    let mut i: usize = 0;
    while i < n
        invariant
            n == v@.len(),
            0 <= i <= n,
            r@ == v@.take(i as int),
        decreases n - i,
    {
        r.push(v[i]);
        proof {
            assert(r@ =~= v@.take(i + 1));
        }
        i = i + 1;
    }
    proof {
        assert(v@.take(n as int) =~= v@);
    }
    r
}

/// A node id padded with zero bytes to the 32 bytes of a key.
pub open spec fn pad32(s: Seq<u8>) -> Seq<u8>
    recommends
        s.len() <= 32,
{
    s + Seq::new((32 - s.len()) as nat, |i: int| 0u8)
}

/// The account a node id names: the base58 decode of the id, zero-padded
/// to 32 bytes and read as an ed25519 public key, or nothing when the id
/// does not decode or decodes past 32 bytes.
pub open spec fn spec_node_account(node_id: Seq<u8>) -> Option<AccountId> {
    match base58_of(node_id) {
        None => None,
        Some(b) => if b.len() <= 32 {
            Some(spec_account_from_bytes(pad32(b)))
        } else {
            None
        },
    }
}

/// Resolves a node id to the account it names.
fn node_account(node_id: &Vec<u8>) -> (r: Option<AccountId>)
    ensures
        r == spec_node_account(node_id@),
{
    match decode_base58(node_id.as_slice()) {
        None => None,
        Some(b) => {
            if b.len() > 32 {
                None
            } else {
                let mut padded = copy_bytes(b.as_slice());
                while padded.len() < 32
                    invariant
                        padded@.len() <= 32,
                        b@.len() <= padded@.len(),
                        padded@.take(b@.len() as int) == b@,
                        forall|k: int| b@.len() <= k < padded@.len() ==> padded@[k] == 0u8,
                    decreases 32 - padded.len(),
                {
                    padded.push(0);
                    proof {
                        assert(padded@.take(b@.len() as int) =~= b@);
                    }
                }
                proof {
                    assert(padded@ =~= pad32(b@));
                }
                Some(account_from_bytes(padded.as_slice()))
            }
        },
    }
}

impl Marketplace {
    /// Creates a contract for the caller on the given node. The new id is
    /// the number of contracts ever created; ids are never reused.
    pub fn create_contract(&mut self, caller: AccountId, node_id: Vec<u8>, volume: VolumeType) -> (
        r: Result<u64, Error>)
        requires
            old(self).wf(),
            old(self)@.contracts.len() < u64::MAX,
        ensures
            final(self).wf(),
            (final(self)@, r) == spec_create_contract(old(self)@, caller, node_id@, volume),
    {
        let id = self.contracts.len() as u64;
        let escrow = escrow_account(id);
        self.balances.set_balance(escrow, self.min_balance);
        let node_for_event = copy_bytes(node_id.as_slice());
        let mut contract = Contract::default();
        contract.node_id = node_id;
        contract.account_id = escrow;
        contract.user_account = caller;
        let ghost node_seq = contract.node_id@;
        let ghost cv = contract@;
        self.contracts.push(contract);
        self.volumes.push(volume);
        self.states.push(WorkloadState::Created);
        self.reservations.push_id(caller, id);
        self.events.push(Event::ContractAdded(caller, node_for_event, id));
        proof {
            let ghost spec_out = spec_create_contract(old(self)@, caller, node_seq, volume).0;
            assert(self.contracts@.map_values(|c: Contract| c@) =~= old(self)@.contracts.push(cv));
            assert(cv =~= spec_out.contracts.last());
            assert(self.contracts@.map_values(|c: Contract| c@) =~= spec_out.contracts);
            assert(self.events@.map_values(|e: Event| e@) =~= spec_out.events);
            assert(self@ =~= spec_out);
        }
        Ok(id)
    }
}

/// The position of the first occurrence of `id` in `s`.
proof fn first_index_of(s: Seq<u64>, id: u64) -> (j: int)
    requires
        s.contains(id),
    ensures
        0 <= j < s.len(),
        s[j] == id,
        forall|k: int| 0 <= k < j ==> s[k] != id,
    decreases s.len(),
{
    if s[0] == id {
        0
    } else {
        let i = choose|i: int| 0 <= i < s.len() && s[i] == id;
        assert(s.drop_first()[i - 1] == id);
        assert(s.drop_first().contains(id));
        let j = first_index_of(s.drop_first(), id);
        assert forall|k: int| 0 <= k < j + 1 implies s[k] != id by {
            if k > 0 {
                assert(s.drop_first()[k - 1] != id);
            }
        }
        j + 1
    }
}

/// Taking one id out keeps every other id: membership of anything else is
/// untouched, and the list never grows.
pub proof fn lemma_remove_first_keeps_others(s: Seq<u64>, id: u64)
    ensures
        forall|x: u64| x != id ==> (remove_first(s, id).contains(x) <==> s.contains(x)),
        remove_first(s, id).len() <= s.len(),
{
    if s.contains(id) {
        let j = first_index_of(s, id);
        crate::store::lemma_remove_first_at(s, id, j);
        let r = s.remove(j);
        assert forall|x: u64| x != id implies (remove_first(s, id).contains(x) <==> s.contains(
            x,
        )) by {
            if s.contains(x) {
                let i = choose|i: int| 0 <= i < s.len() && s[i] == x;
                if i < j {
                    assert(r[i] == x);
                } else {
                    assert(r[i - 1] == x);
                }
                assert(r.contains(x));
            }
            if r.contains(x) {
                let k = choose|k: int| 0 <= k < r.len() && r[k] == x;
                if k < j {
                    assert(s[k] == x);
                } else {
                    assert(s[k + 1] == x);
                }
                assert(s.contains(x));
            }
        }
    } else {
        crate::store::lemma_remove_first_absent(s, id);
    }
}

/// Taking an id out of a duplicate-free list leaves it duplicate-free and
/// without that id.
pub proof fn lemma_remove_first_distinct(s: Seq<u64>, id: u64)
    requires
        forall|k1: int, k2: int| 0 <= k1 < k2 < s.len() ==> s[k1] != s[k2],
    ensures
        forall|k1: int, k2: int|
            0 <= k1 < k2 < remove_first(s, id).len() ==> remove_first(s, id)[k1] != remove_first(
                s,
                id,
            )[k2],
        !remove_first(s, id).contains(id),
{
    if s.contains(id) {
        let j = first_index_of(s, id);
        crate::store::lemma_remove_first_at(s, id, j);
        let r = s.remove(j);
        assert forall|k: int| 0 <= k < r.len() implies r[k] != id by {
            if k < j {
                assert(r[k] == s[k]);
            } else {
                assert(r[k] == s[k + 1]);
            }
        }
        if r.contains(id) {
            let k = choose|k: int| 0 <= k < r.len() && r[k] == id;
        }
    } else {
        crate::store::lemma_remove_first_absent(s, id);
        if remove_first(s, id).contains(id) {
            let k = choose|k: int| 0 <= k < remove_first(s, id).len() && remove_first(s, id)[k]
                == id;
            assert(s[k] == id);
            assert(s.contains(id));
        }
    }
}

/// What `pay` does: anyone may fund a live contract; the amount moves from
/// the caller to the escrow. A contract with a horizon has it extended by
/// however long the paid amount can pay at the contract's current rate
/// (the residual escrow is already counted in the old horizon); one
/// without a horizon starts at now plus however long the whole escrow
/// balance can pay. The id moves to the index bucket of the new
/// expiration second.
pub open spec fn spec_pay(v: MarketV, caller: AccountId, id: u64, amount: u128, now_ms: u64) -> (
    MarketV,
    Result<(), Error>,
) {
    if !contract_exists(v, id) {
        (v, Err(Error::ContractNotExists))
    } else {
        let c = v.contracts[id as int];
        if c.workload_state == WorkloadState::Cancelled {
            (v, Err(Error::ContractCancelled))
        } else if spec_transfer(v.balances, caller, c.account_id, amount).1 is Err {
            (v, Err(Error::CantMakeTransfer))
        } else {
            match spec_rsu(v.volumes[id as int]) {
                None => (v, Err(Error::InvalidVolume)),
                Some(rsu) => {
                    let balances2 = spec_transfer(v.balances, caller, c.account_id, amount).0;
                    let pps = spec_price_per_second(spec_price_per_hour(c.resource_prices, rsu));
                    let expires = if c.expires_at > 0 {
                        sat_add64(c.expires_at, spec_solvency_seconds(amount, pps))
                    } else {
                        let bal = bal_of(balances2, c.account_id);
                        sat_add64(((now_ms as int) / 1000) as u64, spec_solvency_seconds(bal, pps))
                    };
                    let idx1 = if c.expires_at > 0 {
                        index_remove(v.expirations, c.expires_at, id)
                    } else {
                        v.expirations
                    };
                    let idx2 = if expires > 0 {
                        index_add(idx1, expires, id)
                    } else {
                        idx1
                    };
                    let c2 = ContractV { expires_at: expires, ..c };
                    (
                        MarketV {
                            contracts: v.contracts.update(id as int, c2),
                            balances: balances2,
                            expirations: idx2,
                            events: v.events.push(EventV::ContractPaid(c.account_id, id)),
                            ..v
                        },
                        Ok(()),
                    )
                },
            }
        }
    }
}

/// What `contract_deployed` does: only the node named by the contract's id
/// may call it, and never on a cancelled contract. The workload becomes
/// deployed, the horizon is recomputed outright from the escrow balance,
/// the claim clock starts now, and the id is re-indexed.
pub open spec fn spec_contract_deployed(v: MarketV, caller: AccountId, id: u64, now_ms: u64) -> (
    MarketV,
    Result<(), Error>,
) {
    if !contract_exists(v, id) {
        (v, Err(Error::ContractNotExists))
    } else {
        let c = v.contracts[id as int];
        if spec_node_account(c.node_id) != Some(caller) {
            (v, Err(Error::UnauthorizedNode))
        } else if c.workload_state == WorkloadState::Cancelled {
            (v, Err(Error::ContractCancelled))
        } else {
            match spec_rsu(v.volumes[id as int]) {
                None => (v, Err(Error::InvalidVolume)),
                Some(rsu) => {
                    let pps = spec_price_per_second(spec_price_per_hour(c.resource_prices, rsu));
                    let bal = bal_of(v.balances, c.account_id);
                    let horizon = spec_solvency_seconds(bal, pps);
                    let expires = sat_add64(((now_ms as int) / 1000) as u64, horizon);
                    let idx1 = if c.expires_at > 0 {
                        index_remove(v.expirations, c.expires_at, id)
                    } else {
                        v.expirations
                    };
                    let idx2 = if expires > 0 {
                        index_add(idx1, expires, id)
                    } else {
                        idx1
                    };
                    let c2 = ContractV {
                        workload_state: WorkloadState::Deployed,
                        expires_at: expires,
                        last_claimed: now_ms,
                        ..c
                    };
                    (
                        MarketV {
                            contracts: v.contracts.update(id as int, c2),
                            states: v.states.update(id as int, WorkloadState::Deployed),
                            expirations: idx2,
                            events: v.events.push(EventV::ContractDeployed(c.node_id, id)),
                            ..v
                        },
                        Ok(()),
                    )
                },
            }
        }
    }
}

/// What `contract_cancelled` does: only the node named by the contract's
/// id may call it. The workload becomes cancelled and leaves the index;
/// nothing is refunded here.
pub open spec fn spec_contract_cancelled(v: MarketV, caller: AccountId, id: u64) -> (
    MarketV,
    Result<(), Error>,
) {
    if !contract_exists(v, id) {
        (v, Err(Error::ContractNotExists))
    } else {
        let c = v.contracts[id as int];
        if spec_node_account(c.node_id) != Some(caller) {
            (v, Err(Error::UnauthorizedNode))
        } else {
            let c2 = ContractV { workload_state: WorkloadState::Cancelled, ..c };
            let idx = if c.expires_at > 0 {
                index_remove(v.expirations, c.expires_at, id)
            } else {
                v.expirations
            };
            (
                MarketV {
                    contracts: v.contracts.update(id as int, c2),
                    states: v.states.update(id as int, WorkloadState::Cancelled),
                    expirations: idx,
                    events: v.events.push(EventV::ContractUpdated(c.account_id, id)),
                    ..v
                },
                Ok(()),
            )
        }
    }
}

/// What `cancel_contract` does: only the user who created the contract may
/// cancel it; the whole escrow balance returns to the user, the workload
/// becomes cancelled and leaves the index.
pub open spec fn spec_cancel_contract(v: MarketV, caller: AccountId, id: u64) -> (
    MarketV,
    Result<(), Error>,
) {
    if !contract_exists(v, id) {
        (v, Err(Error::ContractNotExists))
    } else {
        let c = v.contracts[id as int];
        if caller != c.user_account {
            (v, Err(Error::UnauthorizedUser))
        } else {
            let bal = bal_of(v.balances, c.account_id);
            if spec_transfer(v.balances, c.account_id, c.user_account, bal).1 is Err {
                (v, Err(Error::CantMakeTransfer))
            } else {
                let balances2 = spec_transfer(v.balances, c.account_id, c.user_account, bal).0;
                let c2 = ContractV { workload_state: WorkloadState::Cancelled, ..c };
                let idx = if c.expires_at > 0 {
                    index_remove(v.expirations, c.expires_at, id)
                } else {
                    v.expirations
                };
                (
                    MarketV {
                        contracts: v.contracts.update(id as int, c2),
                        states: v.states.update(id as int, WorkloadState::Cancelled),
                        expirations: idx,
                        balances: balances2,
                        events: v.events.push(EventV::ContractCancelled(c.node_id, id)),
                        ..v
                    },
                    Ok(()),
                )
            }
        }
    }
}

/// The whole seconds elapsed between the last claim and now; a clock that
/// ran backwards counts as nothing elapsed.
pub open spec fn spec_elapsed_seconds(last_claimed: u64, now_ms: u64) -> u64 {
    if now_ms >= last_claimed {
        (((now_ms - last_claimed) as int) / 1000) as u64
    } else {
        0
    }
}

/// What `claim_funds` does: only the farmer of a deployed contract may
/// claim, and only once a whole second has elapsed since the last claim.
/// The farmer is paid the elapsed seconds at the contract's rate, clamped
/// to the escrow balance, and the claim clock moves to now.
pub open spec fn spec_claim_funds(v: MarketV, caller: AccountId, id: u64, now_ms: u64) -> (
    MarketV,
    Result<(), Error>,
) {
    if !contract_exists(v, id) {
        (v, Err(Error::ContractNotExists))
    } else {
        let c = v.contracts[id as int];
        if c.workload_state != WorkloadState::Deployed {
            (v, Err(Error::ContractNotDeployed))
        } else if caller != c.farmer_account {
            (v, Err(Error::UnauthorizedFarmer))
        } else {
            match spec_rsu(v.volumes[id as int]) {
                None => (v, Err(Error::InvalidVolume)),
                Some(rsu) => {
                    let elapsed = spec_elapsed_seconds(c.last_claimed, now_ms);
                    if elapsed == 0 {
                        (v, Err(Error::ClaimError))
                    } else {
                        let pps = spec_price_per_second(
                            spec_price_per_hour(c.resource_prices, rsu),
                        );
                        let owed = spec_owed_amount(elapsed, pps);
                        let bal = bal_of(v.balances, c.account_id);
                        let pay_amount = if owed <= bal {
                            owed
                        } else {
                            bal
                        };
                        if spec_transfer(
                            v.balances,
                            c.account_id,
                            c.farmer_account,
                            pay_amount,
                        ).1 is Err {
                            (v, Err(Error::CantMakeTransfer))
                        } else {
                            let balances2 = spec_transfer(
                                v.balances,
                                c.account_id,
                                c.farmer_account,
                                pay_amount,
                            ).0;
                            let c2 = ContractV { last_claimed: now_ms, ..c };
                            (
                                MarketV {
                                    contracts: v.contracts.update(id as int, c2),
                                    balances: balances2,
                                    events: v.events.push(EventV::ContractFundsClaimed(id)),
                                    ..v
                                },
                                Ok(()),
                            )
                        }
                    }
                },
            }
        }
    }
}

impl Marketplace {
    /// Sets a contract's prices and farmer binding; only the configured
    /// oracle account may do so.
    pub fn set_contract_price(
        &mut self,
        caller: AccountId,
        reservation_id: u64,
        resource_prices: ResourcePrice,
        farmer_account: AccountId,
    ) -> (r: Result<(), Error>)
        requires
            old(self).wf(),
        ensures
            final(self).wf(),
            (final(self)@, r) == spec_set_contract_price(
                old(self)@,
                caller,
                reservation_id,
                resource_prices,
                farmer_account,
            ),
    {
        if caller != self.oracle_account {
            return Err(Error::UnauthorizedOracle);
        }
        if reservation_id >= self.contracts.len() as u64 {
            return Err(Error::ContractNotExists);
        }
        let idx = reservation_id as usize;
        let escrow = self.contracts[idx].account_id;
        let mut c2 = self.contracts[idx].duplicate();
        c2.resource_prices = resource_prices;
        c2.farmer_account = farmer_account;
        self.contracts.set(idx, c2);
        self.events.push(Event::ContractUpdated(escrow, reservation_id));
        proof {
            let spec_out = spec_set_contract_price(
                old(self)@,
                caller,
                reservation_id,
                resource_prices,
                farmer_account,
            ).0;
            assert(self.contracts@.map_values(|c: Contract| c@) =~= spec_out.contracts);
            assert(self.events@.map_values(|e: Event| e@) =~= spec_out.events);
            assert(self@ =~= spec_out);
        }
        Ok(())
    }

    /// Accepts a contract; only the farmer bound to it may do so.
    pub fn accept_contract(&mut self, caller: AccountId, reservation_id: u64) -> (r: Result<
        (),
        Error,
    >)
        requires
            old(self).wf(),
        ensures
            final(self).wf(),
            (final(self)@, r) == spec_accept_contract(old(self)@, caller, reservation_id),
    {
        if reservation_id >= self.contracts.len() as u64 {
            return Err(Error::ContractNotExists);
        }
        let idx = reservation_id as usize;
        if !(caller == self.contracts[idx].farmer_account) {
            return Err(Error::UnauthorizedFarmer);
        }
        let node_id = copy_bytes(self.contracts[idx].node_id.as_slice());
        let mut c2 = self.contracts[idx].duplicate();
        c2.accepted = true;
        self.contracts.set(idx, c2);
        self.events.push(Event::ContractAccepted(node_id, reservation_id));
        proof {
            let spec_out = spec_accept_contract(old(self)@, caller, reservation_id).0;
            assert(self.contracts@.map_values(|c: Contract| c@) =~= spec_out.contracts);
            assert(self.events@.map_values(|e: Event| e@) =~= spec_out.events);
            assert(self@ =~= spec_out);
        }
        Ok(())
    }
}

/// A pushed element never hides the others.
proof fn lemma_push_contains(s: Seq<u64>, y: u64)
    ensures
        forall|x: u64| s.contains(x) ==> #[trigger] s.push(y).contains(x),
        s.push(y).contains(y),
{
    assert forall|x: u64| s.contains(x) implies #[trigger] s.push(y).contains(x) by {
        let i = choose|i: int| 0 <= i < s.len() && s[i] == x;
        assert(s.push(y)[i] == x);
    }
    assert(s.push(y)[s.len() as int] == y);
}

/// Re-indexing a live contract keeps the state well formed: the contract
/// at `id` is replaced by `c2` (same escrow, still live), its id leaves
/// the bucket of its old expiration second and joins the bucket of the
/// new one.
proof fn lemma_wf_reindex_live(v: MarketV, id: u64, c2: ContractV, w: MarketV)
    requires
        market_wf(v),
        contract_exists(v, id),
        v.contracts[id as int].workload_state != WorkloadState::Cancelled,
        c2.workload_state != WorkloadState::Cancelled,
        c2.account_id == v.contracts[id as int].account_id,
        w.contracts == v.contracts.update(id as int, c2),
        w.volumes == v.volumes,
        w.states == v.states.update(id as int, c2.workload_state),
        w.expirations == ({
            let c = v.contracts[id as int];
            let idx1 = if c.expires_at > 0 {
                index_remove(v.expirations, c.expires_at, id)
            } else {
                v.expirations
            };
            if c2.expires_at > 0 {
                index_add(idx1, c2.expires_at, id)
            } else {
                idx1
            }
        }),
    ensures
        market_wf(w),
{
    let c = v.contracts[id as int];
    let t_old = c.expires_at;
    let t_new = c2.expires_at;
    let idx1 = if t_old > 0 {
        index_remove(v.expirations, t_old, id)
    } else {
        v.expirations
    };
    if t_old > 0 {
        assert(spec_bucket(v.expirations, t_old).contains(id));
        assert(v.expirations.contains_key(t_old));
        lemma_remove_first_keeps_others(v.expirations[t_old], id);
        lemma_remove_first_distinct(v.expirations[t_old], id);
    }
    // after the removal step, every bucket is duplicate-free, holds only
    // ids other than `id`, and anything else it held before
    assert forall|t: u64, k: int| 0 <= k < spec_bucket(idx1, t).len() implies {
        let x = #[trigger] spec_bucket(idx1, t)[k];
        &&& x != id
        &&& x < v.contracts.len()
        &&& v.contracts[x as int].expires_at == t
        &&& t > 0
        &&& v.contracts[x as int].workload_state != WorkloadState::Cancelled
    } by {
        let x = spec_bucket(idx1, t)[k];
        if t_old > 0 && t == t_old {
            assert(spec_bucket(idx1, t) == remove_first(v.expirations[t_old], id));
            assert(spec_bucket(idx1, t).contains(x));
            if x != id {
                lemma_remove_first_keeps_others(v.expirations[t_old], id);
                assert(spec_bucket(v.expirations, t).contains(x));
                let k0 = choose|k0: int|
                    0 <= k0 < spec_bucket(v.expirations, t).len() && spec_bucket(
                        v.expirations,
                        t,
                    )[k0] == x;
            }
        } else {
            assert(spec_bucket(idx1, t) == spec_bucket(v.expirations, t));
            if x == id {
                assert(v.contracts[id as int].expires_at == t);
                assert(t == t_old && t > 0);
            }
        }
    }
    assert forall|t: u64, k1: int, k2: int|
        0 <= k1 < k2 < spec_bucket(idx1, t).len() implies #[trigger] spec_bucket(idx1, t)[k1]
        != #[trigger] spec_bucket(idx1, t)[k2] by {
        if !(t_old > 0 && t == t_old) {
            assert(spec_bucket(idx1, t) == spec_bucket(v.expirations, t));
        }
    }
    // forward direction survives the removal for every other contract
    assert forall|j: int|
        0 <= j < v.contracts.len() && j != id && (#[trigger] v.contracts[j]).expires_at > 0
            && v.contracts[j].workload_state != WorkloadState::Cancelled implies spec_bucket(
        idx1,
        v.contracts[j].expires_at,
    ).contains(j as u64) by {
        let tj = v.contracts[j].expires_at;
        assert(spec_bucket(v.expirations, tj).contains(j as u64));
        assert(j as u64 != id);
        if t_old > 0 && tj == t_old {
            lemma_remove_first_keeps_others(v.expirations[t_old], id);
        } else {
            assert(spec_bucket(idx1, tj) == spec_bucket(v.expirations, tj));
        }
    }
    // now the addition step
    if t_new > 0 {
        lemma_push_contains(spec_bucket(idx1, t_new), id);
        assert(spec_bucket(w.expirations, t_new) == spec_bucket(idx1, t_new).push(id));
        assert forall|t: u64| t != t_new implies spec_bucket(w.expirations, t) == spec_bucket(
            idx1,
            t,
        ) by {}
        // `id` is not in the bucket it joins
        assert(!spec_bucket(idx1, t_new).contains(id));
    } else {
        assert(w.expirations == idx1);
        // a live contract with no horizon is not indexed anywhere
        assert forall|t: u64| !spec_bucket(idx1, t).contains(id) by {
            if spec_bucket(idx1, t).contains(id) {
                let k = choose|k: int|
                    0 <= k < spec_bucket(idx1, t).len() && spec_bucket(idx1, t)[k] == id;
            }
        }
    }
    // well-formedness of the result, clause by clause
    assert forall|j: int|
        0 <= j < w.contracts.len() && (#[trigger] w.contracts[j]).expires_at > 0
            && w.contracts[j].workload_state != WorkloadState::Cancelled implies spec_bucket(
        w.expirations,
        w.contracts[j].expires_at,
    ).contains(j as u64) by {
        if j == id {
            assert(w.contracts[j] == c2);
            if t_new > 0 {
                lemma_push_contains(spec_bucket(idx1, t_new), id);
            }
        } else {
            let tj = v.contracts[j].expires_at;
            assert(w.contracts[j] == v.contracts[j]);
            assert(spec_bucket(idx1, tj).contains(j as u64));
            if t_new > 0 && tj == t_new {
                lemma_push_contains(spec_bucket(idx1, t_new), j as u64);
            } else if t_new > 0 {
                assert(spec_bucket(w.expirations, tj) == spec_bucket(idx1, tj));
            }
        }
    }
    assert forall|t: u64, k: int| 0 <= k < spec_bucket(w.expirations, t).len() implies {
        let x = #[trigger] spec_bucket(w.expirations, t)[k];
        &&& x < w.contracts.len()
        &&& w.contracts[x as int].expires_at == t
        &&& t > 0
        &&& w.contracts[x as int].workload_state != WorkloadState::Cancelled
    } by {
        let x = spec_bucket(w.expirations, t)[k];
        if t_new > 0 && t == t_new {
            if k < spec_bucket(idx1, t_new).len() {
                assert(x == spec_bucket(idx1, t_new)[k]);
                assert(x != id);
                assert(w.contracts[x as int] == v.contracts[x as int]);
            } else {
                assert(x == id);
                assert(w.contracts[id as int] == c2);
            }
        } else {
            assert(spec_bucket(w.expirations, t) == spec_bucket(idx1, t));
            assert(x != id);
            assert(w.contracts[x as int] == v.contracts[x as int]);
        }
    }
    assert forall|t: u64, k1: int, k2: int|
        0 <= k1 < k2 < spec_bucket(w.expirations, t).len() implies #[trigger] spec_bucket(
        w.expirations,
        t,
    )[k1] != #[trigger] spec_bucket(w.expirations, t)[k2] by {
        if t_new > 0 && t == t_new {
            let b1 = spec_bucket(idx1, t_new);
            if k2 < b1.len() {
            } else {
                assert(spec_bucket(w.expirations, t)[k2] == id);
                assert(spec_bucket(w.expirations, t)[k1] == b1[k1]);
                assert(b1.contains(b1[k1]));
                assert(!b1.contains(id));
            }
        } else {
            assert(spec_bucket(w.expirations, t) == spec_bucket(idx1, t));
        }
    }
}

/// Cancelling a contract keeps the state well formed: the contract at
/// `id` is replaced by `c2`, now cancelled, and its id leaves the index.
proof fn lemma_wf_cancel(v: MarketV, id: u64, c2: ContractV, w: MarketV)
    requires
        market_wf(v),
        contract_exists(v, id),
        c2.workload_state == WorkloadState::Cancelled,
        c2.account_id == v.contracts[id as int].account_id,
        c2.expires_at == v.contracts[id as int].expires_at,
        w.contracts == v.contracts.update(id as int, c2),
        w.volumes == v.volumes,
        w.states == v.states.update(id as int, WorkloadState::Cancelled),
        w.expirations == ({
            let c = v.contracts[id as int];
            if c.expires_at > 0 {
                index_remove(v.expirations, c.expires_at, id)
            } else {
                v.expirations
            }
        }),
    ensures
        market_wf(w),
        forall|t: u64| !spec_bucket(w.expirations, t).contains(id),
{
    let c = v.contracts[id as int];
    let t_old = c.expires_at;
    if t_old > 0 && c.workload_state != WorkloadState::Cancelled {
        assert(spec_bucket(v.expirations, t_old).contains(id));
        assert(v.expirations.contains_key(t_old));
    }
    if t_old > 0 && v.expirations.contains_key(t_old) {
        lemma_remove_first_keeps_others(v.expirations[t_old], id);
        lemma_remove_first_distinct(v.expirations[t_old], id);
    }
    assert forall|t: u64| !spec_bucket(w.expirations, t).contains(id) by {
        if spec_bucket(w.expirations, t).contains(id) {
            let k = choose|k: int|
                0 <= k < spec_bucket(w.expirations, t).len() && spec_bucket(w.expirations, t)[k]
                    == id;
            if t_old > 0 && t == t_old && v.expirations.contains_key(t_old) {
                assert(spec_bucket(w.expirations, t) == remove_first(v.expirations[t_old], id));
            } else {
                assert(spec_bucket(w.expirations, t) == spec_bucket(v.expirations, t));
                assert(v.contracts[id as int].expires_at == t && t == t_old);
            }
        }
    }
    assert forall|j: int|
        0 <= j < w.contracts.len() && (#[trigger] w.contracts[j]).expires_at > 0
            && w.contracts[j].workload_state != WorkloadState::Cancelled implies spec_bucket(
        w.expirations,
        w.contracts[j].expires_at,
    ).contains(j as u64) by {
        if j != id {
            let tj = v.contracts[j].expires_at;
            assert(w.contracts[j] == v.contracts[j]);
            assert(spec_bucket(v.expirations, tj).contains(j as u64));
            assert(j as u64 != id);
            if t_old > 0 && tj == t_old && v.expirations.contains_key(t_old) {
                lemma_remove_first_keeps_others(v.expirations[t_old], id);
            } else {
                assert(spec_bucket(w.expirations, tj) == spec_bucket(v.expirations, tj));
            }
        }
    }
    assert forall|t: u64, k: int| 0 <= k < spec_bucket(w.expirations, t).len() implies {
        let x = #[trigger] spec_bucket(w.expirations, t)[k];
        &&& x < w.contracts.len()
        &&& w.contracts[x as int].expires_at == t
        &&& t > 0
        &&& w.contracts[x as int].workload_state != WorkloadState::Cancelled
    } by {
        let x = spec_bucket(w.expirations, t)[k];
        if t_old > 0 && t == t_old && v.expirations.contains_key(t_old) {
            assert(spec_bucket(w.expirations, t) == remove_first(v.expirations[t_old], id));
            assert(spec_bucket(w.expirations, t).contains(x));
            assert(x != id);
            lemma_remove_first_keeps_others(v.expirations[t_old], id);
            assert(spec_bucket(v.expirations, t).contains(x));
            let k0 = choose|k0: int|
                0 <= k0 < spec_bucket(v.expirations, t).len() && spec_bucket(v.expirations, t)[k0]
                    == x;
            assert(w.contracts[x as int] == v.contracts[x as int]);
        } else {
            assert(spec_bucket(w.expirations, t) == spec_bucket(v.expirations, t));
            assert(x != id);
            assert(w.contracts[x as int] == v.contracts[x as int]);
        }
    }
    assert forall|t: u64, k1: int, k2: int|
        0 <= k1 < k2 < spec_bucket(w.expirations, t).len() implies #[trigger] spec_bucket(
        w.expirations,
        t,
    )[k1] != #[trigger] spec_bucket(w.expirations, t)[k2] by {
        if !(t_old > 0 && t == t_old && v.expirations.contains_key(t_old)) {
            assert(spec_bucket(w.expirations, t) == spec_bucket(v.expirations, t));
        }
    }
}

impl Marketplace {
    /// Funds a contract: moves `amount` from the caller into the escrow.
    /// An already-running horizon is extended by as long as the paid
    /// amount can pay at the contract's rate; a first funding starts the
    /// horizon at now plus as long as the whole escrow balance can pay.
    pub fn pay(&mut self, caller: AccountId, reservation_id: u64, amount: u128, now_ms: u64) -> (
        r: Result<(), Error>)
        requires
            old(self).wf(),
        ensures
            final(self).wf(),
            (final(self)@, r) == spec_pay(old(self)@, caller, reservation_id, amount, now_ms),
    {
        if reservation_id >= self.contracts.len() as u64 {
            return Err(Error::ContractNotExists);
        }
        let idx = reservation_id as usize;
        let escrow = self.contracts[idx].account_id;
        let prices = self.contracts[idx].resource_prices;
        let old_expires = self.contracts[idx].expires_at;
        if self.contracts[idx].workload_state == WorkloadState::Cancelled {
            return Err(Error::ContractCancelled);
        }
        let src = self.balances.balance_of(caller);
        if src < amount {
            return Err(Error::CantMakeTransfer);
        }
        if !(caller == escrow) {
            let dst = self.balances.balance_of(escrow);
            if dst > u128::MAX - amount {
                return Err(Error::CantMakeTransfer);
            }
        }
        let volume = self.volumes[idx];
        let rsu = match volume.get_rsu() {
            Ok(u) => u,
            Err(e) => {
                return Err(e);
            },
        };
        let tr = self.balances.transfer(caller, escrow, amount);
        proof {
            assert(tr is Ok);
        }
        let pph = price_per_hour(&prices, &rsu);
        let pps = price_per_second(pph);
        if old_expires > 0 {
            self.expirations.remove_id(old_expires, reservation_id);
        }
        let expires = if old_expires > 0 {
            sat_add(old_expires, solvency_seconds(amount, pps))
        } else {
            let bal = self.balances.balance_of(escrow);
            sat_add(now_ms / 1000, solvency_seconds(bal, pps))
        };
        if expires > 0 {
            self.expirations.push_id(expires, reservation_id);
        }
        let mut c2 = self.contracts[idx].duplicate();
        c2.expires_at = expires;
        let ghost c2v = c2@;
        self.contracts.set(idx, c2);
        self.events.push(Event::ContractPaid(escrow, reservation_id));
        proof {
            let v = old(self)@;
            let spec_out = spec_pay(v, caller, reservation_id, amount, now_ms).0;
            assert(self.contracts@.map_values(|c: Contract| c@) =~= spec_out.contracts);
            assert(self.events@.map_values(|e: Event| e@) =~= spec_out.events);
            assert(self@ =~= spec_out);
            assert(self@.states =~= v.states.update(reservation_id as int, c2v.workload_state));
            lemma_wf_reindex_live(v, reservation_id, c2v, self@);
        }
        Ok(())
    }

    /// Marks a contract's workload deployed: only the node whose key the
    /// contract's id encodes may call it, and never once it is cancelled.
    /// The horizon is recomputed outright from the escrow balance and the
    /// claim clock starts now.
    pub fn contract_deployed(&mut self, caller: AccountId, reservation_id: u64, now_ms: u64) -> (
        r: Result<(), Error>)
        requires
            old(self).wf(),
        ensures
            final(self).wf(),
            (final(self)@, r) == spec_contract_deployed(old(self)@, caller, reservation_id, now_ms),
    {
        if reservation_id >= self.contracts.len() as u64 {
            return Err(Error::ContractNotExists);
        }
        let idx = reservation_id as usize;
        let authorized = match node_account(&self.contracts[idx].node_id) {
            Some(a) => a == caller,
            None => false,
        };
        if !authorized {
            return Err(Error::UnauthorizedNode);
        }
        if self.contracts[idx].workload_state == WorkloadState::Cancelled {
            return Err(Error::ContractCancelled);
        }
        let escrow = self.contracts[idx].account_id;
        let prices = self.contracts[idx].resource_prices;
        let old_expires = self.contracts[idx].expires_at;
        let volume = self.volumes[idx];
        let rsu = match volume.get_rsu() {
            Ok(u) => u,
            Err(e) => {
                return Err(e);
            },
        };
        let pph = price_per_hour(&prices, &rsu);
        let pps = price_per_second(pph);
        let bal = self.balances.balance_of(escrow);
        let horizon = solvency_seconds(bal, pps);
        if old_expires > 0 {
            self.expirations.remove_id(old_expires, reservation_id);
        }
        let expires = sat_add(now_ms / 1000, horizon);
        if expires > 0 {
            self.expirations.push_id(expires, reservation_id);
        }
        let node_id = copy_bytes(self.contracts[idx].node_id.as_slice());
        let mut c2 = self.contracts[idx].duplicate();
        c2.workload_state = WorkloadState::Deployed;
        c2.expires_at = expires;
        c2.last_claimed = now_ms;
        let ghost c2v = c2@;
        self.contracts.set(idx, c2);
        self.states.set(idx, WorkloadState::Deployed);
        self.events.push(Event::ContractDeployed(node_id, reservation_id));
        proof {
            let v = old(self)@;
            let spec_out = spec_contract_deployed(v, caller, reservation_id, now_ms).0;
            assert(self.contracts@.map_values(|c: Contract| c@) =~= spec_out.contracts);
            assert(self.events@.map_values(|e: Event| e@) =~= spec_out.events);
            assert(self@ =~= spec_out);
            lemma_wf_reindex_live(v, reservation_id, c2v, self@);
        }
        Ok(())
    }

    /// Marks a contract's workload cancelled on behalf of its node; the id
    /// leaves the expiration index, and nothing is refunded here.
    pub fn contract_cancelled(&mut self, caller: AccountId, reservation_id: u64) -> (r: Result<
        (),
        Error,
    >)
        requires
            old(self).wf(),
        ensures
            final(self).wf(),
            (final(self)@, r) == spec_contract_cancelled(old(self)@, caller, reservation_id),
    {
        if reservation_id >= self.contracts.len() as u64 {
            return Err(Error::ContractNotExists);
        }
        let idx = reservation_id as usize;
        let authorized = match node_account(&self.contracts[idx].node_id) {
            Some(a) => a == caller,
            None => false,
        };
        if !authorized {
            return Err(Error::UnauthorizedNode);
        }
        let escrow = self.contracts[idx].account_id;
        let old_expires = self.contracts[idx].expires_at;
        if old_expires > 0 {
            self.expirations.remove_id(old_expires, reservation_id);
        }
        let mut c2 = self.contracts[idx].duplicate();
        c2.workload_state = WorkloadState::Cancelled;
        let ghost c2v = c2@;
        self.contracts.set(idx, c2);
        self.states.set(idx, WorkloadState::Cancelled);
        self.events.push(Event::ContractUpdated(escrow, reservation_id));
        proof {
            let v = old(self)@;
            let spec_out = spec_contract_cancelled(v, caller, reservation_id).0;
            assert(self.contracts@.map_values(|c: Contract| c@) =~= spec_out.contracts);
            assert(self.events@.map_values(|e: Event| e@) =~= spec_out.events);
            assert(self@ =~= spec_out);
            lemma_wf_cancel(v, reservation_id, c2v, self@);
        }
        Ok(())
    }

    /// Cancels a contract on behalf of the user who created it: the whole
    /// escrow balance returns to the user, the workload is cancelled, and
    /// the id leaves the expiration index.
    pub fn cancel_contract(&mut self, caller: AccountId, reservation_id: u64) -> (r: Result<
        (),
        Error,
    >)
        requires
            old(self).wf(),
        ensures
            final(self).wf(),
            (final(self)@, r) == spec_cancel_contract(old(self)@, caller, reservation_id),
    {
        if reservation_id >= self.contracts.len() as u64 {
            return Err(Error::ContractNotExists);
        }
        let idx = reservation_id as usize;
        if !(caller == self.contracts[idx].user_account) {
            return Err(Error::UnauthorizedUser);
        }
        let escrow = self.contracts[idx].account_id;
        let user = self.contracts[idx].user_account;
        let bal = self.balances.balance_of(escrow);
        if !(escrow == user) {
            let dst = self.balances.balance_of(user);
            if dst > u128::MAX - bal {
                return Err(Error::CantMakeTransfer);
            }
        }
        let tr = self.balances.transfer(escrow, user, bal);
        proof {
            assert(tr is Ok);
        }
        let old_expires = self.contracts[idx].expires_at;
        if old_expires > 0 {
            self.expirations.remove_id(old_expires, reservation_id);
        }
        let node_id = copy_bytes(self.contracts[idx].node_id.as_slice());
        let mut c2 = self.contracts[idx].duplicate();
        c2.workload_state = WorkloadState::Cancelled;
        let ghost c2v = c2@;
        self.contracts.set(idx, c2);
        self.states.set(idx, WorkloadState::Cancelled);
        self.events.push(Event::ContractCancelled(node_id, reservation_id));
        proof {
            let v = old(self)@;
            let spec_out = spec_cancel_contract(v, caller, reservation_id).0;
            assert(self.contracts@.map_values(|c: Contract| c@) =~= spec_out.contracts);
            assert(self.events@.map_values(|e: Event| e@) =~= spec_out.events);
            assert(self@ =~= spec_out);
            lemma_wf_cancel(v, reservation_id, c2v, self@);
        }
        Ok(())
    }

    /// Pays the farmer of a deployed contract for the whole seconds
    /// elapsed since the last claim, clamped to the escrow balance, and
    /// restarts the claim clock.
    pub fn claim_funds(&mut self, caller: AccountId, reservation_id: u64, now_ms: u64) -> (
        r: Result<(), Error>)
        requires
            old(self).wf(),
        ensures
            final(self).wf(),
            (final(self)@, r) == spec_claim_funds(old(self)@, caller, reservation_id, now_ms),
    {
        if reservation_id >= self.contracts.len() as u64 {
            return Err(Error::ContractNotExists);
        }
        let idx = reservation_id as usize;
        if !(self.contracts[idx].workload_state == WorkloadState::Deployed) {
            return Err(Error::ContractNotDeployed);
        }
        if !(caller == self.contracts[idx].farmer_account) {
            return Err(Error::UnauthorizedFarmer);
        }
        let escrow = self.contracts[idx].account_id;
        let farmer = self.contracts[idx].farmer_account;
        let prices = self.contracts[idx].resource_prices;
        let last_claimed = self.contracts[idx].last_claimed;
        let volume = self.volumes[idx];
        let rsu = match volume.get_rsu() {
            Ok(u) => u,
            Err(e) => {
                return Err(e);
            },
        };
        let elapsed: u64 = if now_ms >= last_claimed {
            (now_ms - last_claimed) / 1000
        } else {
            0
        };
        if elapsed == 0 {
            return Err(Error::ClaimError);
        }
        let pph = price_per_hour(&prices, &rsu);
        let pps = price_per_second(pph);
        let owed = owed_amount(elapsed, pps);
        let bal = self.balances.balance_of(escrow);
        let pay_amount = if owed <= bal {
            owed
        } else {
            bal
        };
        if !(escrow == farmer) {
            let dst = self.balances.balance_of(farmer);
            if dst > u128::MAX - pay_amount {
                return Err(Error::CantMakeTransfer);
            }
        }
        let tr = self.balances.transfer(escrow, farmer, pay_amount);
        proof {
            assert(tr is Ok);
        }
        let mut c2 = self.contracts[idx].duplicate();
        c2.last_claimed = now_ms;
        self.contracts.set(idx, c2);
        self.events.push(Event::ContractFundsClaimed(reservation_id));
        proof {
            let v = old(self)@;
            let spec_out = spec_claim_funds(v, caller, reservation_id, now_ms).0;
            assert(self.contracts@.map_values(|c: Contract| c@) =~= spec_out.contracts);
            assert(self.events@.map_values(|e: Event| e@) =~= spec_out.events);
            assert(self@ =~= spec_out);
        }
        Ok(())
    }
}

/// What decommissioning does: the whole escrow balance goes to the
/// farmer, the workload is cancelled, and the id leaves the expiration
/// index. A transfer that cannot be made leaves the state untouched.
pub open spec fn spec_decommission(v: MarketV, id: u64) -> (MarketV, Result<(), Error>) {
    if !contract_exists(v, id) {
        (v, Err(Error::ContractNotExists))
    } else {
        let c = v.contracts[id as int];
        let bal = bal_of(v.balances, c.account_id);
        if spec_transfer(v.balances, c.account_id, c.farmer_account, bal).1 is Err {
            (v, Err(Error::CantMakeTransfer))
        } else {
            let balances2 = spec_transfer(v.balances, c.account_id, c.farmer_account, bal).0;
            let c2 = ContractV { workload_state: WorkloadState::Cancelled, ..c };
            let idx = if c.expires_at > 0 {
                index_remove(v.expirations, c.expires_at, id)
            } else {
                v.expirations
            };
            (
                MarketV {
                    contracts: v.contracts.update(id as int, c2),
                    states: v.states.update(id as int, WorkloadState::Cancelled),
                    expirations: idx,
                    balances: balances2,
                    events: v.events.push(EventV::ContractCancelled(c.node_id, id)),
                    ..v
                },
                Ok(()),
            )
        }
    }
}

/// Decommissioning each listed id in turn; an id whose decommission fails
/// is skipped and the sweep goes on.
pub open spec fn spec_sweep_ids(v: MarketV, ids: Seq<u64>) -> MarketV
    decreases ids.len(),
{
    if ids.len() == 0 {
        v
    } else {
        spec_sweep_ids(spec_decommission(v, ids[0]).0, ids.drop_first())
    }
}

/// Sweeping every second from `t` (inclusive) to `now` (exclusive): each
/// second's bucket is snapshotted and its ids decommissioned.
pub open spec fn spec_sweep_range(v: MarketV, t: u64, now: u64) -> MarketV
    decreases now - t,
{
    if t >= now {
        v
    } else {
        spec_sweep_range(spec_sweep_ids(v, spec_bucket(v.expirations, t)), (t + 1) as u64, now)
    }
}

/// What finalization does: on the first block, or before any sweep has
/// run, it only records the time; afterwards it sweeps every second since
/// the previous block and records the time.
pub open spec fn spec_on_finalize(v: MarketV, block_number: u64, now_ms: u64) -> MarketV {
    let now = ((now_ms as int) / 1000) as u64;
    if block_number <= 1 || v.last_block_time == 0 {
        MarketV { last_block_time: now, ..v }
    } else {
        MarketV { last_block_time: now, ..spec_sweep_range(v, v.last_block_time, now) }
    }
}

/// Decommissioning keeps the state well formed.
pub proof fn lemma_decommission_wf(v: MarketV, id: u64)
    requires
        market_wf(v),
    ensures
        market_wf(spec_decommission(v, id).0),
{
    if contract_exists(v, id) {
        let c = v.contracts[id as int];
        let bal = bal_of(v.balances, c.account_id);
        if !(spec_transfer(v.balances, c.account_id, c.farmer_account, bal).1 is Err) {
            let c2 = ContractV { workload_state: WorkloadState::Cancelled, ..c };
            lemma_wf_cancel(v, id, c2, spec_decommission(v, id).0);
        }
    }
}

/// Sweeping a list of ids keeps the state well formed.
proof fn lemma_sweep_ids_wf(v: MarketV, ids: Seq<u64>)
    requires
        market_wf(v),
    ensures
        market_wf(spec_sweep_ids(v, ids)),
    decreases ids.len(),
{
    if ids.len() > 0 {
        lemma_decommission_wf(v, ids[0]);
        lemma_sweep_ids_wf(spec_decommission(v, ids[0]).0, ids.drop_first());
    }
}

impl Marketplace {
    /// Decommissions one contract: pays the remaining escrow out to the
    /// farmer, cancels the workload and unindexes the id.
    pub fn decommission_contract(&mut self, reservation_id: u64) -> (r: Result<(), Error>)
        requires
            old(self).wf(),
        ensures
            final(self).wf(),
            (final(self)@, r) == spec_decommission(old(self)@, reservation_id),
    {
        if reservation_id >= self.contracts.len() as u64 {
            return Err(Error::ContractNotExists);
        }
        let idx = reservation_id as usize;
        let escrow = self.contracts[idx].account_id;
        let farmer = self.contracts[idx].farmer_account;
        let bal = self.balances.balance_of(escrow);
        if !(escrow == farmer) {
            let dst = self.balances.balance_of(farmer);
            if dst > u128::MAX - bal {
                return Err(Error::CantMakeTransfer);
            }
        }
        let tr = self.balances.transfer(escrow, farmer, bal);
        proof {
            assert(tr is Ok);
        }
        let old_expires = self.contracts[idx].expires_at;
        if old_expires > 0 {
            self.expirations.remove_id(old_expires, reservation_id);
        }
        let node_id = copy_bytes(self.contracts[idx].node_id.as_slice());
        let mut c2 = self.contracts[idx].duplicate();
        c2.workload_state = WorkloadState::Cancelled;
        let ghost c2v = c2@;
        self.contracts.set(idx, c2);
        self.states.set(idx, WorkloadState::Cancelled);
        self.events.push(Event::ContractCancelled(node_id, reservation_id));
        proof {
            let v = old(self)@;
            let spec_out = spec_decommission(v, reservation_id).0;
            assert(self.contracts@.map_values(|c: Contract| c@) =~= spec_out.contracts);
            assert(self.events@.map_values(|e: Event| e@) =~= spec_out.events);
            assert(self@ =~= spec_out);
            lemma_wf_cancel(v, reservation_id, c2v, self@);
        }
        Ok(())
    }

    /// Runs at the end of each block: records the time on the first block,
    /// and afterwards decommissions every contract whose expiration second
    /// fell since the previous block.
    pub fn on_finalize(&mut self, block_number: u64, now_ms: u64)
        requires
            old(self).wf(),
        ensures
            final(self).wf(),
            final(self)@ == spec_on_finalize(old(self)@, block_number, now_ms),
    {
        let now: u64 = now_ms / 1000;
        if block_number <= 1 || self.last_block_time == 0 {
            self.last_block_time = now;
            proof {
                assert(self@ =~= spec_on_finalize(old(self)@, block_number, now_ms));
            }
            return ;
        }
        let ghost v0 = self@;
        let last = self.last_block_time;
        let mut t: u64 = last;
        while t < now
            invariant
                self.wf(),
                last <= t,
                t <= now || t == last,
                spec_sweep_range(v0, last, now) == spec_sweep_range(self@, t, now),
            decreases now - t,
        {
            let ghost v_t = self@;
            let ids = self.expirations.bucket(t);
            proof {
                assert(ids@.skip(0) =~= ids@);
            }
            let n = ids.len();
            let mut k: usize = 0;
            while k < n
                invariant
                    self.wf(),
                    n == ids@.len(),
                    0 <= k <= n,
                    spec_sweep_ids(v_t, ids@) == spec_sweep_ids(self@, ids@.skip(k as int)),
                decreases n - k,
            {
                let ghost pre = self@;
                let _ = self.decommission_contract(ids[k]);
                proof {
                    assert(ids@.skip(k as int)[0] == ids@[k as int]);
                    assert(ids@.skip(k as int).drop_first() =~= ids@.skip(k + 1));
                }
                k = k + 1;
            }
            proof {
                assert(ids@.skip(n as int) =~= Seq::<u64>::empty());
                assert(spec_sweep_ids(self@, ids@.skip(n as int)) == self@);
                assert(spec_sweep_range(v_t, t, now) == spec_sweep_range(self@, (t + 1) as u64, now));
            }
            t = t + 1;
        }
        self.last_block_time = now;
        proof {
            assert(spec_sweep_range(v0, last, now) == spec_sweep_range(v0, v0.last_block_time, now));
            assert(self@ =~= spec_on_finalize(old(self)@, block_number, now_ms));
        }
    }
}

impl Event {
    /// An exact copy of the event.
    pub fn duplicate(&self) -> (r: Event)
        ensures
            r@ == self@,
    {
        match self {
            Event::ContractAdded(a, n, id) => Event::ContractAdded(*a, copy_bytes(n.as_slice()), *id),
            Event::ContractPaid(a, id) => Event::ContractPaid(*a, *id),
            Event::ContractUpdated(a, id) => Event::ContractUpdated(*a, *id),
            Event::ContractDeployed(n, id) => Event::ContractDeployed(copy_bytes(n.as_slice()), *id),
            Event::ContractCancelled(n, id) => Event::ContractCancelled(
                copy_bytes(n.as_slice()),
                *id,
            ),
            Event::ContractAccepted(n, id) => Event::ContractAccepted(copy_bytes(n.as_slice()), *id),
            Event::ContractFundsClaimed(id) => Event::ContractFundsClaimed(*id),
        }
    }
}

impl Marketplace {
    /// The contract stored under a reservation id, if any.
    pub fn contracts(&self, reservation_id: u64) -> (r: Option<Contract>)
        ensures
            r matches Some(c) ==> contract_exists(self@, reservation_id) && c@
                == self@.contracts[reservation_id as int],
            r is None ==> !contract_exists(self@, reservation_id),
    {
        if reservation_id >= self.contracts.len() as u64 {
            None
        } else {
            Some(self.contracts[reservation_id as usize].duplicate())
        }
    }

    /// The volume reserved under a reservation id, if any.
    pub fn volume_reservations(&self, reservation_id: u64) -> (r: Option<VolumeType>)
        requires
            self.wf(),
        ensures
            r matches Some(v) ==> contract_exists(self@, reservation_id) && v
                == self@.volumes[reservation_id as int],
            r is None ==> !contract_exists(self@, reservation_id),
    {
        if reservation_id >= self.contracts.len() as u64 {
            None
        } else {
            Some(self.volumes[reservation_id as usize])
        }
    }

    /// The recorded workload state of a reservation, if any.
    pub fn reservation_state(&self, reservation_id: u64) -> (r: Option<WorkloadState>)
        requires
            self.wf(),
        ensures
            r matches Some(w) ==> contract_exists(self@, reservation_id) && w
                == self@.states[reservation_id as int],
            r is None ==> !contract_exists(self@, reservation_id),
    {
        if reservation_id >= self.contracts.len() as u64 {
            None
        } else {
            Some(self.states[reservation_id as usize])
        }
    }

    /// The reservations an account has created, in creation order.
    pub fn reservations_for_account(&self, account: AccountId) -> (r: Vec<u64>)
        requires
            self.wf(),
        ensures
            r@ == spec_reservations(self@.reservations, account),
    {
        self.reservations.reservations(account)
    }

    /// The reservations expiring at the given unix second.
    pub fn contracts_per_expiration(&self, second: u64) -> (r: Vec<u64>)
        requires
            self.wf(),
        ensures
            r@ == spec_bucket(self@.expirations, second),
    {
        self.expirations.bucket(second)
    }

    /// The time recorded at the previous block's finalization.
    pub fn last_block_time(&self) -> (r: u64)
        ensures
            r == self@.last_block_time,
    {
        self.last_block_time
    }

    /// How many events have been emitted.
    pub fn event_count(&self) -> (r: usize)
        ensures
            r == self@.events.len(),
    {
        self.events.len()
    }

    /// The event at the given position, if any.
    pub fn event_at(&self, i: usize) -> (r: Option<Event>)
        ensures
            r matches Some(e) ==> i < self@.events.len() && e@ == self@.events[i as int],
            r is None ==> i >= self@.events.len(),
    {
        if i >= self.events.len() {
            None
        } else {
            Some(self.events[i].duplicate())
        }
    }
}

} // verus!
