//! The contract wire format: runtime round trips, and a cross-check of
//! the bytes against the reference SCALE codec.

use compute_market::account::AccountId;
use compute_market::market::{Contract, WorkloadState};
use compute_market::pricing::ResourcePrice;
use compute_market::scale::{decode_contract, encode_contract};
use parity_scale_codec::Encode;

fn sample_contract(node_id: Vec<u8>) -> Contract {
    Contract {
        resource_prices: ResourcePrice { currency: 1, sru: 10, hru: 20, cru: 30, nru: 40, mru: 50 },
        account_id: AccountId { w0: 0x1111, w1: 0x2222, w2: 0x3333, w3: 0x4444 },
        node_id,
        farmer_account: AccountId { w0: 5, w1: 6, w2: 7, w3: 8 },
        user_account: AccountId { w0: 9, w1: 10, w2: 11, w3: 12 },
        accepted: true,
        workload_state: WorkloadState::Deployed,
        expires_at: 0xdead_beef,
        last_claimed: 0x1234_5678_9abc_def0,
    }
}

fn account_bytes(a: &AccountId) -> [u8; 32] {
    let mut out = [0u8; 32];
    out[0..8].copy_from_slice(&a.w0.to_le_bytes());
    out[8..16].copy_from_slice(&a.w1.to_le_bytes());
    out[16..24].copy_from_slice(&a.w2.to_le_bytes());
    out[24..32].copy_from_slice(&a.w3.to_le_bytes());
    out
}

fn reference_encoding(c: &Contract) -> Vec<u8> {
    let p = &c.resource_prices;
    let state: u8 = match c.workload_state {
        WorkloadState::Created => 0,
        WorkloadState::Deployed => 1,
        WorkloadState::Cancelled => 2,
    };
    (
        (p.currency, p.sru, p.hru, p.cru, p.nru, p.mru),
        account_bytes(&c.account_id),
        c.node_id.clone(),
        account_bytes(&c.farmer_account),
        account_bytes(&c.user_account),
        c.accepted,
        state,
        c.expires_at,
        c.last_claimed,
    )
        .encode()
}

#[test]
fn wire_form_matches_reference_codec() {
    let c = sample_contract(vec![1, 2, 3]);
    assert_eq!(encode_contract(&c).unwrap(), reference_encoding(&c));
    // a node id long enough for a two-byte length prefix
    let long: Vec<u8> = (0..300u32).map(|i| (i % 251) as u8).collect();
    let c = sample_contract(long);
    assert_eq!(encode_contract(&c).unwrap(), reference_encoding(&c));
    let c = sample_contract(Vec::new());
    assert_eq!(encode_contract(&c).unwrap(), reference_encoding(&c));
}

#[test]
fn contract_round_trips() {
    for node in [Vec::new(), vec![7u8], (0..100u8).collect::<Vec<u8>>()] {
        let c = sample_contract(node);
        let bytes = encode_contract(&c).unwrap();
        let d = decode_contract(&bytes).unwrap();
        assert_eq!(d.resource_prices, c.resource_prices);
        assert_eq!(d.account_id, c.account_id);
        assert_eq!(d.node_id, c.node_id);
        assert_eq!(d.farmer_account, c.farmer_account);
        assert_eq!(d.user_account, c.user_account);
        assert_eq!(d.accepted, c.accepted);
        assert_eq!(d.workload_state, c.workload_state);
        assert_eq!(d.expires_at, c.expires_at);
        assert_eq!(d.last_claimed, c.last_claimed);
    }
}

#[test]
fn malformed_wire_forms_are_refused() {
    let c = sample_contract(vec![1, 2, 3]);
    let bytes = encode_contract(&c).unwrap();
    // truncation, a trailing byte, or a bad state index all fail
    assert!(decode_contract(&bytes[..bytes.len() - 1]).is_none());
    let mut extra = bytes.clone();
    extra.push(0);
    assert!(decode_contract(&extra).is_none());
    let mut bad_state = bytes.clone();
    let state_pos = bytes.len() - 17;
    bad_state[state_pos] = 9;
    assert!(decode_contract(&bad_state).is_none());
    assert!(decode_contract(&[]).is_none());
}
