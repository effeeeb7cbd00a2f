//! The wire form of a contract: little-endian words, a compact length
//! prefix for the node id, one byte for flags and state — and the proof
//! that writing a contract and reading it back is the identity.

use vstd::prelude::*;

use crate::account::AccountId;
use crate::market::{Contract, ContractV, WorkloadState};
use crate::pricing::ResourcePrice;

verus! {

/// The power of 256 with the given exponent, up to the eighth.
pub open spec fn byte_scale(i: int) -> int {
    if i <= 0 {
        1
    } else if i == 1 {
        0x100
    } else if i == 2 {
        0x10000
    } else if i == 3 {
        0x1000000
    } else if i == 4 {
        0x100000000
    } else if i == 5 {
        0x10000000000
    } else if i == 6 {
        0x1000000000000
    } else {
        0x100000000000000
    }
}

/// A 64-bit word as eight little-endian bytes.
pub open spec fn le64(n: u64) -> Seq<u8> {
    Seq::new(8, |i: int| ((n as int / byte_scale(i)) % 256) as u8)
}

/// The value of eight little-endian bytes at `pos`.
pub open spec fn le64_at(s: Seq<u8>, pos: int) -> u64
    recommends
        0 <= pos,
        pos + 8 <= s.len(),
{
    (s[pos] + s[pos + 1] * 0x100 + s[pos + 2] * 0x10000 + s[pos + 3] * 0x1000000 + s[pos + 4]
        * 0x100000000 + s[pos + 5] * 0x10000000000 + s[pos + 6] * 0x1000000000000 + s[pos + 7]
        * 0x100000000000000) as u64
}

/// A 32-byte account as its four words, little-endian.
pub open spec fn enc_account(a: AccountId) -> Seq<u8> {
    le64(a.w0) + le64(a.w1) + le64(a.w2) + le64(a.w3)
}

/// A compact length prefix: two low bits give the width of the prefix
/// itself, the rest carry the value.
pub open spec fn enc_compact(n: u64) -> Seq<u8>
    recommends
        n <= u32::MAX,
{
    if n < 0x40 {
        seq![(n * 4) as u8]
    } else if n < 0x4000 {
        let v = n * 4 + 1;
        seq![(v % 256) as u8, (v / 256) as u8]
    } else if n < 0x40000000 {
        let v = n * 4 + 2;
        seq![
            (v % 256) as u8,
            ((v / 0x100) % 256) as u8,
            ((v / 0x10000) % 256) as u8,
            (v / 0x1000000) as u8,
        ]
    } else {
        seq![
            3u8,
            (n % 256) as u8,
            ((n / 0x100) % 256) as u8,
            ((n / 0x10000) % 256) as u8,
            (n / 0x1000000) as u8,
        ]
    }
}

/// A byte string: its compact length, then its bytes.
pub open spec fn enc_bytes(s: Seq<u8>) -> Seq<u8>
    recommends
        s.len() <= u32::MAX,
{
    enc_compact(s.len() as u64) + s
}

/// A flag as one byte.
pub open spec fn enc_bool(b: bool) -> Seq<u8> {
    seq![if b {
            1u8
        } else {
            0u8
        }]
}

/// A workload state as its variant index.
pub open spec fn enc_state(s: WorkloadState) -> Seq<u8> {
    match s {
        WorkloadState::Created => seq![0u8],
        WorkloadState::Deployed => seq![1u8],
        WorkloadState::Cancelled => seq![2u8],
    }
}

/// A price record: its six words in declared order.
pub open spec fn enc_prices(p: ResourcePrice) -> Seq<u8> {
    le64(p.currency) + le64(p.sru) + le64(p.hru) + le64(p.cru) + le64(p.nru) + le64(p.mru)
}

/// The head of a contract's wire form: prices, then the escrow account.
pub open spec fn enc_head(c: ContractV) -> Seq<u8> {
    enc_prices(c.resource_prices) + enc_account(c.account_id)
}

/// The middle of a contract's wire form: the node id, the farmer and the
/// user.
pub open spec fn enc_mid(c: ContractV) -> Seq<u8>
    recommends
        c.node_id.len() <= u32::MAX,
{
    enc_bytes(c.node_id) + enc_account(c.farmer_account) + enc_account(c.user_account)
}

/// The tail of a contract's wire form: the acceptance flag, the state and
/// the two clocks.
pub open spec fn enc_tail(c: ContractV) -> Seq<u8> {
    enc_bool(c.accepted) + enc_state(c.workload_state) + le64(c.expires_at) + le64(c.last_claimed)
}

/// The wire form of a contract: each field in declared order.
pub open spec fn spec_encode_contract(c: ContractV) -> Seq<u8>
    recommends
        c.node_id.len() <= u32::MAX,
{
    enc_head(c) + enc_mid(c) + enc_tail(c)
}

/// Reading a word: eight little-endian bytes.
pub open spec fn dec_u64(s: Seq<u8>, pos: int) -> Option<(u64, int)> {
    if 0 <= pos && pos + 8 <= s.len() {
        Some((le64_at(s, pos), pos + 8))
    } else {
        None
    }
}

/// Reading an account: four words.
pub open spec fn dec_account(s: Seq<u8>, pos: int) -> Option<(AccountId, int)> {
    if 0 <= pos && pos + 32 <= s.len() {
        Some(
            (
                AccountId {
                    w0: le64_at(s, pos),
                    w1: le64_at(s, pos + 8),
                    w2: le64_at(s, pos + 16),
                    w3: le64_at(s, pos + 24),
                },
                pos + 32,
            ),
        )
    } else {
        None
    }
}

/// Reading a compact length prefix.
pub open spec fn dec_compact(s: Seq<u8>, pos: int) -> Option<(u64, int)> {
    if 0 <= pos && pos < s.len() {
        let mode = s[pos] % 4;
        if mode == 0 {
            Some(((s[pos] / 4) as u64, pos + 1))
        } else if mode == 1 {
            if pos + 2 <= s.len() {
                Some((((s[pos] + s[pos + 1] * 0x100) / 4) as u64, pos + 2))
            } else {
                None
            }
        } else if mode == 2 {
            if pos + 4 <= s.len() {
                Some(
                    (
                        ((s[pos] + s[pos + 1] * 0x100 + s[pos + 2] * 0x10000 + s[pos + 3]
                            * 0x1000000) / 4) as u64,
                        pos + 4,
                    ),
                )
            } else {
                None
            }
        } else {
            if s[pos] == 3 && pos + 5 <= s.len() {
                Some(
                    (
                        (s[pos + 1] + s[pos + 2] * 0x100 + s[pos + 3] * 0x10000 + s[pos + 4]
                            * 0x1000000) as u64,
                        pos + 5,
                    ),
                )
            } else {
                None
            }
        }
    } else {
        None
    }
}

/// Reading a byte string: its length, then that many bytes.
pub open spec fn dec_bytes(s: Seq<u8>, pos: int) -> Option<(Seq<u8>, int)> {
    match dec_compact(s, pos) {
        None => None,
        Some((n, p2)) => {
            if p2 + n <= s.len() {
                Some((s.subrange(p2, p2 + n), p2 + n))
            } else {
                None
            }
        },
    }
}

/// Reading a flag.
pub open spec fn dec_bool(s: Seq<u8>, pos: int) -> Option<(bool, int)> {
    if 0 <= pos && pos < s.len() {
        if s[pos] == 0 {
            Some((false, pos + 1))
        } else if s[pos] == 1 {
            Some((true, pos + 1))
        } else {
            None
        }
    } else {
        None
    }
}

/// Reading a workload state.
pub open spec fn dec_state(s: Seq<u8>, pos: int) -> Option<(WorkloadState, int)> {
    if 0 <= pos && pos < s.len() {
        if s[pos] == 0 {
            Some((WorkloadState::Created, pos + 1))
        } else if s[pos] == 1 {
            Some((WorkloadState::Deployed, pos + 1))
        } else if s[pos] == 2 {
            Some((WorkloadState::Cancelled, pos + 1))
        } else {
            None
        }
    } else {
        None
    }
}

/// Reading a price record.
pub open spec fn dec_prices(s: Seq<u8>, pos: int) -> Option<(ResourcePrice, int)> {
    if 0 <= pos && pos + 48 <= s.len() {
        Some(
            (
                ResourcePrice {
                    currency: le64_at(s, pos),
                    sru: le64_at(s, pos + 8),
                    hru: le64_at(s, pos + 16),
                    cru: le64_at(s, pos + 24),
                    nru: le64_at(s, pos + 32),
                    mru: le64_at(s, pos + 40),
                },
                pos + 48,
            ),
        )
    } else {
        None
    }
}

/// Reading a whole contract; the bytes must be consumed exactly.
pub open spec fn spec_decode_contract(s: Seq<u8>) -> Option<ContractV> {
    match dec_prices(s, 0) {
        None => None,
        Some((prices, p1)) => match dec_account(s, p1) {
            None => None,
            Some((account_id, p2)) => match dec_bytes(s, p2) {
                None => None,
                Some((node_id, p3)) => match dec_account(s, p3) {
                    None => None,
                    Some((farmer, p4)) => match dec_account(s, p4) {
                        None => None,
                        Some((user, p5)) => match dec_bool(s, p5) {
                            None => None,
                            Some((accepted, p6)) => match dec_state(s, p6) {
                                None => None,
                                Some((state, p7)) => match dec_u64(s, p7) {
                                    None => None,
                                    Some((expires_at, p8)) => match dec_u64(s, p8) {
                                        None => None,
                                        Some((last_claimed, p9)) => {
                                            if p9 == s.len() {
                                                Some(
                                                    ContractV {
                                                        resource_prices: prices,
                                                        account_id: account_id,
                                                        node_id: node_id,
                                                        farmer_account: farmer,
                                                        user_account: user,
                                                        accepted: accepted,
                                                        workload_state: state,
                                                        expires_at: expires_at,
                                                        last_claimed: last_claimed,
                                                    },
                                                )
                                            } else {
                                                None
                                            }
                                        },
                                    },
                                },
                            },
                        },
                    },
                },
            },
        },
    }
}

/// A value splits into its low byte and the rest, one level at a time.
proof fn lemma_byte_split(n: int, d: int)
    requires
        n >= 0,
        d > 0,
    ensures
        n == 256 * (n / 256) + n % 256,
        0 <= n % 256 < 256,
        (n / 256) / d == n / (256 * d),
{
    vstd::arithmetic::div_mod::lemma_fundamental_div_mod(n, 256);
    vstd::arithmetic::div_mod::lemma_mod_bound(n, 256);
    vstd::arithmetic::div_mod::lemma_div_denominator(n, 256, d);
}

/// A 64-bit word is the sum of its eight little-endian bytes.
proof fn lemma_le64_recompose(n: u64)
    ensures
        (n % 256) + ((n / 0x100) % 256) * 0x100 + ((n / 0x10000) % 256) * 0x10000 + ((n
            / 0x1000000) % 256) * 0x1000000 + ((n / 0x100000000) % 256) * 0x100000000 + ((n
            / 0x10000000000) % 256) * 0x10000000000 + ((n / 0x1000000000000) % 256)
            * 0x1000000000000 + (n / 0x100000000000000) * 0x100000000000000 == n,
        n / 0x100000000000000 < 256,
{
    let m = n as int;
    lemma_byte_split(m, 0x100);
    lemma_byte_split(m / 0x100, 0x100);
    lemma_byte_split(m / 0x10000, 0x100);
    lemma_byte_split(m / 0x1000000, 0x100);
    lemma_byte_split(m / 0x100000000, 0x100);
    lemma_byte_split(m / 0x10000000000, 0x100);
    lemma_byte_split(m / 0x1000000000000, 0x100);
    assert(m / 0x100 / 0x100 == m / 0x10000);
    assert(m / 0x10000 / 0x100 == m / 0x1000000);
    assert(m / 0x1000000 / 0x100 == m / 0x100000000);
    assert(m / 0x100000000 / 0x100 == m / 0x10000000000);
    assert(m / 0x10000000000 / 0x100 == m / 0x1000000000000);
    assert(m / 0x1000000000000 / 0x100 == m / 0x100000000000000);
    vstd::arithmetic::div_mod::lemma_div_is_ordered(m, u64::MAX as int, 0x100000000000000);
}

/// A 32-bit value is the sum of its four little-endian bytes.
proof fn lemma_le32_recompose(v: int)
    requires
        0 <= v < 0x100000000,
    ensures
        (v % 256) + ((v / 0x100) % 256) * 0x100 + ((v / 0x10000) % 256) * 0x10000 + (v
            / 0x1000000) * 0x1000000 == v,
        v / 0x1000000 < 256,
{
    lemma_byte_split(v, 0x100);
    lemma_byte_split(v / 0x100, 0x100);
    lemma_byte_split(v / 0x10000, 0x100);
    assert(v / 0x100 / 0x100 == v / 0x10000);
    assert(v / 0x10000 / 0x100 == v / 0x1000000);
}

/// The low byte of a value keeps the value's remainder modulo 4.
proof fn lemma_low_byte_mode(v: int)
    requires
        v >= 0,
    ensures
        (v % 256) % 4 == v % 4,
{
    vstd::arithmetic::div_mod::lemma_fundamental_div_mod(v, 256);
    vstd::arithmetic::div_mod::lemma_mod_bound(v, 256);
    vstd::arithmetic::div_mod::lemma_mod_multiples_vanish(-64 * (v / 256), v, 4);
    assert(4 * (-64 * (v / 256)) + v == v % 256 + 256 * (v / 256) + 4 * (-64 * (v / 256)))
        by (nonlinear_arith)
        requires
            v == 256 * (v / 256) + v % 256,
    ;
    assert(4 * (-64 * (v / 256)) + 256 * (v / 256) == 0) by (nonlinear_arith);
}

/// Eight little-endian bytes read back as the word they came from.
proof fn lemma_le64_value(n: u64, s: Seq<u8>, pos: int)
    requires
        0 <= pos,
        pos + 8 <= s.len(),
        forall|i: int| 0 <= i < 8 ==> s[pos + i] == #[trigger] le64(n)[i],
    ensures
        le64_at(s, pos) == n,
{
    lemma_le64_recompose(n);
    assert(s[pos] == le64(n)[0]);
    assert(s[pos + 1] == le64(n)[1]);
    assert(s[pos + 2] == le64(n)[2]);
    assert(s[pos + 3] == le64(n)[3]);
    assert(s[pos + 4] == le64(n)[4]);
    assert(s[pos + 5] == le64(n)[5]);
    assert(s[pos + 6] == le64(n)[6]);
    assert(s[pos + 7] == le64(n)[7]);
    assert((n / 0x100000000000000) % 256 == n / 0x100000000000000);
}

/// Reading an account whose 32 bytes stand at `pos`.
proof fn lemma_read_account(s: Seq<u8>, pos: int, a: AccountId)
    requires
        0 <= pos,
        pos + 32 <= s.len(),
        forall|i: int| 0 <= i < 32 ==> s[pos + i] == #[trigger] enc_account(a)[i],
    ensures
        dec_account(s, pos) == Some((a, pos + 32)),
{
    assert forall|i: int| 0 <= i < 8 implies s[pos + i] == #[trigger] le64(a.w0)[i] by {
        assert(s[pos + i] == enc_account(a)[i]);
    }
    assert forall|i: int| 0 <= i < 8 implies s[pos + 8 + i] == #[trigger] le64(a.w1)[i] by {
        assert(s[pos + (8 + i)] == enc_account(a)[8 + i]);
    }
    assert forall|i: int| 0 <= i < 8 implies s[pos + 16 + i] == #[trigger] le64(a.w2)[i] by {
        assert(s[pos + (16 + i)] == enc_account(a)[16 + i]);
    }
    assert forall|i: int| 0 <= i < 8 implies s[pos + 24 + i] == #[trigger] le64(a.w3)[i] by {
        assert(s[pos + (24 + i)] == enc_account(a)[24 + i]);
    }
    lemma_le64_value(a.w0, s, pos);
    lemma_le64_value(a.w1, s, pos + 8);
    lemma_le64_value(a.w2, s, pos + 16);
    lemma_le64_value(a.w3, s, pos + 24);
}

/// A compact prefix reads back as the length it came from.
proof fn lemma_compact_value(n: u64, s: Seq<u8>, pos: int)
    requires
        n <= u32::MAX,
        0 <= pos,
        pos + enc_compact(n).len() <= s.len(),
        forall|i: int| 0 <= i < enc_compact(n).len() ==> s[pos + i] == #[trigger] enc_compact(n)[i],
    ensures
        dec_compact(s, pos) == Some((n, pos + enc_compact(n).len() as int)),
{
    if n < 0x40 {
        assert(s[pos] == enc_compact(n)[0]);
        assert((n * 4) % 4 == 0 && (n * 4) / 4 == n) by (nonlinear_arith)
            requires
                0 <= n < 0x40,
        ;
        assert((n * 4) as u8 % 4 == 0);
    } else if n < 0x4000 {
        let v = (n * 4 + 1) as int;
        assert(s[pos] == enc_compact(n)[0]);
        assert(s[pos + 1] == enc_compact(n)[1]);
        lemma_byte_split(v, 0x100);
        lemma_low_byte_mode(v);
        vstd::arithmetic::div_mod::lemma_fundamental_div_mod_converse_mod(v, 4, n as int, 1);
        vstd::arithmetic::div_mod::lemma_fundamental_div_mod_converse_div(v, 4, n as int, 1);
        assert(v / 0x100 < 256);
        assert(s[pos] + s[pos + 1] * 0x100 == v);
        assert(s[pos] % 4 == 1);
    } else if n < 0x40000000 {
        let v = (n * 4 + 2) as int;
        assert(s[pos] == enc_compact(n)[0]);
        assert(s[pos + 1] == enc_compact(n)[1]);
        assert(s[pos + 2] == enc_compact(n)[2]);
        assert(s[pos + 3] == enc_compact(n)[3]);
        lemma_le32_recompose(v);
        lemma_low_byte_mode(v);
        vstd::arithmetic::div_mod::lemma_fundamental_div_mod_converse_mod(v, 4, n as int, 2);
        vstd::arithmetic::div_mod::lemma_fundamental_div_mod_converse_div(v, 4, n as int, 2);
        assert(s[pos] + s[pos + 1] * 0x100 + s[pos + 2] * 0x10000 + s[pos + 3] * 0x1000000 == v);
        assert(s[pos] % 4 == 2);
    } else {
        assert(s[pos] == enc_compact(n)[0]);
        assert(s[pos + 1] == enc_compact(n)[1]);
        assert(s[pos + 2] == enc_compact(n)[2]);
        assert(s[pos + 3] == enc_compact(n)[3]);
        assert(s[pos + 4] == enc_compact(n)[4]);
        lemma_le32_recompose(n as int);
        assert(s[pos + 1] + s[pos + 2] * 0x100 + s[pos + 3] * 0x10000 + s[pos + 4] * 0x1000000
            == n);
    }
}

/// Every byte of the wire form, read through its three groups.
proof fn lemma_encode_bytes(c: ContractV)
    requires
        c.node_id.len() <= u32::MAX,
    ensures
        ({
            let s = spec_encode_contract(c);
            let h = enc_head(c);
            let m = enc_mid(c);
            let t = enc_tail(c);
            &&& s.len() == h.len() + m.len() + t.len()
            &&& forall|i: int| 0 <= i < h.len() ==> s[i] == #[trigger] h[i]
            &&& forall|i: int| 0 <= i < m.len() ==> s[h.len() + i] == #[trigger] m[i]
            &&& forall|i: int| 0 <= i < t.len() ==> s[h.len() + m.len() + i] == #[trigger] t[i]
        }),
{
}

/// The head of the wire form: the prices and the escrow account.
#[verifier::rlimit(100)]
proof fn lemma_round_trip_head(c: ContractV)
    requires
        c.node_id.len() <= u32::MAX,
    ensures
        dec_prices(spec_encode_contract(c), 0) == Some((c.resource_prices, 48int)),
        dec_account(spec_encode_contract(c), 48) == Some((c.account_id, 80int)),
{
    let s = spec_encode_contract(c);
    let h = enc_head(c);
    let p = enc_prices(c.resource_prices);
    lemma_encode_bytes(c);
    assert(h.len() == 80);
    assert forall|i: int| 0 <= i < 8 implies s[0 + i] == #[trigger] le64(
        c.resource_prices.currency,
    )[i] by {
        assert(s[i] == h[i]);
        assert(h[i] == p[i]);
    }
    assert forall|i: int| 0 <= i < 8 implies s[8 + i] == #[trigger] le64(
        c.resource_prices.sru,
    )[i] by {
        assert(s[8 + i] == h[8 + i]);
        assert(h[8 + i] == p[8 + i]);
    }
    assert forall|i: int| 0 <= i < 8 implies s[16 + i] == #[trigger] le64(
        c.resource_prices.hru,
    )[i] by {
        assert(s[16 + i] == h[16 + i]);
        assert(h[16 + i] == p[16 + i]);
    }
    assert forall|i: int| 0 <= i < 8 implies s[24 + i] == #[trigger] le64(
        c.resource_prices.cru,
    )[i] by {
        assert(s[24 + i] == h[24 + i]);
        assert(h[24 + i] == p[24 + i]);
    }
    assert forall|i: int| 0 <= i < 8 implies s[32 + i] == #[trigger] le64(
        c.resource_prices.nru,
    )[i] by {
        assert(s[32 + i] == h[32 + i]);
        assert(h[32 + i] == p[32 + i]);
    }
    assert forall|i: int| 0 <= i < 8 implies s[40 + i] == #[trigger] le64(
        c.resource_prices.mru,
    )[i] by {
        assert(s[40 + i] == h[40 + i]);
        assert(h[40 + i] == p[40 + i]);
    }
    lemma_le64_value(c.resource_prices.currency, s, 0);
    lemma_le64_value(c.resource_prices.sru, s, 8);
    lemma_le64_value(c.resource_prices.hru, s, 16);
    lemma_le64_value(c.resource_prices.cru, s, 24);
    lemma_le64_value(c.resource_prices.nru, s, 32);
    lemma_le64_value(c.resource_prices.mru, s, 40);
    assert forall|i: int| 0 <= i < 32 implies s[48 + i] == #[trigger] enc_account(
        c.account_id,
    )[i] by {
        assert(s[48 + i] == h[48 + i]);
    }
    lemma_read_account(s, 48, c.account_id);
}

/// The node id in the wire form.
#[verifier::rlimit(100)]
proof fn lemma_round_trip_node(c: ContractV)
    requires
        c.node_id.len() <= u32::MAX,
    ensures
        ({
            let p3 = 80 + enc_compact(c.node_id.len() as u64).len() as int + c.node_id.len() as int;
            dec_bytes(spec_encode_contract(c), 80) == Some((c.node_id, p3))
        }),
{
    let s = spec_encode_contract(c);
    let m = enc_mid(c);
    let b = enc_bytes(c.node_id);
    lemma_encode_bytes(c);
    assert(enc_head(c).len() == 80);
    let k = enc_compact(c.node_id.len() as u64).len() as int;
    let kk = k + c.node_id.len() as int;
    let p3 = 80 + kk;
    assert(m.len() == kk + 64);
    assert forall|i: int| 0 <= i < k implies s[80 + i] == #[trigger] enc_compact(
        c.node_id.len() as u64,
    )[i] by {
        assert(s[80 + i] == m[i]);
        assert(m[i] == b[i]);
    }
    lemma_compact_value(c.node_id.len() as u64, s, 80);
    assert forall|i: int| 0 <= i < c.node_id.len() implies s[80 + k + i] == #[trigger] c.node_id[i]
    by {
        assert(s[80 + (k + i)] == m[k + i]);
        assert(m[k + i] == b[k + i]);
    }
    assert(s.subrange(80 + k, p3) =~= c.node_id);
}

/// The middle of the wire form: the node id and the two parties.
#[verifier::rlimit(100)]
#[verifier::spinoff_prover]
proof fn lemma_round_trip_middle(c: ContractV)
    requires
        c.node_id.len() <= u32::MAX,
    ensures
        ({
            let p3 = 80 + enc_compact(c.node_id.len() as u64).len() as int + c.node_id.len() as int;
            &&& dec_bytes(spec_encode_contract(c), 80) == Some((c.node_id, p3))
            &&& dec_account(spec_encode_contract(c), p3) == Some((c.farmer_account, p3 + 32))
            &&& dec_account(spec_encode_contract(c), p3 + 32) == Some((c.user_account, p3 + 64))
        }),
{
    let s = spec_encode_contract(c);
    let m = enc_mid(c);
    lemma_round_trip_node(c);
    lemma_encode_bytes(c);
    assert(enc_head(c).len() == 80);
    let k = enc_compact(c.node_id.len() as u64).len() as int;
    let kk = k + c.node_id.len() as int;
    let p3 = 80 + kk;
    assert(m.len() == kk + 64);
    assert forall|i: int| 0 <= i < 32 implies s[p3 + i] == #[trigger] enc_account(
        c.farmer_account,
    )[i] by {
        assert(s[80 + (kk + i)] == m[kk + i]);
    }
    lemma_read_account(s, p3, c.farmer_account);
    assert forall|i: int| 0 <= i < 32 implies s[p3 + 32 + i] == #[trigger] enc_account(
        c.user_account,
    )[i] by {
        assert(s[80 + (kk + 32 + i)] == m[kk + 32 + i]);
    }
    lemma_read_account(s, p3 + 32, c.user_account);
}

/// The tail of the wire form: the flag, the state and the two clocks.
#[verifier::rlimit(100)]
proof fn lemma_round_trip_tail(c: ContractV)
    requires
        c.node_id.len() <= u32::MAX,
    ensures
        ({
            let p5 = 144 + enc_compact(c.node_id.len() as u64).len() as int + c.node_id.len() as int;
            &&& dec_bool(spec_encode_contract(c), p5) == Some((c.accepted, p5 + 1))
            &&& dec_state(spec_encode_contract(c), p5 + 1) == Some((c.workload_state, p5 + 2))
            &&& dec_u64(spec_encode_contract(c), p5 + 2) == Some((c.expires_at, p5 + 10))
            &&& dec_u64(spec_encode_contract(c), p5 + 10) == Some((c.last_claimed, p5 + 18))
            &&& spec_encode_contract(c).len() == p5 + 18
        }),
{
    let s = spec_encode_contract(c);
    let t = enc_tail(c);
    lemma_encode_bytes(c);
    assert(enc_head(c).len() == 80);
    let k = enc_compact(c.node_id.len() as u64).len() as int;
    let p5 = 144 + k + c.node_id.len() as int;
    assert(enc_mid(c).len() == p5 - 80);
    assert(t.len() == 18);
    assert forall|i: int| 0 <= i < 18 implies s[p5 + i] == #[trigger] t[i] by {
        assert(s[80 + (p5 - 80) + i] == t[i]);
    }
    assert(t[0] == enc_bool(c.accepted)[0]);
    assert(t[1] == enc_state(c.workload_state)[0]);
    assert(dec_bool(s, p5) == Some((c.accepted, p5 + 1)));
    assert(dec_state(s, p5 + 1) == Some((c.workload_state, p5 + 2)));
    assert forall|i: int| 0 <= i < 8 implies s[p5 + 2 + i] == #[trigger] le64(c.expires_at)[i] by {
        assert(s[p5 + (2 + i)] == t[2 + i]);
    }
    lemma_le64_value(c.expires_at, s, p5 + 2);
    assert forall|i: int| 0 <= i < 8 implies s[p5 + 10 + i] == #[trigger] le64(
        c.last_claimed,
    )[i] by {
        assert(s[p5 + (10 + i)] == t[10 + i]);
    }
    lemma_le64_value(c.last_claimed, s, p5 + 10);
}

/// The round trip: a contract written to its wire form reads back as the
/// very same contract, for every contract whose node id fits the length
/// prefix.
#[verifier::rlimit(100)]
pub proof fn lemma_contract_round_trip(c: ContractV)
    requires
        c.node_id.len() <= u32::MAX,
    ensures
        spec_decode_contract(spec_encode_contract(c)) == Some(c),
{
    let s = spec_encode_contract(c);
    lemma_round_trip_head(c);
    lemma_round_trip_middle(c);
    lemma_round_trip_tail(c);
    let k = enc_compact(c.node_id.len() as u64).len() as int;
    let p3 = 80 + k + c.node_id.len() as int;
    let p5 = p3 + 64;
    assert(dec_prices(s, 0) == Some((c.resource_prices, 48int)));
    assert(dec_account(s, 48) == Some((c.account_id, 80int)));
    assert(dec_bytes(s, 80) == Some((c.node_id, p3)));
    assert(dec_account(s, p3) == Some((c.farmer_account, p3 + 32)));
    assert(dec_account(s, p3 + 32) == Some((c.user_account, p5)));
    assert(dec_bool(s, p5) == Some((c.accepted, p5 + 1)));
    assert(dec_state(s, p5 + 1) == Some((c.workload_state, p5 + 2)));
    assert(dec_u64(s, p5 + 2) == Some((c.expires_at, p5 + 10)));
    assert(dec_u64(s, p5 + 10) == Some((c.last_claimed, p5 + 18)));
    assert(s.len() == p5 + 18);
}

/// Appends the eight little-endian bytes of a word.
fn push_le64(out: &mut Vec<u8>, n: u64)
    ensures
        final(out)@ == old(out)@ + le64(n),
{
    let ghost base = out@;
    out.push((n % 256) as u8);
    out.push(((n / 0x100) % 256) as u8);
    out.push(((n / 0x10000) % 256) as u8);
    out.push(((n / 0x1000000) % 256) as u8);
    out.push(((n / 0x100000000) % 256) as u8);
    out.push(((n / 0x10000000000) % 256) as u8);
    out.push(((n / 0x1000000000000) % 256) as u8);
    out.push((n / 0x100000000000000) as u8);
    proof {
        assert(out@ =~= base + le64(n));
    }
}

/// Appends the four words of an account.
fn push_account(out: &mut Vec<u8>, a: AccountId)
    ensures
        final(out)@ == old(out)@ + enc_account(a),
{
    let ghost base = out@;
    push_le64(out, a.w0);
    push_le64(out, a.w1);
    push_le64(out, a.w2);
    push_le64(out, a.w3);
    proof {
        assert(out@ =~= base + enc_account(a));
    }
}

/// Appends a compact length prefix.
fn push_compact(out: &mut Vec<u8>, n: u32)
    ensures
        final(out)@ == old(out)@ + enc_compact(n as u64),
{
    let ghost base = out@;
    if n < 0x40 {
        out.push((n * 4) as u8);
    } else if n < 0x4000 {
        let v: u32 = n * 4 + 1;
        out.push((v % 256) as u8);
        out.push((v / 256) as u8);
    } else if n < 0x40000000 {
        let v: u32 = n * 4 + 2;
        out.push((v % 256) as u8);
        out.push(((v / 0x100) % 256) as u8);
        out.push(((v / 0x10000) % 256) as u8);
        out.push((v / 0x1000000) as u8);
    } else {
        out.push(3);
        out.push((n % 256) as u8);
        out.push(((n / 0x100) % 256) as u8);
        out.push(((n / 0x10000) % 256) as u8);
        out.push((n / 0x1000000) as u8);
    }
    proof {
        assert(out@ =~= base + enc_compact(n as u64));
    }
}

/// Writes a contract to its wire form; a node id too long for the length
/// prefix cannot be written.
pub fn encode_contract(c: &Contract) -> (r: Option<Vec<u8>>)
    ensures
        r matches Some(bytes) ==> c@.node_id.len() <= u32::MAX && bytes@ == spec_encode_contract(
            c@,
        ),
        r is None ==> c@.node_id.len() > u32::MAX,
{
    if c.node_id.len() > 0xffff_ffffusize {
        return None;
    }
    let mut out: Vec<u8> = Vec::new();
    push_le64(&mut out, c.resource_prices.currency);
    push_le64(&mut out, c.resource_prices.sru);
    push_le64(&mut out, c.resource_prices.hru);
    push_le64(&mut out, c.resource_prices.cru);
    push_le64(&mut out, c.resource_prices.nru);
    push_le64(&mut out, c.resource_prices.mru);
    proof {
        assert(out@ =~= enc_prices(c@.resource_prices));
    }
    push_account(&mut out, c.account_id);
    proof {
        assert(out@ =~= enc_head(c@));
    }
    push_compact(&mut out, c.node_id.len() as u32);
    let mut i: usize = 0;
    let n = c.node_id.len();
    let ghost with_len = out@;
    while i < n
        invariant
            n == c.node_id@.len(),
            0 <= i <= n,
            out@ == with_len + c.node_id@.take(i as int),
        decreases n - i,
    {
        out.push(c.node_id[i]);
        proof {
            assert(out@ =~= with_len + c.node_id@.take(i + 1));
        }
        i = i + 1;
    }
    proof {
        assert(c.node_id@.take(n as int) =~= c.node_id@);
        assert(out@ =~= enc_head(c@) + enc_bytes(c@.node_id));
    }
    push_account(&mut out, c.farmer_account);
    push_account(&mut out, c.user_account);
    proof {
        assert(out@ =~= enc_head(c@) + enc_mid(c@));
    }
    out.push(if c.accepted {
        1
    } else {
        0
    });
    match c.workload_state {
        WorkloadState::Created => out.push(0),
        WorkloadState::Deployed => out.push(1),
        WorkloadState::Cancelled => out.push(2),
    }
    push_le64(&mut out, c.expires_at);
    push_le64(&mut out, c.last_claimed);
    proof {
        assert(out@ =~= spec_encode_contract(c@));
    }
    Some(out)
}

/// Reads a word at `pos`.
fn read_u64(s: &[u8], pos: usize) -> (r: Option<(u64, usize)>)
    ensures
        r matches Some((v, p)) ==> dec_u64(s@, pos as int) == Some((v, p as int)) && p <= s@.len(),
        r is None ==> dec_u64(s@, pos as int) is None,
{
    let n = s.len();
    if n < 8 || pos > n - 8 {
        return None;
    }
    let v: u64 = (s[pos] as u64) + (s[pos + 1] as u64) * 0x100 + (s[pos + 2] as u64) * 0x10000 + (
    s[pos + 3] as u64) * 0x1000000 + (s[pos + 4] as u64) * 0x100000000 + (s[pos + 5] as u64)
        * 0x10000000000 + (s[pos + 6] as u64) * 0x1000000000000 + (s[pos + 7] as u64)
        * 0x100000000000000;
    Some((v, pos + 8))
}

/// Reads an account at `pos`.
fn read_account(s: &[u8], pos: usize) -> (r: Option<(AccountId, usize)>)
    ensures
        r matches Some((a, p)) ==> dec_account(s@, pos as int) == Some((a, p as int)) && p
            <= s@.len(),
        r is None ==> dec_account(s@, pos as int) is None,
{
    let n = s.len();
    if n < 32 || pos > n - 32 {
        return None;
    }
    let w0 = match read_u64(s, pos) {
        Some((v, _)) => v,
        None => {
            return None;
        },
    };
    let w1 = match read_u64(s, pos + 8) {
        Some((v, _)) => v,
        None => {
            return None;
        },
    };
    let w2 = match read_u64(s, pos + 16) {
        Some((v, _)) => v,
        None => {
            return None;
        },
    };
    let w3 = match read_u64(s, pos + 24) {
        Some((v, _)) => v,
        None => {
            return None;
        },
    };
    Some((AccountId { w0, w1, w2, w3 }, pos + 32))
}

/// Reads a compact length prefix at `pos`.
fn read_compact(s: &[u8], pos: usize) -> (r: Option<(u64, usize)>)
    ensures
        r matches Some((v, p)) ==> dec_compact(s@, pos as int) == Some((v, p as int)) && p
            <= s@.len(),
        r is None ==> dec_compact(s@, pos as int) is None,
{
    let n = s.len();
    if pos >= n {
        return None;
    }
    let b0 = s[pos];
    let mode = b0 % 4;
    if mode == 0 {
        Some(((b0 / 4) as u64, pos + 1))
    } else if mode == 1 {
        if n >= 2 && pos <= n - 2 {
            Some((((b0 as u64) + (s[pos + 1] as u64) * 0x100) / 4, pos + 2))
        } else {
            None
        }
    } else if mode == 2 {
        if n >= 4 && pos <= n - 4 {
            Some(
                (
                    ((b0 as u64) + (s[pos + 1] as u64) * 0x100 + (s[pos + 2] as u64) * 0x10000 + (
                    s[pos + 3] as u64) * 0x1000000) / 4,
                    pos + 4,
                ),
            )
        } else {
            None
        }
    } else {
        if b0 == 3 && n >= 5 && pos <= n - 5 {
            Some(
                (
                    (s[pos + 1] as u64) + (s[pos + 2] as u64) * 0x100 + (s[pos + 3] as u64)
                        * 0x10000 + (s[pos + 4] as u64) * 0x1000000,
                    pos + 5,
                ),
            )
        } else {
            None
        }
    }
}

/// Reads a length-prefixed byte string at `pos`.
fn read_bytes(s: &[u8], pos: usize) -> (r: Option<(Vec<u8>, usize)>)
    ensures
        r matches Some((v, p)) ==> dec_bytes(s@, pos as int) == Some((v@, p as int)) && p
            <= s@.len(),
        r is None ==> dec_bytes(s@, pos as int) is None,
{
    let (len, p2) = match read_compact(s, pos) {
        Some(x) => x,
        None => {
            return None;
        },
    };
    let n = s.len();
    if len > (n - p2) as u64 {
        return None;
    }
    let m = len as usize;
    let mut out: Vec<u8> = Vec::new();
    let mut i: usize = 0;
    while i < m
        invariant
            0 <= i <= m,
            n == s@.len(),
            p2 + m <= n,
            out@ == s@.subrange(p2 as int, p2 + i),
        decreases m - i,
    {
        out.push(s[p2 + i]);
        proof {
            assert(out@ =~= s@.subrange(p2 as int, p2 + i + 1));
        }
        i = i + 1;
    }
    Some((out, p2 + m))
}

/// Reads a contract from its wire form; the bytes must be consumed
/// exactly.
#[verifier::rlimit(100)]
pub fn decode_contract(s: &[u8]) -> (r: Option<Contract>)
    ensures
        r matches Some(c) ==> spec_decode_contract(s@) == Some(c@),
        r is None ==> spec_decode_contract(s@) is None,
{
    let n = s.len();
    if n < 48 {
        return None;
    }
    let currency = match read_u64(s, 0) {
        Some((v, _)) => v,
        None => {
            return None;
        },
    };
    let sru = match read_u64(s, 8) {
        Some((v, _)) => v,
        None => {
            return None;
        },
    };
    let hru = match read_u64(s, 16) {
        Some((v, _)) => v,
        None => {
            return None;
        },
    };
    let cru = match read_u64(s, 24) {
        Some((v, _)) => v,
        None => {
            return None;
        },
    };
    let nru = match read_u64(s, 32) {
        Some((v, _)) => v,
        None => {
            return None;
        },
    };
    let mru = match read_u64(s, 40) {
        Some((v, _)) => v,
        None => {
            return None;
        },
    };
    let resource_prices = ResourcePrice { currency, sru, hru, cru, nru, mru };
    let (account_id, p2) = match read_account(s, 48) {
        Some(x) => x,
        None => {
            return None;
        },
    };
    let (node_id, p3) = match read_bytes(s, p2) {
        Some(x) => x,
        None => {
            return None;
        },
    };
    let (farmer_account, p4) = match read_account(s, p3) {
        Some(x) => x,
        None => {
            return None;
        },
    };
    let (user_account, p5) = match read_account(s, p4) {
        Some(x) => x,
        None => {
            return None;
        },
    };
    if p5 >= n {
        return None;
    }
    let accepted = if s[p5] == 0 {
        false
    } else if s[p5] == 1 {
        true
    } else {
        return None;
    };
    let p6 = p5 + 1;
    if p6 >= n {
        return None;
    }
    let workload_state = if s[p6] == 0 {
        WorkloadState::Created
    } else if s[p6] == 1 {
        WorkloadState::Deployed
    } else if s[p6] == 2 {
        WorkloadState::Cancelled
    } else {
        return None;
    };
    let p7 = p6 + 1;
    let (expires_at, p8) = match read_u64(s, p7) {
        Some(x) => x,
        None => {
            return None;
        },
    };
    let (last_claimed, p9) = match read_u64(s, p8) {
        Some(x) => x,
        None => {
            return None;
        },
    };
    if p9 != n {
        return None;
    }
    Some(
        Contract {
            resource_prices,
            account_id,
            node_id,
            farmer_account,
            user_account,
            accepted,
            workload_state,
            expires_at,
            last_claimed,
        },
    )
}

} // verus!
