//! Account identifiers and the derivation of per-reservation escrow accounts.
//!
//! An account is a 32-byte identifier, held here as four 64-bit words in
//! little-endian order (word 0 covers bytes 0..8, and so on). The escrow
//! account of a reservation is derived from a fixed pallet tag and the
//! reservation id, so distinct reservations always get distinct escrows.

use vstd::prelude::*;

verus! {

/// The pallet tag, the eight bytes `Charity!` read as a little-endian word.
pub const PALLET_TAG: u64 = 0x2179746972616843;

/// A 32-byte account identifier, as four little-endian 64-bit words.
#[derive(PartialEq, Eq, Structural, Clone, Copy, Debug)]
pub struct AccountId {
    pub w0: u64,
    pub w1: u64,
    pub w2: u64,
    pub w3: u64,
}

/// The escrow account derived from the pallet tag and a reservation id:
/// tag bytes, then the id in little-endian, then sixteen zero bytes.
pub open spec fn spec_escrow_account(id: u64) -> AccountId {
    AccountId { w0: PALLET_TAG, w1: id, w2: 0, w3: 0 }
}

/// Whether an account has the shape of a derived escrow account.
pub open spec fn is_escrow_account(a: AccountId) -> bool {
    a.w0 == PALLET_TAG && a.w2 == 0 && a.w3 == 0
}

/// Derives the escrow account of a reservation.
pub fn escrow_account(id: u64) -> (r: AccountId)
    ensures
        r == spec_escrow_account(id),
{
    AccountId { w0: PALLET_TAG, w1: id, w2: 0, w3: 0 }
}

/// The little-endian value of eight bytes of `s` starting at `i`.
pub open spec fn le_word(s: Seq<u8>, i: int) -> int {
    s[i] + s[i + 1] * 0x100 + s[i + 2] * 0x10000 + s[i + 3] * 0x1000000 + s[i + 4] * 0x100000000
        + s[i + 5] * 0x10000000000 + s[i + 6] * 0x1000000000000 + s[i + 7] * 0x100000000000000
}

/// The account whose 32 bytes are `s`, words little-endian.
pub open spec fn spec_account_from_bytes(s: Seq<u8>) -> AccountId
    recommends
        s.len() == 32,
{
    AccountId {
        w0: le_word(s, 0) as u64,
        w1: le_word(s, 8) as u64,
        w2: le_word(s, 16) as u64,
        w3: le_word(s, 24) as u64,
    }
}

fn read_word(s: &[u8], i: usize) -> (r: u64)
    requires
        i + 8 <= s@.len(),
    ensures
        r == le_word(s@, i as int),
{
    let b0 = s[i] as u64;
    let b1 = s[i + 1] as u64;
    let b2 = s[i + 2] as u64;
    let b3 = s[i + 3] as u64;
    let b4 = s[i + 4] as u64;
    let b5 = s[i + 5] as u64;
    let b6 = s[i + 6] as u64;
    let b7 = s[i + 7] as u64;
    b0 + b1 * 0x100 + b2 * 0x10000 + b3 * 0x1000000 + b4 * 0x100000000 + b5 * 0x10000000000 + b6
        * 0x1000000000000 + b7 * 0x100000000000000
}

/// Packs 32 bytes into an account identifier.
pub fn account_from_bytes(s: &[u8]) -> (r: AccountId)
    requires
        s@.len() == 32,
    ensures
        r == spec_account_from_bytes(s@),
{
    AccountId {
        w0: read_word(s, 0),
        w1: read_word(s, 8),
        w2: read_word(s, 16),
        w3: read_word(s, 24),
    }
}

/// Escrow derivation is injective: distinct reservations have distinct
/// escrow accounts.
pub proof fn lemma_escrow_accounts_distinct(id1: u64, id2: u64)
    requires
        id1 != id2,
    ensures
        spec_escrow_account(id1) != spec_escrow_account(id2),
{
}

} // verus!
