//! The price oracle's decision logic. The worker itself runs off-replica:
//! it fetches node, farm and user records over HTTP and submits a signed
//! price update. Everything it decides — which reservation to act on,
//! whether a run is redundant, which URLs to ask for, and what a fetched
//! record set amounts to — is computed here, on plain values.

use vstd::prelude::*;

use crate::account::{account_from_bytes, spec_account_from_bytes, AccountId};
use crate::decimal::{spec_decimal, to_str_bytes};
use crate::errors::Error;
use crate::foreign::{hex_decode, spec_hex_decode};
use crate::pricing::ResourcePrice;

verus! {

/// A fully-resolved price update, ready to be submitted as a signed
/// transaction.
#[derive(PartialEq, Eq, Structural, Clone, Copy, Debug)]
pub struct PriceUpdate {
    pub reservation_id: u64,
    pub price: ResourcePrice,
    pub farmer: AccountId,
}

/// The reservation a worker run targets: the one created last, or the
/// zeroth before any creation.
pub open spec fn spec_target_reservation(counter: u64) -> u64 {
    if counter > 0 {
        (counter - 1) as u64
    } else {
        0
    }
}

/// The reservation id the worker should act on for a given counter value.
pub fn target_reservation_id(counter: u64) -> (r: u64)
    ensures
        r == spec_target_reservation(counter),
{
    if counter > 0 {
        counter - 1
    } else {
        0
    }
}

/// Decides whether a run has work to do: the target reservation, unless
/// the worker's cache shows that very reservation was already handled.
pub fn should_fetch(counter: u64, cached: Option<u64>) -> (r: Option<u64>)
    ensures
        r == (match cached {
            Some(c) => if c == spec_target_reservation(counter) {
                None::<u64>
            } else {
                Some(spec_target_reservation(counter))
            },
            None => Some(spec_target_reservation(counter)),
        }),
{
    let target = target_reservation_id(counter);
    match cached {
        Some(c) => {
            if c == target {
                None
            } else {
                Some(target)
            }
        },
        None => Some(target),
    }
}

/// The URL asking the explorer for a node record: the base with the raw
/// node id appended.
pub fn node_url(base: &[u8], node_id: &[u8]) -> (r: Vec<u8>)
    ensures
        r@ == base@ + node_id@,
{
    let mut out = crate::market::copy_bytes(base);
    let mut rest = crate::market::copy_bytes(node_id);
    out.append(&mut rest);
    out
}

/// The URL asking the explorer for a farm record: the base with the farm
/// id appended in decimal.
pub fn farm_url(base: &[u8], farm_id: u64) -> (r: Vec<u8>)
    ensures
        r@ == base@ + spec_decimal(farm_id),
{
    let mut out = crate::market::copy_bytes(base);
    let mut rest = to_str_bytes(farm_id);
    out.append(&mut rest);
    out
}

/// The URL asking the explorer for a user record: the base with the user
/// id appended in decimal.
pub fn user_url(base: &[u8], threebot_id: u64) -> (r: Vec<u8>)
    ensures
        r@ == base@ + spec_decimal(threebot_id),
{
    let mut out = crate::market::copy_bytes(base);
    let mut rest = to_str_bytes(threebot_id);
    out.append(&mut rest);
    out
}

/// What a fetched record set amounts to: the farm's first price and the
/// farmer account named by the user's hex-encoded 32-byte ed25519 key, or
/// a fetching error when the price list is empty or the key malformed.
pub open spec fn spec_prepare_price_update(
    reservation_id: u64,
    prices: Seq<ResourcePrice>,
    pubkey_hex: Seq<u8>,
) -> Result<PriceUpdate, Error> {
    if prices.len() == 0 {
        Err(Error::HttpFetchingError)
    } else {
        match spec_hex_decode(pubkey_hex) {
            None => Err(Error::HttpFetchingError),
            Some(key) => {
                if key.len() != 32 {
                    Err(Error::HttpFetchingError)
                } else {
                    Ok(
                        PriceUpdate {
                            reservation_id: reservation_id,
                            price: prices[0],
                            farmer: spec_account_from_bytes(key),
                        },
                    )
                }
            },
        }
    }
}

/// Resolves a fetched record set into the price update to submit.
pub fn prepare_price_update(
    reservation_id: u64,
    prices: &Vec<ResourcePrice>,
    pubkey_hex: &[u8],
) -> (r: Result<PriceUpdate, Error>)
    ensures
        r == spec_prepare_price_update(reservation_id, prices@, pubkey_hex@),
{
    if prices.len() == 0 {
        return Err(Error::HttpFetchingError);
    }
    match hex_decode(pubkey_hex) {
        None => Err(Error::HttpFetchingError),
        Some(key) => {
            if key.len() != 32 {
                Err(Error::HttpFetchingError)
            } else {
                Ok(
                    PriceUpdate {
                        reservation_id,
                        price: prices[0],
                        farmer: account_from_bytes(key.as_slice()),
                    },
                )
            }
        },
    }
}

} // verus!
