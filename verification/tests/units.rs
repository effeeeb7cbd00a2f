//! Unit checks for the pricing kernel, the decimal and account codecs,
//! and the oracle's decision helpers.

use compute_market::account::{account_from_bytes, escrow_account, AccountId, PALLET_TAG};
use compute_market::decimal::{parse_decimal, to_str_bytes};
use compute_market::errors::Error;
use compute_market::foreign::{decode_base58, hex_decode};
use compute_market::market::Contract;
use compute_market::oracle::{
    farm_url, node_url, prepare_price_update, should_fetch, target_reservation_id, user_url,
};
use compute_market::pricing::{
    owed_amount, price_per_hour, price_per_second, q32_mul, q32_saturating, sat_add,
    solvency_seconds, ResourcePrice, VolumeType, RSU,
};

fn prices_sru10() -> ResourcePrice {
    ResourcePrice { currency: 0, sru: 10, hru: 0, cru: 0, nru: 0, mru: 0 }
}

#[test]
fn volume_maps_to_demand() {
    let ssd = VolumeType { disk_type: 2, size: 100 };
    let rsu = ssd.get_rsu().unwrap();
    assert_eq!(rsu, RSU { cru: 0, hru: 0, sru: 100 << 32, mru: 0 });
    let hdd = VolumeType { disk_type: 1, size: 7 };
    let rsu = hdd.get_rsu().unwrap();
    assert_eq!(rsu, RSU { cru: 0, hru: 7 << 32, sru: 0, mru: 0 });
    let bad = VolumeType { disk_type: 9, size: 7 };
    assert_eq!(bad.get_rsu(), Err(Error::InvalidVolume));
}

#[test]
fn pricing_kernel_exact_values() {
    let rsu = VolumeType { disk_type: 2, size: 100 }.get_rsu().unwrap();
    let pph = price_per_hour(&prices_sru10(), &rsu);
    // 10 units per SRU-hour over 100 SRU: 1000 per hour, in raw Q32.32
    assert_eq!(pph, 1000u64 << 32);
    let pps = price_per_second(pph);
    // 1000 * 10^12 / 3600 smallest units per second, in raw Q64.64
    assert_eq!(pps, 5124095576030431004444444444444u128);
    assert_eq!(solvency_seconds(1_000_000_000_000_000, pps), 3600);
    assert_eq!(solvency_seconds(2_000_000_000_000_000, pps), 7200);
    assert_eq!(owed_amount(1800, pps), 499_999_999_999_999);
    assert_eq!(owed_amount(3600, pps), 999_999_999_999_999);
}

#[test]
fn solvency_clamps_and_zero_rate() {
    assert_eq!(solvency_seconds(12345, 0), u64::MAX);
    // a balance at least the raw rate means a horizon past 2^64 seconds
    assert_eq!(solvency_seconds(u128::MAX, 1), u64::MAX);
    assert_eq!(solvency_seconds(1, 1), u64::MAX);
    // one smallest unit at one unit per second (raw 2^64) lasts a second
    assert_eq!(solvency_seconds(1, 1u128 << 64), 1);
    assert_eq!(solvency_seconds(0, 1u128 << 64), 0);
}

#[test]
fn q32_rounds_half_to_even_and_saturates() {
    // 3 * 0.5 = 1.5 raw: ties go to the even neighbour, here 2
    assert_eq!(q32_mul(3, 0x8000_0000), 2);
    // 1 * 0.5 = 0.5 raw: the even neighbour is 0
    assert_eq!(q32_mul(1, 0x8000_0000), 0);
    // just above the tie rounds up
    assert_eq!(q32_mul(1, 0x8000_0001), 1);
    assert_eq!(q32_mul(u64::MAX, u64::MAX), u64::MAX);
    assert_eq!(q32_saturating(1 << 40), u64::MAX);
    assert_eq!(q32_saturating(5), 5 << 32);
    assert_eq!(sat_add(u64::MAX - 1, 5), u64::MAX);
    assert_eq!(sat_add(40, 2), 42);
}

#[test]
fn decimal_round_trips() {
    assert_eq!(to_str_bytes(0), b"0".to_vec());
    assert_eq!(to_str_bytes(7), b"7".to_vec());
    assert_eq!(to_str_bytes(12345), b"12345".to_vec());
    assert_eq!(to_str_bytes(u64::MAX), b"18446744073709551615".to_vec());
    assert_eq!(parse_decimal(b"12345"), Some(12345));
    assert_eq!(parse_decimal(b"0"), Some(0));
    assert_eq!(parse_decimal(b"007"), Some(7));
    assert_eq!(parse_decimal(b"18446744073709551615"), Some(u64::MAX));
    assert_eq!(parse_decimal(b"18446744073709551616"), None);
    assert_eq!(parse_decimal(b""), None);
    assert_eq!(parse_decimal(b"12a"), None);
    let mut n: u64 = 1;
    while n < 1_000_000_000 {
        assert_eq!(parse_decimal(&to_str_bytes(n)), Some(n));
        n = n * 37 + 11;
    }
}

#[test]
fn account_words_are_little_endian() {
    let mut key = [0u8; 32];
    let mut i = 0usize;
    while i < 32 {
        key[i] = (i + 1) as u8;
        i += 1;
    }
    let a = account_from_bytes(&key);
    assert_eq!(a.w0, 0x0807060504030201);
    assert_eq!(a.w1, 0x100f0e0d0c0b0a09);
    assert_eq!(a.w2, 0x1817161514131211);
    assert_eq!(a.w3, 0x201f1e1d1c1b1a19);
    assert_eq!(escrow_account(42), AccountId { w0: PALLET_TAG, w1: 42, w2: 0, w3: 0 });
}

#[test]
fn base58_decoding_recovers_keys() {
    let data: Vec<u8> = (0u8..32).collect();
    let text = bs58::encode(&data).into_string();
    assert_eq!(decode_base58(text.as_bytes()), Some(data));
    assert_eq!(decode_base58(b"0OIl"), None);
}

#[test]
fn hex_decoding_recovers_bytes() {
    let data: Vec<u8> = (0u8..32).collect();
    let text = hex::encode(&data);
    assert_eq!(hex_decode(text.as_bytes()), Some(data.clone()));
    let upper = text.to_uppercase();
    assert_eq!(hex_decode(upper.as_bytes()), Some(data));
    assert_eq!(hex_decode(b"abc"), None);
    assert_eq!(hex_decode(b"zz"), None);
}

#[test]
fn oracle_targets_latest_reservation() {
    assert_eq!(target_reservation_id(0), 0);
    assert_eq!(target_reservation_id(1), 0);
    assert_eq!(target_reservation_id(5), 4);
    assert_eq!(should_fetch(5, Some(4)), None);
    assert_eq!(should_fetch(5, Some(3)), Some(4));
    assert_eq!(should_fetch(5, None), Some(4));
}

#[test]
fn oracle_urls_name_records() {
    assert_eq!(
        node_url(b"https://explorer.test/nodes/", b"abcDEF"),
        b"https://explorer.test/nodes/abcDEF".to_vec()
    );
    assert_eq!(farm_url(b"https://explorer.test/farms/", 17), b"https://explorer.test/farms/17".to_vec());
    assert_eq!(user_url(b"https://explorer.test/users/", 0), b"https://explorer.test/users/0".to_vec());
}

#[test]
fn oracle_resolves_fetched_records() {
    let key: Vec<u8> = (1u8..33).collect();
    let hex_key = hex::encode(&key).into_bytes();
    let prices = vec![prices_sru10(), ResourcePrice { currency: 1, sru: 9, hru: 8, cru: 7, nru: 6, mru: 5 }];
    let update = prepare_price_update(3, &prices, &hex_key).unwrap();
    assert_eq!(update.reservation_id, 3);
    assert_eq!(update.price, prices_sru10());
    assert_eq!(update.farmer, account_from_bytes(&key));
    // an empty price list or a malformed key is a fetching error
    assert_eq!(
        prepare_price_update(3, &Vec::new(), &hex_key),
        Err(Error::HttpFetchingError)
    );
    assert_eq!(
        prepare_price_update(3, &prices, b"zz"),
        Err(Error::HttpFetchingError)
    );
    assert_eq!(
        prepare_price_update(3, &prices, b"0011"),
        Err(Error::HttpFetchingError)
    );
}

#[test]
fn default_contract_is_unbound() {
    let c = Contract::default();
    let base = AccountId { w0: PALLET_TAG, w1: 0, w2: 0, w3: 0 };
    assert_eq!(c.account_id, base);
    assert_eq!(c.farmer_account, base);
    assert_eq!(c.user_account, base);
    assert_eq!(c.node_id, vec![0u8]);
    assert!(!c.accepted);
    assert_eq!(c.expires_at, 0);
    assert_eq!(c.last_claimed, 0);
    let p = ResourcePrice::default();
    assert_eq!(p, ResourcePrice { currency: 0, sru: 0, hru: 0, cru: 0, nru: 0, mru: 0 });
}
