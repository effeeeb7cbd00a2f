//! The pricing kernel: deterministic fixed-point price arithmetic.
//!
//! Prices are published per resource unit per hour. A workload's demand is a
//! set of resource units (an `RSU`); the kernel turns prices and demand into
//! a price per hour in unsigned Q32.32 fixed point, a price per second in
//! unsigned Q64.64, and a solvency horizon in whole seconds. Everything is
//! computed on integer primitives so that every replica gets the same bits:
//! multiplication rounds half-to-even and saturates, the per-second division
//! truncates toward zero.

use vstd::arithmetic::div_mod::{
    lemma_div_by_multiple, lemma_div_is_ordered, lemma_div_multiples_vanish_fancy,
    lemma_fundamental_div_mod, lemma_fundamental_div_mod_converse_div, lemma_mod_bound,
};
use vstd::arithmetic::mul::lemma_mul_inequality;
use vstd::arithmetic::power2::{
    lemma2_to64, lemma2_to64_rest, lemma_pow2_adds, lemma_pow2_strictly_increases, pow2,
};
use vstd::prelude::*;

use crate::errors::Error;

verus! {

/// Tokens' smallest-unit scaling: one token is `10^12` smallest units.
pub const TOKEN_UNITS: u64 = 1_000_000_000_000;

/// The scale of Q32.32 fixed point, `2^32`.
pub const Q32_SCALE: u64 = 0x1_0000_0000;

/// The scale of Q64.64 fixed point, `2^64`.
pub const Q64_SCALE: u128 = 0x1_0000_0000_0000_0000;

/// A requested volume: a disk kind and a size in resource units.
/// Kind 1 is rotating disk (HRU), kind 2 is solid-state disk (SRU); any
/// other kind is invalid.
#[derive(PartialEq, Eq, Structural, Clone, Copy, Debug)]
pub struct VolumeType {
    pub disk_type: u8,
    pub size: u64,
}

/// A workload's resource demand. `cru` counts compute units; `hru`, `sru`
/// and `mru` are raw Q32.32 quantities of disk, solid-state and memory
/// units.
#[derive(PartialEq, Eq, Structural, Clone, Copy, Debug)]
pub struct RSU {
    pub cru: u64,
    pub hru: u64,
    pub sru: u64,
    pub mru: u64,
}

/// Farmer-published prices, in smallest token units per resource unit per
/// hour, plus a currency code.
#[derive(PartialEq, Eq, Structural, Clone, Copy, Debug)]
pub struct ResourcePrice {
    pub currency: u64,
    pub sru: u64,
    pub hru: u64,
    pub cru: u64,
    pub nru: u64,
    pub mru: u64,
}

impl Default for ResourcePrice {
    /// A price of zero in every dimension.
    fn default() -> (r: ResourcePrice)
        ensures
            r == (ResourcePrice { currency: 0, sru: 0, hru: 0, cru: 0, nru: 0, mru: 0 }),
    {
        ResourcePrice { currency: 0, sru: 0, hru: 0, cru: 0, nru: 0, mru: 0 }
    }
}

/// Clamps a non-negative integer into a `u64`.
pub open spec fn sat64(v: int) -> u64
    recommends
        v >= 0,
{
    if v > u64::MAX {
        u64::MAX
    } else {
        v as u64
    }
}

/// An integer as Q32.32, saturating at the format's maximum.
pub open spec fn q32_from_int(x: u64) -> u64 {
    if x < Q32_SCALE {
        (x * Q32_SCALE) as u64
    } else {
        u64::MAX
    }
}

/// Rounds a raw double-width product down to Q32.32 scale, half to even.
pub open spec fn round_q32(p: int) -> int {
    let q = p / (Q32_SCALE as int);
    let r = p % (Q32_SCALE as int);
    if r > 0x8000_0000 {
        q + 1
    } else if r < 0x8000_0000 {
        q
    } else {
        q + q % 2
    }
}

/// The Q32.32 product of two Q32.32 quantities: round half to even, then
/// saturate.
pub open spec fn q32_mul_spec(a: u64, b: u64) -> u64 {
    sat64(round_q32(a * b))
}

/// Saturating addition of two Q32.32 quantities.
pub open spec fn sat_add64(a: u64, b: u64) -> u64 {
    sat64(a + b)
}

/// The demand of a volume: disk kind 1 asks for `size` HRU, kind 2 for
/// `size` SRU; other kinds are invalid.
pub open spec fn spec_rsu(v: VolumeType) -> Option<RSU> {
    if v.disk_type == 1 {
        Some(RSU { cru: 0, hru: q32_from_int(v.size), sru: 0, mru: 0 })
    } else if v.disk_type == 2 {
        Some(RSU { cru: 0, hru: 0, sru: q32_from_int(v.size), mru: 0 })
    } else {
        None
    }
}

/// The price per hour of a demand, in raw Q32.32: the saturating sum of the
/// per-resource products.
pub open spec fn spec_price_per_hour(p: ResourcePrice, r: RSU) -> u64 {
    sat_add64(
        sat_add64(
            sat_add64(
                q32_mul_spec(q32_from_int(p.cru), q32_from_int(r.cru)),
                q32_mul_spec(q32_from_int(p.hru), r.hru),
            ),
            q32_mul_spec(q32_from_int(p.sru), r.sru),
        ),
        q32_mul_spec(q32_from_int(p.mru), r.mru),
    )
}

/// The price per second in raw Q64.64: the hourly price scaled to smallest
/// token units and divided by 3600, truncating.
pub open spec fn spec_price_per_second(pph: u64) -> u128 {
    ((pph * TOKEN_UNITS * (Q32_SCALE as int)) / 3600) as u128
}

/// How many whole seconds a balance can pay for at `pps` (raw Q64.64)
/// smallest units per second, clamped to `u64::MAX`; a zero price never
/// exhausts the balance.
pub open spec fn spec_solvency_seconds(balance: u128, pps: u128) -> u64 {
    if pps == 0 {
        u64::MAX
    } else {
        sat64((balance * (Q64_SCALE as int)) / (pps as int))
    }
}

/// The amount owed for `elapsed` seconds at `pps` (raw Q64.64) smallest
/// units per second, truncating the fractional part.
pub open spec fn spec_owed_amount(elapsed: u64, pps: u128) -> u128 {
    ((elapsed * pps) / (Q64_SCALE as int)) as u128
}

impl VolumeType {
    /// Maps the volume to its resource demand, or refuses an unknown disk
    /// kind.
    pub fn get_rsu(&self) -> (r: Result<RSU, Error>)
        ensures
            r matches Ok(u) ==> spec_rsu(*self) == Some(u),
            r matches Err(e) ==> spec_rsu(*self) is None && e == Error::InvalidVolume,
    {
        match self.disk_type {
            1u8 => Ok(RSU { cru: 0, hru: q32_saturating(self.size), sru: 0, mru: 0 }),
            2u8 => Ok(RSU { cru: 0, hru: 0, sru: q32_saturating(self.size), mru: 0 }),
            _ => Err(Error::InvalidVolume),
        }
    }
}

/// An integer as Q32.32, saturating at the format's maximum.
pub fn q32_saturating(x: u64) -> (r: u64)
    ensures
        r == q32_from_int(x),
{
    if x < Q32_SCALE {
        x * Q32_SCALE
    } else {
        u64::MAX
    }
}

/// The Q32.32 product, rounded half to even and saturated.
pub fn q32_mul(a: u64, b: u64) -> (r: u64)
    ensures
        r == q32_mul_spec(a, b),
{
    proof {
        assert((a as int) * (b as int) <= (u64::MAX as int) * (u64::MAX as int))
            by (nonlinear_arith)
            requires
                a <= u64::MAX,
                b <= u64::MAX,
        ;
    }
    let p: u128 = (a as u128) * (b as u128);
    let q: u128 = p / (Q32_SCALE as u128);
    let r: u128 = p % (Q32_SCALE as u128);
    proof {
        lemma_div_is_ordered(p as int, u128::MAX as int, Q32_SCALE as int);
    }
    let rounded: u128 = if r > 0x8000_0000 {
        q + 1
    } else if r < 0x8000_0000 {
        q
    } else {
        q + q % 2
    };
    if rounded > (u64::MAX as u128) {
        u64::MAX
    } else {
        rounded as u64
    }
}

/// Saturating addition.
pub fn sat_add(a: u64, b: u64) -> (r: u64)
    ensures
        r == sat_add64(a, b),
{
    if a > u64::MAX - b {
        u64::MAX
    } else {
        a + b
    }
}

/// The price per hour of a demand under published prices, in raw Q32.32.
pub fn price_per_hour(p: &ResourcePrice, r: &RSU) -> (pph: u64)
    ensures
        pph == spec_price_per_hour(*p, *r),
{
    let cru = q32_mul(q32_saturating(p.cru), q32_saturating(r.cru));
    let hru = q32_mul(q32_saturating(p.hru), r.hru);
    let sru = q32_mul(q32_saturating(p.sru), r.sru);
    let mru = q32_mul(q32_saturating(p.mru), r.mru);
    sat_add(sat_add(sat_add(cru, hru), sru), mru)
}

/// Division distributes over a multiple plus a remainder term:
/// `(d*x + b) / d == x + b/d`.
proof fn lemma_div_shift(x: int, b: int, d: int)
    requires
        d > 0,
        b >= 0,
    ensures
        (d * x + b) / d == x + b / d,
{
    lemma_fundamental_div_mod(b, d);
    lemma_mod_bound(b, d);
    assert(d * x + b == d * (x + b / d) + b % d) by (nonlinear_arith)
        requires
            b == d * (b / d) + b % d,
    ;
    lemma_div_multiples_vanish_fancy(x + b / d, b % d, d);
}

/// The price per second of an hourly price, in raw Q64.64.
pub fn price_per_second(pph: u64) -> (r: u128)
    ensures
        r == spec_price_per_second(pph),
{
    proof {
        assert((pph as int) * (TOKEN_UNITS as int) <= (u64::MAX as int) * (TOKEN_UNITS as int))
            by (nonlinear_arith)
            requires
                pph <= u64::MAX,
        ;
    }
    let a: u128 = (pph as u128) * (TOKEN_UNITS as u128);
    let q: u128 = a / 3600;
    let r: u128 = a % 3600;
    proof {
        lemma_fundamental_div_mod(a as int, 3600);
        lemma_mod_bound(a as int, 3600);
        lemma_div_is_ordered(a as int, (u64::MAX as int) * (TOKEN_UNITS as int), 3600);
        lemma_div_shift(q as int * (Q32_SCALE as int), r as int * (Q32_SCALE as int), 3600);
        assert((a as int) * (Q32_SCALE as int) == 3600 * ((q as int) * (Q32_SCALE as int)) + (
        r as int) * (Q32_SCALE as int)) by (nonlinear_arith)
            requires
                a as int == 3600 * (q as int) + (r as int),
        ;
        assert((pph as int) * (TOKEN_UNITS as int) * (Q32_SCALE as int) == (a as int) * (
        Q32_SCALE as int));
        assert((q as int) * (Q32_SCALE as int) <= (((u64::MAX as int) * (TOKEN_UNITS as int))
            / 3600) * (Q32_SCALE as int)) by (nonlinear_arith)
            requires
                q as int <= ((u64::MAX as int) * (TOKEN_UNITS as int)) / 3600,
        ;
    }
    q * (Q32_SCALE as u128) + (r * (Q32_SCALE as u128)) / 3600
}

/// How many whole seconds `balance` can pay for at `pps` smallest units per
/// second (raw Q64.64), clamped to `u64::MAX`.
pub fn solvency_seconds(balance: u128, pps: u128) -> (r: u64)
    ensures
        r == spec_solvency_seconds(balance, pps),
{
    if pps == 0 {
        return u64::MAX;
    }
    proof {
        lemma2_to64();
    }
    if balance >= pps {
        proof {
            lemma_mul_inequality(pps as int, balance as int, Q64_SCALE as int);
            lemma_div_is_ordered(
                (pps as int) * (Q64_SCALE as int),
                (balance as int) * (Q64_SCALE as int),
                pps as int,
            );
            lemma_div_by_multiple(Q64_SCALE as int, pps as int);
        }
        return u64::MAX;
    }
    let mut res: u64 = 0;
    let mut rem: u128 = balance;
    let mut i: usize = 0;
    while i < 64
        invariant
            0 < pps,
            balance < pps,
            i <= 64,
            rem < pps,
            res < pow2(i as nat),
            balance * pow2(i as nat) == (res as int) * (pps as int) + rem,
        decreases 64 - i,
    {
        proof {
            lemma_pow2_adds((i as nat), 1);
            lemma2_to64();
            assert(balance * pow2((i + 1) as nat) == 2 * ((res as int) * (pps as int)) + 2 * (
            rem as int)) by (nonlinear_arith)
                requires
                    pow2((i + 1) as nat) == pow2(i as nat) * 2,
                    balance * pow2(i as nat) == (res as int) * (pps as int) + rem,
            ;
            if i < 63 {
                lemma_pow2_strictly_increases(i as nat, 63);
            }
            lemma2_to64_rest();
            assert(pow2(63) == 0x8000000000000000);
        }
        let bit: bool;
        if rem >= 0x80000000000000000000000000000000u128 {
            // Doubling would overflow, but then the doubled remainder also
            // exceeds the divisor, so subtract first: 2r - p == r - (p - r).
            rem = rem - (pps - rem);
            bit = true;
        } else {
            let dbl: u128 = rem * 2;
            if dbl >= pps {
                rem = dbl - pps;
                bit = true;
            } else {
                rem = dbl;
                bit = false;
            }
        }
        proof {
            if bit {
                assert((2 * (res as int) + 1) * (pps as int) + (rem as int) == 2 * ((
                res as int) * (pps as int)) + 2 * (pps as int) / 2 + (rem as int))
                    by (nonlinear_arith);
            } else {
                assert((2 * (res as int)) * (pps as int) == 2 * ((res as int) * (pps as int)))
                    by (nonlinear_arith);
            }
        }
        res = res * 2 + (if bit {
            1
        } else {
            0
        });
        i = i + 1;
    }
    proof {
        lemma2_to64();
        lemma_fundamental_div_mod_converse_div(
            (balance as int) * (Q64_SCALE as int),
            pps as int,
            res as int,
            rem as int,
        );
    }
    res
}

/// The amount owed for `elapsed` seconds at `pps` smallest units per second
/// (raw Q64.64), truncating.
pub fn owed_amount(elapsed: u64, pps: u128) -> (r: u128)
    ensures
        r == spec_owed_amount(elapsed, pps),
{
    let hi: u128 = pps / Q64_SCALE;
    let lo: u128 = pps % Q64_SCALE;
    proof {
        lemma_fundamental_div_mod(pps as int, Q64_SCALE as int);
        lemma_mod_bound(pps as int, Q64_SCALE as int);
        lemma_div_is_ordered(pps as int, u128::MAX as int, Q64_SCALE as int);
        assert((elapsed as int) * (hi as int) <= (u64::MAX as int) * (u64::MAX as int))
            by (nonlinear_arith)
            requires
                elapsed <= u64::MAX,
                hi as int <= u64::MAX as int,
        ;
        assert((elapsed as int) * (lo as int) <= (u64::MAX as int) * ((Q64_SCALE as int) - 1))
            by (nonlinear_arith)
            requires
                elapsed <= u64::MAX,
                lo as int <= (Q64_SCALE as int) - 1,
        ;
        lemma_div_shift(
            (elapsed as int) * (hi as int),
            (elapsed as int) * (lo as int),
            Q64_SCALE as int,
        );
        assert((elapsed as int) * (pps as int) == (Q64_SCALE as int) * ((elapsed as int) * (
        hi as int)) + (elapsed as int) * (lo as int)) by (nonlinear_arith)
            requires
                pps as int == (Q64_SCALE as int) * (hi as int) + (lo as int),
        ;
        lemma_div_is_ordered(
            (elapsed as int) * (lo as int),
            (u64::MAX as int) * ((Q64_SCALE as int) - 1),
            Q64_SCALE as int,
        );
    }
    (elapsed as u128) * hi + ((elapsed as u128) * lo) / Q64_SCALE
}

} // verus!
