//! Fixed-width identifiers for ledger records, built from the clock, random
//! draws and account identifiers.
use vstd::prelude::*;
use crate::ledger::now_millis;

verus! {

/// Relies on `fastrand::u64` over the full range: a random 64-bit value; the
/// range is never empty, so it does not panic.
#[verifier::external_body]
fn random_u64() -> (r: u64) {
    fastrand::u64(..)
}

/// Relies on `fastrand::u16` over the full range: a random 16-bit value; the
/// range is never empty, so it does not panic.
#[verifier::external_body]
fn random_u16() -> (r: u16) {
    fastrand::u16(..)
}

/// A random identifier from two random halves.
pub open spec fn random_id_of(high: u64, low: u64) -> u128 {
    ((high as u128) << 64u128) | (low as u128)
}

/// A time-ordered identifier: milliseconds in the top 48 bits, then 64 random
/// bits, then 16 more.
pub open spec fn time_based_id_of(millis: u64, high: u64, low: u16) -> u128 {
    ((millis as u128) << 80u128) | ((high as u128) << 16u128) | (low as u128)
}

/// A transfer identifier mixing the time, both account identifiers and a
/// random value.
pub open spec fn transfer_id_of(millis: u64, from_account: u128, to_account: u128, random: u64) -> u128 {
    (millis as u128) ^ (from_account ^ to_account) ^ (random as u128)
}

/// Composes a random identifier.
pub fn compose_random_id(high: u64, low: u64) -> (r: u128)
    ensures
        r == random_id_of(high, low),
{
    ((high as u128) << 64u128) | (low as u128)
}

/// Composes a time-ordered identifier.
pub fn compose_time_based_id(millis: u64, high: u64, low: u16) -> (r: u128)
    ensures
        r == time_based_id_of(millis, high, low),
{
    ((millis as u128) << 80u128) | ((high as u128) << 16u128) | (low as u128)
}

/// Composes a transfer identifier.
pub fn compose_transfer_id(millis: u64, from_account: u128, to_account: u128, random: u64) -> (r: u128)
    ensures
        r == transfer_id_of(millis, from_account, to_account, random),
{
    (millis as u128) ^ (from_account ^ to_account) ^ (random as u128)
}

fn clock_millis() -> (r: u64) {
    let t = now_millis();
    if t < 0 { 0 } else { t as u64 }
}

/// A fresh random identifier.
pub fn generate_random_id() -> (r: u128)
    ensures
        exists|h: u64, l: u64| r == random_id_of(h, l),
{
    let h = random_u64();
    let l = random_u64();
    compose_random_id(h, l)
}

/// A fresh time-ordered identifier.
pub fn generate_time_based_id() -> (r: u128)
    ensures
        exists|t: u64, h: u64, l: u16| r == time_based_id_of(t, h, l),
{
    let t = clock_millis();
    let h = random_u64();
    let l = random_u16();
    compose_time_based_id(t, h, l)
}

/// A fresh identifier for a transfer between two accounts.
pub fn generate_transfer_id(from_account: u128, to_account: u128) -> (r: u128)
    ensures
        exists|t: u64, x: u64| r == transfer_id_of(t, from_account, to_account, x),
{
    let t = clock_millis();
    let x = random_u64();
    compose_transfer_id(t, from_account, to_account, x)
}

} // verus!
