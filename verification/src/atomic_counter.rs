//! A counter shared between threads through one atomic 64-bit word.
//!
//! The value of the word depends on how the threads interleave, so the
//! contracts say what each call hands to the hardware and how it reads the
//! reply; which value a call meets is not stated.
use std::sync::atomic::{AtomicU64, Ordering};
use vstd::prelude::*;

verus! {

/// The value that `fetch_multiply` stores in place of `current`: the product,
/// wrapping around at 2^64 as the other atomic read-modify-write operations
/// of the counter do.
pub open spec fn multiplied(current: u64, multiplier: u64) -> u64 {
    ((current as nat * multiplier as nat) % 0x1_0000_0000_0000_0000) as u64
}

/// The update that `fetch_multiply` applies to the value it reads: always
/// proceeds, with the wrapped product.
pub open spec fn multiply_step(current: u64, multiplier: u64) -> Option<u64> {
    Some(multiplied(current, multiplier))
}

/// The update handed to the atomic word by `fetch_multiply`.
pub fn multiply_update(current: u64, multiplier: u64) -> (next: Option<u64>)
    ensures
        next == multiply_step(current, multiplier),
{
    Some(current.wrapping_mul(multiplier))
}

/// `AtomicU64::compare_exchange` with acquire-release ordering on success and
/// acquire on failure. The standard library documents that the reply holds
/// the previous value: `Ok` with the expected value when the new value was
/// written, `Err` with a different value when it was not.
#[verifier::external_body]
fn compare_exchange_u64(cell: &AtomicU64, expected: u64, new_val: u64) -> (r: Result<u64, u64>)
    ensures
        r matches Ok(v) ==> v == expected,
        r matches Err(v) ==> v != expected,
{
    cell.compare_exchange(expected, new_val, Ordering::AcqRel, Ordering::Acquire)
}

/// `AtomicU64::fetch_update` with the update `multiply_update(_, multiplier)`,
/// acquire-release on the write and acquire on the reads. The standard
/// library documents that it retries until a compare-exchange succeeds or the
/// update declines, and replies `Ok(previous)` when the update accepted the
/// previous value, `Err(previous)` when it declined it.
#[verifier::external_body]
fn fetch_update_multiply(cell: &AtomicU64, multiplier: u64) -> (r: Result<u64, u64>)
    ensures
        r matches Ok(v) ==> multiply_step(v, multiplier) is Some,
        r matches Err(v) ==> multiply_step(v, multiplier) is None,
{
    cell.fetch_update(Ordering::AcqRel, Ordering::Acquire, |c| multiply_update(c, multiplier))
}

/// A counter that threads share and update atomically.
pub struct AtomicCounter {
    value: AtomicU64,
}

impl AtomicCounter {
    /// A counter holding `init`.
    pub fn new(init: u64) -> Self {
        Self { value: AtomicU64::new(init) }
    }

    /// Adds 1 atomically (wrapping at 2^64) and returns the value before.
    pub fn increment(&self) -> u64 {
        self.value.fetch_add(1, Ordering::Relaxed)
    }

    /// Subtracts 1 atomically (wrapping at 0) and returns the value before.
    pub fn decrement(&self) -> u64 {
        self.value.fetch_sub(1, Ordering::Relaxed)
    }

    /// The current value.
    pub fn get(&self) -> u64 {
        self.value.load(Ordering::Relaxed)
    }

    /// Compare-and-swap: when the counter holds `expected`, stores `new_val`
    /// and returns `Ok(expected)`; otherwise returns `Err` with the value it
    /// holds, which differs from `expected`.
    pub fn compare_and_swap(&self, expected: u64, new_val: u64) -> (r: Result<u64, u64>)
        ensures
            r matches Ok(v) ==> v == expected,
            r matches Err(v) ==> v != expected,
    {
        compare_exchange_u64(&self.value, expected, new_val)
    }

    /// Multiplies the counter atomically (wrapping at 2^64) and returns the
    /// value before: retries a compare-exchange of the value read against
    /// its product until one succeeds.
    pub fn fetch_multiply(&self, multiplier: u64) -> u64 {
        match fetch_update_multiply(&self.value, multiplier) {
            Ok(previous) => previous,
            Err(previous) => {
                assert(false);
                previous
            },
        }
    }
}

} // verus!
