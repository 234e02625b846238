//! The memory exercise: threads that each allocate a block and pause for a
//! random time, and a process that releases its memory when asked to stop
//! by a signal.

use vstd::prelude::*;

verus! {

/// The number of bytes each allocating thread fills.
pub const ALLOCATION_SIZE: usize = 100000;

/// A block of `ALLOCATION_SIZE` zero bytes, filled one byte at a time.
pub fn allocation_block() -> (r: Vec<u8>)
    ensures
        r@.len() == ALLOCATION_SIZE,
        forall|i: int| 0 <= i < r@.len() ==> r@[i] == 0u8,
{
    let mut block: Vec<u8> = Vec::new();
    let mut i: usize = 0;
    while i < ALLOCATION_SIZE
        invariant
            i <= ALLOCATION_SIZE,
            block@.len() == i,
            forall|k: int| 0 <= k < block@.len() ==> block@[k] == 0u8,
        decreases ALLOCATION_SIZE - i,
    {
        block.push(0u8);
        i = i + 1;
    }
    block
}

/// `rand::random::<u64>()`: a value drawn from the thread-local generator.
/// Any `u64` can come back; nothing is promised of it.
#[verifier::external_body]
fn random_u64() -> u64 {
    rand::random::<u64>()
}

/// The pause, in nanoseconds, that the random draw `sample` selects: from
/// 100 to 999.
pub fn delay_from_sample(sample: u64) -> (r: u64)
    ensures
        r == sample % 900 + 100,
        100 <= r < 1000,
{
    sample % 900 + 100
}

/// A random pause of 100 to 999 nanoseconds.
pub fn random_delay_nanos() -> (r: u64)
    ensures
        100 <= r < 1000,
{
    delay_from_sample(random_u64())
}

/// `signal_hook::consts::SIGINT`, the interrupt signal: 2 (libc gives it
/// that number on every target signal-hook supports).
#[verifier::external_body]
fn sigint_number() -> (r: i32)
    ensures
        r == 2,
{
    signal_hook::consts::SIGINT
}

/// `signal_hook::consts::SIGTERM`, the termination signal: 15 (libc gives
/// it that number on every target signal-hook supports).
#[verifier::external_body]
fn sigterm_number() -> (r: i32)
    ensures
        r == 15,
{
    signal_hook::consts::SIGTERM
}

/// The signals on which the releasing process stops: interrupt, then
/// termination.
pub fn stop_signals() -> (r: Vec<i32>)
    ensures
        r@ == seq![2i32, 15i32],
{
    let mut r: Vec<i32> = Vec::new();
    r.push(sigint_number());
    r.push(sigterm_number());
    assert(r@ =~= seq![2i32, 15i32]);
    r
}

/// What the releasing process does on a delivered signal.
#[derive(PartialEq, Eq, Structural, Clone, Copy, Debug)]
pub enum SignalResponse {
    /// Release the memory and stop listening.
    ReleaseAndStop,
    /// A signal it did not ask for: cannot happen.
    Unexpected,
}

/// The response to signal `sig`: release and stop on interrupt or
/// termination.
pub fn signal_response(sig: i32) -> (r: SignalResponse)
    ensures
        r == (if sig == 2 || sig == 15 {
            SignalResponse::ReleaseAndStop
        } else {
            SignalResponse::Unexpected
        }),
{
    if sig == sigint_number() || sig == sigterm_number() {
        SignalResponse::ReleaseAndStop
    } else {
        SignalResponse::Unexpected
    }
}

} // verus!
