//! Verified core of a chat-to-speech relay: a per-user rate limiter with
//! escalating cooldowns, an audio synthesis cache, a message segmenter,
//! a playback pipeline, and a voice-connection lifecycle manager.
//!
//! Time is modelled as plain milliseconds handed in by the caller, so every
//! policy decision is a pure function of its arguments and can be verified.

use vstd::prelude::*;

pub mod cache;
pub mod connection;
pub mod handler;
pub mod limiter;
pub mod pipeline;
pub mod segment;
pub mod sounds;

verus! {

/// Instants and durations are counts of milliseconds from an arbitrary
/// process-local epoch.
pub type Millis = u64;

/// Saturating addition of two durations or of an instant and a duration.
pub open spec fn sat_add_s(a: u64, b: u64) -> u64 {
    if a + b <= u64::MAX {
        (a + b) as u64
    } else {
        u64::MAX
    }
}

/// Executable saturating addition.
pub fn sat_add(a: u64, b: u64) -> (r: u64)
    ensures
        r == sat_add_s(a, b),
{
    if a <= u64::MAX - b {
        a + b
    } else {
        u64::MAX
    }
}

} // verus!
