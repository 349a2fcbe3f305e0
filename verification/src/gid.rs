//! Task identifiers: opaque, process-unique values assigned at task
//! creation. Freshness comes from the clock and a random draw; uniqueness is
//! enforced by the task table, which retries on collision.

use vstd::prelude::*;

verus! {

/// A task identifier: a clock half and a random half.
#[derive(Clone, Copy, PartialEq, Eq, Structural, Debug, Hash)]
pub struct Gid {
    pub hi: u32,
    pub lo: u32,
}

/// Relies on `aria2_gid::Gid::new`, which draws a fresh identifier from the
/// current time (upper half) and a random number (lower half); nothing can
/// be promised of the value, so callers check collisions themselves. The
/// outside call panics only if the system clock reports a time before the
/// epoch.
#[verifier::external_body]
pub(crate) fn fresh_gid() -> (g: Gid) {
    let raw = aria2_gid::Gid::new();
    Gid { hi: raw.timestamp(), lo: raw.random() }
}

} // verus!
