//! Paravirtualised guest I/O substrate: shared rings, grant table,
//! event channels, a cooperative executor and the configuration store
//! client, modelled over plain values and verified.
use vstd::prelude::*;

pub mod events;
pub mod executor;
pub mod grant_ops;
pub mod grant_table;
pub mod hypercall;
pub mod memory;
pub mod mm;
pub mod netfront;
pub mod ring;
pub mod scheduler;
pub mod time;
pub mod xenbus;
pub mod xenstore;

verus! {

/// Relies on std::sync::atomic::fence: a sequentially consistent barrier
/// between the writes before it and the writes after it. Nothing is stated:
/// it changes no value that this library models.
#[verifier::external_body]
pub(crate) fn full_fence() {
    std::sync::atomic::fence(std::sync::atomic::Ordering::SeqCst)
}

} // verus!
