//! The outside types that the framework's state holds without looking
//! inside: the channel handles of `tokio` and the standard library's shared
//! pointer; and the clock of `chrono`.
use crate::actor::ActorMessage;
use chrono::Utc;
use std::sync::Arc;
use tokio::sync::{mpsc, oneshot};
use vstd::prelude::*;

verus! {

/// The sending half of a bounded `tokio` channel.
#[verifier::external_type_specification]
#[verifier::external_body]
#[verifier::reject_recursive_types(T)]
pub struct ExMpscSender<T>(mpsc::Sender<T>);

/// The sending half of a `tokio` one-shot channel.
#[verifier::external_type_specification]
#[verifier::external_body]
#[verifier::reject_recursive_types(T)]
pub struct ExOneshotSender<T>(oneshot::Sender<T>);

/// The receiving half of a bounded `tokio` channel.
#[verifier::external_type_specification]
#[verifier::external_body]
#[verifier::reject_recursive_types(T)]
pub struct ExMpscReceiver<T>(mpsc::Receiver<T>);

/// The bound a queue's sending half was made with: what
/// `mpsc::Sender::max_capacity` reports, the `buffer` given to
/// `mpsc::channel`.
pub uninterp spec fn sender_bound(tx: mpsc::Sender<ActorMessage>) -> nat;

/// The bound a queue's receiving half was made with: what
/// `mpsc::Receiver::max_capacity` reports, the `buffer` given to
/// `mpsc::channel`.
pub uninterp spec fn receiver_bound(rx: mpsc::Receiver<ActorMessage>) -> nat;

/// `tokio::sync::mpsc::channel`, for an actor's queue: a new bounded
/// channel holding up to `buffer` messages, both of whose halves report
/// `buffer` as their `max_capacity` (the semaphore's `bound`). It panics
/// for a buffer of zero or above the semaphore's limit of `usize::MAX >> 3`
/// permits, hence the bounds. That the two halves belong to one channel is
/// not stated: it is the identity of the shared channel, which no plain
/// value names.
#[verifier::external_body]
pub fn mpsc_channel(buffer: usize) -> (r: (mpsc::Sender<ActorMessage>, mpsc::Receiver<ActorMessage>))
    requires
        0 < buffer <= usize::MAX / 8,
    ensures
        sender_bound(r.0) == buffer,
        receiver_bound(r.1) == buffer,
{
    mpsc::channel(buffer)
}

/// `<mpsc::Sender<T> as Clone>::clone`: another handle to the same
/// channel. The library treats two handles to one channel as the same
/// value, so the contract states that the clone equals `tx`.
#[verifier::external_body]
pub fn clone_sender<T>(tx: &mpsc::Sender<T>) -> (r: mpsc::Sender<T>)
    ensures
        r == *tx,
{
    tx.clone()
}

/// `<Arc<T> as Clone>::clone`: another pointer to the same value, which
/// the verifier sees as that value.
#[verifier::external_body]
pub fn clone_arc<T>(a: &Arc<T>) -> (r: Arc<T>)
    ensures
        r == *a,
{
    a.clone()
}

/// `chrono::Utc::now`, read as milliseconds since the Unix epoch
/// (`DateTime::timestamp_millis`). Nothing is stated of it: it is the
/// machine's clock.
#[verifier::external_body]
pub fn utc_now_millis() -> i64 {
    Utc::now().timestamp_millis()
}

} // verus!
