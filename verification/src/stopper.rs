//! Graceful shutdown: one signal for many accept loops.
//!
//! The signal is a channel that is closed, once and for all; values sent
//! over it mean nothing. Waiting for it and racing it against a listener is
//! the work of the runtime; what to do with the outcome is decided here. A
//! stop request ends the accepting of new connections and nothing else:
//! connections that were accepted before it are not touched.

use vstd::prelude::*;
use async_std::channel::Receiver;
use async_std::channel::Sender;

verus! {

/// The sending half of a channel of `async_std`.
#[verifier::external_type_specification]
#[verifier::external_body]
#[verifier::reject_recursive_types(T)]
pub struct ExSender<T>(Sender<T>);

/// The receiving half of a channel of `async_std`.
#[verifier::external_type_specification]
#[verifier::external_body]
#[verifier::reject_recursive_types(T)]
pub struct ExReceiver<T>(Receiver<T>);

/// `Receiver::clone` gives another receiving half of the same channel.
/// Nothing is claimed of it.
pub assume_specification<T>[ <Receiver<T> as Clone>::clone ](done: &Receiver<T>) -> Receiver<T>;

/// The room that the channel of a sending half was made with, as
/// `Sender::capacity` reports it: `None` for a channel without a bound.
pub uninterp spec fn sender_capacity(done: Sender<u8>) -> Option<usize>;

/// The room that the channel of a receiving half was made with, as
/// `Receiver::capacity` reports it: `None` for a channel without a bound.
pub uninterp spec fn receiver_capacity(done: Receiver<u8>) -> Option<usize>;

/// Makes a channel with `async_std::channel::bounded`, with room for one
/// value. Both halves report that room for as long as they live. Nothing
/// else is claimed of them: what a channel holds and whether it is closed
/// change under every half, and have no place in a contract.
#[verifier::external_body]
fn single_slot() -> (halves: (Sender<u8>, Receiver<u8>))
    ensures
        sender_capacity(halves.0) == Some(1usize),
        receiver_capacity(halves.1) == Some(1usize),
{
    async_std::channel::bounded(1)
}

/// Closes the channel with `Sender::close`. Whether it was open before is
/// not passed on.
#[verifier::external_body]
fn close(done: &Sender<u8>) {
    done.close();
}

/// The side that decides to shut down.
pub struct Stopper {
    done: Sender<u8>,
}

/// The side that waits for the decision. Every accept loop has a copy.
#[derive(Clone)]
pub struct StopToken {
    done: Receiver<u8>,
}

impl Stopper {
    /// The sending half of the channel, which the stopper keeps to itself.
    pub closed spec fn sender(&self) -> Sender<u8> {
        self.done
    }

    /// A stopper, and the token to hand to the accept loops. The two are the
    /// halves of a channel with a single slot.
    pub fn new() -> (r: (Stopper, StopToken))
        ensures
            sender_capacity(r.0.sender()) == Some(1usize),
            receiver_capacity(r.1.channel()) == Some(1usize),
    {
        let (s, r) = single_slot();
        (Stopper { done: s }, StopToken { done: r })
    }

    /// Requests the stop by closing the channel. To do so again, or after
    /// every token is gone, is harmless and changes nothing.
    pub fn shutdown(&self) {
        close(&self.done);
    }
}

impl StopToken {
    /// The receiving half of the channel, which the token holds.
    pub closed spec fn channel(&self) -> Receiver<u8> {
        self.done
    }

    /// The token's own half of the channel, to receive on until it is
    /// closed; `wait_step` says when that is.
    pub fn receiver(&self) -> (r: &Receiver<u8>)
        ensures
            *r == self.channel(),
    {
        &self.done
    }
}

/// What one receive on the shutdown channel gave.
#[derive(Debug, Clone, Copy, PartialEq, Eq, Structural)]
pub enum Signal {
    /// A value was sent. Values mean nothing; only closing does.
    Message(u8),
    /// The channel is closed: a stop was requested.
    Closed,
}

/// What a waiting token does next.
#[derive(Debug, Clone, Copy, PartialEq, Eq, Structural)]
pub enum WaitStep {
    /// Receive again.
    KeepWaiting,
    /// The wait is over.
    StopRequested,
}

/// What the race between the listener and the stop request gave.
#[derive(Debug, Clone, Copy, PartialEq, Eq, Structural)]
pub enum AcceptEvent {
    /// The listener gave a connection.
    Connection,
    /// The listener failed to accept a connection.
    Failure,
    /// The listener has no more connections to give.
    End,
    /// The stop request came first.
    Stop,
}

/// What the accept loop does next.
#[derive(Debug, Clone, Copy, PartialEq, Eq, Structural)]
pub enum AcceptAction {
    /// Hand the connection to a task of its own, and accept again.
    Serve,
    /// Accept again.
    Skip,
    /// Leave the loop. Tasks that were started go on.
    Exit,
}

/// A wait ends when the channel is closed, and on nothing else.
pub open spec fn wait_step_spec(signal: Signal) -> WaitStep {
    match signal {
        Signal::Message(_) => WaitStep::KeepWaiting,
        Signal::Closed => WaitStep::StopRequested,
    }
}

/// The accept loop ends on a stop request or with the listener; a failed
/// accept is passed over.
pub open spec fn accept_step_spec(event: AcceptEvent) -> AcceptAction {
    match event {
        AcceptEvent::Connection => AcceptAction::Serve,
        AcceptEvent::Failure => AcceptAction::Skip,
        AcceptEvent::End => AcceptAction::Exit,
        AcceptEvent::Stop => AcceptAction::Exit,
    }
}

/// Decides whether a waiting token goes on waiting.
pub fn wait_step(signal: Signal) -> (r: WaitStep)
    ensures
        r == wait_step_spec(signal),
{
    match signal {
        Signal::Message(_) => WaitStep::KeepWaiting,
        Signal::Closed => WaitStep::StopRequested,
    }
}

/// Decides what an accept loop does with the outcome of one race.
pub fn accept_step(event: AcceptEvent) -> (r: AcceptAction)
    ensures
        r == accept_step_spec(event),
{
    match event {
        AcceptEvent::Connection => AcceptAction::Serve,
        AcceptEvent::Failure => AcceptAction::Skip,
        AcceptEvent::End => AcceptAction::Exit,
        AcceptEvent::Stop => AcceptAction::Exit,
    }
}

} // verus!
