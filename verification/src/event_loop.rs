//! The decisions of a loop that drains the message queue.
//!
//! The loop itself waits on a queue and calls a handler, which is the
//! caller's business. What it decides is here: given what the queue handed
//! over, whether to deliver a message or to leave.

use vstd::prelude::*;

verus! {

/// An event name and the payload sent with it.
#[derive(Debug, Clone, PartialEq, Eq)]
pub struct Message {
    pub event: String,
    pub data: Vec<u8>,
}

/// Whether a loop is still draining the queue.
#[derive(Debug, Clone, Copy, PartialEq, Eq, Structural)]
pub enum LoopState {
    Running,
    Stopped,
}

/// What a receive on the queue came back with.
#[derive(Debug, Clone, PartialEq, Eq)]
pub enum Received {
    /// The next message in the queue.
    Message(Message),
    /// The queue is closed, or the receive failed.
    Closed,
}

/// What the loop does next.
#[derive(Debug, Clone, PartialEq, Eq)]
pub enum Action {
    /// Hand the message to the handler, then receive again.
    Deliver(Message),
    /// Leave the loop.
    Exit,
}

/// The state and the action that follow from a state and what was received.
pub open spec fn step_spec(state: LoopState, received: Received) -> (LoopState, Action) {
    match (state, received) {
        (LoopState::Running, Received::Message(m)) => (LoopState::Running, Action::Deliver(m)),
        _ => (LoopState::Stopped, Action::Exit),
    }
}

/// The messages that a loop delivers, in order, when it starts in `state`
/// and the queue hands over `received` one after the other.
pub open spec fn deliveries(state: LoopState, received: Seq<Received>) -> Seq<Message>
    decreases received.len(),
{
    if received.len() == 0 {
        Seq::empty()
    } else {
        let (next, action) = step_spec(state, received[0]);
        match action {
            Action::Deliver(m) => seq![m] + deliveries(next, received.drop_first()),
            Action::Exit => Seq::empty(),
        }
    }
}

/// One turn of the loop: a running loop delivers the message it received
/// and goes on; it leaves when the queue is closed, and a stopped loop
/// leaves whatever it received.
pub fn step(state: LoopState, received: Received) -> (r: (LoopState, Action))
    ensures
        r == step_spec(state, received),
{
    match state {
        LoopState::Running => match received {
            Received::Message(m) => (LoopState::Running, Action::Deliver(m)),
            Received::Closed => (LoopState::Stopped, Action::Exit),
        },
        LoopState::Stopped => (LoopState::Stopped, Action::Exit),
    }
}

/// Stops the loop: from now on every turn is an exit.
pub fn stop(state: &mut LoopState)
    ensures
        *final(state) == LoopState::Stopped,
        forall|received: Received| #[trigger] step_spec(*final(state), received) == (LoopState::Stopped, Action::Exit),
{
    *state = LoopState::Stopped;
}

/// Messages come out in the order in which they went in: while the queue
/// hands over messages only, a running loop delivers each of them, in the
/// same order.
pub proof fn lemma_deliveries_in_order(received: Seq<Received>)
    requires
        forall|i: int| 0 <= i < received.len() ==> #[trigger] received[i] is Message,
    ensures
        deliveries(LoopState::Running, received).len() == received.len(),
        forall|i: int|
            0 <= i < received.len() ==> Received::Message(
                #[trigger] deliveries(LoopState::Running, received)[i],
            ) == received[i],
    decreases received.len(),
{
    if received.len() > 0 {
        let rest = received.drop_first();
        assert(received[0] is Message);
        assert forall|i: int| 0 <= i < rest.len() implies #[trigger] rest[i] is Message by {
            assert(rest[i] == received[i + 1]);
        }
        lemma_deliveries_in_order(rest);
        let tail = deliveries(LoopState::Running, rest);
        let all = deliveries(LoopState::Running, received);
        assert(all == seq![received[0]->Message_0] + tail);
        assert forall|i: int| 0 <= i < received.len() implies Received::Message(#[trigger] all[i])
            == received[i] by {
            if i > 0 {
                assert(all[i] == tail[i - 1]);
                assert(rest[i - 1] == received[i]);
            }
        }
    }
}

/// A stopped loop delivers nothing, whatever is left in the queue.
pub proof fn lemma_stopped_delivers_nothing(received: Seq<Received>)
    ensures
        deliveries(LoopState::Stopped, received) == Seq::<Message>::empty(),
{
}

/// Once the queue reports that it is closed, the loop delivers nothing
/// more: what comes after the close changes nothing.
pub proof fn lemma_close_ends_deliveries(before: Seq<Received>, after: Seq<Received>)
    ensures
        deliveries(LoopState::Running, before.push(Received::Closed) + after) == deliveries(
            LoopState::Running,
            before,
        ),
    decreases before.len(),
{
    let whole = before.push(Received::Closed) + after;
    if before.len() == 0 {
        assert(whole[0] == Received::Closed);
    } else {
        assert(whole[0] == before[0]);
        assert(whole.drop_first() =~= before.drop_first().push(Received::Closed) + after);
        lemma_close_ends_deliveries(before.drop_first(), after);
    }
}

} // verus!
