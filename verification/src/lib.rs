//! A publish/subscribe event router.
//!
//! Callbacks register interest in OSC-style address patterns; a message sent
//! to a concrete address is delivered to every callback whose pattern matches
//! it. A registry owns the subscriptions, the address module decides what
//! matches, and the event loop module holds the decisions of a loop that
//! drains a message queue.

pub mod address;
pub mod error;
pub mod event_loop;
pub mod registry;

pub use crate::error::Error;
pub use crate::event_loop::{stop, step, Action, LoopState, Message, Received};
pub use crate::registry::{listen, send, send_to, unlisten, Registry};
