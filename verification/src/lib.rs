//! A node of a message-passing cluster that spreads broadcast values by gossip.
//!
//! The library holds the node's state machine: what each incoming envelope or
//! timer tick does to the node's state and which envelopes and timer requests
//! it produces. Reading lines, writing lines and running timers is left to the
//! program around it.

pub mod broadcast;
pub mod chance;
pub mod convergence;
pub mod echo;
pub mod gossip;
pub mod knowledge;
pub mod laws;
pub mod message;
pub mod node;
pub mod protocol;
pub mod text;

pub use message::{Action, Body, Event, Init, Message};
pub use node::{main_loop, Node, NodeError, Outcome, Run};
