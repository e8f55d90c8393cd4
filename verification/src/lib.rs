//! The hosting side of a shared-control session.
//!
//! A [`server::Server`] keeps the list of the clients that have joined, answers those that ask to
//! be let in, passes on what each of them sends to the others, and tells the application what goes
//! on. Peers that cannot be reached directly are reached by hole punching, with the help of a
//! rendezvous server.
//!
//! The library decides; it opens no socket and reads no clock. What comes from the network or the
//! clock is handed to it as plain values, and what is to be sent is left in an outbox, in the order
//! in which it is to go out. The application is reached through two channels.
//!
//! - [`payload`]: the messages.
//! - [`channel`]: the channel operations that the library calls.
//! - [`model`]: what each step does, stated over plain sequences.
//! - [`punch`]: hole punching.
//! - [`shared`]: what all transfers of a server have in common.
//! - [`transfer`]: one hosted session.
//! - [`startup`]: what has to happen before a session can be hosted.
//! - [`server`]: the server that the application holds.
//! - [`steps`]: what a server goes through, step after step, and the loop that hosts a session.
//! - [`laws`]: what holds of what a session does.
//! - [`promises`]: what each step of a session does, told by what goes in and what comes out.
//! - [`calls`]: what each call brings about.
//! - [`runs`]: what holds of a server over all the steps that it takes.
pub mod addr;
pub mod calls;
pub mod channel;
pub mod laws;
pub mod model;
pub mod payload;
pub mod promises;
pub mod punch;
pub mod runs;
mod seqs;
pub mod server;
pub mod shared;
pub mod startup;
pub mod steps;
pub mod transfer;
