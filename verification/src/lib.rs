//! Bookkeeping for overlapped socket operations, and the decisions of the loops
//! that drive a poll until the operations it has issued are gone.
//!
//! On a completion port every overlapped operation loans a reference to its
//! socket to the port, and the reference comes back only when a poll dispatches
//! the completion. That is so for an operation that was cancelled by dropping the
//! socket too. An event loop that shuts down has to know how many operations are
//! still outstanding, and a sender has to know whether the kernel has taken its
//! bytes over before it drops the stream, because the drop cancels the send.
//!
//! * `account` is the model: the operations in flight and the state of the
//!   sockets, and what issuing, dropping and dispatching does to them. `laws`
//!   states what holds of it, and `ledger` keeps it.
//! * `exercise` is a round that has every kind of operation in flight at once and
//!   holds a poll's own count against the ledger. `handles` decides whether such a
//!   round left handles behind.
//! * `readiness` asks questions of a batch of events, with the readiness sets of
//!   mio. `connecting` sets a stream and its peer up, `wait` holds the loops that
//!   poll, `sending` those of a sender, and `peer` those of a peer that reads;
//!   `kind` names the errors that they tell apart, and `turns` says where a loop
//!   stops that asks for a decision in every turn.
//!
//! Nothing in this crate touches a socket or a clock: a driver does, hands in what
//! it found, and does what it is told.

pub mod account;
pub mod connecting;
pub mod exercise;
pub mod handles;
pub mod kind;
pub mod laws;
pub mod ledger;
pub mod peer;
pub mod readiness;
pub mod sending;
pub mod turns;
pub mod wait;
