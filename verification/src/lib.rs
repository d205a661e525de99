//! OrderHub gateway library.
//!
//! The gateway admits orders of external submitters: it authenticates them,
//! reads their requests, checks readiness, idempotency and quota, records each
//! admission and its outcomes in an append-only journal, and talks to a venue.
//! This library holds what it decides and computes; storage, sockets, threads
//! and the execution chain are left to whoever runs it.
//!
//! - [`bridge`]: admission of submissions and cancel requests, step by step.
//! - [`journal`]: the journal as it was last committed, and [`worker`], which
//!   groups writes into batches.
//! - [`quota`]: budgets, holdings and holds, over [`amount`] and [`table`].
//! - [`auth`] and [`readiness`]: who may submit, and when.
//! - [`grpc`]: requests, answers, state and event stream of the service, with
//!   the [`identifiers`] that the execution chain takes.
//! - [`orders`]: which orders the execution chain constructs, and
//!   [`exec_wiring`]: the outcomes of its events.
//! - [`local_exchange`] and [`local_client`]: the FIX session with the local
//!   exchange, with times of [`utc`].
//! - [`options`]: values of command-line options.
//! - [`text`]: texts, numerals and lists of texts.
//! - [`laws`]: what holds of these operations as a whole.

pub mod amount;
pub mod auth;
pub mod bridge;
pub mod exec_wiring;
pub mod grpc;
pub mod identifiers;
pub mod journal;
pub mod laws;
pub mod local_client;
pub mod local_exchange;
pub mod options;
pub mod orders;
pub mod quota;
pub mod readiness;
pub mod table;
pub mod text;
pub mod utc;
pub mod worker;
