//! What holds of the operations of the library as a whole.
//!
//! Each law is stated of calls: of what an operation was given and what it gave
//! back or left behind.

pub mod admission;
pub mod execution;
pub mod notation;
pub mod reservation;
pub mod service;
pub mod session;
pub mod storage;
