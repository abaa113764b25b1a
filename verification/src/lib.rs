//! The decision core of a read-only prediction lookup service.
//!
//! A request names a client; the service leases a connection to a key-value
//! store, reads every field stored under `predictions:{client_id}` and
//! answers with those fields. This crate holds every decision on that path
//! and performs no input or output: the caller opens connections, sends the
//! query and writes the answer, and reports back what happened.

pub mod error;
pub mod key;
pub mod pool;
pub mod record;
pub mod response;
pub mod route;
pub mod service;
