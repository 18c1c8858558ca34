//! An in-memory key-value store that speaks a Redis-like wire protocol:
//! length-prefixed frame decoding, command dispatch against a shared store,
//! lazy expiration, and a small JSON document sub-language.
//!
//! Time is passed into every time-dependent operation as a millisecond
//! timestamp, so the whole command engine is a pure function of
//! (arguments, store contents, clock reading) and is verified as such.

pub mod cmd;
pub mod dispatch;
pub mod json;
pub mod laws;
pub mod num;
pub mod resp;
pub mod store;
pub mod users;
