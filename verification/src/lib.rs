//! A governance primitive: callers create proposals, cast one vote
//! each from a fixed choice set, and an owner can close voting.
//!
//! The service keeps every record in a durable store behind a small
//! trusted boundary (`storage`); the record format (`codec`), the data
//! model and its laws (`proposal`, `identity`) and the state machine
//! itself (`service`) are verified.
pub mod codec;
pub mod identity;
pub mod proposal;
pub mod service;
pub mod storage;
