//! A persistent record store for proposals: a durable counter hands out
//! monotonically increasing identifiers, and a durable ordered map keyed by
//! identifier holds each record as a bounded, deterministically encoded byte
//! sequence.

pub mod proposal;
pub mod codec;
pub mod backend;
pub mod store;
