//! The commands' decision logic.
pub mod insert;
pub mod batch;
pub mod sync;
pub mod validate;
pub mod search;
pub mod report;
pub mod queue;
pub mod add;
pub mod roundtrip;
