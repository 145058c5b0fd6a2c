//! User-space core of a host security agent: fixed-layout kernel records,
//! the sliding-window rate detector with its blocked-source set, and the
//! alerts that a confirmed threat produces.

pub mod alert;
pub mod consumer;
pub mod detector;
pub mod guarantees;
pub mod records;
