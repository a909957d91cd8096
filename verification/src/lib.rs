//! A plan/apply reconciler for remote job definitions: desired-state records
//! are projected into the canonical remote shape, classified against the
//! records the remote side holds, merged, diffed field by field, and gathered
//! into a reviewable plan whose apply half is a list of explicit calls.
pub mod config;
pub mod error;
pub mod local;
pub mod remote;
pub mod strutil;
pub mod value;
pub mod diff;
pub mod utils;
pub mod plan;
