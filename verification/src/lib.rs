//! Resolution of named configuration keys to string values.
//!
//! A descriptor mapping assigns to each key either a literal string or a
//! command whose output supplies the value. Requested keys are looked up,
//! resolved one at a time, and the resolved set is rendered either as
//! `key=value` lines or as a JSON object.

pub mod descriptor;
pub mod errors;
pub mod format;
pub mod kv;
pub mod resolve;
pub mod text;
