//! De-duplication and triage of crashes read from core dumps.
//!
//! `crash` models the threads and frames of a crashed process and the two
//! ways of deciding that two crashes are the same; `analyse` keeps the set of
//! unique crashes and writes the report; `text` holds the formatting helpers.

pub mod analyse;
pub mod cli;
pub mod crash;
pub mod text;
