//! Bookkeeping for a survey in which people rate recorded surface episodes:
//! which episodes exist, which of them each rater has already seen, which
//! one to show next, and what is written to and read back from the logs.

pub mod catalog;
pub mod errors;
pub mod event_log;
pub mod routes;
pub mod selector;
pub mod session;
pub mod structs;
pub mod surface;
pub mod text;
pub mod utils;
