//! What the command line decides: where the bytes come from, where they go, what they must match, and what
//! the user is told.

pub mod expect;
pub mod naming;
pub mod notice;
pub mod request;
pub mod run;
pub mod sink;
