//! Progress reporting: how fast, how far, how long, and how it is written.

pub mod bar;
pub mod ink;
pub mod json;
pub mod laws;
pub mod meter;
pub mod plain;
pub mod sizes;
pub mod speedometer;
pub mod window;
