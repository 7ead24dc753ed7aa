//! The download engine: probe, plan, scatter chunks into a sparse file, verify in order.
//!
//! A range-capable resource is planned into contiguous chunks that download in parallel, each written
//! straight to its own offset in a preallocated sparse file. There is no in-memory reassembly and no
//! cross-chunk backpressure, so every connection streams continuously. A single verifier then reads the file
//! back from offset zero, hashing the contiguous, hole-free prefix as it grows: it follows the earliest
//! unfinished chunk, so the verified frontier advances the moment bytes fill in, not in whole-chunk jumps.
//! That prefix is what a returned digest certifies. A resume folds the bytes already on disk into that same
//! pass. A source that cannot serve ranges is fetched as one stream, hashed inline as it is written.
//!
//! Everything here decides; nothing here waits. The code that owns files and connections performs what a
//! step asks for and hands back what came of it.

pub mod chunk;
pub mod output;
pub mod resume;
pub mod scatter;
pub mod scratch;
pub mod session;
pub mod stream;
pub mod trace;
pub mod verify;
