//! Split a sequence into chunks, one chunk for every `n` occurrences of a pattern.
//!
//! The pattern occurrence that closes a chunk is consumed; the occurrences before it stay
//! inside the chunk. Text is addressed by characters, element sequences by elements, and a
//! pull-based source is split one pulled element at a time.
pub mod matcher;
pub mod chunker;
pub mod text;
pub mod pull;
pub mod entry;
pub mod prelude;
