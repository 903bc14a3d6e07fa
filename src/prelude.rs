//! The items most callers need, in one import.
pub use crate::chunker::SplitEvery;
pub use crate::entry::SplitEveryImpl;
pub use crate::matcher::{CharPredicate, Matcher, TextPattern};
pub use crate::pull::{PullChunk, PullStep};
