//! Line-oriented extraction of structured messages from exported chat
//! transcripts.
//!
//! The library is split into a timestamp normalizer, which turns a raw
//! timestamp substring written in one of several recognized grammars into an
//! unambiguous calendar point with an explicit UTC offset, and a message
//! segmenter, which walks the transcript line by line, classifies each line
//! as the start of a new message or a continuation of the previous one, and
//! emits completed messages in transcript order.

use vstd::prelude::*;

pub use classify::MessageType;
pub use segment::{ChatParser, Message};
pub use timestamp::{Normalizer, Timestamp};

pub mod classify;
pub mod laws;
pub mod segment;
pub mod text;
pub mod timestamp;

verus! {

/// An error surfaced by the parsing core.
///
/// A header line whose timestamp matched a grammar's shape but failed
/// calendar validation, or matched no grammar at all, is a hard error for
/// the whole parse: a transcript with a corrupt date is treated as
/// untrustworthy rather than skipped over.
#[derive(Debug, Clone, PartialEq, Eq)]
pub enum ParseError {
    /// Carries the offending raw timestamp text and the 1-based number of
    /// the line it came from; the line number is 0 where the caller works on
    /// a bare timestamp string and no line is in play.
    InvalidTimestamp { text: String, line: usize },
}

} // verus!
