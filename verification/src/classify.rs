//! Message-type classification, applied once over the fully assembled
//! content of a message at sealing time.
//!
//! Checks run in a fixed priority and the first match wins: the literal
//! media-omitted marker anywhere in the content, then an `http://` or
//! `https://` scheme anywhere in the content, then the voice-note marker,
//! then the contact-card marker, and `Text` as the default. Media is tested
//! before links because a media caption may itself carry a URL.

use vstd::prelude::*;

use crate::text::{contains_str, contains_sub};

verus! {

/// The closed taxonomy of message kinds. `System` is reserved for platform
/// notices; the segmenter drops system lines rather than emitting them, so
/// classification itself never yields it.
#[derive(PartialEq, Eq, Structural, Clone, Copy, Debug)]
pub enum MessageType {
    Text,
    Media,
    Link,
    VoiceNote,
    Card,
    System,
}

/// The tag assigned to a message with the given content.
pub open spec fn spec_classify(content: Seq<char>) -> MessageType {
    if contains_sub(content, "<Media omitted>"@) {
        MessageType::Media
    } else if contains_sub(content, "http://"@) || contains_sub(content, "https://"@) {
        MessageType::Link
    } else if contains_sub(content, "Voice note"@) {
        MessageType::VoiceNote
    } else if contains_sub(content, "Contact card"@) {
        MessageType::Card
    } else {
        MessageType::Text
    }
}

/// Classifies message content; unclassifiable content degrades to `Text`,
/// never to an error.
pub fn detect_message_type(content: &str) -> (r: MessageType)
    ensures
        r == spec_classify(content@),
{
    if contains_str(content, "<Media omitted>") {
        MessageType::Media
    } else if contains_str(content, "http://") || contains_str(content, "https://") {
        MessageType::Link
    } else if contains_str(content, "Voice note") {
        MessageType::VoiceNote
    } else if contains_str(content, "Contact card") {
        MessageType::Card
    } else {
        MessageType::Text
    }
}

} // verus!
