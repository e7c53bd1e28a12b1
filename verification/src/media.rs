//! The kinds of media that the catalog tells apart.

use crate::text::same_text;
use vstd::prelude::*;

verus! {

/// A kind of media.
#[derive(Debug, Clone, Copy, PartialEq, Eq, Structural)]
pub enum MediaType {
    Image,
    Animated,
    Sound,
    Document,
}

/// The kind of media that a file with the extension `ext` holds. An
/// extension must match letter for letter; one that is not known stands
/// for a document.
pub open spec fn media_type_of(ext: Seq<char>) -> MediaType {
    if ext == "jpg"@ || ext == "jpeg"@ || ext == "png"@ {
        MediaType::Image
    } else if ext == "webm"@ || ext == "mp4"@ || ext == "gif"@ {
        MediaType::Animated
    } else if ext == "mp3"@ || ext == "wav"@ {
        MediaType::Sound
    } else {
        MediaType::Document
    }
}

impl MediaType {
    /// The kind of media that the extension `ext` stands for.
    pub fn of(ext: &str) -> (kind: MediaType)
        ensures
            kind == media_type_of(ext@),
    {
        if same_text(ext, "jpg") || same_text(ext, "jpeg") || same_text(ext, "png") {
            MediaType::Image
        } else if same_text(ext, "webm") || same_text(ext, "mp4") || same_text(ext, "gif") {
            MediaType::Animated
        } else if same_text(ext, "mp3") || same_text(ext, "wav") {
            MediaType::Sound
        } else {
            MediaType::Document
        }
    }
}

} // verus!
