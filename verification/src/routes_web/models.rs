//! What the pages of the catalog show.

use crate::database;
use crate::media::{media_type_of, MediaType};
use vstd::prelude::*;

verus! {

/// What the gallery shows: the search as it was typed, and either what it
/// found or why it could not be run.
#[derive(Debug, Clone)]
pub struct GalleryCtx {
    pub error: Option<Vec<String>>,
    pub query: Option<String>,
    pub data: Option<database::models::EntryQueryResult>,
}

/// A received file as the upload page shows it.
#[derive(Debug, Clone)]
pub struct UploadFile {
    pub id: i64,
    pub title: String,
    pub media_type: MediaType,
}

impl UploadFile {
    /// The received file `model` as the upload page shows it: with the
    /// kind of media that its extension stands for.
    pub fn from_model(model: database::models::UploadFile) -> (shown: UploadFile)
        ensures
            shown.id == model.id,
            shown.title == model.title,
            shown.media_type == media_type_of(model.ext@),
    {
        let media_type: MediaType = MediaType::of(model.ext.as_str());
        UploadFile { id: model.id, title: model.title, media_type }
    }
}

} // verus!
