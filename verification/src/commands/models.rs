//! What the commands take and give.

use vstd::prelude::*;

verus! {

/// The answer to a command: a status, messages for the caller, and the
/// result where there is one.
#[derive(Debug, Clone)]
pub struct ApiResponse<T> {
    pub status: i64,
    pub messages: Vec<String>,
    pub data: Option<T>,
}

impl<T> ApiResponse<T> {
    /// Success with a result and nothing to say.
    pub fn ok(data: T) -> (response: Self)
        ensures
            response.status == 200,
            response.messages@.len() == 0,
            response.data == Some(data),
    {
        Self { status: 200, messages: Vec::new(), data: Some(data) }
    }

    /// Failure, with the reasons.
    pub fn err(messages: Vec<String>) -> (response: Self)
        ensures
            response.status == 400,
            response.messages == messages,
            response.data is None,
    {
        Self { status: 400, messages, data: None }
    }

    /// Success with a result, and with messages about what was passed over.
    pub fn ok_plus(messages: Vec<String>, data: T) -> (response: Self)
        ensures
            response.status == 200,
            response.messages == messages,
            response.data == Some(data),
    {
        Self { status: 200, messages, data: Some(data) }
    }
}

/// Runs the script `file`, found in `work_dir`.
#[derive(Debug, Clone)]
pub struct RunScriptInput {
    pub work_dir: String,
    pub file: String,
}

/// Asks for a new tag.
#[derive(Debug, Clone)]
pub struct ReqNewTag {
    pub name: String,
    pub category: Option<String>,
    pub description: Option<String>,
}

/// Asks for a new tag category.
#[derive(Debug, Clone)]
pub struct ReqNewTagCategory {
    pub name: String,
    pub description: Option<String>,
}

/// Asks for an entry for a file, with tags.
#[derive(Debug, Clone)]
pub struct ReqNewFileEntry {
    pub file: String,
    pub tags: Vec<String>,
}

/// How a script ended: the status, and the lines that it left, if any.
#[derive(Debug, Clone)]
pub struct RunScriptOutput {
    pub status: i64,
    pub log: Option<Vec<String>>,
}

/// Asks for the tags in whose name a text occurs.
#[derive(Debug, Clone)]
pub struct ReqFindTag {
    pub name: String,
    pub category: Option<String>,
}

/// Asks for the tag categories in whose name a text occurs.
#[derive(Debug, Clone)]
pub struct ReqFindTagCategory {
    pub name: String,
}

/// Asks for new tags, all in one category.
#[derive(Debug, Clone)]
pub struct ReqNewTags {
    pub tags: Vec<String>,
    pub category: Option<String>,
}

/// Asks for a new set of files.
#[derive(Debug, Clone)]
pub struct ReqNewSet {
    pub cover: Option<i64>,
    pub files: Vec<i64>,
}

/// Asks for files to be listed in a set.
#[derive(Debug, Clone)]
pub struct ReqAddToSet {
    pub set_id: i64,
    /// Each file with the position that it gets.
    pub files: Vec<(i64, i64)>,
}

/// Asks for files to be taken out of a set.
#[derive(Debug, Clone)]
pub struct ReqRemoveFromSet {
    pub set_id: i64,
    pub files: Vec<i64>,
}

/// Asks for a new order of the files of a set.
#[derive(Debug, Clone)]
pub struct ReqChangeSet {
    pub set_id: i64,
    pub file_order: Vec<i64>,
}

} // verus!
