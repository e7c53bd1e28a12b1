//! The commands of the catalog: what is asked of it from outside, and what
//! it answers.
//!
//! A command fails, as a function, only where the database engine fails;
//! whatever else goes wrong is told in the answer.

pub mod models;
pub mod script_parser;
pub mod script_run;

use crate::commands::models::{
    ApiResponse, ReqFindTag, ReqFindTagCategory, ReqNewFileEntry, ReqNewSet, ReqNewTag,
    ReqNewTagCategory, ReqNewTags,
};
use crate::commands::script_parser::tokenizer::{lex, tokenize};
use crate::commands::script_parser::{
    lemma_parsed_document_is_well_formed, parse, well_formed, Data, DataView,
};
use crate::commands::script_run::{extension, set_error, set_error_line};
use crate::database::models::{CatalogError, CatalogErrorView};
use crate::sync_db::SyncDb;
use crate::lookup::{ids_found, known, known_tags, unknown_among, unknown_names};
use crate::text::{concat2, concat3, join, joined};
use vstd::prelude::*;
use vstd::string::*;

verus! {

/// The document that the script `script` describes; or, where the script
/// cannot be split into tokens or its tokens are no document, the one line
/// that says why.
pub open spec fn parsed_script(script: Seq<u8>) -> Result<DataView, Seq<Seq<char>>> {
    match lex(script) {
        Err(e) => Err(seq![e.spec_message()]),
        Ok(tokens) => match parse(tokens) {
            Err(e) => Err(seq![e.message()]),
            Ok(data) => Ok(data),
        },
    }
}

/// Reads the script `script`: see `parsed_script`. The document of a
/// script is well formed.
pub fn parse_script(script: &str) -> (read: Result<Data, Vec<String>>)
    ensures
        match read {
            Ok(data) => parsed_script(script.spec_bytes()) == Ok::<DataView, Seq<Seq<char>>>(
                data@,
            ) && well_formed(data@),
            Err(lines) => parsed_script(script.spec_bytes()) == Err::<DataView, Seq<Seq<char>>>(
                lines.deep_view(),
            ),
        },
{
    let tokens = match tokenize(script) {
        Ok(tokens) => tokens,
        Err(e) => {
            let lines: Vec<String> = vec![e.message()];
            proof {
                assert(lines.deep_view() =~= seq![e.spec_message()]);
            }
            return Err(lines);
        },
    };
    match Data::from_tokens(tokens.as_slice()) {
        Ok(data) => {
            proof {
                lemma_parsed_document_is_well_formed(tokens.deep_view());
            }
            Ok(data)
        },
        Err(e) => {
            let lines: Vec<String> = vec![e.message()];
            proof {
                assert(lines.deep_view() =~= seq![e@.message()]);
            }
            Err(lines)
        },
    }
}

/// The category that a tag gets where none is named.
pub const DEFAULT_CATEGORY: i64 = 1;

/// The answer that refuses with the one message `first`, `name`, `last`.
fn refusal<T>(first: &str, name: &str, last: &str) -> (response: ApiResponse<T>)
    ensures
        response.status == 400,
        response.data is None,
        response.messages@.len() == 1,
        response.messages.deep_view() == seq![first@ + name@ + last@],
{
    let messages: Vec<String> = vec![concat3(first, name, last)];
    proof {
        assert(messages.deep_view() =~= seq![first@ + name@ + last@]);
    }
    ApiResponse::err(messages)
}

/// The answer to the making of the tag `name`: its identity, or that the
/// tag exists.
pub fn tag_made(name: &str, made: Result<i64, CatalogError>) -> (answer: Result<
    ApiResponse<i64>,
    CatalogError,
>)
    ensures
        match made {
            Ok(id) => answer matches Ok(r) && r.status == 200 && r.data == Some(id)
                && r.messages@.len() == 0,
            Err(CatalogError::Database(words)) => answer matches Err(e) && e
                == CatalogError::Database(words),
            Err(_) => answer matches Ok(r) && r.status == 400 && r.data is None
                && r.messages@.len() == 1 && r.messages.deep_view() == seq![
                "Tag '"@ + name@ + "' already exists"@,
            ],
        },
{
    match made {
        Ok(id) => Ok(ApiResponse::ok(id)),
        Err(CatalogError::Database(words)) => Err(CatalogError::Database(words)),
        Err(_) => Ok(refusal("Tag '", name, "' already exists")),
    }
}

/// The line that says that the catalog has no category `name`.
pub open spec fn unknown_category_line(name: Seq<char>) -> Seq<char> {
    "Unknown category '"@ + name + "'"@
}

/// The line that says that the catalog has the tag `name`.
pub open spec fn tag_exists_line(name: Seq<char>) -> Seq<char> {
    "Tag '"@ + name + "' already exists"@
}

/// Makes the tag that `input` describes, in the category that it names or
/// in the first category.
///
/// The catalog is asked for the category, where one is named, and then for
/// the tag. The answer is the identity of the tag; or it refuses, because
/// the catalog has no such category or because it has the tag (see
/// `tag_made`).
pub fn new_tag(db: &SyncDb, input: ReqNewTag) -> (answer: Result<ApiResponse<i64>, CatalogError>)
    ensures
        answer matches Err(e) ==> e is Database,
        answer matches Ok(r) ==> {
            ||| r.status == 200 && r.data is Some && r.messages@.len() == 0
            ||| r.status == 400 && r.data is None && r.messages.deep_view() == seq![
                tag_exists_line(input.name@),
            ]
            ||| r.status == 400 && r.data is None && input.category is Some
                && r.messages.deep_view() == seq![
                unknown_category_line(input.category->Some_0@),
            ]
        },
{
    let category: i64 = match &input.category {
        Some(name) => match db.tag_category_id(name.as_str()) {
            Err(e) => {
                return Err(e);
            },
            Ok(Some(id)) => id,
            Ok(None) => {
                return Ok(refusal("Unknown category '", name.as_str(), "'"));
            },
        },
        None => DEFAULT_CATEGORY,
    };
    let made: Result<i64, CatalogError> = match &input.description {
        Some(description) => db.new_tag(input.name.as_str(), category, description.as_str()),
        None => db.new_tag(input.name.as_str(), category, ""),
    };
    tag_made(input.name.as_str(), made)
}

/// The name of the category that many tags get at once: the one that is
/// named, or else `default`.
pub open spec fn category_named(category: Option<String>) -> Seq<char> {
    match category {
        Some(name) => name@,
        None => "default"@,
    }
}

/// The lines for the tags of `tags` that the catalog had: one for each tag
/// whose place in `made` holds `false`, in their order.
pub open spec fn existing_lines(tags: Seq<Seq<char>>, made: Seq<bool>) -> Seq<Seq<char>>
    decreases tags.len(),
{
    if tags.len() == 0 {
        Seq::empty()
    } else {
        let before = existing_lines(tags.drop_last(), made);
        if made[tags.len() - 1] {
            before
        } else {
            before.push("Tag "@ + tags.last() + " already exists"@)
        }
    }
}

/// Makes the tags that `input` names, in the category that it names or in
/// the category `default`. A tag that exists is passed over, and leaves a
/// message.
///
/// The catalog is asked for the category and then, tag by tag, for the
/// tags. The answer refuses where the catalog has no such category; else
/// it holds a line for each tag that the catalog had (see
/// `existing_lines`), so none where no tag is named.
pub fn new_tags(db: &SyncDb, input: ReqNewTags) -> (answer: Result<ApiResponse<()>, CatalogError>)
    ensures
        answer matches Err(e) ==> e is Database,
        answer matches Ok(r) ==> {
            ||| r.status == 200 && r.data is Some && exists|made: Seq<bool>|
                made.len() == input.tags@.len() && r.messages.deep_view()
                    == #[trigger] existing_lines(input.tags.deep_view(), made)
            ||| r.status == 400 && r.data is None && r.messages.deep_view() == seq![
                "Tag category "@ + category_named(input.category) + " does not exist"@,
            ]
        },
        answer matches Ok(r) ==> r.messages@.len() <= input.tags@.len() || r.status == 400,
{
    let found: Result<Option<i64>, CatalogError> = match &input.category {
        Some(name) => db.tag_category_id(name.as_str()),
        None => db.tag_category_id("default"),
    };
    let category: i64 = match found {
        Err(e) => {
            return Err(e);
        },
        Ok(Some(id)) => id,
        Ok(None) => {
            return Ok(
                match &input.category {
                    Some(name) => refusal("Tag category ", name.as_str(), " does not exist"),
                    None => refusal("Tag category ", "default", " does not exist"),
                },
            );
        },
    };
    let ghost tags = input.tags.deep_view();
    let n: usize = input.tags.len();
    let mut log: Vec<String> = Vec::new();
    let ghost mut made: Seq<bool> = Seq::empty();
    let mut i: usize = 0;
    proof {
        assert(tags.take(0) =~= Seq::<Seq<char>>::empty());
        assert(log.deep_view() =~= Seq::<Seq<char>>::empty());
    }
    while i < n
        invariant
            n == input.tags@.len(),
            tags == input.tags.deep_view(),
            i <= n,
            log@.len() <= i,
            made.len() == i,
            log.deep_view() == existing_lines(tags.take(i as int), made),
        decreases n - i,
    {
        let ghost lines = log.deep_view();
        let ghost before = made;
        let ghost tag = input.tags@[i as int]@;
        proof {
            assert(tags[i as int] == tag);
            assert(tags.take(i + 1).drop_last() =~= tags.take(i as int));
            assert(tags.take(i + 1).last() == tag);
        }
        match db.new_tag(input.tags[i].as_str(), category, "") {
            Ok(_) => {
                proof {
                    made = made.push(true);
                }
            },
            Err(CatalogError::Database(words)) => {
                return Err(CatalogError::Database(words));
            },
            Err(_) => {
                log.push(concat3("Tag ", input.tags[i].as_str(), " already exists"));
                proof {
                    made = made.push(false);
                    assert(log.deep_view() =~= lines.push("Tag "@ + tag + " already exists"@));
                }
            },
        }
        proof {
            lemma_existing_lines_ignore_later(tags.take(i as int), before, made);
        }
        i = i + 1;
    }
    proof {
        assert(tags.take(n as int) =~= tags);
        assert(log.deep_view().len() == log@.len());
    }
    Ok(ApiResponse::ok_plus(log, ()))
}

/// The lines for some tags depend on the marks of these tags only.
proof fn lemma_existing_lines_ignore_later(tags: Seq<Seq<char>>, made: Seq<bool>, more: Seq<bool>)
    requires
        tags.len() <= made.len() <= more.len(),
        forall|i: int| 0 <= i < made.len() ==> made[i] == more[i],
    ensures
        existing_lines(tags, made) == existing_lines(tags, more),
    decreases tags.len(),
{
    if tags.len() > 0 {
        lemma_existing_lines_ignore_later(tags.drop_last(), made, more);
    }
}

/// The names of the tags in whose name the name of `input` occurs; with a
/// category, only the tags of that category.
///
/// The catalog is asked for the category, where one is named, and then for
/// the tags. The answer holds the names; or it refuses, because the
/// catalog has no such category.
pub fn find_tag(db: &SyncDb, input: ReqFindTag) -> (answer: Result<
    ApiResponse<Vec<String>>,
    CatalogError,
>)
    ensures
        answer matches Err(e) ==> e is Database,
        answer matches Ok(r) ==> {
            ||| r.status == 200 && r.data is Some && r.messages@.len() == 0
            ||| r.status == 400 && r.data is None && input.category is Some
                && r.messages.deep_view() == seq![
                "Category '"@ + input.category->Some_0@ + "' not found"@,
            ]
        },
{
    let category: Option<i64> = match &input.category {
        None => None,
        Some(name) => match db.tag_category_id(name.as_str()) {
            Err(e) => {
                return Err(e);
            },
            Ok(None) => {
                return Ok(refusal("Category '", name.as_str(), "' not found"));
            },
            Ok(Some(id)) => Some(id),
        },
    };
    match db.tag_search(input.name.as_str(), category) {
        Ok(names) => Ok(ApiResponse::ok(names)),
        Err(e) => Err(e),
    }
}

/// The names of the tag categories in whose name the name of `input`
/// occurs: what the catalog finds, and no answer but a failure of the
/// engine otherwise.
pub fn find_tag_category(db: &SyncDb, input: ReqFindTagCategory) -> (answer: Result<
    ApiResponse<Vec<String>>,
    CatalogError,
>)
    ensures
        answer matches Err(e) ==> e is Database,
        answer matches Ok(r) ==> r.status == 200 && r.data is Some && r.messages@.len() == 0,
{
    match db.tag_category_search(input.name.as_str()) {
        Ok(names) => Ok(ApiResponse::ok(names)),
        Err(e) => Err(e),
    }
}

/// The answer to the making of the tag category `name`: its identity, or
/// that the category exists.
pub fn category_made(name: &str, made: Result<i64, CatalogError>) -> (answer: Result<
    ApiResponse<i64>,
    CatalogError,
>)
    ensures
        match made {
            Ok(id) => answer matches Ok(r) && r.status == 200 && r.data == Some(id)
                && r.messages@.len() == 0,
            Err(CatalogError::Database(words)) => answer matches Err(e) && e
                == CatalogError::Database(words),
            Err(_) => answer matches Ok(r) && r.status == 400 && r.data is None
                && r.messages@.len() == 1 && r.messages.deep_view() == seq![
                "Tag group '"@ + name@ + "' already exists"@,
            ],
        },
{
    match made {
        Ok(id) => Ok(ApiResponse::ok(id)),
        Err(CatalogError::Database(words)) => Err(CatalogError::Database(words)),
        Err(_) => Ok(refusal("Tag group '", name, "' already exists")),
    }
}

/// Makes the tag category that `input` describes: the catalog is asked for
/// it, and the answer is what `category_made` makes of the outcome.
pub fn new_tag_category(db: &SyncDb, input: ReqNewTagCategory) -> (answer: Result<
    ApiResponse<i64>,
    CatalogError,
>)
    ensures
        answer matches Err(e) ==> e is Database,
        answer matches Ok(r) ==> {
            ||| r.status == 200 && r.data is Some && r.messages@.len() == 0
            ||| r.status == 400 && r.data is None && r.messages.deep_view() == seq![
                "Tag group '"@ + input.name@ + "' already exists"@,
            ]
        },
{
    let made: Result<i64, CatalogError> = match &input.description {
        Some(description) => db.new_tag_category(input.name.as_str(), description.as_str()),
        None => db.new_tag_category(input.name.as_str(), ""),
    };
    category_made(input.name.as_str(), made)
}

/// Why no entry is made for a file, if none is: because the catalog does
/// not know more than one of the tags `tags`, of which `found` holds the
/// identities that it knows; or else because the file cannot be read.
pub open spec fn entry_refusal_of(
    tags: Seq<Seq<char>>,
    found: Seq<Option<i64>>,
    readable: bool,
) -> Option<Seq<char>> {
    let unknown = unknown_among(tags, known_tags(found));
    if unknown.len() > 1 {
        Some("Unknown tags: "@ + joined(unknown, " "@))
    } else if !readable {
        Some("Could not read file '{file}'"@)
    } else {
        None
    }
}

/// Why no entry is made for a file: see `entry_refusal_of`.
pub fn entry_refusal(tags: &Vec<String>, found: &Vec<Option<i64>>, readable: bool) -> (line: Option<
    String,
>)
    ensures
        match line {
            Some(words) => entry_refusal_of(tags.deep_view(), found@, readable) == Some(words@),
            None => entry_refusal_of(tags.deep_view(), found@, readable) is None,
        },
{
    let unknown: Vec<String> = unknown_names(tags, &known(found));
    if unknown.len() > 1 {
        let names: String = join(&unknown, " ");
        Some(concat2("Unknown tags: ", names.as_str()))
    } else if !readable {
        Some(String::from_str("Could not read file '{file}'"))
    } else {
        None
    }
}

/// The answer that refuses with the one message `line`.
fn refused<T>(line: String) -> (response: ApiResponse<T>)
    ensures
        response.status == 400,
        response.data is None,
        response.messages@.len() == 1,
        response.messages.deep_view() == seq![line@],
{
    let messages: Vec<String> = vec![line];
    proof {
        assert(messages.deep_view() =~= seq![line@]);
    }
    ApiResponse::err(messages)
}

/// Makes an entry for the file of `input`, with the tags of `input` that
/// the catalog knows. `readable` says whether the file can be read.
///
/// The catalog is asked for each tag first. Then the entry is refused
/// where the catalog does not know more than one of the tags, or else
/// where the file cannot be read (see `entry_refusal_of`); nothing is
/// changed then, and a file without tags that cannot be read is refused
/// without a question to the catalog. Else the catalog is asked for the
/// entry, with the extension of the file, and for the tags that it knows
/// to be attached. The bytes of the file are not touched: they are for the
/// caller to store.
pub fn new_file_entry(db: &SyncDb, input: ReqNewFileEntry, readable: bool) -> (answer: Result<
    ApiResponse<i64>,
    CatalogError,
>)
    ensures
        input.tags@.len() == 0 && !readable ==> (answer matches Ok(r) && r.status == 400
            && r.data is None && r.messages.deep_view() == seq!["Could not read file '{file}'"@]),
        answer matches Err(e) ==> e is Database,
        answer matches Ok(r) ==> exists|found: Seq<Option<i64>>|
            found.len() == input.tags@.len() && match #[trigger] entry_refusal_of(
                input.tags.deep_view(),
                found,
                readable,
            ) {
                Some(line) => r.status == 400 && r.data is None && r.messages.deep_view() == seq![
                    line,
                ],
                None => r.status == 200 && r.data is Some && r.messages@.len() == 0,
            },
        answer matches Ok(r) ==> (r.status == 200 && r.data is Some && readable) || (r.status
            == 400 && r.data is None && r.messages@.len() == 1),
{
    let found: Vec<Option<i64>> = match db.tag_ids(&input.tags) {
        Ok(found) => found,
        Err(e) => {
            return Err(e);
        },
    };
    match entry_refusal(&input.tags, &found, readable) {
        Some(line) => {
            return Ok(refused(line));
        },
        None => {},
    }
    let tag_ids: Vec<i64> = ids_found(&found);
    let ext: String = extension(input.file.as_str());
    let id: i64 = match db.new_file(ext) {
        Ok(id) => id,
        Err(e) => {
            return Err(e);
        },
    };
    match db.tag_entry_many(id, tag_ids.as_slice()) {
        Ok(()) => Ok(ApiResponse::ok(id)),
        Err(e) => Err(e),
    }
}

/// The cover of the set that `input` asks for: the cover that it names,
/// or else the first of its files; `None` where it names no file at all.
pub fn cover_of(input: &ReqNewSet) -> (cover: Option<i64>)
    ensures
        cover == if input.files@.len() == 0 {
            None
        } else {
            match input.cover {
                Some(id) => Some(id),
                None => Some(input.files@[0]),
            }
        },
{
    if input.files.len() == 0 {
        None
    } else {
        match input.cover {
            Some(id) => Some(id),
            None => Some(input.files[0]),
        }
    }
}

/// The answer to the making of a set: its identity, or why the catalog
/// refused it.
pub fn set_made(made: Result<i64, CatalogError>) -> (answer: Result<ApiResponse<i64>, CatalogError>)
    ensures
        match made {
            Ok(id) => answer matches Ok(r) && r.status == 200 && r.data == Some(id)
                && r.messages@.len() == 0,
            Err(CatalogError::Database(words)) => answer matches Err(e) && e
                == CatalogError::Database(words),
            Err(e) => answer matches Ok(r) && r.status == 400 && r.data is None
                && r.messages@.len() == 1 && r.messages.deep_view() == seq![set_error_line(e@)],
        },
{
    match made {
        Ok(id) => Ok(ApiResponse::ok(id)),
        Err(CatalogError::Database(words)) => Err(CatalogError::Database(words)),
        Err(e) => {
            let messages: Vec<String> = vec![set_error(&e)];
            proof {
                assert(messages.deep_view() =~= seq![set_error_line(e@)]);
            }
            Ok(ApiResponse::err(messages))
        },
    }
}

/// Makes the set that `input` describes. A set without files is refused
/// at once, and the catalog is not asked. Else the catalog is asked for the
/// set, with the cover that `input` names or else the first of the files
/// (see `cover_of`), and the answer is what `set_made` makes of the
/// outcome: the identity of the set, or the line that says why the catalog
/// refused it.
pub fn new_set(db: &SyncDb, input: ReqNewSet) -> (answer: Result<ApiResponse<i64>, CatalogError>)
    ensures
        input.files@.len() == 0 ==> (answer matches Ok(r) && r.status == 400 && r.data is None
            && r.messages.deep_view() == seq!["Cannot create empty set"@]),
        answer matches Err(e) ==> e is Database,
        answer matches Ok(r) ==> (r.status == 200 && r.data is Some && r.messages@.len() == 0
            && input.files@.len() > 0) || (r.status == 400 && r.data is None && r.messages@.len()
            == 1),
        input.files@.len() > 0 ==> (answer matches Ok(r) ==> r.status == 200 || exists|
            e: CatalogErrorView,
        |
            !(e is Database) && r.messages.deep_view() == seq![#[trigger] set_error_line(e)]),
{
    match cover_of(&input) {
        None => {
            let messages: Vec<String> = vec![String::from_str("Cannot create empty set")];
            proof {
                assert(messages.deep_view() =~= seq!["Cannot create empty set"@]);
            }
            Ok(ApiResponse::err(messages))
        },
        Some(cover) => {
            let made: Result<i64, CatalogError> = db.new_set(cover, input.files);
            proof {
                if made is Err && !(made->Err_0 is Database) {
                    assert(!(made->Err_0@ is Database));
                }
            }
            set_made(made)
        },
    }
}

} // verus!
