//! The records of the catalog, and the conditions by which entries are
//! searched.

use crate::text::{concat3, join, joined};
use vstd::prelude::*;
use vstd::string::*;

verus! {

/// Why the catalog refused a request.
#[derive(Debug, Clone)]
pub enum CatalogError {
    /// An entry is not of the kind that the request needs.
    InvalidId,
    /// The name is taken.
    AlreadyExists,
    /// No entry has the given identity.
    NotFound,
    /// The cover of a set is no file.
    InvalidCover,
    /// A file that should join a set is a member of one.
    BelongsToSet,
    /// The database engine failed; the text is what it said.
    Database(String),
}

/// What a request of the catalog gives: its result, or why it was refused.
pub type Result<T> = std::result::Result<T, CatalogError>;

/// A tag, as the catalog keeps it.
#[derive(Debug, Clone)]
pub struct Tag {
    pub id: i64,
    pub name: String,
    pub category: i64,
    pub description: Option<String>,
    pub last_update: i64,
    pub time_created: i64,
}

/// A file, as the catalog keeps it.
#[derive(Debug, Clone)]
pub struct File {
    pub id: i64,
    pub ext: String,
    pub last_update: i64,
    pub time_created: i64,
}

/// A set of files, with the file that stands for it.
#[derive(Debug, Clone)]
pub struct FileSet {
    pub id: i64,
    pub cover: i64,
    pub time_created: i64,
    pub last_update: i64,
}

/// A file that was received and is not yet an entry.
#[derive(Debug, Clone)]
pub struct UploadFile {
    pub id: i64,
    pub ext: String,
    pub title: String,
}

/// An entry that a search found: its kind (1 for a file, 2 for a set), and
/// the file that shows it.
#[derive(Debug, Clone)]
pub struct EntryQueryMatch {
    pub kind: i64,
    pub id: i64,
    pub parent_set: Option<i64>,
    pub img_id: i64,
    pub img_ext: String,
}

/// One page of what a search found.
#[derive(Debug, Clone)]
pub struct EntryQueryResult {
    pub entry_count: i64,
    pub page: i64,
    pub page_size: i64,
    pub page_count: i64,
    pub page_entries: Vec<EntryQueryMatch>,
}

/// What a search asks of an entry.
#[derive(Debug, Clone)]
pub struct EntryQuery {
    pub tags_included: Vec<i64>,
    pub tags_excluded: Vec<i64>,
    pub created_after: Option<i64>,
    pub created_before: Option<i64>,
    pub updated_after: Option<i64>,
    pub updated_before: Option<i64>,
    pub is_set: bool,
    pub is_file: bool,
    pub untagged: bool,
    pub include_set_files: bool,
}

/// A search, as contracts see it.
#[verifier::ext_equal]
pub struct EntryQueryView {
    pub tags_included: Seq<i64>,
    pub tags_excluded: Seq<i64>,
    pub created_after: Option<i64>,
    pub created_before: Option<i64>,
    pub updated_after: Option<i64>,
    pub updated_before: Option<i64>,
    pub is_set: bool,
    pub is_file: bool,
    pub untagged: bool,
    pub include_set_files: bool,
}

impl EntryQueryView {
    /// The search that asks nothing, and leaves out the files of sets.
    pub open spec fn empty() -> EntryQueryView {
        EntryQueryView {
            tags_included: Seq::empty(),
            tags_excluded: Seq::empty(),
            created_after: None,
            created_before: None,
            updated_after: None,
            updated_before: None,
            is_set: false,
            is_file: false,
            untagged: false,
            include_set_files: false,
        }
    }
}

impl View for EntryQuery {
    type V = EntryQueryView;

    open spec fn view(&self) -> EntryQueryView {
        EntryQueryView {
            tags_included: self.tags_included@,
            tags_excluded: self.tags_excluded@,
            created_after: self.created_after,
            created_before: self.created_before,
            updated_after: self.updated_after,
            updated_before: self.updated_before,
            is_set: self.is_set,
            is_file: self.is_file,
            untagged: self.untagged,
            include_set_files: self.include_set_files,
        }
    }
}

impl Default for EntryQuery {
    /// The search that asks nothing, and leaves out the files of sets.
    fn default() -> (query: EntryQuery)
        ensures
            query@ == EntryQueryView::empty(),
    {
        EntryQuery {
            tags_included: Vec::new(),
            tags_excluded: Vec::new(),
            created_after: None,
            created_before: None,
            updated_after: None,
            updated_before: None,
            is_set: false,
            is_file: false,
            untagged: false,
            include_set_files: false,
        }
    }
}

/// A refusal of the catalog, as contracts see it.
pub enum CatalogErrorView {
    InvalidId,
    AlreadyExists,
    NotFound,
    InvalidCover,
    BelongsToSet,
    Database(Seq<char>),
}

impl View for CatalogError {
    type V = CatalogErrorView;

    open spec fn view(&self) -> CatalogErrorView {
        match self {
            CatalogError::InvalidId => CatalogErrorView::InvalidId,
            CatalogError::AlreadyExists => CatalogErrorView::AlreadyExists,
            CatalogError::NotFound => CatalogErrorView::NotFound,
            CatalogError::InvalidCover => CatalogErrorView::InvalidCover,
            CatalogError::BelongsToSet => CatalogErrorView::BelongsToSet,
            CatalogError::Database(words) => CatalogErrorView::Database(words@),
        }
    }
}

impl CatalogErrorView {
    /// The name of the refusal; for a failure of the engine, with what the
    /// engine said.
    pub open spec fn description(self) -> Seq<char> {
        match self {
            CatalogErrorView::InvalidId => "InvalidId"@,
            CatalogErrorView::AlreadyExists => "AlreadyExists"@,
            CatalogErrorView::NotFound => "NotFound"@,
            CatalogErrorView::InvalidCover => "InvalidCover"@,
            CatalogErrorView::BelongsToSet => "BelongsToSet"@,
            CatalogErrorView::Database(words) => "Database(\""@ + words + "\")"@,
        }
    }
}

impl CatalogError {
    /// The refusal as a message shows it.
    pub fn description(&self) -> (text: String)
        ensures
            text@ == self@.description(),
    {
        match self {
            CatalogError::InvalidId => String::from_str("InvalidId"),
            CatalogError::AlreadyExists => String::from_str("AlreadyExists"),
            CatalogError::NotFound => String::from_str("NotFound"),
            CatalogError::InvalidCover => String::from_str("InvalidCover"),
            CatalogError::BelongsToSet => String::from_str("BelongsToSet"),
            CatalogError::Database(words) => concat3("Database(\"", words.as_str(), "\")"),
        }
    }
}

/// A value that takes the place of a `?` in a statement.
#[derive(Debug, Clone)]
pub enum EntryQueryParam {
    String(String),
    Int(i64),
}

/// A value for a statement, as contracts see it.
pub enum EntryQueryParamView {
    String(Seq<char>),
    Int(i64),
}

impl View for EntryQueryParam {
    type V = EntryQueryParamView;

    open spec fn view(&self) -> EntryQueryParamView {
        match self {
            EntryQueryParam::String(text) => EntryQueryParamView::String(text@),
            EntryQueryParam::Int(number) => EntryQueryParamView::Int(*number),
        }
    }
}

impl DeepView for EntryQueryParam {
    type V = EntryQueryParamView;

    open spec fn deep_view(&self) -> EntryQueryParamView {
        self@
    }
}

/// The text `unit`, `times` times.
pub open spec fn repeated(unit: Seq<char>, times: nat) -> Seq<char>
    decreases times,
{
    if times == 0 {
        Seq::empty()
    } else {
        repeated(unit, (times - 1) as nat) + unit
    }
}

/// A list of `number` question marks between brackets, with commas
/// between them: `(?,?,?)` for 3, and `()` for less than 1.
pub open spec fn question_marks(number: int) -> Seq<char> {
    if number < 1 {
        "()"@
    } else {
        "(?"@ + repeated(",?"@, (number - 1) as nat) + ")"@
    }
}

/// A list of `number` question marks, as `question_marks` describes it.
pub fn question_mark_list(number: i64) -> (list: String)
    ensures
        list@ == question_marks(number as int),
{
    if number < 1 {
        return String::from_str("()");
    }
    let mut list: String = String::from_str("(?");
    let mut i: i64 = 1;
    proof {
        assert(list@ =~= "(?"@ + repeated(",?"@, 0));
    }
    while i < number
        invariant
            1 <= i <= number,
            list@ == "(?"@ + repeated(",?"@, (i - 1) as nat),
        decreases number - i,
    {
        list.append(",?");
        proof {
            assert(list@ =~= "(?"@ + repeated(",?"@, i as nat));
        }
        i = i + 1;
    }
    list.append(")");
    list
}

/// The number of values in `list`, as far as 64 bits with a sign can say.
pub fn count_of(list: &Vec<i64>) -> (count: i64)
    ensures
        count == if list@.len() <= i64::MAX {
            list@.len() as int
        } else {
            i64::MAX as int
        },
{
    let n: usize = list.len();
    if n as u64 > 9223372036854775807u64 {
        9223372036854775807i64
    } else {
        n as i64
    }
}

/// The values `numbers` as values for a statement.
pub open spec fn int_params(numbers: Seq<i64>) -> Seq<EntryQueryParamView> {
    numbers.map_values(|n: i64| EntryQueryParamView::Int(n))
}

/// The value `number`, where there is one, as a value for a statement.
pub open spec fn optional_param(number: Option<i64>) -> Seq<EntryQueryParamView> {
    match number {
        Some(n) => seq![EntryQueryParamView::Int(n)],
        None => Seq::empty(),
    }
}

/// The condition `text`, where `holds`.
pub open spec fn condition_if(holds: bool, text: Seq<char>) -> Seq<Seq<char>> {
    if holds {
        seq![text]
    } else {
        Seq::empty()
    }
}

/// The number that stands for the length of `list` in a statement.
pub open spec fn counted(list: Seq<i64>) -> int {
    if list.len() <= i64::MAX {
        list.len() as int
    } else {
        i64::MAX as int
    }
}

/// The condition that an entry has the tags of a search.
pub open spec fn included_condition(tags: Seq<i64>) -> Seq<char> {
    INCLUDED_HEAD@ + question_marks(counted(tags)) + INCLUDED_TAIL@
}

/// The condition that an entry has none of the tags that a search leaves
/// out.
pub open spec fn excluded_condition(tags: Seq<i64>) -> Seq<char> {
    EXCLUDED_HEAD@ + question_marks(counted(tags)) + EXCLUDED_TAIL@
}

/// The condition on the tags that an entry must have, up to the list of
/// question marks.
pub const INCLUDED_HEAD: &'static str = "exists (
                        select 1
                        from entry_tag et
                        where et.entry_id = e.entry_id
                        and et.tag_id in ";

/// The condition on the tags that an entry must have, after the list of
/// question marks.
pub const INCLUDED_TAIL: &'static str = "
                        group by et.entry_id
                        having count(distict et.tag_id) = 3
                    )";

/// The condition on the tags that an entry must not have, up to the list
/// of question marks.
pub const EXCLUDED_HEAD: &'static str = "not exists (
                    select 1
                    from entry_tag et
                    where et.entry_id = e.entry_id
                    and et.tag_id in ";

/// The condition on the tags that an entry must not have, after the list
/// of question marks.
pub const EXCLUDED_TAIL: &'static str = "
                )";

/// The condition that an entry has no tag.
pub const UNTAGGED: &'static str = "not exists (
                        select 1 from entry_tag et
                        where et.entry_id = e.entry_id
                )";

impl EntryQuery {
    /// The conditions of the search, in the order in which the statement
    /// holds them: the tags that an entry must have, those that it must not
    /// have, the four bounds on its times, its kind, whether it has no tag,
    /// and, unless the files of sets are asked for, that it is in no set.
    pub open spec fn conditions(&self) -> Seq<Seq<char>> {
        condition_if(self.tags_included@.len() > 0, included_condition(self.tags_included@))
            + condition_if(self.tags_excluded@.len() > 0, excluded_condition(self.tags_excluded@))
            + condition_if(self.created_after is Some, "e.time_created > ?"@) + condition_if(
            self.created_before is Some,
            "e.time_created < ?"@,
        ) + condition_if(self.updated_after is Some, "e.time_updated > ?"@) + condition_if(
            self.updated_before is Some,
            "e.time_updated < ?"@,
        ) + condition_if(self.is_set, "e.entry_type = 2"@) + condition_if(
            self.is_file,
            "e.entry_type = 1"@,
        ) + condition_if(self.untagged, UNTAGGED@) + condition_if(
            !self.include_set_files,
            "e.parent_set is null"@,
        )
    }

    /// The values for the question marks of the conditions, in their order.
    pub open spec fn parameters(&self) -> Seq<EntryQueryParamView> {
        int_params(self.tags_included@) + int_params(self.tags_excluded@) + optional_param(
            self.created_after,
        ) + optional_param(self.created_before) + optional_param(self.updated_after)
            + optional_param(self.updated_before)
    }

    fn question_mark_list(number: i64) -> (list: String)
        ensures
            list@ == question_marks(number as int),
    {
        question_mark_list(number)
    }

    /// The search as the condition of a statement, with `?` for each value,
    /// and the values: the conditions, joined by ` and `.
    pub fn generate_query(&self) -> (query: (String, Vec<EntryQueryParam>))
        ensures
            query.0@ == joined(self.conditions(), " and "@),
            query.1.deep_view() == self.parameters(),
    {
        let mut parts: Vec<String> = Vec::new();
        let mut params: Vec<EntryQueryParam> = Vec::new();
        proof {
            assert(parts.deep_view() =~= Seq::<Seq<char>>::empty());
            assert(params.deep_view() =~= Seq::<EntryQueryParamView>::empty());
        }
        push_ints(&mut params, &self.tags_included);
        push_ints(&mut params, &self.tags_excluded);
        push_optional(&mut params, self.created_after);
        push_optional(&mut params, self.created_before);
        push_optional(&mut params, self.updated_after);
        push_optional(&mut params, self.updated_before);
        proof {
            assert(params.deep_view() =~= self.parameters());
        }
        let included: String = Self::question_mark_list(count_of(&self.tags_included));
        push_if(
            &mut parts,
            self.tags_included.len() > 0,
            concat3(INCLUDED_HEAD, included.as_str(), INCLUDED_TAIL),
        );
        let excluded: String = Self::question_mark_list(count_of(&self.tags_excluded));
        push_if(
            &mut parts,
            self.tags_excluded.len() > 0,
            concat3(EXCLUDED_HEAD, excluded.as_str(), EXCLUDED_TAIL),
        );
        push_if(&mut parts, self.created_after.is_some(), String::from_str("e.time_created > ?"));
        push_if(&mut parts, self.created_before.is_some(), String::from_str("e.time_created < ?"));
        push_if(&mut parts, self.updated_after.is_some(), String::from_str("e.time_updated > ?"));
        push_if(&mut parts, self.updated_before.is_some(), String::from_str("e.time_updated < ?"));
        push_if(&mut parts, self.is_set, String::from_str("e.entry_type = 2"));
        push_if(&mut parts, self.is_file, String::from_str("e.entry_type = 1"));
        push_if(&mut parts, self.untagged, String::from_str(UNTAGGED));
        push_if(&mut parts, !self.include_set_files, String::from_str("e.parent_set is null"));
        proof {
            assert(parts.deep_view() =~= self.conditions());
        }
        (join(&parts, " and "), params)
    }
}

/// Appends the condition `text` to `parts`, where `holds`.
fn push_if(parts: &mut Vec<String>, holds: bool, text: String)
    ensures
        final(parts).deep_view() == old(parts).deep_view() + condition_if(holds, text@),
{
    let ghost before = parts.deep_view();
    if holds {
        parts.push(text);
        proof {
            assert(parts.deep_view() =~= before + seq![text@]);
        }
    } else {
        proof {
            assert(parts.deep_view() =~= before + Seq::<Seq<char>>::empty());
        }
    }
}

/// Appends `number` to `params`, where there is one.
pub fn push_optional(params: &mut Vec<EntryQueryParam>, number: Option<i64>)
    ensures
        final(params).deep_view() == old(params).deep_view() + optional_param(number),
{
    let ghost before = params.deep_view();
    match number {
        Some(n) => {
            params.push(EntryQueryParam::Int(n));
            proof {
                assert(params.deep_view() =~= before + seq![EntryQueryParamView::Int(n)]);
            }
        },
        None => {
            proof {
                assert(params.deep_view() =~= before + Seq::<EntryQueryParamView>::empty());
            }
        },
    }
}

/// Appends the values `numbers` to `params`.
pub fn push_ints(params: &mut Vec<EntryQueryParam>, numbers: &Vec<i64>)
    ensures
        final(params).deep_view() == old(params).deep_view() + int_params(numbers@),
{
    let n: usize = numbers.len();
    let mut i: usize = 0;
    proof {
        assert(params.deep_view() =~= old(params).deep_view() + int_params(numbers@.take(0)));
    }
    while i < n
        invariant
            n == numbers@.len(),
            i <= n,
            params.deep_view() == old(params).deep_view() + int_params(numbers@.take(i as int)),
        decreases n - i,
    {
        let ghost before = params.deep_view();
        params.push(EntryQueryParam::Int(numbers[i]));
        proof {
            assert(params.deep_view() =~= before.push(EntryQueryParamView::Int(numbers@[i as int])));
            assert(int_params(numbers@.take(i + 1)) =~= int_params(numbers@.take(i as int)).push(
                EntryQueryParamView::Int(numbers@[i as int]),
            ));
        }
        i = i + 1;
    }
    proof {
        assert(numbers@.take(n as int) =~= numbers@);
    }
}

} // verus!
