//! Tags and their categories.

use crate::database::models::CatalogError;
use crate::sync_db::statements::{
    attaching_tag, creating_tag, creating_tag_category, finding_tag, finding_tag_category,
    listing_tags, searching_tag_categories, searching_tags,
};
use crate::sync_db::{first_integer, time, SqlValue, SyncDb};
use crate::lookup::{unknown_among, unknown_names};
use crate::text::concat3;
use vstd::prelude::*;
use vstd::string::*;

verus! {

/// The tags of `wanted` that an entry with the tags `present` lacks, each
/// once, in the order in which `wanted` first names them.
pub open spec fn lacking(wanted: Seq<i64>, present: Seq<i64>) -> Seq<i64>
    decreases wanted.len(),
{
    if wanted.len() == 0 {
        Seq::empty()
    } else {
        let before = lacking(wanted.drop_last(), present);
        if present.contains(wanted.last()) || before.contains(wanted.last()) {
            before
        } else {
            before.push(wanted.last())
        }
    }
}

/// Whether `list` holds `number`.
pub fn holds(list: &Vec<i64>, number: i64) -> (held: bool)
    ensures
        held == list@.contains(number),
{
    let n: usize = list.len();
    let mut i: usize = 0;
    while i < n
        invariant
            n == list@.len(),
            i <= n,
            forall|j: int| 0 <= j < i ==> list@[j] != number,
        decreases n - i,
    {
        if list[i] == number {
            return true;
        }
        i = i + 1;
    }
    false
}

/// The tags that attaching `wanted` adds to an entry that has the tags
/// `present`: see `lacking`.
pub fn tags_to_attach(wanted: &[i64], present: &Vec<i64>) -> (fresh: Vec<i64>)
    ensures
        fresh@ == lacking(wanted@, present@),
{
    let n: usize = wanted.len();
    let mut fresh: Vec<i64> = Vec::new();
    let mut i: usize = 0;
    proof {
        assert(wanted@.take(0) =~= Seq::<i64>::empty());
    }
    while i < n
        invariant
            n == wanted@.len(),
            i <= n,
            fresh@ == lacking(wanted@.take(i as int), present@),
        decreases n - i,
    {
        proof {
            assert(wanted@.take(i + 1).drop_last() =~= wanted@.take(i as int));
            assert(wanted@.take(i + 1).last() == wanted@[i as int]);
        }
        let tag: i64 = wanted[i];
        if !holds(present, tag) && !holds(&fresh, tag) {
            fresh.push(tag);
        }
        i = i + 1;
    }
    proof {
        assert(wanted@.take(n as int) =~= wanted@);
    }
    fresh
}

/// The integers in the first column of `rows`; `None` where a row holds
/// something else there.
pub fn integers(rows: &Vec<Vec<SqlValue>>) -> (numbers: Option<Vec<i64>>)
    ensures
        match numbers {
            Some(list) => {
                &&& list@.len() == rows@.len()
                &&& forall|i: int|
                    0 <= i < rows@.len() ==> (#[trigger] rows@[i])@.len() > 0 && rows@[i]@[0]
                        == SqlValue::Integer(list@[i])
            },
            None => exists|i: int|
                0 <= i < rows@.len() && !((#[trigger] rows@[i])@.len() > 0
                    && rows@[i]@[0] is Integer),
        },
{
    let n: usize = rows.len();
    let mut numbers: Vec<i64> = Vec::new();
    let mut i: usize = 0;
    while i < n
        invariant
            n == rows@.len(),
            i <= n,
            numbers@.len() == i,
            forall|j: int|
                0 <= j < i ==> (#[trigger] rows@[j])@.len() > 0 && rows@[j]@[0]
                    == SqlValue::Integer(numbers@[j]),
        decreases n - i,
    {
        if rows[i].len() == 0 {
            return None;
        }
        match &rows[i][0] {
            SqlValue::Integer(number) => {
                numbers.push(*number);
            },
            _ => {
                return None;
            },
        }
        i = i + 1;
    }
    Some(numbers)
}

/// The texts in the first column of `rows`; `None` where a row holds
/// something else there.
pub fn texts(rows: &Vec<Vec<SqlValue>>) -> (names: Option<Vec<String>>)
    ensures
        match names {
            Some(list) => {
                &&& list@.len() == rows@.len()
                &&& forall|i: int|
                    0 <= i < rows@.len() ==> (#[trigger] rows@[i])@.len() > 0
                        && rows@[i]@[0] is Text && rows@[i]@[0]->Text_0@ == list@[i]@
            },
            None => exists|i: int|
                0 <= i < rows@.len() && !((#[trigger] rows@[i])@.len() > 0 && rows@[i]@[0] is Text),
        },
{
    let n: usize = rows.len();
    let mut names: Vec<String> = Vec::new();
    let mut i: usize = 0;
    while i < n
        invariant
            n == rows@.len(),
            i <= n,
            names@.len() == i,
            forall|j: int|
                0 <= j < i ==> (#[trigger] rows@[j])@.len() > 0 && rows@[j]@[0] is Text
                    && rows@[j]@[0]->Text_0@ == names@[j]@,
        decreases n - i,
    {
        if rows[i].len() == 0 {
            return None;
        }
        match &rows[i][0] {
            SqlValue::Text(text) => {
                names.push(text.clone());
            },
            _ => {
                return None;
            },
        }
        i = i + 1;
    }
    Some(names)
}

/// The catalog's error for rows that do not hold what their columns should.
pub(crate) fn malformed() -> (error: CatalogError)
    ensures
        error is Database,
{
    CatalogError::Database(String::from_str("a row does not hold what its columns should"))
}

/// The pattern that finds the names in which `name` occurs.
pub fn name_pattern(name: &str) -> (pattern: String)
    ensures
        pattern@ == "%"@ + name@ + "%"@,
{
    concat3("%", name, "%")
}

impl SyncDb {
    /// The identity of the tag `name`, where there is such a tag: the
    /// engine is handed what `finding_tag` makes of the name, and
    /// `first_integer` reads the row that it finds.
    pub fn tag_id(&self, name: &str) -> (id: Result<Option<i64>, CatalogError>)
        ensures
            id matches Err(e) ==> e is Database,
    {
        let (sql, values, columns) = finding_tag(name);
        match self.first_row(sql.as_str(), &values, columns) {
            Ok(row) => Ok(first_integer(&row)),
            Err(e) => Err(e),
        }
    }

    /// The identity of the tag category `name`, where there is such a
    /// category.
    pub fn tag_category_id(&self, name: &str) -> (id: Result<Option<i64>, CatalogError>)
        ensures
            id matches Err(e) ==> e is Database,
    {
        let (sql, values, columns) = finding_tag_category(name);
        match self.first_row(sql.as_str(), &values, columns) {
            Ok(row) => Ok(first_integer(&row)),
            Err(e) => Err(e),
        }
    }

    /// The identity of each of the tags `names`, where the catalog knows
    /// the tag: the catalog is asked for each name, in their order. For no
    /// names there is nothing to ask.
    pub fn tag_ids(&self, names: &Vec<String>) -> (found: Result<Vec<Option<i64>>, CatalogError>)
        ensures
            names@.len() == 0 ==> found is Ok,
            found matches Err(e) ==> e is Database,
            found matches Ok(ids) ==> ids@.len() == names@.len(),
    {
        let n: usize = names.len();
        let mut found: Vec<Option<i64>> = Vec::new();
        let mut i: usize = 0;
        while i < n
            invariant
                n == names@.len(),
                i <= n,
                found@.len() == i,
            decreases n - i,
        {
            match self.tag_id(names[i].as_str()) {
                Err(e) => {
                    return Err(e);
                },
                Ok(id) => {
                    found.push(id);
                },
            }
            i = i + 1;
        }
        Ok(found)
    }

    /// The names of `tags` that are no tags of the catalog, in their order:
    /// the catalog is asked for each tag, and `unknown_among` says what is
    /// made of its answers. For no tags there is nothing to ask, and no
    /// name is unknown.
    pub fn verify_tags(&self, tags: &Vec<String>) -> (unknown: Result<Vec<String>, CatalogError>)
        ensures
            tags@.len() == 0 ==> (unknown matches Ok(names) && names@.len() == 0),
            unknown matches Err(e) ==> e is Database,
            unknown matches Ok(names) ==> exists|known: Seq<bool>|
                known.len() == tags@.len() && names.deep_view() == unknown_among(
                    tags.deep_view(),
                    known,
                ),
    {
        let n: usize = tags.len();
        let mut known: Vec<bool> = Vec::new();
        let mut i: usize = 0;
        while i < n
            invariant
                n == tags@.len(),
                i <= n,
                known@.len() == i,
            decreases n - i,
        {
            match self.tag_id(tags[i].as_str()) {
                Ok(id) => {
                    known.push(id.is_some());
                },
                Err(e) => {
                    return Err(e);
                },
            }
            i = i + 1;
        }
        let unknown: Vec<String> = unknown_names(tags, &known);
        proof {
            assert(unknown.deep_view().len() == unknown@.len());
            if n == 0 {
                assert(tags.deep_view().len() == 0);
            }
        }
        Ok(unknown)
    }

    /// Makes the tag category `name`, and returns its identity. Fails with
    /// `AlreadyExists` where the catalog has a category of that name.
    pub fn new_tag_category(&self, name: &str, description: &str) -> (id: Result<
        i64,
        CatalogError,
    >)
        ensures
            id matches Err(e) ==> e is Database || e is AlreadyExists,
    {
        match self.tag_category_id(name) {
            Err(e) => {
                return Err(e);
            },
            Ok(Some(_)) => {
                return Err(CatalogError::AlreadyExists);
            },
            Ok(None) => {},
        }
        let (sql, values) = creating_tag_category(name, description, time());
        self.insert_row(sql.as_str(), &values)
    }

    /// Makes the tag `name` in the category `category`, and returns its
    /// identity. Fails with `AlreadyExists` where the catalog has a tag of
    /// that name.
    pub fn new_tag(&self, name: &str, category: i64, description: &str) -> (id: Result<
        i64,
        CatalogError,
    >)
        ensures
            id matches Err(e) ==> e is Database || e is AlreadyExists,
    {
        match self.tag_id(name) {
            Err(e) => {
                return Err(e);
            },
            Ok(Some(_)) => {
                return Err(CatalogError::AlreadyExists);
            },
            Ok(None) => {},
        }
        let (sql, values) = creating_tag(name, category, description, time());
        self.insert_row(sql.as_str(), &values)
    }

    /// The names of the tag categories in whose name `name` occurs, in
    /// rising order.
    pub fn tag_category_search(&self, name: &str) -> (names: Result<Vec<String>, CatalogError>)
        ensures
            names matches Err(e) ==> e is Database,
    {
        let (sql, values, columns) = searching_tag_categories(name);
        match self.all_rows(sql.as_str(), &values, columns) {
            Err(e) => Err(e),
            Ok(rows) => match texts(&rows) {
                Some(names) => Ok(names),
                None => Err(malformed()),
            },
        }
    }

    /// The names of the tags in whose name `name` occurs, in rising order;
    /// with a category, only the tags of that category.
    pub fn tag_search(&self, name: &str, category: Option<i64>) -> (names: Result<
        Vec<String>,
        CatalogError,
    >)
        ensures
            names matches Err(e) ==> e is Database,
    {
        let (sql, values, columns) = searching_tags(name, category);
        let found: Result<Vec<Vec<SqlValue>>, CatalogError> = self.all_rows(
            sql.as_str(),
            &values,
            columns,
        );
        match found {
            Err(e) => Err(e),
            Ok(rows) => match texts(&rows) {
                Some(names) => Ok(names),
                None => Err(malformed()),
            },
        }
    }

    /// The tags of the entry `entry_id`: the engine is handed what
    /// `listing_tags` makes of the identity, and `integers` reads the rows
    /// that it finds.
    pub fn entry_tags(&self, entry_id: i64) -> (tags: Result<Vec<i64>, CatalogError>)
        ensures
            tags matches Err(e) ==> e is Database,
    {
        let (sql, values, columns) = listing_tags(entry_id);
        match self.all_rows(sql.as_str(), &values, columns) {
            Err(e) => Err(e),
            Ok(rows) => match integers(&rows) {
                Some(tags) => Ok(tags),
                None => Err(malformed()),
            },
        }
    }

    /// Attaches the tag `tag_id` to the entry `entry_id`, unless the entry
    /// has it.
    pub fn tag_entry(&self, entry_id: i64, tag_id: i64) -> (done: Result<(), CatalogError>)
        ensures
            done matches Err(e) ==> e is Database,
    {
        let one: Vec<i64> = vec![tag_id];
        self.tag_entry_many(entry_id, one.as_slice())
    }

    /// Attaches the tags `tag_ids` to the entry `entry_id`: each tag that
    /// the entry lacks, once. `tags_to_attach` says which these are, by the
    /// tags that the catalog holds of the entry, and for each of them the
    /// engine is handed what `attaching_tag` makes of the entry and the
    /// tag.
    pub fn tag_entry_many(&self, entry_id: i64, tag_ids: &[i64]) -> (done: Result<
        (),
        CatalogError,
    >)
        ensures
            done matches Err(e) ==> e is Database,
    {
        let present: Vec<i64> = match self.entry_tags(entry_id) {
            Ok(tags) => tags,
            Err(e) => {
                return Err(e);
            },
        };
        let fresh: Vec<i64> = tags_to_attach(tag_ids, &present);
        let n: usize = fresh.len();
        let mut i: usize = 0;
        while i < n
            invariant
                n == fresh@.len(),
                i <= n,
            decreases n - i,
        {
            let (sql, values) = attaching_tag(entry_id, fresh[i]);
            match self.insert_row(sql.as_str(), &values) {
                Ok(_) => {},
                Err(e) => {
                    return Err(e);
                },
            }
            i = i + 1;
        }
        Ok(())
    }
}

} // verus!
