//! What the catalog hands to the engine.
//!
//! Each thing that the catalog asks of the engine, or has it do, is a
//! statement with question marks and a list of values, one for each
//! question mark in their order; a query has, besides, the number of
//! columns that are read of each row it finds. The functions here make
//! them, one function for each statement, so that what reaches the engine is
//! stated in one place and exactly.

use crate::database::models::{
    optional_param, push_optional, EntryQueryParam, EntryQueryParamView,
};
use crate::sync_db::tags::name_pattern;
use vstd::prelude::*;
use vstd::string::*;

verus! {

/// What is handed to the engine to find the tag `name`: the query, its
/// value, and the number of columns that are read of a row.
pub fn finding_tag(name: &str) -> (handed: (String, Vec<EntryQueryParam>, usize))
    ensures
        handed.0@ == "select tag_id from tag where name = ?"@,
        handed.1.deep_view() == seq![EntryQueryParamView::String(name@)],
        handed.2 == 1,
{
    let values: Vec<EntryQueryParam> = vec![EntryQueryParam::String(String::from_str(name))];
    proof {
        assert(values.deep_view() =~= seq![EntryQueryParamView::String(name@)]);
    }
    let sql: String = String::from_str("select tag_id from tag where name = ?");
    (sql, values, 1)
}

/// What is handed to the engine to find the tag category `name`: the query,
/// its value, and the number of columns that are read of a row.
pub fn finding_tag_category(name: &str) -> (handed: (String, Vec<EntryQueryParam>, usize))
    ensures
        handed.0@ == "select tcat_id from tag_category where name = ?"@,
        handed.1.deep_view() == seq![EntryQueryParamView::String(name@)],
        handed.2 == 1,
{
    let values: Vec<EntryQueryParam> = vec![EntryQueryParam::String(String::from_str(name))];
    proof {
        assert(values.deep_view() =~= seq![EntryQueryParamView::String(name@)]);
    }
    let sql: String = String::from_str("select tcat_id from tag_category where name = ?");
    (sql, values, 1)
}

/// What is handed to the engine to make the tag category `name`, described
/// by `description`, at the time `now`: the statement and its values.
pub fn creating_tag_category(name: &str, description: &str, now: i64) -> (handed: (
    String,
    Vec<EntryQueryParam>,
))
    ensures
        handed.0@ == "insert into tag_category (name, description, time_created, time_updated)
                values (?, ?, ?, ?)"@,
        handed.1.deep_view() == seq![
            EntryQueryParamView::String(name@),
            EntryQueryParamView::String(description@),
            EntryQueryParamView::Int(now),
            EntryQueryParamView::Int(now),
        ],
{
    let values: Vec<EntryQueryParam> = vec![
        EntryQueryParam::String(String::from_str(name)),
        EntryQueryParam::String(String::from_str(description)),
        EntryQueryParam::Int(now),
        EntryQueryParam::Int(now),
    ];
    proof {
        assert(values.deep_view() =~= seq![
            EntryQueryParamView::String(name@),
            EntryQueryParamView::String(description@),
            EntryQueryParamView::Int(now),
            EntryQueryParamView::Int(now),
        ]);
    }
    let sql: String = String::from_str(
        "insert into tag_category (name, description, time_created, time_updated)
                values (?, ?, ?, ?)",
    );
    (sql, values)
}

/// What is handed to the engine to make the tag `name` in the category
/// `category`, described by `description`, at the time `now`: the statement
/// and its values.
pub fn creating_tag(name: &str, category: i64, description: &str, now: i64) -> (handed: (
    String,
    Vec<EntryQueryParam>,
))
    ensures
        handed.0@ == "insert into tag (name, category, description, time_created, time_updated)
                values (?, ?, ?, ?, ?)"@,
        handed.1.deep_view() == seq![
            EntryQueryParamView::String(name@),
            EntryQueryParamView::Int(category),
            EntryQueryParamView::String(description@),
            EntryQueryParamView::Int(now),
            EntryQueryParamView::Int(now),
        ],
{
    let values: Vec<EntryQueryParam> = vec![
        EntryQueryParam::String(String::from_str(name)),
        EntryQueryParam::Int(category),
        EntryQueryParam::String(String::from_str(description)),
        EntryQueryParam::Int(now),
        EntryQueryParam::Int(now),
    ];
    proof {
        assert(values.deep_view() =~= seq![
            EntryQueryParamView::String(name@),
            EntryQueryParamView::Int(category),
            EntryQueryParamView::String(description@),
            EntryQueryParamView::Int(now),
            EntryQueryParamView::Int(now),
        ]);
    }
    let sql: String = String::from_str(
        "insert into tag (name, category, description, time_created, time_updated)
                values (?, ?, ?, ?, ?)",
    );
    (sql, values)
}

/// What is handed to the engine to list the tags of the entry `entry_id`:
/// the query, its value, and the number of columns that are read of a row.
pub fn listing_tags(entry_id: i64) -> (handed: (String, Vec<EntryQueryParam>, usize))
    ensures
        handed.0@ == "select tag_id from entry_tag where entry_id = ?"@,
        handed.1.deep_view() == seq![EntryQueryParamView::Int(entry_id)],
        handed.2 == 1,
{
    let values: Vec<EntryQueryParam> = vec![EntryQueryParam::Int(entry_id)];
    proof {
        assert(values.deep_view() =~= seq![EntryQueryParamView::Int(entry_id)]);
    }
    let sql: String = String::from_str("select tag_id from entry_tag where entry_id = ?");
    (sql, values, 1)
}

/// What is handed to the engine to attach the tag `tag_id` to the entry
/// `entry_id`: the statement and its values.
pub fn attaching_tag(entry_id: i64, tag_id: i64) -> (handed: (String, Vec<EntryQueryParam>))
    ensures
        handed.0@ == "insert into entry_tag (entry_id, tag_id)
                values (?, ?)"@,
        handed.1.deep_view() == seq![
            EntryQueryParamView::Int(entry_id),
            EntryQueryParamView::Int(tag_id),
        ],
{
    let values: Vec<EntryQueryParam> = vec![
        EntryQueryParam::Int(entry_id),
        EntryQueryParam::Int(tag_id),
    ];
    proof {
        assert(values.deep_view() =~= seq![
            EntryQueryParamView::Int(entry_id),
            EntryQueryParamView::Int(tag_id),
        ]);
    }
    let sql: String = String::from_str(
        "insert into entry_tag (entry_id, tag_id)
                values (?, ?)",
    );
    (sql, values)
}

/// What is handed to the engine to make an entry for a file with the
/// extension `ext`, made at the time `created` and last changed at the time
/// `updated`: the statement and its values.
pub fn creating_file(ext: String, created: i64, updated: i64) -> (handed: (
    String,
    Vec<EntryQueryParam>,
))
    ensures
        handed.0@ == "insert into entry (entry_type, ext, time_created, time_updated)
                values (1, ?, ?, ?)"@,
        handed.1.deep_view() == seq![
            EntryQueryParamView::String(ext@),
            EntryQueryParamView::Int(created),
            EntryQueryParamView::Int(updated),
        ],
{
    let values: Vec<EntryQueryParam> = vec![
        EntryQueryParam::String(ext),
        EntryQueryParam::Int(created),
        EntryQueryParam::Int(updated),
    ];
    proof {
        assert(values.deep_view() =~= seq![
            EntryQueryParamView::String(ext@),
            EntryQueryParamView::Int(created),
            EntryQueryParamView::Int(updated),
        ]);
    }
    let sql: String = String::from_str(
        "insert into entry (entry_type, ext, time_created, time_updated)
                values (1, ?, ?, ?)",
    );
    (sql, values)
}

/// What is handed to the engine to ask for the kind of the entry `id` and
/// for the set that it is a member of: the query, its value, and the number
/// of columns that are read of a row.
pub fn asking_membership(id: i64) -> (handed: (String, Vec<EntryQueryParam>, usize))
    ensures
        handed.0@ == "select entry_type, parent_set from entry where entry_id = ?"@,
        handed.1.deep_view() == seq![EntryQueryParamView::Int(id)],
        handed.2 == 2,
{
    let values: Vec<EntryQueryParam> = vec![EntryQueryParam::Int(id)];
    proof {
        assert(values.deep_view() =~= seq![EntryQueryParamView::Int(id)]);
    }
    let sql: String = String::from_str(
        "select entry_type, parent_set from entry where entry_id = ?",
    );
    (sql, values, 2)
}

/// What is handed to the engine to make an entry for a set that the file
/// `cover` stands for, at the time `now`: the statement and its values.
pub fn creating_set(cover: i64, now: i64) -> (handed: (String, Vec<EntryQueryParam>))
    ensures
        handed.0@ == "insert into entry (entry_type, cover, time_updated, time_created)
                values (2, ?, ?, ?)"@,
        handed.1.deep_view() == seq![
            EntryQueryParamView::Int(cover),
            EntryQueryParamView::Int(now),
            EntryQueryParamView::Int(now),
        ],
{
    let values: Vec<EntryQueryParam> = vec![
        EntryQueryParam::Int(cover),
        EntryQueryParam::Int(now),
        EntryQueryParam::Int(now),
    ];
    proof {
        assert(values.deep_view() =~= seq![
            EntryQueryParamView::Int(cover),
            EntryQueryParamView::Int(now),
            EntryQueryParamView::Int(now),
        ]);
    }
    let sql: String = String::from_str(
        "insert into entry (entry_type, cover, time_updated, time_created)
                values (2, ?, ?, ?)",
    );
    (sql, values)
}

/// What is handed to the engine to ask whether the set `set_id` lists the
/// file `file_id`: the query, its values, and the number of columns that
/// are read of a row.
pub fn asking_listed(set_id: i64, file_id: i64) -> (handed: (String, Vec<EntryQueryParam>, usize))
    ensures
        handed.0@ == "select file_id from set_file where set_id = ? and file_id = ?"@,
        handed.1.deep_view() == seq![
            EntryQueryParamView::Int(set_id),
            EntryQueryParamView::Int(file_id),
        ],
        handed.2 == 1,
{
    let values: Vec<EntryQueryParam> = vec![
        EntryQueryParam::Int(set_id),
        EntryQueryParam::Int(file_id),
    ];
    proof {
        assert(values.deep_view() =~= seq![
            EntryQueryParamView::Int(set_id),
            EntryQueryParamView::Int(file_id),
        ]);
    }
    let sql: String = String::from_str(
        "select file_id from set_file where set_id = ? and file_id = ?",
    );
    (sql, values, 1)
}

/// What is handed to the engine to give the file `file_id` the place
/// `place` in the set `set_id`: the statement and its values.
pub fn placing(place: i64, set_id: i64, file_id: i64) -> (handed: (String, Vec<EntryQueryParam>))
    ensures
        handed.0@ == "update set_file set position = ? where set_id = ? and file_id = ?"@,
        handed.1.deep_view() == seq![
            EntryQueryParamView::Int(place),
            EntryQueryParamView::Int(set_id),
            EntryQueryParamView::Int(file_id),
        ],
{
    let values: Vec<EntryQueryParam> = vec![
        EntryQueryParam::Int(place),
        EntryQueryParam::Int(set_id),
        EntryQueryParam::Int(file_id),
    ];
    proof {
        assert(values.deep_view() =~= seq![
            EntryQueryParamView::Int(place),
            EntryQueryParamView::Int(set_id),
            EntryQueryParamView::Int(file_id),
        ]);
    }
    let sql: String = String::from_str(
        "update set_file set position = ? where set_id = ? and file_id = ?",
    );
    (sql, values)
}

/// What is handed to the engine to take the file `file_id` from the list of
/// the set `set_id`: the statement and its values.
pub fn unlisting(set_id: i64, file_id: i64) -> (handed: (String, Vec<EntryQueryParam>))
    ensures
        handed.0@ == "delete from set_file where set_id = ? and file_id = ?"@,
        handed.1.deep_view() == seq![
            EntryQueryParamView::Int(set_id),
            EntryQueryParamView::Int(file_id),
        ],
{
    let values: Vec<EntryQueryParam> = vec![
        EntryQueryParam::Int(set_id),
        EntryQueryParam::Int(file_id),
    ];
    proof {
        assert(values.deep_view() =~= seq![
            EntryQueryParamView::Int(set_id),
            EntryQueryParamView::Int(file_id),
        ]);
    }
    let sql: String = String::from_str("delete from set_file where set_id = ? and file_id = ?");
    (sql, values)
}

/// What is handed to the engine to make the file `file_id` a member of no
/// set: the statement and its value.
pub fn releasing(file_id: i64) -> (handed: (String, Vec<EntryQueryParam>))
    ensures
        handed.0@ == "update entry set parent_set = null where entry_id = ?"@,
        handed.1.deep_view() == seq![EntryQueryParamView::Int(file_id)],
{
    let values: Vec<EntryQueryParam> = vec![EntryQueryParam::Int(file_id)];
    proof {
        assert(values.deep_view() =~= seq![EntryQueryParamView::Int(file_id)]);
    }
    let sql: String = String::from_str("update entry set parent_set = null where entry_id = ?");
    (sql, values)
}

/// What is handed to the engine to list the file `file_id` in the set
/// `set_id`, after the files that it lists: the statement and its values.
pub fn listing(set_id: i64, file_id: i64) -> (handed: (String, Vec<EntryQueryParam>))
    ensures
        handed.0@ == "insert into set_file (set_id, file_id, position)
                select ?, ?, max(position) + 1
                from set_file where set_id = ?"@,
        handed.1.deep_view() == seq![
            EntryQueryParamView::Int(set_id),
            EntryQueryParamView::Int(file_id),
            EntryQueryParamView::Int(set_id),
        ],
{
    let values: Vec<EntryQueryParam> = vec![
        EntryQueryParam::Int(set_id),
        EntryQueryParam::Int(file_id),
        EntryQueryParam::Int(set_id),
    ];
    proof {
        assert(values.deep_view() =~= seq![
            EntryQueryParamView::Int(set_id),
            EntryQueryParamView::Int(file_id),
            EntryQueryParamView::Int(set_id),
        ]);
    }
    let sql: String = String::from_str(
        "insert into set_file (set_id, file_id, position)
                select ?, ?, max(position) + 1
                from set_file where set_id = ?",
    );
    (sql, values)
}

/// What is handed to the engine to make the file `cover` stand for the set
/// `set_id`: the statement and its values.
pub fn covering(cover: i64, set_id: i64) -> (handed: (String, Vec<EntryQueryParam>))
    ensures
        handed.0@ == "update entry set cover = ? where entry_id = ?"@,
        handed.1.deep_view() == seq![
            EntryQueryParamView::Int(cover),
            EntryQueryParamView::Int(set_id),
        ],
{
    let values: Vec<EntryQueryParam> = vec![
        EntryQueryParam::Int(cover),
        EntryQueryParam::Int(set_id),
    ];
    proof {
        assert(values.deep_view() =~= seq![
            EntryQueryParamView::Int(cover),
            EntryQueryParamView::Int(set_id),
        ]);
    }
    let sql: String = String::from_str("update entry set cover = ? where entry_id = ?");
    (sql, values)
}

/// What is handed to the engine to keep a received file with the extension
/// `ext` and the title `title`: the statement and its values.
pub fn keeping_upload(ext: String, title: String) -> (handed: (String, Vec<EntryQueryParam>))
    ensures
        handed.0@ == "insert into upload_file (ext, title)
                    values (?, ?)"@,
        handed.1.deep_view() == seq![
            EntryQueryParamView::String(ext@),
            EntryQueryParamView::String(title@),
        ],
{
    let values: Vec<EntryQueryParam> = vec![
        EntryQueryParam::String(ext),
        EntryQueryParam::String(title),
    ];
    proof {
        assert(values.deep_view() =~= seq![
            EntryQueryParamView::String(ext@),
            EntryQueryParamView::String(title@),
        ]);
    }
    let sql: String = String::from_str(
        "insert into upload_file (ext, title)
                    values (?, ?)",
    );
    (sql, values)
}

/// What is handed to the engine to find the received file `id`: the query,
/// its value, and the number of columns that are read of a row.
pub fn finding_upload(id: i64) -> (handed: (String, Vec<EntryQueryParam>, usize))
    ensures
        handed.0@ == "select * from upload_file where id = ?"@,
        handed.1.deep_view() == seq![EntryQueryParamView::Int(id)],
        handed.2 == 3,
{
    let values: Vec<EntryQueryParam> = vec![EntryQueryParam::Int(id)];
    proof {
        assert(values.deep_view() =~= seq![EntryQueryParamView::Int(id)]);
    }
    let sql: String = String::from_str("select * from upload_file where id = ?");
    (sql, values, 3)
}

/// What is handed to the engine to forget the received file `id`: the
/// statement and its value.
pub fn forgetting_upload(id: i64) -> (handed: (String, Vec<EntryQueryParam>))
    ensures
        handed.0@ == "delete from upload_file where id = ?"@,
        handed.1.deep_view() == seq![EntryQueryParamView::Int(id)],
{
    let values: Vec<EntryQueryParam> = vec![EntryQueryParam::Int(id)];
    proof {
        assert(values.deep_view() =~= seq![EntryQueryParamView::Int(id)]);
    }
    let sql: String = String::from_str("delete from upload_file where id = ?");
    (sql, values)
}

/// What is handed to the engine to make a file of a received file with the
/// extension `ext`, at the times `created` and `updated`: the statement and
/// its values.
pub fn interning_upload(ext: String, created: i64, updated: i64) -> (handed: (
    String,
    Vec<EntryQueryParam>,
))
    ensures
        handed.0@ == "insert into file (ext, last_update, last_update)
                    values (?, ?, ?)"@,
        handed.1.deep_view() == seq![
            EntryQueryParamView::String(ext@),
            EntryQueryParamView::Int(created),
            EntryQueryParamView::Int(updated),
        ],
{
    let values: Vec<EntryQueryParam> = vec![
        EntryQueryParam::String(ext),
        EntryQueryParam::Int(created),
        EntryQueryParam::Int(updated),
    ];
    proof {
        assert(values.deep_view() =~= seq![
            EntryQueryParamView::String(ext@),
            EntryQueryParamView::Int(created),
            EntryQueryParamView::Int(updated),
        ]);
    }
    let sql: String = String::from_str(
        "insert into file (ext, last_update, last_update)
                    values (?, ?, ?)",
    );
    (sql, values)
}

/// What is handed to the engine to find the tag categories in whose name
/// `name` occurs, in rising order: the query, its value, and the number of
/// columns that are read of a row.
pub fn searching_tag_categories(name: &str) -> (handed: (String, Vec<EntryQueryParam>, usize))
    ensures
        handed.0@ == "select name from tag_category
                where name like ?
                order by name asc"@,
        handed.1.deep_view() == seq![EntryQueryParamView::String("%"@ + name@ + "%"@)],
        handed.2 == 1,
{
    let values: Vec<EntryQueryParam> = vec![EntryQueryParam::String(name_pattern(name))];
    proof {
        assert(values.deep_view() =~= seq![EntryQueryParamView::String("%"@ + name@ + "%"@)]);
    }
    let sql: String = String::from_str(
        "select name from tag_category
                where name like ?
                order by name asc",
    );
    (sql, values, 1)
}

/// The query that finds tags by a part of their name; with a category,
/// those of one category.
pub open spec fn tag_search_statement(category: Option<i64>) -> Seq<char> {
    match category {
        Some(_) => "select name from tag where name like ? and category = ? order by name asc"@,
        None => "select name from tag where name like ? order by name asc"@,
    }
}

/// What is handed to the engine to find the tags in whose name `name`
/// occurs, in rising order, and with a category only those of that
/// category: the query, its values, and the number of columns that are read
/// of a row.
pub fn searching_tags(name: &str, category: Option<i64>) -> (handed: (
    String,
    Vec<EntryQueryParam>,
    usize,
))
    ensures
        handed.0@ == tag_search_statement(category),
        handed.1.deep_view() == seq![EntryQueryParamView::String("%"@ + name@ + "%"@)]
            + optional_param(category),
        handed.2 == 1,
{
    let mut values: Vec<EntryQueryParam> = vec![EntryQueryParam::String(name_pattern(name))];
    proof {
        assert(values.deep_view() =~= seq![EntryQueryParamView::String("%"@ + name@ + "%"@)]);
    }
    push_optional(&mut values, category);
    let sql: String = match category {
        Some(_) => String::from_str(
            "select name from tag where name like ? and category = ? order by name asc",
        ),
        None => String::from_str("select name from tag where name like ? order by name asc"),
    };
    (sql, values, 1)
}

/// What is handed to the engine to list the received files: the query,
/// which takes no values, and the number of columns that are read of a row.
pub fn all_uploads() -> (handed: (String, Vec<EntryQueryParam>, usize))
    ensures
        handed.0@ == "select * from upload_file"@,
        handed.1.deep_view() == Seq::<EntryQueryParamView>::empty(),
        handed.2 == 3,
{
    let values: Vec<EntryQueryParam> = Vec::new();
    proof {
        assert(values.deep_view() =~= Seq::<EntryQueryParamView>::empty());
    }
    (String::from_str("select * from upload_file"), values, 3)
}

/// What is handed to the engine to see whether the catalog has a tag
/// category: the query, which takes no values, and the number of columns
/// that are read of a row, which is none.
pub fn probing() -> (handed: (String, Vec<EntryQueryParam>, usize))
    ensures
        handed.0@ == "select * from tag_category"@,
        handed.1.deep_view() == Seq::<EntryQueryParamView>::empty(),
        handed.2 == 0,
{
    let values: Vec<EntryQueryParam> = Vec::new();
    proof {
        assert(values.deep_view() =~= Seq::<EntryQueryParamView>::empty());
    }
    (String::from_str("select * from tag_category"), values, 0)
}

/// What is handed to the engine to have it hold the references between the
/// tables: the statement, which takes no values.
pub fn enforcing() -> (handed: (String, Vec<EntryQueryParam>))
    ensures
        handed.0@ == "PRAGMA foreign_keys = ON"@,
        handed.1.deep_view() == Seq::<EntryQueryParamView>::empty(),
{
    let values: Vec<EntryQueryParam> = Vec::new();
    proof {
        assert(values.deep_view() =~= Seq::<EntryQueryParamView>::empty());
    }
    (String::from_str("PRAGMA foreign_keys = ON"), values)
}

} // verus!
