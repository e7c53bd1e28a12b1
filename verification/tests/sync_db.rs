use tag_water::database::models::{CatalogError, EntryQuery, EntryQueryParam, UploadFile};
use tag_water::sync_db::entries::{
    can_be_cover, cover_fault, first_fault, joining, match_of, member_fault, page_count,
    page_offset, place_of, set_fault, upload_of,
};
use tag_water::sync_db::tags::{holds, integers, tags_to_attach, texts};
use tag_water::lookup::unknown_names;
use tag_water::sync_db::{first_integer, is_lacking, stored_time, time, SqlValue, SyncDb};

const TABLES: &str = "
create table tag_category (
    tcat_id integer primary key,
    name text unique not null,
    description text,
    time_created integer,
    time_updated integer
);
insert into tag_category (name, description, time_created, time_updated)
    values ('default', '', 0, 0);
create table tag (
    tag_id integer primary key,
    name text unique not null,
    category integer references tag_category(tcat_id),
    description text,
    time_created integer,
    time_updated integer
);
create table entry (
    entry_id integer primary key,
    entry_type integer not null,
    ext text,
    cover integer references entry(entry_id),
    parent_set integer references entry(entry_id),
    time_created integer,
    time_updated integer
);
create table entry_tag (
    entry_id integer references entry(entry_id),
    tag_id integer references tag(tag_id)
);
create table set_file (set_id integer, file_id integer, position integer);
create table upload_file (id integer primary key, ext text, title text);
";

fn catalog() -> SyncDb {
    SyncDb::open(":memory:", TABLES).unwrap()
}

fn strings(list: &[&str]) -> Vec<String> {
    list.iter().map(|s| s.to_string()).collect()
}

#[test]
fn a_new_database_needs_its_tables_once() {
    let db = SyncDb::connect(":memory:").unwrap();
    assert!(db.needs_setup());
    db.setup(TABLES).unwrap();
    assert!(!db.needs_setup());
    db.enforce_references().unwrap();
}

#[test]
fn statements_that_are_no_sql_fail_with_the_words_of_the_engine() {
    let db = SyncDb::connect(":memory:").unwrap();
    match db.setup("this is no statement") {
        Err(CatalogError::Database(words)) => assert!(!words.is_empty()),
        other => panic!("unexpected result {:?}", other),
    }
}

#[test]
fn a_tag_has_an_identity_once_it_is_made() {
    let db = catalog();
    assert_eq!(db.tag_id("red").unwrap(), None);
    let id = db.new_tag("red", 1, "the colour").unwrap();
    assert_eq!(db.tag_id("red").unwrap(), Some(id));
    assert_eq!(db.tag_id("re").unwrap(), None);
    assert!(matches!(db.new_tag("red", 1, ""), Err(CatalogError::AlreadyExists)));
}

#[test]
fn a_tag_category_has_an_identity_once_it_is_made() {
    let db = catalog();
    assert_eq!(db.tag_category_id("default").unwrap(), Some(1));
    assert_eq!(db.tag_category_id("colours").unwrap(), None);
    let id = db.new_tag_category("colours", "").unwrap();
    assert_eq!(db.tag_category_id("colours").unwrap(), Some(id));
    assert!(matches!(db.new_tag_category("colours", ""), Err(CatalogError::AlreadyExists)));
}

#[test]
fn unknown_tags_are_listed_in_their_order() {
    let db = catalog();
    db.new_tag("red", 1, "").unwrap();
    db.new_tag("blue", 1, "").unwrap();
    let asked = strings(&["green", "red", "yellow", "blue", "green"]);
    assert_eq!(db.verify_tags(&asked).unwrap(), strings(&["green", "yellow", "green"]));
    assert_eq!(db.verify_tags(&strings(&["red", "blue"])).unwrap(), Vec::<String>::new());
    assert_eq!(db.verify_tags(&Vec::new()).unwrap(), Vec::<String>::new());
}

#[test]
fn tags_are_searched_by_a_part_of_their_name() {
    let db = catalog();
    let colours = db.new_tag_category("colours", "").unwrap();
    db.new_tag("red", colours, "").unwrap();
    db.new_tag("dark red", colours, "").unwrap();
    db.new_tag("redwood", 1, "").unwrap();
    db.new_tag("blue", colours, "").unwrap();
    assert_eq!(db.tag_search("red", None).unwrap(), strings(&["dark red", "red", "redwood"]));
    assert_eq!(db.tag_search("red", Some(colours)).unwrap(), strings(&["dark red", "red"]));
    assert_eq!(db.tag_search("green", None).unwrap(), Vec::<String>::new());
    assert_eq!(db.tag_category_search("ol").unwrap(), strings(&["colours"]));
    assert_eq!(db.tag_category_search("").unwrap(), strings(&["colours", "default"]));
}

#[test]
fn attaching_a_tag_twice_attaches_it_once() {
    let db = catalog();
    let red = db.new_tag("red", 1, "").unwrap();
    let blue = db.new_tag("blue", 1, "").unwrap();
    let green = db.new_tag("green", 1, "").unwrap();
    let file = db.new_file("png".to_string()).unwrap();
    db.tag_entry(file, red).unwrap();
    db.tag_entry(file, red).unwrap();
    assert_eq!(db.entry_tags(file).unwrap(), vec![red]);
    db.tag_entry_many(file, &[blue, red, blue, green]).unwrap();
    assert_eq!(db.entry_tags(file).unwrap(), vec![red, blue, green]);
    db.tag_entry_many(file, &[]).unwrap();
    db.tag_entry_many(file, &[green, blue]).unwrap();
    assert_eq!(db.entry_tags(file).unwrap(), vec![red, blue, green]);
}

#[test]
fn a_set_takes_files_that_are_in_no_set() {
    let db = catalog();
    let a = db.new_file("png".to_string()).unwrap();
    let b = db.new_file("jpg".to_string()).unwrap();
    let c = db.new_file("gif".to_string()).unwrap();
    assert_ne!(a, b);
    let set = db.new_set(a, vec![a, b]).unwrap();
    assert!(set != a && set != b && set != c);
    assert_eq!(
        db.membership(a).unwrap().map(|r| first_integer(&Some(vec![r[1].clone()]))),
        Some(Some(set))
    );
    assert_eq!(first_integer(&db.membership(set).unwrap()), Some(2));
    assert!(matches!(db.membership(c).unwrap().unwrap()[1], SqlValue::Null));
}

#[test]
fn a_member_of_a_set_cannot_join_another() {
    let db = catalog();
    let a = db.new_file("png".to_string()).unwrap();
    let b = db.new_file("png".to_string()).unwrap();
    let c = db.new_file("png".to_string()).unwrap();
    db.new_set(a, vec![a, b]).unwrap();
    assert!(matches!(db.new_set(c, vec![c, b]), Err(CatalogError::BelongsToSet)));
    assert!(matches!(db.membership(c).unwrap().unwrap()[1], SqlValue::Null));
    db.new_set(c, vec![c]).unwrap();
}

#[test]
fn a_set_needs_members_that_are_files_and_a_cover_that_is_one() {
    let db = catalog();
    let a = db.new_file("png".to_string()).unwrap();
    let b = db.new_file("png".to_string()).unwrap();
    let c = db.new_file("png".to_string()).unwrap();
    let set = db.new_set(a, vec![a]).unwrap();
    assert!(matches!(db.new_set(b, vec![b, 999]), Err(CatalogError::NotFound)));
    assert!(matches!(db.new_set(b, vec![b, set]), Err(CatalogError::InvalidId)));
    assert!(matches!(db.new_set(set, vec![b]), Err(CatalogError::InvalidCover)));
    assert!(matches!(db.new_set(999, vec![b]), Err(CatalogError::InvalidCover)));
    assert!(matches!(db.membership(b).unwrap().unwrap()[1], SqlValue::Null));
    db.new_set(c, vec![b, c]).unwrap();
}

#[test]
fn a_set_may_be_made_without_members() {
    let db = catalog();
    let a = db.new_file("png".to_string()).unwrap();
    let set = db.new_set(a, Vec::new()).unwrap();
    assert_eq!(first_integer(&db.membership(set).unwrap()), Some(2));
    assert!(matches!(db.membership(a).unwrap().unwrap()[1], SqlValue::Null));
}

#[test]
fn the_cover_of_a_set_must_be_a_file() {
    let db = catalog();
    let a = db.new_file("png".to_string()).unwrap();
    let b = db.new_file("png".to_string()).unwrap();
    let set = db.new_set(a, vec![a]).unwrap();
    db.set_cover(set, b).unwrap();
    assert!(matches!(db.set_cover(set, 999), Err(CatalogError::NotFound)));
    assert!(matches!(db.set_cover(set, set), Err(CatalogError::InvalidCover)));
}

#[test]
fn files_are_listed_and_taken_out_of_a_set() {
    let db = catalog();
    let a = db.new_file("png".to_string()).unwrap();
    let b = db.new_file("png".to_string()).unwrap();
    let cover = db.new_file("png".to_string()).unwrap();
    let set = db.new_set(cover, Vec::new()).unwrap();
    assert!(!db.is_listed(set, a).unwrap());
    db.add_to_set(set, vec![a, b]).unwrap();
    assert!(db.is_listed(set, a).unwrap());
    assert!(db.is_listed(set, b).unwrap());
    db.reorder_set(set, vec![b, a]).unwrap();
    assert!(matches!(db.reorder_set(set, vec![b, cover]), Err(CatalogError::InvalidId)));
    assert!(matches!(db.add_to_set(set, vec![999]), Err(CatalogError::NotFound)));
    assert!(matches!(db.add_to_set(set, vec![set]), Err(CatalogError::InvalidId)));
    db.remove_from_set(set, vec![a, 999]).unwrap();
    assert!(!db.is_listed(set, a).unwrap());
    assert!(db.is_listed(set, b).unwrap());
}

#[test]
fn received_files_are_kept_until_they_are_deleted() {
    let db = catalog();
    assert!(db.get_uploads().unwrap().is_empty());
    let id = db
        .post_upload(UploadFile { id: 0, ext: "png".to_string(), title: "a.png".to_string() })
        .unwrap();
    let other = db
        .post_upload(UploadFile { id: 0, ext: "mp3".to_string(), title: "b.mp3".to_string() })
        .unwrap();
    let kept = db.get_upload(id).unwrap().unwrap();
    assert_eq!(kept.id, id);
    assert_eq!(kept.ext, "png");
    assert_eq!(kept.title, "a.png");
    assert_eq!(db.get_uploads().unwrap().len(), 2);
    db.delete_upload(id).unwrap();
    assert!(db.get_upload(id).unwrap().is_none());
    let left = db.get_uploads().unwrap();
    assert_eq!(left.len(), 1);
    assert_eq!(left[0].id, other);
    assert_eq!(left[0].title, "b.mp3");
}

#[test]
fn the_members_of_a_new_set_are_joined_by_one_statement() {
    let (sql, values) = joining(9, 77, &vec![4, 5, 6]);
    assert_eq!(
        sql,
        "update entry set parent_set = ?, time_updated = ? where entry_id in (?,?,?)"
    );
    let values: Vec<i64> = values
        .iter()
        .map(|v| match v {
            EntryQueryParam::Int(i) => *i,
            EntryQueryParam::String(_) => panic!("a text among the values"),
        })
        .collect();
    assert_eq!(values, vec![9, 77, 4, 5, 6]);
    let (sql, values) = joining(9, 77, &vec![]);
    assert_eq!(sql, "update entry set parent_set = ?, time_updated = ? where entry_id in ()");
    assert_eq!(values.len(), 2);
}

#[test]
fn the_identities_of_many_tags_are_looked_up_in_their_order() {
    let db = catalog();
    let red = db.new_tag("red", 1, "").unwrap();
    let blue = db.new_tag("blue", 1, "").unwrap();
    let asked: Vec<String> = strings(&["blue", "green", "red", "blue"]);
    assert_eq!(db.tag_ids(&asked).unwrap(), vec![Some(blue), None, Some(red), Some(blue)]);
    assert_eq!(tag_water::lookup::ids_found(&vec![Some(3), None, Some(1)]), vec![3, 1]);
    assert_eq!(tag_water::lookup::ids_found(&vec![None]), Vec::<i64>::new());
}

#[test]
fn a_search_without_conditions_finds_the_entries_outside_sets() {
    let db = catalog();
    let a = db.new_file("png".to_string()).unwrap();
    let b = db.new_file("jpg".to_string()).unwrap();
    let c = db.new_file("gif".to_string()).unwrap();
    let set = db.new_set(b, vec![b, c]).unwrap();
    let found = db.query(&EntryQuery::default(), 1, 50).unwrap();
    assert_eq!(found.entry_count, 2);
    assert_eq!(found.page, 1);
    assert_eq!(found.page_size, 50);
    assert_eq!(found.page_count, 1);
    assert_eq!(found.page_entries.len(), 2);
    let file = &found.page_entries[0];
    assert_eq!((file.id, file.kind, file.parent_set, file.img_id), (a, 1, None, a));
    assert_eq!(file.img_ext, "png");
    let group = &found.page_entries[1];
    assert_eq!((group.id, group.kind, group.parent_set, group.img_id), (set, 2, None, b));
    assert_eq!(group.img_ext, "jpg");
}

#[test]
fn a_search_is_cut_into_pages() {
    let db = catalog();
    for _ in 0..5 {
        db.new_file("png".to_string()).unwrap();
    }
    let mut all = EntryQuery::default();
    all.is_file = true;
    all.include_set_files = true;
    let first = db.query(&all, 1, 2).unwrap();
    assert_eq!((first.entry_count, first.page_count, first.page_entries.len()), (5, 3, 2));
    let last = db.query(&all, 3, 2).unwrap();
    assert_eq!(last.page_entries.len(), 1);
    let beyond = db.query(&all, 4, 2).unwrap();
    assert_eq!(beyond.page_entries.len(), 0);
    let mut sets = EntryQuery::default();
    sets.is_set = true;
    let none = db.query(&sets, 1, 2).unwrap();
    assert_eq!((none.entry_count, none.page_count), (0, 1));
}

#[test]
fn a_search_bounds_the_time_of_an_entry() {
    let db = catalog();
    db.new_file("png".to_string()).unwrap();
    let mut old = EntryQuery::default();
    old.created_before = Some(10);
    assert_eq!(db.query(&old, 1, 10).unwrap().entry_count, 0);
    let mut recent = EntryQuery::default();
    recent.created_after = Some(10);
    recent.updated_after = Some(10);
    recent.updated_before = Some(i64::MAX);
    assert_eq!(db.query(&recent, 1, 10).unwrap().entry_count, 1);
    let mut bare = EntryQuery::default();
    bare.untagged = true;
    assert_eq!(db.query(&bare, 1, 10).unwrap().entry_count, 1);
}

#[test]
fn the_time_is_stored_in_seconds_that_fit() {
    assert_eq!(stored_time(None), 0);
    assert_eq!(stored_time(Some(0)), 0);
    assert_eq!(stored_time(Some(1_700_000_000)), 1_700_000_000);
    assert_eq!(stored_time(Some(i64::MAX as u64)), i64::MAX);
    assert_eq!(stored_time(Some(i64::MAX as u64 + 1)), i64::MAX);
    assert_eq!(stored_time(Some(u64::MAX)), i64::MAX);
    assert!(time() > 1_600_000_000);
}

#[test]
fn the_first_integer_of_a_row_is_read_where_there_is_one() {
    assert_eq!(first_integer(&None), None);
    assert_eq!(first_integer(&Some(vec![])), None);
    assert_eq!(first_integer(&Some(vec![SqlValue::Null])), None);
    assert_eq!(first_integer(&Some(vec![SqlValue::Text("7".to_string())])), None);
    assert_eq!(first_integer(&Some(vec![SqlValue::Integer(7), SqlValue::Integer(8)])), Some(7));
}

#[test]
fn the_fault_of_a_member_is_told_from_its_row() {
    assert!(matches!(member_fault(&None), Some(CatalogError::NotFound)));
    assert!(matches!(member_fault(&Some(vec![])), Some(CatalogError::InvalidId)));
    assert!(matches!(
        member_fault(&Some(vec![SqlValue::Integer(1)])),
        Some(CatalogError::InvalidId)
    ));
    assert!(matches!(
        member_fault(&Some(vec![SqlValue::Integer(2), SqlValue::Null])),
        Some(CatalogError::InvalidId)
    ));
    assert!(matches!(
        member_fault(&Some(vec![SqlValue::Null, SqlValue::Null])),
        Some(CatalogError::InvalidId)
    ));
    assert!(matches!(
        member_fault(&Some(vec![SqlValue::Integer(1), SqlValue::Integer(9)])),
        Some(CatalogError::BelongsToSet)
    ));
    assert!(member_fault(&Some(vec![SqlValue::Integer(1), SqlValue::Null])).is_none());
}

#[test]
fn the_first_member_at_fault_decides_and_then_the_cover() {
    let free = Some(vec![SqlValue::Integer(1), SqlValue::Null]);
    let taken = Some(vec![SqlValue::Integer(1), SqlValue::Integer(9)]);
    let group = Some(vec![SqlValue::Integer(2), SqlValue::Null]);
    assert!(first_fault(&vec![]).is_none());
    assert!(first_fault(&vec![free.clone(), free.clone()]).is_none());
    assert!(matches!(
        first_fault(&vec![free.clone(), taken.clone(), None]),
        Some(CatalogError::BelongsToSet)
    ));
    assert!(matches!(
        first_fault(&vec![None, taken.clone(), group.clone()]),
        Some(CatalogError::NotFound)
    ));
    assert!(matches!(
        first_fault(&vec![free.clone(), group.clone(), taken.clone()]),
        Some(CatalogError::InvalidId)
    ));
    assert!(set_fault(&vec![free.clone()], &free).is_none());
    assert!(set_fault(&vec![], &free).is_none());
    assert!(matches!(set_fault(&vec![free.clone()], &None), Some(CatalogError::InvalidCover)));
    assert!(matches!(set_fault(&vec![free.clone()], &group), Some(CatalogError::InvalidCover)));
    assert!(matches!(set_fault(&vec![taken.clone()], &group), Some(CatalogError::BelongsToSet)));
    assert!(set_fault(&vec![free.clone()], &taken).is_none());
}

#[test]
fn a_cover_is_a_file_that_the_catalog_holds() {
    assert!(!can_be_cover(&None));
    assert!(!can_be_cover(&Some(vec![])));
    assert!(!can_be_cover(&Some(vec![SqlValue::Integer(2)])));
    assert!(!can_be_cover(&Some(vec![SqlValue::Null])));
    assert!(can_be_cover(&Some(vec![SqlValue::Integer(1)])));
    assert!(can_be_cover(&Some(vec![SqlValue::Integer(1), SqlValue::Integer(5)])));
    assert!(matches!(cover_fault(&None), Some(CatalogError::NotFound)));
    assert!(matches!(cover_fault(&Some(vec![])), Some(CatalogError::InvalidCover)));
    assert!(matches!(
        cover_fault(&Some(vec![SqlValue::Integer(2)])),
        Some(CatalogError::InvalidCover)
    ));
    assert!(cover_fault(&Some(vec![SqlValue::Integer(1)])).is_none());
}

#[test]
fn places_and_pages_are_counted_from_one() {
    assert_eq!(place_of(0), 1);
    assert_eq!(place_of(41), 42);
    assert_eq!(page_count(0, 50), 1);
    assert_eq!(page_count(1, 50), 1);
    assert_eq!(page_count(50, 50), 1);
    assert_eq!(page_count(51, 50), 2);
    assert_eq!(page_count(-3, 50), 1);
    assert_eq!(page_count(i64::MAX, 1), i64::MAX);
    assert_eq!(page_offset(1, 50), Some(0));
    assert_eq!(page_offset(3, 50), Some(100));
    assert_eq!(page_offset(0, 50), Some(-50));
    assert_eq!(page_offset(i64::MAX, 2), None);
    assert_eq!(page_offset(i64::MIN, 1), None);
    assert_eq!(page_offset(i64::MIN, 0), Some(0));
}

#[test]
fn rows_are_read_by_what_their_columns_hold() {
    let numbers = vec![vec![SqlValue::Integer(3)], vec![SqlValue::Integer(5), SqlValue::Null]];
    assert_eq!(integers(&numbers), Some(vec![3, 5]));
    assert_eq!(integers(&vec![vec![SqlValue::Integer(3)], vec![]]), None);
    assert_eq!(integers(&vec![vec![SqlValue::Null]]), None);
    assert_eq!(integers(&Vec::new()), Some(Vec::new()));
    let names = vec![vec![SqlValue::Text("a".to_string())], vec![SqlValue::Text("b".to_string())]];
    assert_eq!(texts(&names), Some(strings(&["a", "b"])));
    assert_eq!(texts(&numbers), None);
    let upload =
        vec![SqlValue::Integer(4), SqlValue::Text("png".to_string()), SqlValue::Text("t".to_string())];
    let read = upload_of(&upload).unwrap();
    assert_eq!((read.id, read.ext.as_str(), read.title.as_str()), (4, "png", "t"));
    assert!(upload_of(&vec![SqlValue::Integer(4), SqlValue::Null, SqlValue::Null]).is_none());
    assert!(upload_of(&vec![SqlValue::Integer(4)]).is_none());
}

#[test]
fn a_found_entry_is_shown_by_itself_or_by_its_cover() {
    let file = vec![
        SqlValue::Integer(7),
        SqlValue::Integer(1),
        SqlValue::Integer(9),
        SqlValue::Text("png".to_string()),
        SqlValue::Null,
        SqlValue::Null,
    ];
    let shown = match_of(&file).unwrap();
    assert_eq!((shown.id, shown.kind, shown.parent_set, shown.img_id), (7, 1, Some(9), 7));
    assert_eq!(shown.img_ext, "png");
    let set = vec![
        SqlValue::Integer(9),
        SqlValue::Integer(2),
        SqlValue::Null,
        SqlValue::Null,
        SqlValue::Integer(7),
        SqlValue::Text("png".to_string()),
    ];
    let shown = match_of(&set).unwrap();
    assert_eq!((shown.id, shown.kind, shown.parent_set, shown.img_id), (9, 2, None, 7));
    let odd = vec![
        SqlValue::Integer(9),
        SqlValue::Integer(3),
        SqlValue::Null,
        SqlValue::Null,
        SqlValue::Null,
        SqlValue::Null,
    ];
    assert!(match_of(&odd).is_none());
    assert!(match_of(&file[..5].to_vec()).is_none());
}

#[test]
fn a_row_is_an_entry_only_where_every_column_that_is_read_holds_its_kind() {
    let file = |id: SqlValue, kind: SqlValue, ext: SqlValue| {
        vec![id, kind, SqlValue::Null, ext, SqlValue::Null, SqlValue::Null]
    };
    let text = |t: &str| SqlValue::Text(t.to_string());
    assert!(match_of(&file(SqlValue::Integer(1), SqlValue::Integer(1), text("png"))).is_some());
    assert!(match_of(&file(SqlValue::Null, SqlValue::Integer(1), text("png"))).is_none());
    assert!(match_of(&file(SqlValue::Integer(1), text("1"), text("png"))).is_none());
    assert!(match_of(&file(SqlValue::Integer(1), SqlValue::Integer(1), SqlValue::Null)).is_none());
    assert!(match_of(&file(SqlValue::Integer(1), SqlValue::Integer(1), SqlValue::Other)).is_none());
    let set = |cover: SqlValue, ext: SqlValue| {
        vec![SqlValue::Integer(9), SqlValue::Integer(2), SqlValue::Null, text("x"), cover, ext]
    };
    assert!(match_of(&set(SqlValue::Integer(1), text("png"))).is_some());
    assert!(match_of(&set(SqlValue::Null, text("png"))).is_none());
    assert!(match_of(&set(SqlValue::Integer(1), SqlValue::Null)).is_none());
    let mut long = file(SqlValue::Integer(1), SqlValue::Integer(1), text("png"));
    long.push(SqlValue::Other);
    assert!(match_of(&long).is_some());
    assert!(match_of(&vec![]).is_none());
}

#[test]
fn for_no_files_a_set_is_left_alone_and_the_catalog_is_not_asked() {
    let bare = SyncDb::connect(":memory:").unwrap();
    assert!(bare.needs_setup());
    assert!(bare.reorder_set(1, vec![]).is_ok());
    assert!(bare.remove_from_set(1, vec![]).is_ok());
    assert!(bare.add_to_set(1, vec![]).is_ok());
    assert!(bare.memberships(&vec![]).unwrap().is_empty());
    assert!(matches!(bare.reorder_set(1, vec![2]), Err(CatalogError::Database(_))));
    assert!(matches!(bare.remove_from_set(1, vec![2]), Err(CatalogError::Database(_))));
    assert!(matches!(bare.add_to_set(1, vec![2]), Err(CatalogError::Database(_))));
    assert!(matches!(bare.new_set(1, vec![]), Err(CatalogError::Database(_))));
}

#[test]
fn a_set_without_members_is_refused_for_its_cover_only() {
    let db = catalog();
    let a = db.new_file("png".to_string()).unwrap();
    let set = db.new_set(a, vec![]).unwrap();
    assert!(matches!(db.new_set(set, vec![]), Err(CatalogError::InvalidCover)));
    assert!(matches!(db.new_set(999, vec![]), Err(CatalogError::InvalidCover)));
    assert!(db.add_to_set(set, vec![]).is_ok());
    assert!(matches!(db.add_to_set(set, vec![a, 999]), Err(CatalogError::NotFound)));
    assert!(matches!(db.add_to_set(set, vec![set, 999]), Err(CatalogError::InvalidId)));
}

#[test]
fn only_lacking_tags_are_attached_and_each_once() {
    assert_eq!(tags_to_attach(&[1, 2, 3], &vec![]), vec![1, 2, 3]);
    assert_eq!(tags_to_attach(&[1, 2, 3], &vec![2]), vec![1, 3]);
    assert_eq!(tags_to_attach(&[3, 1, 3, 1], &vec![]), vec![3, 1]);
    assert_eq!(tags_to_attach(&[1, 2], &vec![2, 1, 5]), Vec::<i64>::new());
    assert_eq!(tags_to_attach(&[], &vec![2, 1, 5]), Vec::<i64>::new());
    assert!(holds(&vec![1, 2, 3], 3));
    assert!(!holds(&vec![1, 2, 3], 4));
    assert!(!holds(&vec![], 0));
}

#[test]
fn names_are_unknown_where_nothing_says_that_they_are_known() {
    let names = strings(&["a", "b", "c"]);
    assert_eq!(unknown_names(&names, &vec![true, false, true]), strings(&["b"]));
    assert_eq!(unknown_names(&names, &vec![true]), strings(&["b", "c"]));
    assert_eq!(unknown_names(&names, &vec![]), names);
    assert_eq!(unknown_names(&names, &vec![true, true, true, false]), Vec::<String>::new());
}

#[test]
fn a_database_needs_its_tables_unless_a_tag_category_was_found() {
    assert!(!is_lacking(&Ok(Some(vec![]))));
    assert!(!is_lacking(&Ok(Some(vec![SqlValue::Integer(1)]))));
    assert!(is_lacking(&Ok(None)));
    assert!(is_lacking(&Err(CatalogError::Database("no such table: tag_category".to_string()))));
    assert!(is_lacking(&Err(CatalogError::NotFound)));
}
