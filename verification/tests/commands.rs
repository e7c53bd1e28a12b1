use tag_water::commands::models::{
    ApiResponse, ReqAddToSet, ReqChangeSet, ReqFindTag, ReqFindTagCategory, ReqNewFileEntry,
    ReqNewSet, ReqNewTag, ReqNewTagCategory, ReqNewTags, ReqRemoveFromSet, RunScriptInput,
    RunScriptOutput,
};
use tag_water::commands::{
    category_made, cover_of, entry_refusal, find_tag, find_tag_category, new_file_entry, new_set,
    new_tag, new_tag_category, new_tags, set_made, tag_made,
};
use tag_water::database::models::CatalogError;
use tag_water::sync_db::SyncDb;

const TABLES: &str = "
create table tag_category (tcat_id integer primary key, name text unique not null,
    description text, time_created integer, time_updated integer);
insert into tag_category (name, description, time_created, time_updated)
    values ('default', '', 0, 0);
create table tag (tag_id integer primary key, name text unique not null, category integer,
    description text, time_created integer, time_updated integer);
create table entry (entry_id integer primary key, entry_type integer not null, ext text,
    cover integer, parent_set integer, time_created integer, time_updated integer);
create table entry_tag (entry_id integer, tag_id integer);
create table set_file (set_id integer, file_id integer, position integer);
create table upload_file (id integer primary key, ext text, title text);
";

fn catalog() -> SyncDb {
    SyncDb::open(":memory:", TABLES).unwrap()
}

fn strings(list: &[&str]) -> Vec<String> {
    list.iter().map(|s| s.to_string()).collect()
}

fn tag(name: &str, category: Option<&str>) -> ReqNewTag {
    ReqNewTag { name: name.to_string(), category: category.map(|c| c.to_string()), description: None }
}

#[test]
fn answers_carry_a_status_messages_and_data() {
    let ok = ApiResponse::ok(7);
    assert_eq!((ok.status, ok.messages.len(), ok.data), (200, 0, Some(7)));
    let err: ApiResponse<i64> = ApiResponse::err(strings(&["no"]));
    assert_eq!((err.status, err.messages, err.data), (400, strings(&["no"]), None));
    let plus = ApiResponse::ok_plus(strings(&["a", "b"]), "x");
    assert_eq!((plus.status, plus.messages, plus.data), (200, strings(&["a", "b"]), Some("x")));
}

#[test]
fn a_new_tag_goes_to_the_first_category_unless_one_is_named() {
    let db = catalog();
    new_tag_category(
        &db,
        ReqNewTagCategory { name: "colours".to_string(), description: Some("c".to_string()) },
    )
    .unwrap();
    let plain = new_tag(&db, tag("plain", None)).unwrap();
    assert_eq!(plain.status, 200);
    let red = new_tag(&db, tag("red", Some("colours"))).unwrap();
    assert_eq!(red.status, 200);
    assert_ne!(plain.data, red.data);
    let found = find_tag(&db, ReqFindTag { name: "".to_string(), category: Some("colours".to_string()) })
        .unwrap();
    assert_eq!(found.data, Some(strings(&["red"])));
    let found = find_tag(&db, ReqFindTag { name: "".to_string(), category: Some("default".to_string()) })
        .unwrap();
    assert_eq!(found.data, Some(strings(&["plain"])));
}

#[test]
fn a_tag_in_an_unknown_category_is_refused() {
    let db = catalog();
    let answer = new_tag(&db, tag("red", Some("colours"))).unwrap();
    assert_eq!(answer.status, 400);
    assert_eq!(answer.messages, strings(&["Unknown category 'colours'"]));
    assert_eq!(answer.data, None);
    assert_eq!(db.tag_id("red").unwrap(), None);
}

#[test]
fn a_tag_that_exists_is_refused() {
    let db = catalog();
    new_tag(&db, tag("red", None)).unwrap();
    let answer = new_tag(&db, tag("red", None)).unwrap();
    assert_eq!(answer.status, 400);
    assert_eq!(answer.messages, strings(&["Tag 'red' already exists"]));
    let made = tag_made("x", Ok(5)).unwrap();
    assert_eq!((made.status, made.data), (200, Some(5)));
    let refused = tag_made("x", Err(CatalogError::AlreadyExists)).unwrap();
    assert_eq!(refused.messages, strings(&["Tag 'x' already exists"]));
    assert!(matches!(
        tag_made("x", Err(CatalogError::Database("broken".to_string()))),
        Err(CatalogError::Database(words)) if words == "broken"
    ));
}

#[test]
fn many_tags_are_made_and_those_that_exist_are_passed_over() {
    let db = catalog();
    new_tag(&db, tag("b", None)).unwrap();
    let answer =
        new_tags(&db, ReqNewTags { tags: strings(&["a", "b", "c", "a"]), category: None }).unwrap();
    assert_eq!(answer.status, 200);
    assert_eq!(answer.data, Some(()));
    assert_eq!(answer.messages, strings(&["Tag b already exists", "Tag a already exists"]));
    assert!(db.tag_id("a").unwrap().is_some());
    assert!(db.tag_id("c").unwrap().is_some());
    let answer = new_tags(
        &db,
        ReqNewTags { tags: strings(&["d"]), category: Some("nowhere".to_string()) },
    )
    .unwrap();
    assert_eq!(answer.status, 400);
    assert_eq!(answer.messages, strings(&["Tag category nowhere does not exist"]));
    assert_eq!(db.tag_id("d").unwrap(), None);
}

#[test]
fn tags_and_categories_are_found_by_a_part_of_their_name() {
    let db = catalog();
    new_tags(&db, ReqNewTags { tags: strings(&["red", "dark red", "blue"]), category: None })
        .unwrap();
    let found = find_tag(&db, ReqFindTag { name: "red".to_string(), category: None }).unwrap();
    assert_eq!(found.data, Some(strings(&["dark red", "red"])));
    let missing =
        find_tag(&db, ReqFindTag { name: "red".to_string(), category: Some("x".to_string()) })
            .unwrap();
    assert_eq!(missing.status, 400);
    assert_eq!(missing.messages, strings(&["Category 'x' not found"]));
    let categories =
        find_tag_category(&db, ReqFindTagCategory { name: "def".to_string() }).unwrap();
    assert_eq!(categories.data, Some(strings(&["default"])));
}

#[test]
fn a_tag_category_that_exists_is_refused() {
    let db = catalog();
    let answer = new_tag_category(
        &db,
        ReqNewTagCategory { name: "default".to_string(), description: None },
    )
    .unwrap();
    assert_eq!(answer.status, 400);
    assert_eq!(answer.messages, strings(&["Tag group 'default' already exists"]));
}

#[test]
fn a_file_entry_gets_the_tags_that_are_known() {
    let db = catalog();
    new_tags(&db, ReqNewTags { tags: strings(&["a", "b"]), category: None }).unwrap();
    let answer = new_file_entry(
        &db,
        ReqNewFileEntry { file: "dir/pic.png".to_string(), tags: strings(&["a", "b"]) },
        true,
    )
    .unwrap();
    assert_eq!(answer.status, 200);
    let id = answer.data.unwrap();
    assert_eq!(db.entry_tags(id).unwrap().len(), 2);
    let one_unknown = new_file_entry(
        &db,
        ReqNewFileEntry { file: "q.png".to_string(), tags: strings(&["a", "zzz"]) },
        true,
    )
    .unwrap();
    assert_eq!(one_unknown.status, 200);
    assert_eq!(db.entry_tags(one_unknown.data.unwrap()).unwrap().len(), 1);
}

#[test]
fn a_file_entry_is_refused_for_unknown_tags_and_for_a_file_that_cannot_be_read() {
    let db = catalog();
    let unknown = new_file_entry(
        &db,
        ReqNewFileEntry { file: "pic.png".to_string(), tags: strings(&["x", "y"]) },
        false,
    )
    .unwrap();
    assert_eq!(unknown.status, 400);
    assert_eq!(unknown.messages, strings(&["Unknown tags: x y"]));
    let unreadable =
        new_file_entry(&db, ReqNewFileEntry { file: "pic.png".to_string(), tags: vec![] }, false)
            .unwrap();
    assert_eq!(unreadable.status, 400);
    assert_eq!(unreadable.messages, strings(&["Could not read file '{file}'"]));
    assert!(db.membership(1).unwrap().is_none());
}

#[test]
fn the_cover_of_a_new_set_is_named_or_is_its_first_file() {
    assert_eq!(cover_of(&ReqNewSet { cover: None, files: vec![] }), None);
    assert_eq!(cover_of(&ReqNewSet { cover: Some(3), files: vec![] }), None);
    assert_eq!(cover_of(&ReqNewSet { cover: None, files: vec![5, 6] }), Some(5));
    assert_eq!(cover_of(&ReqNewSet { cover: Some(6), files: vec![5, 6] }), Some(6));
}

#[test]
fn a_new_set_is_made_of_files() {
    let db = catalog();
    let a = db.new_file("png".to_string()).unwrap();
    let b = db.new_file("png".to_string()).unwrap();
    let c = db.new_file("png".to_string()).unwrap();
    let empty = new_set(&db, ReqNewSet { cover: Some(a), files: vec![] }).unwrap();
    assert_eq!((empty.status, empty.messages), (400, strings(&["Cannot create empty set"])));
    let made = new_set(&db, ReqNewSet { cover: None, files: vec![a, b] }).unwrap();
    assert_eq!(made.status, 200);
    let set = made.data.unwrap();
    let again = new_set(&db, ReqNewSet { cover: None, files: vec![c, b] }).unwrap();
    assert_eq!((again.status, again.messages), (400, strings(&["Invalid file id"])));
    let missing = new_set(&db, ReqNewSet { cover: None, files: vec![999] }).unwrap();
    assert_eq!((missing.status, missing.messages), (400, strings(&["Invalid file id"])));
    let cover = new_set(&db, ReqNewSet { cover: Some(set), files: vec![c] }).unwrap();
    assert_eq!((cover.status, cover.messages), (400, strings(&["Invalid cover"])));
}

#[test]
fn what_needs_no_catalog_is_answered_without_one() {
    let bare = SyncDb::connect(":memory:").unwrap();
    let empty = new_set(&bare, ReqNewSet { cover: Some(1), files: vec![] }).unwrap();
    assert_eq!((empty.status, empty.data), (400, None));
    assert_eq!(empty.messages, strings(&["Cannot create empty set"]));
    assert!(new_set(&bare, ReqNewSet { cover: None, files: vec![1] }).is_err());
    let unreadable =
        new_file_entry(&bare, ReqNewFileEntry { file: "a.png".to_string(), tags: vec![] }, false)
            .unwrap();
    assert_eq!((unreadable.status, unreadable.data), (400, None));
    assert_eq!(unreadable.messages, strings(&["Could not read file '{file}'"]));
    assert!(new_file_entry(
        &bare,
        ReqNewFileEntry { file: "a.png".to_string(), tags: vec![] },
        true
    )
    .is_err());
    assert_eq!(bare.verify_tags(&vec![]).unwrap(), Vec::<String>::new());
    assert_eq!(bare.tag_ids(&vec![]).unwrap(), Vec::<Option<i64>>::new());
    assert!(bare.verify_tags(&strings(&["a"])).is_err());
}

#[test]
fn an_entry_is_refused_for_two_unknown_tags_and_then_for_its_file() {
    let tags = strings(&["a", "b", "c"]);
    assert_eq!(entry_refusal(&tags, &vec![Some(1), Some(2), Some(3)], true), None);
    assert_eq!(entry_refusal(&tags, &vec![Some(1), None, Some(3)], true), None);
    assert_eq!(
        entry_refusal(&tags, &vec![None, Some(2), None], true),
        Some("Unknown tags: a c".to_string())
    );
    assert_eq!(
        entry_refusal(&tags, &vec![None, None, None], false),
        Some("Unknown tags: a b c".to_string())
    );
    assert_eq!(
        entry_refusal(&tags, &vec![Some(1), None, Some(3)], false),
        Some("Could not read file '{file}'".to_string())
    );
    assert_eq!(
        entry_refusal(&tags, &vec![Some(1)], true),
        Some("Unknown tags: b c".to_string())
    );
    assert_eq!(entry_refusal(&vec![], &vec![], true), None);
}

#[test]
fn the_answer_to_a_category_tells_that_it_exists() {
    assert_eq!(category_made("c", Ok(3)).unwrap().data, Some(3));
    assert_eq!(
        category_made("c", Err(CatalogError::AlreadyExists)).unwrap().messages,
        strings(&["Tag group 'c' already exists"])
    );
    assert!(category_made("c", Err(CatalogError::Database("x".to_string()))).is_err());
}

#[test]
fn the_answer_to_a_set_tells_why_it_was_refused() {
    assert_eq!(set_made(Ok(4)).unwrap().data, Some(4));
    assert_eq!(
        set_made(Err(CatalogError::AlreadyExists)).unwrap().messages,
        strings(&["Unknown error AlreadyExists"])
    );
    assert!(set_made(Err(CatalogError::Database("x".to_string()))).is_err());
}

#[test]
fn requests_are_plain_records() {
    let input = RunScriptInput { work_dir: "w".to_string(), file: "f".to_string() };
    assert_eq!((input.work_dir.as_str(), input.file.as_str()), ("w", "f"));
    let output = RunScriptOutput { status: 200, log: None };
    assert_eq!((output.status, output.log), (200, None));
    let add = ReqAddToSet { set_id: 1, files: vec![(2, 1)] };
    assert_eq!((add.set_id, add.files), (1, vec![(2, 1)]));
    let remove = ReqRemoveFromSet { set_id: 1, files: vec![2] };
    assert_eq!((remove.set_id, remove.files), (1, vec![2]));
    let change = ReqChangeSet { set_id: 1, file_order: vec![3, 2] };
    assert_eq!((change.set_id, change.file_order), (1, vec![3, 2]));
}
