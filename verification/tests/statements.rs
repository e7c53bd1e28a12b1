use tag_water::database::models::EntryQueryParam;
use tag_water::sync_db::statements::{
    all_uploads, asking_listed, asking_membership, attaching_tag, covering, creating_file,
    creating_set, creating_tag, creating_tag_category, enforcing, finding_tag,
    finding_tag_category, finding_upload, forgetting_upload, interning_upload, keeping_upload,
    listing, listing_tags, placing, probing, releasing, searching_tag_categories,
    searching_tags, unlisting,
};

fn shown(values: &[EntryQueryParam]) -> Vec<String> {
    values
        .iter()
        .map(|v| match v {
            EntryQueryParam::Int(i) => format!("{}", i),
            EntryQueryParam::String(s) => format!("'{}'", s),
        })
        .collect()
}

fn question_marks(sql: &str) -> usize {
    sql.chars().filter(|c| *c == '?').count()
}

#[test]
fn a_tag_is_found_by_its_name() {
    let (sql, values, columns) = finding_tag("cat");
    assert_eq!(sql, "select tag_id from tag where name = ?");
    assert_eq!(shown(&values), vec!["'cat'"]);
    assert_eq!(columns, 1);
}

#[test]
fn a_tag_category_is_found_by_its_name() {
    let (sql, values, columns) = finding_tag_category("animal");
    assert_eq!(sql, "select tcat_id from tag_category where name = ?");
    assert_eq!(shown(&values), vec!["'animal'"]);
    assert_eq!(columns, 1);
}

#[test]
fn a_tag_category_is_made_with_its_name_its_description_and_the_time_twice() {
    let (sql, values) = creating_tag_category("animal", "what lives", 77);
    assert_eq!(
        sql,
        "insert into tag_category (name, description, time_created, time_updated)
                values (?, ?, ?, ?)"
    );
    assert_eq!(shown(&values), vec!["'animal'", "'what lives'", "77", "77"]);
}

#[test]
fn a_tag_is_made_with_its_name_its_category_its_description_and_the_time_twice() {
    let (sql, values) = creating_tag("cat", 3, "a cat", 77);
    assert_eq!(
        sql,
        "insert into tag (name, category, description, time_created, time_updated)
                values (?, ?, ?, ?, ?)"
    );
    assert_eq!(shown(&values), vec!["'cat'", "3", "'a cat'", "77", "77"]);
}

#[test]
fn tag_categories_are_searched_by_a_pattern_around_the_name() {
    let (sql, values, columns) = searching_tag_categories("ani");
    assert_eq!(
        sql,
        "select name from tag_category
                where name like ?
                order by name asc"
    );
    assert_eq!(shown(&values), vec!["'%ani%'"]);
    assert_eq!(columns, 1);
}

#[test]
fn tags_are_searched_with_a_category_or_without_one() {
    let (sql, values, columns) = searching_tags("ca", Some(4));
    assert_eq!(
        sql,
        "select name from tag where name like ? and category = ? order by name asc"
    );
    assert_eq!(shown(&values), vec!["'%ca%'", "4"]);
    assert_eq!(columns, 1);
    let (sql, values, columns) = searching_tags("ca", None);
    assert_eq!(sql, "select name from tag where name like ? order by name asc");
    assert_eq!(shown(&values), vec!["'%ca%'"]);
    assert_eq!(columns, 1);
}

#[test]
fn the_tags_of_an_entry_are_listed_by_its_identity() {
    let (sql, values, columns) = listing_tags(12);
    assert_eq!(sql, "select tag_id from entry_tag where entry_id = ?");
    assert_eq!(shown(&values), vec!["12"]);
    assert_eq!(columns, 1);
}

#[test]
fn a_tag_is_attached_with_the_entry_first_and_the_tag_second() {
    let (sql, values) = attaching_tag(12, 5);
    assert_eq!(
        sql,
        "insert into entry_tag (entry_id, tag_id)
                values (?, ?)"
    );
    assert_eq!(shown(&values), vec!["12", "5"]);
}

#[test]
fn a_file_is_made_with_its_extension_and_its_two_times() {
    let (sql, values) = creating_file("png".to_string(), 70, 71);
    assert_eq!(
        sql,
        "insert into entry (entry_type, ext, time_created, time_updated)
                values (1, ?, ?, ?)"
    );
    assert_eq!(shown(&values), vec!["'png'", "70", "71"]);
}

#[test]
fn the_membership_of_an_entry_is_asked_in_two_columns() {
    let (sql, values, columns) = asking_membership(8);
    assert_eq!(sql, "select entry_type, parent_set from entry where entry_id = ?");
    assert_eq!(shown(&values), vec!["8"]);
    assert_eq!(columns, 2);
}

#[test]
fn a_set_is_made_with_its_cover_and_the_time_twice() {
    let (sql, values) = creating_set(8, 77);
    assert_eq!(
        sql,
        "insert into entry (entry_type, cover, time_updated, time_created)
                values (2, ?, ?, ?)"
    );
    assert_eq!(shown(&values), vec!["8", "77", "77"]);
    let (_, values) = creating_set(0, -1);
    assert_eq!(shown(&values), vec!["0", "-1", "-1"]);
}

#[test]
fn the_list_of_a_set_is_asked_and_changed_by_set_and_file() {
    let (sql, values, columns) = asking_listed(2, 9);
    assert_eq!(sql, "select file_id from set_file where set_id = ? and file_id = ?");
    assert_eq!(shown(&values), vec!["2", "9"]);
    assert_eq!(columns, 1);
    let (sql, values) = placing(3, 2, 9);
    assert_eq!(sql, "update set_file set position = ? where set_id = ? and file_id = ?");
    assert_eq!(shown(&values), vec!["3", "2", "9"]);
    let (sql, values) = unlisting(2, 9);
    assert_eq!(sql, "delete from set_file where set_id = ? and file_id = ?");
    assert_eq!(shown(&values), vec!["2", "9"]);
    let (sql, values) = releasing(9);
    assert_eq!(sql, "update entry set parent_set = null where entry_id = ?");
    assert_eq!(shown(&values), vec!["9"]);
    let (sql, values) = listing(2, 9);
    assert_eq!(
        sql,
        "insert into set_file (set_id, file_id, position)
                select ?, ?, max(position) + 1
                from set_file where set_id = ?"
    );
    assert_eq!(shown(&values), vec!["2", "9", "2"]);
}

#[test]
fn a_cover_is_set_with_the_cover_first_and_the_set_second() {
    let (sql, values) = covering(9, 2);
    assert_eq!(sql, "update entry set cover = ? where entry_id = ?");
    assert_eq!(shown(&values), vec!["9", "2"]);
}

#[test]
fn received_files_are_kept_found_and_forgotten_by_what_they_hold() {
    let (sql, values) = keeping_upload("png".to_string(), "a cat".to_string());
    assert_eq!(
        sql,
        "insert into upload_file (ext, title)
                    values (?, ?)"
    );
    assert_eq!(shown(&values), vec!["'png'", "'a cat'"]);
    let (sql, values, columns) = finding_upload(4);
    assert_eq!(sql, "select * from upload_file where id = ?");
    assert_eq!(shown(&values), vec!["4"]);
    assert_eq!(columns, 3);
    let (sql, values) = forgetting_upload(4);
    assert_eq!(sql, "delete from upload_file where id = ?");
    assert_eq!(shown(&values), vec!["4"]);
    let (sql, values) = interning_upload("png".to_string(), 70, 71);
    assert_eq!(
        sql,
        "insert into file (ext, last_update, last_update)
                    values (?, ?, ?)"
    );
    assert_eq!(shown(&values), vec!["'png'", "70", "71"]);
    let (sql, values, columns) = all_uploads();
    assert_eq!(sql, "select * from upload_file");
    assert!(values.is_empty());
    assert_eq!(columns, 3);
}

#[test]
fn a_catalog_is_probed_and_its_references_are_enforced_without_values() {
    let (sql, values, columns) = probing();
    assert_eq!(sql, "select * from tag_category");
    assert!(values.is_empty());
    assert_eq!(columns, 0);
    let (sql, values) = enforcing();
    assert_eq!(sql, "PRAGMA foreign_keys = ON");
    assert!(values.is_empty());
}

#[test]
fn every_statement_has_a_value_for_each_of_its_question_marks() {
    let writes = vec![
        creating_tag_category("a", "b", 1),
        creating_tag("a", 1, "b", 1),
        attaching_tag(1, 2),
        creating_file("a".to_string(), 1, 2),
        creating_set(1, 2),
        placing(1, 2, 3),
        unlisting(1, 2),
        releasing(1),
        listing(1, 2),
        covering(1, 2),
        keeping_upload("a".to_string(), "b".to_string()),
        forgetting_upload(1),
        interning_upload("a".to_string(), 1, 2),
        enforcing(),
    ];
    for (sql, values) in &writes {
        assert_eq!(question_marks(sql), values.len(), "{}", sql);
    }
    let reads = vec![
        finding_tag("a"),
        finding_tag_category("a"),
        searching_tag_categories("a"),
        searching_tags("a", Some(1)),
        searching_tags("a", None),
        listing_tags(1),
        asking_membership(1),
        asking_listed(1, 2),
        finding_upload(1),
        all_uploads(),
        probing(),
    ];
    for (sql, values, _) in &reads {
        assert_eq!(question_marks(sql), values.len(), "{}", sql);
    }
}
