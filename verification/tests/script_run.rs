use std::collections::{BTreeMap, BTreeSet};
use tag_water::commands::script_run::{
    copy_error, extension, set_error, stored_file_name, validation_messages, Action, Event, Phase,
    Plan, ScriptRun,
};
use tag_water::commands::script_parser::tokenizer::tokenize;
use tag_water::commands::script_parser::Data;
use tag_water::database::models::CatalogError;
use tag_water::sync_db::{first_integer, SqlValue, SyncDb};

/// A catalog and a file system that live in memory, and remember what was
/// asked of them.
struct World {
    tags: BTreeMap<String, i64>,
    unreadable: BTreeSet<String>,
    failing_copies: BTreeSet<String>,
    refuse_sets: Option<CatalogError>,
    next_id: i64,
    entries: BTreeMap<i64, Vec<i64>>,
    extensions: BTreeMap<i64, String>,
    copies: Vec<(String, String)>,
    sets: Vec<(i64, i64, Vec<i64>)>,
    asked: Vec<String>,
}

impl World {
    fn new(tags: &[&str]) -> World {
        let mut known = BTreeMap::new();
        for (i, t) in tags.iter().enumerate() {
            known.insert(t.to_string(), 100 + i as i64);
        }
        World {
            tags: known,
            unreadable: BTreeSet::new(),
            failing_copies: BTreeSet::new(),
            refuse_sets: None,
            next_id: 1,
            entries: BTreeMap::new(),
            extensions: BTreeMap::new(),
            copies: Vec::new(),
            sets: Vec::new(),
            asked: Vec::new(),
        }
    }

    fn perform(&mut self, action: Action) -> Result<Event, Result<Vec<String>, Vec<String>>> {
        match action {
            Action::Validate { tags, files } => {
                self.asked.push("validate".to_string());
                Ok(Event::Validated {
                    tags: tags.iter().map(|t| self.tags.get(t).copied()).collect(),
                    readable: files.iter().map(|f| !self.unreadable.contains(f)).collect(),
                })
            }
            Action::NewFile { extension } => {
                self.asked.push("new file".to_string());
                let id = self.next_id;
                self.next_id += 1;
                self.entries.insert(id, Vec::new());
                self.extensions.insert(id, extension);
                Ok(Event::FileCreated(id))
            }
            Action::TagEntry { entry, tags } => {
                self.asked.push("tag".to_string());
                let held = self.entries.get_mut(&entry).unwrap();
                for t in tags {
                    if !held.contains(&t) {
                        held.push(t);
                    }
                }
                Ok(Event::Tagged)
            }
            Action::CopyFile { file, name } => {
                self.asked.push("copy".to_string());
                if self.failing_copies.contains(&file) {
                    Ok(Event::Copied(Some("disk full".to_string())))
                } else {
                    self.copies.push((file, name));
                    Ok(Event::Copied(None))
                }
            }
            Action::NewSet { cover, members } => {
                self.asked.push("new set".to_string());
                match self.refuse_sets.take() {
                    Some(e) => Ok(Event::SetCreated(Err(e))),
                    None => {
                        let id = self.next_id;
                        self.next_id += 1;
                        self.entries.insert(id, Vec::new());
                        self.sets.push((id, cover, members));
                        Ok(Event::SetCreated(Ok(id)))
                    }
                }
            }
            Action::Finish(result) => Err(result),
        }
    }

    fn run(&mut self, script: &str) -> Result<Vec<String>, Vec<String>> {
        let (mut run, mut action) = ScriptRun::start(script);
        loop {
            match self.perform(action) {
                Err(result) => {
                    assert!(run.is_over());
                    return result;
                }
                Ok(event) => {
                    let next = run.step(event);
                    run = next.0;
                    action = next.1;
                }
            }
        }
    }

    fn tags_of(&self, entry: i64) -> Vec<i64> {
        let mut tags = self.entries[&entry].clone();
        tags.sort();
        tags
    }
}

fn strings(list: &[&str]) -> Vec<String> {
    list.iter().map(|s| s.to_string()).collect()
}

#[test]
fn a_script_is_committed_file_by_file_and_then_set_by_set() {
    let mut world = World::new(&["red", "blue", "pair"]);
    let result = world.run("\"a.png\" red\n{ \"b.jpg\" red blue \"c\" } pair");
    assert_eq!(result, Ok(Vec::new()));
    assert_eq!(
        world.asked,
        strings(&[
            "validate", "new file", "tag", "copy", "new file", "tag", "copy", "new file", "tag",
            "copy", "new set", "tag",
        ])
    );
    assert_eq!(world.extensions[&1], "png");
    assert_eq!(world.extensions[&2], "jpg");
    assert_eq!(world.extensions[&3], "");
    assert_eq!(world.tags_of(1), vec![100]);
    assert_eq!(world.tags_of(2), vec![100, 101]);
    assert_eq!(world.tags_of(3), Vec::<i64>::new());
    assert_eq!(
        world.copies,
        vec![
            ("a.png".to_string(), "1.png".to_string()),
            ("b.jpg".to_string(), "2.jpg".to_string()),
            ("c".to_string(), "3.".to_string()),
        ]
    );
    assert_eq!(world.sets, vec![(4, 2, vec![2, 3])]);
    assert_eq!(world.tags_of(4), vec![102]);
}

#[test]
fn an_empty_script_succeeds_and_changes_nothing() {
    let mut world = World::new(&[]);
    assert_eq!(world.run(""), Ok(Vec::new()));
    assert_eq!(world.asked, strings(&["validate"]));
}

#[test]
fn a_script_that_cannot_be_lexed_ends_at_once() {
    let mut world = World::new(&[]);
    assert_eq!(world.run("\"a.png\" x\n\"b.png"), Err(strings(&["Line 2: Unmatched `\"`"])));
    assert!(world.asked.is_empty());
}

#[test]
fn a_script_that_cannot_be_parsed_ends_at_once() {
    let mut world = World::new(&["x"]);
    assert_eq!(
        world.run("\"a.png\" x\n\"a.png\""),
        Err(strings(&["Line 2: Repeated file a.png"]))
    );
    assert!(world.asked.is_empty());
}

#[test]
fn validation_is_all_or_nothing() {
    let mut world = World::new(&["known"]);
    world.unreadable.insert("gone.png".to_string());
    let result = world.run("\"here.png\" known first\n\"gone.png\" second known");
    let lines = result.unwrap_err();
    assert_eq!(
        lines,
        strings(&["Unknown tags:", "\tfirst, second", "Could not read files:", "\t'gone.png'"])
    );
    assert!(lines[1].contains("first") && lines[1].contains("second"));
    assert_eq!(world.asked, strings(&["validate"]));
    assert!(world.entries.is_empty());
    assert!(world.copies.is_empty());
}

#[test]
fn unknown_tags_alone_fail_validation() {
    let mut world = World::new(&["a"]);
    let result = world.run("\"x\" a b");
    assert_eq!(result, Err(strings(&["Unknown tags:", "\tb"])));
    assert_eq!(world.asked, strings(&["validate"]));
}

#[test]
fn unreadable_files_alone_fail_validation() {
    let mut world = World::new(&["a"]);
    world.unreadable.insert("x".to_string());
    world.unreadable.insert("z".to_string());
    let result = world.run("\"x\" a\n\"y\"\n\"z\"");
    assert_eq!(result, Err(strings(&["Could not read files:", "\t'x, z'"])));
    assert_eq!(world.asked, strings(&["validate"]));
}

#[test]
fn a_failed_copy_leaves_a_line_and_stops_nothing() {
    let mut world = World::new(&["t"]);
    world.failing_copies.insert("two.png".to_string());
    let result = world.run("\"one.png\" t\n\"two.png\" t\n\"three.png\" t");
    assert_eq!(result, Ok(strings(&["Error copying 'two.png': disk full"])));
    assert_eq!(world.tags_of(1), vec![100]);
    assert_eq!(world.tags_of(2), vec![100]);
    assert_eq!(world.tags_of(3), vec![100]);
    assert_eq!(
        world.copies,
        vec![
            ("one.png".to_string(), "1.png".to_string()),
            ("three.png".to_string(), "3.png".to_string()),
        ]
    );
}

#[test]
fn every_failed_copy_leaves_its_line_in_order() {
    let mut world = World::new(&[]);
    world.failing_copies.insert("a".to_string());
    world.failing_copies.insert("c".to_string());
    let result = world.run("\"a\"\n\"b\"\n{ \"c\" }");
    assert_eq!(
        result,
        Ok(strings(&["Error copying 'a': disk full", "Error copying 'c': disk full"]))
    );
    assert_eq!(world.sets, vec![(4, 3, vec![3])]);
}

#[test]
fn the_cover_of_a_set_is_its_first_member() {
    let mut world = World::new(&[]);
    world.run("\"w\"\n{ \"x.png\" \"y.png\" }\n{ \"z\" }").unwrap();
    assert_eq!(world.sets, vec![(5, 2, vec![2, 3]), (6, 4, vec![4])]);
}

#[test]
fn a_set_that_the_catalog_refuses_ends_the_run_in_failure() {
    let mut world = World::new(&["t"]);
    world.refuse_sets = Some(CatalogError::BelongsToSet);
    let result = world.run("\"a\" t\n{ \"b\" }\n{ \"c\" }");
    assert_eq!(result, Err(strings(&["Invalid file id"])));
    assert_eq!(world.entries.len(), 3);
    assert!(world.sets.is_empty());
    assert_eq!(world.asked.last().unwrap(), "new set");
    let mut world = World::new(&[]);
    world.refuse_sets = Some(CatalogError::InvalidCover);
    assert_eq!(world.run("{ \"b\" }"), Err(strings(&["Invalid cover"])));
}

#[test]
fn a_set_without_members_ends_the_run_in_failure() {
    let mut world = World::new(&[]);
    let result = world.run("\"a\"\n{ }\n{ \"b\" }");
    assert_eq!(result, Err(strings(&["Cannot create empty set"])));
    assert_eq!(world.entries.len(), 2);
    assert!(world.sets.is_empty());
}

#[test]
fn an_event_that_is_not_waited_for_ends_the_run() {
    let (run, action) = ScriptRun::start("\"a\"");
    assert!(matches!(action, Action::Validate { .. }));
    assert_eq!(run.phase(), Phase::Validating);
    let (run, action) = run.step(Event::Tagged);
    assert!(run.is_over());
    match action {
        Action::Finish(Err(lines)) => assert_eq!(lines, strings(&["Unexpected event"])),
        other => panic!("unexpected action {:?}", other),
    }
    let (run, action) = run.step(Event::FileCreated(1));
    assert!(run.is_over());
    assert!(matches!(action, Action::Finish(Err(_))));
}

#[test]
fn a_validation_that_says_too_little_fails() {
    let (run, _) = ScriptRun::start("\"a\" t\n\"b\"");
    let (run, action) = run.step(Event::Validated { tags: vec![], readable: vec![true] });
    assert!(run.is_over());
    match action {
        Action::Finish(Err(lines)) => assert_eq!(
            lines,
            strings(&["Unknown tags:", "\tt", "Could not read files:", "\t'b'"])
        ),
        other => panic!("unexpected action {:?}", other),
    }
}

#[test]
fn the_run_tells_where_it_stands() {
    let (run, action) = ScriptRun::start("\"a.png\" t\n{ \"b\" }");
    match action {
        Action::Validate { tags, files } => {
            assert_eq!(tags, strings(&["t"]));
            assert_eq!(files, strings(&["a.png", "b"]));
        }
        other => panic!("unexpected action {:?}", other),
    }
    assert_eq!(run.plan().files.len(), 2);
    assert_eq!(run.plan().files[0].extension, "png");
    assert_eq!(run.plan().sets[0].members, vec![1]);
    let (run, action) =
        run.step(Event::Validated { tags: vec![Some(7)], readable: vec![true, true] });
    assert_eq!(run.phase(), Phase::NewFile(0));
    assert!(matches!(action, Action::NewFile { .. }));
    let (run, action) = run.step(Event::FileCreated(-5));
    assert_eq!(run.phase(), Phase::TagFile(0));
    assert_eq!(run.file_ids(), &vec![-5]);
    match action {
        Action::TagEntry { entry, tags } => assert_eq!((entry, tags), (-5, vec![7])),
        other => panic!("unexpected action {:?}", other),
    }
    let (run, action) = run.step(Event::Tagged);
    assert_eq!(run.phase(), Phase::CopyFile(0));
    match action {
        Action::CopyFile { file, name } => {
            assert_eq!(file, "a.png");
            assert_eq!(name, "-5.png");
        }
        other => panic!("unexpected action {:?}", other),
    }
    let (run, _) = run.step(Event::Copied(None));
    assert_eq!(run.phase(), Phase::NewFile(1));
    let (run, _) = run.step(Event::FileCreated(9));
    let (run, _) = run.step(Event::Tagged);
    let (run, action) = run.step(Event::Copied(None));
    assert_eq!(run.phase(), Phase::NewSet(0));
    match action {
        Action::NewSet { cover, members } => assert_eq!((cover, members), (9, vec![9])),
        other => panic!("unexpected action {:?}", other),
    }
    let (run, action) = run.step(Event::SetCreated(Ok(10)));
    assert_eq!(run.phase(), Phase::TagSet(0));
    match action {
        Action::TagEntry { entry, tags } => assert_eq!((entry, tags), (10, Vec::<i64>::new())),
        other => panic!("unexpected action {:?}", other),
    }
    let (run, action) = run.step(Event::Tagged);
    assert_eq!(run.phase(), Phase::Done);
    assert!(matches!(action, Action::Finish(Ok(lines)) if lines.is_empty()));
}

#[test]
fn a_plan_lists_the_document() {
    let tokens = tokenize("$v = x y;\n\"a.tar.gz\" $v\n{ @autotag \"b\" z } -z w").unwrap();
    let data = Data::from_tokens(&tokens).unwrap();
    let plan = Plan::of(&data);
    assert_eq!(plan.tags, strings(&["x", "y", "z", "w"]));
    assert_eq!(plan.files.len(), 2);
    assert_eq!(plan.files[0].file, "a.tar.gz");
    assert_eq!(plan.files[0].extension, "gz");
    assert_eq!(plan.files[0].tags, strings(&["x", "y"]));
    assert_eq!(plan.files[1].tags, strings(&["z"]));
    assert_eq!(plan.sets.len(), 1);
    assert_eq!(plan.sets[0].members, vec![1]);
    assert_eq!(plan.sets[0].tags, strings(&["z", "w"]));
    let (run, _) = ScriptRun::of_document(&data);
    assert_eq!(run.plan().tags, plan.tags);
}

#[test]
fn an_extension_is_what_follows_the_last_dot_of_the_file_name() {
    assert_eq!(extension("a.png"), "png");
    assert_eq!(extension("dir/a.tar.gz"), "gz");
    assert_eq!(extension("dir.d/a"), "");
    assert_eq!(extension(".hidden"), "");
    assert_eq!(extension("a."), "");
    assert_eq!(extension(""), "");
    assert_eq!(extension("dir/"), "");
    assert_eq!(extension("caf\u{e9}.\u{e9}t\u{e9}"), "\u{e9}t\u{e9}");
}

#[test]
fn the_extension_of_a_bare_name_follows_its_last_dot() {
    assert_eq!(extension("a.b.c"), "c");
    assert_eq!(extension(".a.b"), "b");
    assert_eq!(extension("..a"), "a");
    assert_eq!(extension("..."), "");
    assert_eq!(extension("a.."), "");
    assert_eq!(extension("."), "");
    assert_eq!(extension(".."), "");
    assert_eq!(extension("name"), "");
    assert_eq!(extension(".name"), "");
    assert_eq!(extension("a b.tar gz"), "tar gz");
}

#[test]
fn the_extension_of_a_path_is_that_of_its_last_component() {
    assert_eq!(extension("pics/a.png"), "png");
    assert_eq!(extension("pics.d/a"), "");
    assert_eq!(extension("pics.d/.a"), "");
    assert_eq!(extension("pics.d/..a"), "a");
    assert_eq!(extension("/a.b/c.d/e.f"), "f");
    assert_eq!(extension("./a.txt"), "txt");
    assert_eq!(extension("../a.txt"), "txt");
    assert_eq!(extension("a//b.c"), "c");
}

#[test]
fn the_lines_of_a_run_are_put_together_from_their_parts() {
    assert_eq!(stored_file_name(12, "png"), "12.png");
    assert_eq!(stored_file_name(0, ""), "0.");
    assert_eq!(stored_file_name(i64::MIN, "x"), "-9223372036854775808.x");
    assert_eq!(stored_file_name(i64::MAX, "x"), "9223372036854775807.x");
    assert_eq!(copy_error("a b.png", "no space"), "Error copying 'a b.png': no space");
    assert_eq!(set_error(&CatalogError::InvalidCover), "Invalid cover");
    assert_eq!(set_error(&CatalogError::InvalidId), "Invalid file id");
    assert_eq!(set_error(&CatalogError::NotFound), "Invalid file id");
    assert_eq!(set_error(&CatalogError::BelongsToSet), "Invalid file id");
    assert_eq!(set_error(&CatalogError::AlreadyExists), "Unknown error AlreadyExists");
    assert_eq!(
        set_error(&CatalogError::Database("locked".to_string())),
        "Unknown error Database(\"locked\")"
    );
    assert_eq!(validation_messages(&vec![], &vec![]), Vec::<String>::new());
    assert_eq!(
        validation_messages(&strings(&["a", "b"]), &vec![]),
        strings(&["Unknown tags:", "\ta, b"])
    );
    assert_eq!(
        validation_messages(&vec![], &strings(&["f", "g"])),
        strings(&["Could not read files:", "\t'f, g'"])
    );
}

const TABLES: &str = "
create table tag_category (tcat_id integer primary key, name text unique not null,
    description text, time_created integer, time_updated integer);
insert into tag_category (name, description, time_created, time_updated)
    values ('default', '', 0, 0);
create table tag (tag_id integer primary key, name text unique not null, category integer,
    description text, time_created integer, time_updated integer);
create table entry (entry_id integer primary key, entry_type integer not null, ext text,
    cover integer, parent_set integer, time_created integer, time_updated integer);
create table entry_tag (entry_id integer, tag_id integer);
create table set_file (set_id integer, file_id integer, position integer);
create table upload_file (id integer primary key, ext text, title text);
";

fn run_on(db: &SyncDb, script: &str) -> Result<Vec<String>, Vec<String>> {
    let (mut run, mut action) = ScriptRun::start(script);
    loop {
        let event = match action {
            Action::Validate { tags, files } => Event::Validated {
                tags: tags.iter().map(|t| db.tag_id(t).unwrap()).collect(),
                readable: files.iter().map(|_| true).collect(),
            },
            Action::NewFile { extension } => Event::FileCreated(db.new_file(extension).unwrap()),
            Action::TagEntry { entry, tags } => {
                db.tag_entry_many(entry, &tags).unwrap();
                Event::Tagged
            }
            Action::CopyFile { .. } => Event::Copied(None),
            Action::NewSet { cover, members } => Event::SetCreated(db.new_set(cover, members)),
            Action::Finish(result) => return result,
        };
        let next = run.step(event);
        run = next.0;
        action = next.1;
    }
}

#[test]
fn a_run_fills_a_real_catalog() {
    let db = SyncDb::open(":memory:", TABLES).unwrap();
    let red = db.new_tag("red", 1, "").unwrap();
    let blue = db.new_tag("blue", 1, "").unwrap();
    let result = run_on(&db, "\"w.png\" red\n{ @autotag \"x.png\" red \"y.png\" blue }");
    assert_eq!(result, Ok(Vec::new()));
    let (w, x, y, set) = (1, 2, 3, 4);
    assert_eq!(db.entry_tags(w).unwrap(), vec![red]);
    assert_eq!(db.entry_tags(x).unwrap(), vec![red]);
    assert_eq!(db.entry_tags(y).unwrap(), vec![blue]);
    assert_eq!(db.entry_tags(set).unwrap(), vec![red, blue]);
    assert_eq!(first_integer(&db.membership(set).unwrap()), Some(2));
    let parent = |id: i64| match &db.membership(id).unwrap().unwrap()[1] {
        SqlValue::Integer(p) => Some(*p),
        _ => None,
    };
    assert_eq!(parent(w), None);
    assert_eq!(parent(x), Some(set));
    assert_eq!(parent(y), Some(set));
    let found = db
        .query(
            &tag_water::database::models::EntryQuery {
                is_set: true,
                ..tag_water::database::models::EntryQuery::default()
            },
            1,
            10,
        )
        .unwrap();
    assert_eq!(found.page_entries.len(), 1);
    assert_eq!(found.page_entries[0].id, set);
    assert_eq!(found.page_entries[0].img_id, x);
}

#[test]
fn a_run_with_an_unknown_tag_leaves_a_real_catalog_as_it_was() {
    let db = SyncDb::open(":memory:", TABLES).unwrap();
    db.new_tag("red", 1, "").unwrap();
    let result = run_on(&db, "\"w.png\" red green\n{ \"x.png\" blue }");
    assert_eq!(result, Err(strings(&["Unknown tags:", "\tgreen, blue"])));
    assert!(db.membership(1).unwrap().is_none());
    let all = tag_water::database::models::EntryQuery {
        is_file: true,
        include_set_files: true,
        ..tag_water::database::models::EntryQuery::default()
    };
    assert_eq!(db.query(&all, 1, 10).unwrap().entry_count, 0);
}

/// Every text of at most `length` characters of `letters`.
fn texts_up_to(letters: &[char], length: usize) -> Vec<Vec<char>> {
    let mut all: Vec<Vec<char>> = vec![Vec::new()];
    let mut last: Vec<Vec<char>> = vec![Vec::new()];
    for _ in 0..length {
        let mut next = Vec::new();
        for text in &last {
            for c in letters {
                let mut longer = text.clone();
                longer.push(*c);
                next.push(longer);
            }
        }
        all.extend(next.iter().cloned());
        last = next;
    }
    all
}

#[test]
fn an_extension_is_what_is_said_of_it_for_every_short_path() {
    for path in texts_up_to(&['a', 'b', '.', '/'], 7) {
        let n = path.len();
        let text: String = path.iter().collect();
        let found: Vec<char> = extension(&text).chars().collect();
        assert!(!found.contains(&'.'), "{}", text);
        if !found.is_empty() {
            let stands = (1..=n - found.len())
                .any(|i| path[i - 1] == '.' && path[i..i + found.len()] == found[..]);
            assert!(stands, "{}", text);
        }
        let last_dot = path.iter().rposition(|c| *c == '.');
        let last_slash = path.iter().rposition(|c| *c == '/');
        match last_dot {
            None => assert!(found.is_empty(), "{}", text),
            Some(d) => {
                let bare = last_slash.is_none() && text != "..";
                if bare {
                    let wanted: &[char] = if d == 0 { &[] } else { &path[d + 1..] };
                    assert_eq!(&found[..], wanted, "{}", text);
                }
                let without_prefix = !(n >= 2 && path[0] == '/' && path[1] == '/');
                let ends_in_parent = n >= 2
                    && path[n - 1] == '.'
                    && path[n - 2] == '.'
                    && (n == 2 || path[n - 3] == '/');
                let inside_the_name =
                    d > 0 && path[d - 1] != '/' && last_slash.map_or(true, |s| s < d);
                if without_prefix && !ends_in_parent && inside_the_name {
                    assert_eq!(&found[..], &path[d + 1..], "{}", text);
                }
            }
        }
    }
}
