use tag_water::commands::script_parser::{Data, ParseError};
use tag_water::string_set::StringSet;
use tag_water::commands::script_parser::tokenizer::{tokenize, Token, TokenInfo};

fn parse(script: &str) -> Result<Data, ParseError> {
    let tokens = tokenize(script).unwrap();
    Data::from_tokens(&tokens)
}

fn sorted(set: &StringSet) -> Vec<String> {
    let mut names = set.to_vec();
    names.sort();
    names
}

fn names(list: &[&str]) -> Vec<String> {
    list.iter().map(|s| s.to_string()).collect()
}

#[test]
fn an_empty_script_is_an_empty_document() {
    let data = parse("").unwrap();
    assert!(data.files.is_empty());
    assert!(data.sets.is_empty());
    assert!(data.tags.is_empty());
    assert!(data.file_set.is_empty());
}

#[test]
fn a_file_gets_the_tags_after_it() {
    let data = parse("\"a.png\" red blue\n\"b.png\" green").unwrap();
    assert_eq!(data.files.len(), 2);
    assert_eq!(data.files[0].file, "a.png");
    assert_eq!(sorted(&data.files[0].tags), names(&["blue", "red"]));
    assert_eq!(data.files[1].file, "b.png");
    assert_eq!(sorted(&data.files[1].tags), names(&["green"]));
    assert_eq!(sorted(&data.tags), names(&["blue", "green", "red"]));
    assert_eq!(sorted(&data.file_set), names(&["a.png", "b.png"]));
}

#[test]
fn a_tag_list_goes_on_over_line_breaks() {
    let data = parse("\"a.png\" red\n  blue\n\n green ; yellow").unwrap();
    assert_eq!(sorted(&data.files[0].tags), names(&["blue", "green", "red"]));
    assert_eq!(sorted(&data.tags), names(&["blue", "green", "red"]));
}

#[test]
fn add_add_remove_add_leaves_two_tags() {
    let data = parse("\"f\" a b -a c").unwrap();
    assert_eq!(sorted(&data.files[0].tags), names(&["b", "c"]));
}

#[test]
fn edits_from_variables_resolve_like_edits_in_place() {
    let direct = parse("\"f\" a b -a c").unwrap();
    let one = parse("$v = a b -a c;\n\"f\" $v").unwrap();
    let split = parse("$x = a b;\n$y = -a;\n\"f\" $x $y c").unwrap();
    let nested = parse("$x = a b;\n$y = $x -a;\n\"f\" $y c").unwrap();
    let expected = names(&["b", "c"]);
    assert_eq!(sorted(&direct.files[0].tags), expected);
    assert_eq!(sorted(&one.files[0].tags), expected);
    assert_eq!(sorted(&split.files[0].tags), expected);
    assert_eq!(sorted(&nested.files[0].tags), expected);
}

#[test]
fn only_the_tags_that_are_left_are_referred_to() {
    let data = parse("\"f\" a b -a").unwrap();
    assert_eq!(sorted(&data.tags), names(&["b"]));
}

#[test]
fn removing_an_absent_tag_changes_nothing() {
    let data = parse("\"f\" -a b").unwrap();
    assert_eq!(sorted(&data.files[0].tags), names(&["b"]));
}

#[test]
fn the_order_of_edits_matters() {
    let data = parse("\"f\" -a a\n\"g\" a -a").unwrap();
    assert_eq!(sorted(&data.files[0].tags), names(&["a"]));
    assert_eq!(sorted(&data.files[1].tags), Vec::<String>::new());
}

#[test]
fn a_repeated_path_is_refused_with_the_line_of_the_second() {
    let e = parse("\"a.png\" x\n\"b.png\"\n\n\"a.png\" y").unwrap_err();
    match &e {
        ParseError::RepeatedFile { line, file } => {
            assert_eq!(*line, 4);
            assert_eq!(file, "a.png");
        }
        other => panic!("unexpected error {:?}", other),
    }
    assert_eq!(e.line(), 4);
    assert_eq!(e.message(), "Line 4: Repeated file a.png");
}

#[test]
fn paths_that_differ_as_strings_are_different_files() {
    let data = parse("\"a.png\"\n\"./a.png\"\n\"dir/../a.png\"\n\"A.png\"").unwrap();
    assert_eq!(data.files.len(), 4);
    assert_eq!(data.file_set.len(), 4);
}

#[test]
fn a_repeated_path_inside_a_group_is_refused_too() {
    let e = parse("\"a.png\"\n{ \"b.png\"\n\"a.png\" }").unwrap_err();
    assert!(matches!(e, ParseError::RepeatedFile { line: 3, .. }));
}

#[test]
fn an_undefined_variable_in_a_tag_list_is_an_error_on_its_line() {
    let e = parse("\"a.png\" x\n\"b.png\" y\n $x").unwrap_err();
    match &e {
        ParseError::UndefinedVariable { line, name } => {
            assert_eq!(*line, 3);
            assert_eq!(name, "x");
        }
        other => panic!("unexpected error {:?}", other),
    }
    assert_eq!(e.message(), "Line 3: Undefined variable $x");
}

#[test]
fn a_variable_must_be_defined_before_its_use() {
    let e = parse("\"a.png\" $x\n$x = a;").unwrap_err();
    assert!(matches!(e, ParseError::UndefinedVariable { line: 1, .. }));
    let data = parse("$x = a;\n\"a.png\" $x").unwrap();
    assert_eq!(sorted(&data.files[0].tags), names(&["a"]));
}

#[test]
fn an_undefined_variable_in_a_definition_is_an_error() {
    let e = parse("$x = a $y;").unwrap_err();
    assert!(matches!(e, ParseError::UndefinedVariable { line: 1, .. }));
}

#[test]
fn a_later_definition_replaces_an_earlier_one() {
    let data = parse("$x = a;\n\"f\" $x;\n$x = b;\n\"g\" $x;\n$x = $x c;\n\"h\" $x").unwrap();
    assert_eq!(sorted(&data.files[0].tags), names(&["a"]));
    assert_eq!(sorted(&data.files[1].tags), names(&["b"]));
    assert_eq!(sorted(&data.files[2].tags), names(&["b", "c"]));
}

#[test]
fn a_variable_after_a_tag_list_belongs_to_the_list() {
    let data = parse("$x = a;\n\"f\" b\n$x = c;\n\"g\" $x").unwrap();
    assert_eq!(sorted(&data.files[0].tags), names(&["a", "b"]));
    assert_eq!(sorted(&data.files[1].tags), names(&["a"]));
}

#[test]
fn a_definition_ends_at_the_line_break() {
    let data = parse("$x = a b\n\"f\" $x c").unwrap();
    assert_eq!(data.files.len(), 1);
    assert_eq!(sorted(&data.files[0].tags), names(&["a", "b", "c"]));
}

#[test]
fn a_definition_refers_to_no_tag_by_itself() {
    let data = parse("$x = a b;").unwrap();
    assert!(data.tags.is_empty());
}

#[test]
fn autotag_hands_the_tags_of_the_members_to_the_group() {
    let data = parse("{ @autotag \"a.png\" tag1 \"b.png\" tag2 }").unwrap();
    assert_eq!(data.files.len(), 2);
    assert_eq!(data.sets.len(), 1);
    assert_eq!(data.sets[0].files, vec![0, 1]);
    assert_eq!(sorted(&data.sets[0].tags), names(&["tag1", "tag2"]));
}

#[test]
fn without_autotag_a_group_has_only_its_own_tags() {
    let data = parse("{ \"a.png\" tag1 \"b.png\" tag2 } own").unwrap();
    assert_eq!(sorted(&data.sets[0].tags), names(&["own"]));
    assert_eq!(sorted(&data.tags), names(&["own", "tag1", "tag2"]));
    let bare = parse("{ \"a.png\" tag1 }").unwrap();
    assert!(bare.sets[0].tags.is_empty());
}

#[test]
fn autotag_and_own_tags_are_united() {
    let data = parse("{ @autotag\n \"a.png\" tag1\n \"b.png\" tag2\n} tag3 -tag1").unwrap();
    assert_eq!(sorted(&data.sets[0].tags), names(&["tag1", "tag2", "tag3"]));
}

#[test]
fn autotag_counts_from_where_it_stands() {
    let data = parse("{ \"a.png\" tag1 @autotag \"b.png\" tag2 }").unwrap();
    assert_eq!(sorted(&data.sets[0].tags), names(&["tag2"]));
}

#[test]
fn members_are_positions_in_the_list_of_files() {
    let data = parse("\"x\"\n{ \"a\" \"b\" }\n\"y\"\n{ \"c\" }").unwrap();
    assert_eq!(data.files.len(), 5);
    assert_eq!(data.sets.len(), 2);
    assert_eq!(data.sets[0].files, vec![1, 2]);
    assert_eq!(data.sets[1].files, vec![4]);
    assert_eq!(data.files[4].file, "c");
}

#[test]
fn an_empty_group_is_a_group() {
    let data = parse("{ }").unwrap();
    assert_eq!(data.sets.len(), 1);
    assert!(data.sets[0].files.is_empty());
}

#[test]
fn an_unclosed_group_ends_with_the_script() {
    let data = parse("{ \"a\" x").unwrap();
    assert_eq!(data.sets.len(), 1);
    assert_eq!(data.sets[0].files, vec![0]);
}

#[test]
fn another_directive_in_a_group_is_an_error() {
    let e = parse("{\n @other \"a.png\" }").unwrap_err();
    match &e {
        ParseError::UnexpectedDirective { line, name } => {
            assert_eq!(*line, 2);
            assert_eq!(name, "other");
        }
        other => panic!("unexpected error {:?}", other),
    }
    assert_eq!(e.message(), "Line 2: Unexpected directive @other");
}

#[test]
fn a_token_that_cannot_stand_in_a_group_is_an_error_on_the_line_of_the_group() {
    let e = parse("\n{ \"a.png\"\n\n ; }").unwrap_err();
    match &e {
        ParseError::UnexpectedToken { line, token } => {
            assert_eq!(*line, 2);
            assert_eq!(*token, Token::StatementEnd);
        }
        other => panic!("unexpected error {:?}", other),
    }
    assert_eq!(e.message(), "Line 2: Unexpected token StatementEnd");
    let e = parse("{ tag }").unwrap_err();
    assert_eq!(e.message(), "Line 1: Unexpected token AddTag(\"tag\")");
}

#[test]
fn a_directive_takes_the_string_after_it() {
    let data = parse("@name \"value\"\n\"a.png\"").unwrap();
    assert_eq!(data.files.len(), 1);
    assert_eq!(data.directives.get("name"), Some(&"value".to_string()));
    assert_eq!(data.directives.get("other"), None);
}

#[test]
fn a_directive_without_a_string_is_an_error() {
    let e = parse("\n@name\n\"value\"").unwrap_err();
    match &e {
        ParseError::EmptyDirective { line, name } => {
            assert_eq!(*line, 2);
            assert_eq!(name, "name");
        }
        other => panic!("unexpected error {:?}", other),
    }
    assert_eq!(e.message(), "Line 2: Empty directive @name");
    assert!(matches!(parse("@name").unwrap_err(), ParseError::EmptyDirective { line: 1, .. }));
    assert!(matches!(parse("@name x").unwrap_err(), ParseError::EmptyDirective { .. }));
}

#[test]
fn stray_tokens_between_statements_are_passed_over() {
    let data = parse("} = ; tag -tag\n\"a.png\" x").unwrap();
    assert_eq!(data.files.len(), 1);
    assert_eq!(sorted(&data.tags), names(&["x"]));
}

#[test]
fn the_first_error_ends_the_parse() {
    let e = parse("\"a\" $x\n\"a\"").unwrap_err();
    assert!(matches!(e, ParseError::UndefinedVariable { line: 1, .. }));
}

#[test]
fn a_file_declaration_that_fails_leaves_the_document_as_it_was() {
    let tokens = tokenize("\"a.png\" x\n\"a.png\" y\n\"b.png\" z $nothing").unwrap();
    let mut data = Data::new();
    let next = data.handle_file(&tokens, 0).unwrap();
    assert_eq!(next, 3);
    let repeated = data.handle_file(&tokens, 3).unwrap_err();
    assert!(matches!(repeated, ParseError::RepeatedFile { line: 2, .. }));
    assert_eq!(data.files.len(), 1);
    assert_eq!(sorted(&data.tags), names(&["x"]));
    assert_eq!(sorted(&data.file_set), names(&["a.png"]));
    assert!(data.sets.is_empty());
    let undefined = data.handle_file(&tokens, 6).unwrap_err();
    assert!(matches!(undefined, ParseError::UndefinedVariable { line: 3, .. }));
    assert_eq!(data.files.len(), 1);
    assert_eq!(sorted(&data.tags), names(&["x"]));
    assert_eq!(sorted(&data.file_set), names(&["a.png"]));
}

#[test]
fn a_group_that_fails_is_not_recorded() {
    let tokens = tokenize("{ t1 \"a.png\" }").unwrap();
    let mut data = Data::new();
    let e = data.handle_set(&tokens, 0).unwrap_err();
    assert!(matches!(e, ParseError::UnexpectedToken { line: 1, .. }));
    assert!(data.sets.is_empty());
    assert!(data.files.is_empty());
    assert!(data.tags.is_empty());
}

#[test]
fn a_group_that_fails_leaves_the_files_that_were_read_before() {
    let tokens = tokenize("\"w\" t\n{ \"a\" x \"b\" ; \"c\" }").unwrap();
    let mut data = Data::new();
    let at = data.handle_file(&tokens, 0).unwrap();
    let e = data.handle_set(&tokens, at).unwrap_err();
    assert!(matches!(e, ParseError::UnexpectedToken { line: 2, .. }));
    assert!(data.sets.is_empty());
    let files: Vec<&str> = data.files.iter().map(|f| f.file.as_str()).collect();
    assert_eq!(files, vec!["w", "a", "b"]);
    assert_eq!(sorted(&data.tags), names(&["t", "x"]));
    let tokens = tokenize("{ \"a\" } $nothing").unwrap();
    let mut data = Data::new();
    let e = data.handle_set(&tokens, 0).unwrap_err();
    assert!(matches!(e, ParseError::UndefinedVariable { .. }));
    assert!(data.sets.is_empty());
    assert_eq!(data.files.len(), 1);
}

#[test]
fn the_handlers_can_be_called_one_by_one() {
    let tokens = vec![
        TokenInfo::new(1, Token::Variable("x".to_string())),
        TokenInfo::new(1, Token::Assignment),
        TokenInfo::new(1, Token::AddTag("a".to_string())),
        TokenInfo::new(1, Token::StatementEnd),
        TokenInfo::new(2, Token::String("f".to_string())),
        TokenInfo::new(2, Token::Variable("x".to_string())),
        TokenInfo::new(2, Token::AddTag("b".to_string())),
        TokenInfo::new(3, Token::Directive("d".to_string())),
        TokenInfo::new(3, Token::String("v".to_string())),
        TokenInfo::new(4, Token::SetOpen),
        TokenInfo::new(4, Token::String("g".to_string())),
        TokenInfo::new(4, Token::SetClose),
        TokenInfo::new(4, Token::AddTag("c".to_string())),
    ];
    let mut data = Data::new();
    assert_eq!(data.handle_variable(&tokens, 0).unwrap(), 4);
    assert_eq!(data.handle_file(&tokens, 4).unwrap(), 7);
    assert_eq!(data.handle_directive(&tokens, 7).unwrap(), 9);
    assert_eq!(data.handle_set(&tokens, 9).unwrap(), 13);
    let (tags, next) = data.handle_tag_list(&tokens, 5).unwrap();
    assert_eq!(next, 7);
    assert_eq!(sorted(&tags), names(&["a", "b"]));
    assert_eq!(data.files.len(), 2);
    assert_eq!(data.sets[0].files, vec![1]);
    assert_eq!(sorted(&data.sets[0].tags), names(&["c"]));
    assert_eq!(sorted(&data.tags), names(&["a", "b", "c"]));
}
