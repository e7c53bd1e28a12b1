//! The parser of the script language: from the tokens of a script to the
//! document that the script describes.
//!
//! A script declares files, each with the tags that it gets; groups of
//! files, written between `{` and `}`, with tags of their own; variables,
//! which name a sequence of tag edits; and directives. The parser resolves
//! variables and tag edits as it reads: a document holds only the tags that
//! are left.

pub mod tokenizer;

use crate::string_map::StringMap;
use crate::string_set::StringSet;
use crate::text::{line_prefix, line_prefix_text, same_text};
use crate::commands::script_parser::tokenizer::{Token, TokenInfo, TokenInfoView, TokenView};
use vstd::prelude::*;

verus! {

/// One edit of a tag set.
#[derive(Debug, Clone)]
pub enum TagEdit {
    Add(String),
    Remove(String),
}

/// One edit of a tag set, as contracts see it.
pub enum TagEditView {
    Add(Seq<char>),
    Remove(Seq<char>),
}

impl View for TagEdit {
    type V = TagEditView;

    open spec fn view(&self) -> TagEditView {
        match self {
            TagEdit::Add(tag) => TagEditView::Add(tag@),
            TagEdit::Remove(tag) => TagEditView::Remove(tag@),
        }
    }
}

impl DeepView for TagEdit {
    type V = TagEditView;

    open spec fn deep_view(&self) -> TagEditView {
        self@
    }
}

/// A file that a script declares, with the tags that it resolved to.
#[derive(Debug, Clone)]
pub struct File {
    pub file: String,
    pub tags: StringSet,
}

/// A declared file, as contracts see it.
#[verifier::ext_equal]
pub struct FileView {
    pub file: Seq<char>,
    pub tags: Set<Seq<char>>,
}

impl View for File {
    type V = FileView;

    open spec fn view(&self) -> FileView {
        FileView { file: self.file@, tags: self.tags@ }
    }
}

impl DeepView for File {
    type V = FileView;

    open spec fn deep_view(&self) -> FileView {
        self@
    }
}

/// A group of files that a script declares: the positions of its members in
/// the document's list of files, in the order in which the script lists
/// them, and the tags of the group itself.
#[derive(Debug, Clone)]
pub struct Group {
    pub files: Vec<usize>,
    pub tags: StringSet,
}

/// The positions `list` as integers.
pub open spec fn positions(list: Seq<usize>) -> Seq<int> {
    list.map_values(|p: usize| p as int)
}

/// A declared group, as contracts see it.
#[verifier::ext_equal]
pub struct GroupView {
    pub files: Seq<int>,
    pub tags: Set<Seq<char>>,
}

impl View for Group {
    type V = GroupView;

    open spec fn view(&self) -> GroupView {
        GroupView { files: positions(self.files@), tags: self.tags@ }
    }
}

impl DeepView for Group {
    type V = GroupView;

    open spec fn deep_view(&self) -> GroupView {
        self@
    }
}

/// Why the tokens of a script are no document.
#[derive(Debug, Clone)]
pub enum ParseError {
    /// A tag list on `line` uses the variable `name`, which no statement
    /// before it defines.
    UndefinedVariable { line: u64, name: String },
    /// The path `file`, declared on `line`, was declared before.
    RepeatedFile { line: u64, file: String },
    /// A group holds, on `line`, a directive other than `autotag`.
    UnexpectedDirective { line: u64, name: String },
    /// The group that opens on `line` holds `token`, which cannot stand in
    /// a group.
    UnexpectedToken { line: u64, token: Token },
    /// The directive `name` on `line` is not followed by a quoted value.
    EmptyDirective { line: u64, name: String },
}

/// A parse error, as contracts see it.
pub enum ParseErrorView {
    UndefinedVariable { line: u64, name: Seq<char> },
    RepeatedFile { line: u64, file: Seq<char> },
    UnexpectedDirective { line: u64, name: Seq<char> },
    UnexpectedToken { line: u64, token: TokenView },
    EmptyDirective { line: u64, name: Seq<char> },
}

impl View for ParseError {
    type V = ParseErrorView;

    open spec fn view(&self) -> ParseErrorView {
        match self {
            ParseError::UndefinedVariable { line, name } => ParseErrorView::UndefinedVariable {
                line: *line,
                name: name@,
            },
            ParseError::RepeatedFile { line, file } => ParseErrorView::RepeatedFile {
                line: *line,
                file: file@,
            },
            ParseError::UnexpectedDirective { line, name } => ParseErrorView::UnexpectedDirective {
                line: *line,
                name: name@,
            },
            ParseError::UnexpectedToken { line, token } => ParseErrorView::UnexpectedToken {
                line: *line,
                token: token@,
            },
            ParseError::EmptyDirective { line, name } => ParseErrorView::EmptyDirective {
                line: *line,
                name: name@,
            },
        }
    }
}

impl ParseErrorView {
    /// The line of the script that the error names.
    pub open spec fn line(self) -> u64 {
        match self {
            ParseErrorView::UndefinedVariable { line, .. } => line,
            ParseErrorView::RepeatedFile { line, .. } => line,
            ParseErrorView::UnexpectedDirective { line, .. } => line,
            ParseErrorView::UnexpectedToken { line, .. } => line,
            ParseErrorView::EmptyDirective { line, .. } => line,
        }
    }
}

impl ParseErrorView {
    /// The error in words: the line, what is wrong, and the name or the
    /// token that is at fault. A variable is shown with its `$` and a
    /// directive with its `@`.
    pub open spec fn message(self) -> Seq<char> {
        match self {
            ParseErrorView::UndefinedVariable { line, name } => line_prefix(line)
                + "Undefined variable $"@ + name,
            ParseErrorView::RepeatedFile { line, file } => line_prefix(line) + "Repeated file "@
                + file,
            ParseErrorView::UnexpectedDirective { line, name } => line_prefix(line)
                + "Unexpected directive @"@ + name,
            ParseErrorView::UnexpectedToken { line, token } => line_prefix(line)
                + "Unexpected token "@ + token.description(),
            ParseErrorView::EmptyDirective { line, name } => line_prefix(line)
                + "Empty directive @"@ + name,
        }
    }
}

impl ParseError {
    /// The line of the script that the error names.
    pub fn line(&self) -> (line: u64)
        ensures
            line == self@.line(),
    {
        match self {
            ParseError::UndefinedVariable { line, .. } => *line,
            ParseError::RepeatedFile { line, .. } => *line,
            ParseError::UnexpectedDirective { line, .. } => *line,
            ParseError::UnexpectedToken { line, .. } => *line,
            ParseError::EmptyDirective { line, .. } => *line,
        }
    }

    /// The error in words, for the one who wrote the script.
    pub fn message(&self) -> (text: String)
        ensures
            text@ == self@.message(),
    {
        let mut text: String = line_prefix_text(self.line());
        match self {
            ParseError::UndefinedVariable { name, .. } => {
                text.append("Undefined variable $");
                text.append(name.as_str());
            },
            ParseError::RepeatedFile { file, .. } => {
                text.append("Repeated file ");
                text.append(file.as_str());
            },
            ParseError::UnexpectedDirective { name, .. } => {
                text.append("Unexpected directive @");
                text.append(name.as_str());
            },
            ParseError::UnexpectedToken { token, .. } => {
                text.append("Unexpected token ");
                let shown: String = token.description();
                text.append(shown.as_str());
            },
            ParseError::EmptyDirective { name, .. } => {
                text.append("Empty directive @");
                text.append(name.as_str());
            },
        }
        text
    }
}

/// What a script has declared: the document.
#[verifier::ext_equal]
pub struct DataView {
    /// The value of each directive outside a group.
    pub directives: Map<Seq<char>, Seq<char>>,
    /// The edits that each variable stands for.
    pub variables: Map<Seq<char>, Seq<TagEditView>>,
    /// The declared files, in the order of their declarations.
    pub files: Seq<FileView>,
    /// The declared groups, in the order of their declarations.
    pub sets: Seq<GroupView>,
    /// Every tag that a file or a group resolved to.
    pub tags: Set<Seq<char>>,
    /// The paths of the declared files.
    pub file_set: Set<Seq<char>>,
}

impl DataView {
    /// The document of a script that declares nothing.
    pub open spec fn empty() -> DataView {
        DataView {
            directives: Map::empty(),
            variables: Map::empty(),
            files: Seq::empty(),
            sets: Seq::empty(),
            tags: Set::empty(),
            file_set: Set::empty(),
        }
    }

    /// This document with `tags` added to those that it refers to.
    pub open spec fn with_tags(self, tags: Set<Seq<char>>) -> DataView {
        DataView { tags: self.tags.union(tags), ..self }
    }
}

/// `tags` after one edit.
pub open spec fn edited(tags: Set<Seq<char>>, edit: TagEditView) -> Set<Seq<char>> {
    match edit {
        TagEditView::Add(tag) => tags.insert(tag),
        TagEditView::Remove(tag) => tags.remove(tag),
    }
}

/// `tags` after the edits `edits`, made in their order.
pub open spec fn replay(tags: Set<Seq<char>>, edits: Seq<TagEditView>) -> Set<Seq<char>>
    decreases edits.len(),
{
    if edits.len() == 0 {
        tags
    } else {
        edited(replay(tags, edits.drop_last()), edits.last())
    }
}

/// The result of a step of the parser: what it yields and the position of
/// the first token after it, or the error.
pub type Parsed<T> = Result<(T, int), ParseErrorView>;

/// Resolves the tag list that starts at `pos`, beginning with the tags
/// `tags`.
///
/// A tag list is a run of tags to add, tags to remove, variables and line
/// breaks. A tag is added or removed as it is met; a variable must be
/// defined, and its edits are replayed in its place. The list ends before
/// the first token of another kind.
pub open spec fn tag_list(
    variables: Map<Seq<char>, Seq<TagEditView>>,
    tokens: Seq<TokenInfoView>,
    pos: int,
    tags: Set<Seq<char>>,
) -> Parsed<Set<Seq<char>>>
    decreases tokens.len() - pos,
{
    if 0 <= pos < tokens.len() {
        match tokens[pos].token {
            TokenView::AddTag(tag) => tag_list(variables, tokens, pos + 1, tags.insert(tag)),
            TokenView::RemoveTag(tag) => tag_list(variables, tokens, pos + 1, tags.remove(tag)),
            TokenView::Variable(name) => if variables.dom().contains(name) {
                tag_list(variables, tokens, pos + 1, replay(tags, variables[name]))
            } else {
                Err(ParseErrorView::UndefinedVariable { line: tokens[pos].line, name })
            },
            TokenView::LineBreak => tag_list(variables, tokens, pos + 1, tags),
            _ => Ok((tags, pos)),
        }
    } else {
        Ok((tags, pos))
    }
}

/// Reads the edits of a variable's definition from `pos` on, after the
/// edits `edits`.
///
/// A tag to add or to remove is one edit; a variable must be defined, and
/// stands for its edits. The first token of another kind ends the
/// definition and is passed over, whatever it is.
pub open spec fn edit_run(
    variables: Map<Seq<char>, Seq<TagEditView>>,
    tokens: Seq<TokenInfoView>,
    pos: int,
    edits: Seq<TagEditView>,
) -> Parsed<Seq<TagEditView>>
    decreases tokens.len() - pos,
{
    if 0 <= pos < tokens.len() {
        match tokens[pos].token {
            TokenView::AddTag(tag) => edit_run(
                variables,
                tokens,
                pos + 1,
                edits.push(TagEditView::Add(tag)),
            ),
            TokenView::RemoveTag(tag) => edit_run(
                variables,
                tokens,
                pos + 1,
                edits.push(TagEditView::Remove(tag)),
            ),
            TokenView::Variable(name) => if variables.dom().contains(name) {
                edit_run(variables, tokens, pos + 1, edits + variables[name])
            } else {
                Err(ParseErrorView::UndefinedVariable { line: tokens[pos].line, name })
            },
            _ => Ok((edits, pos + 1)),
        }
    } else {
        Ok((edits, pos))
    }
}

/// Where the edits of the variable definition at `pos` start: after the
/// variable and the `=` that may follow it.
pub open spec fn definition_start(tokens: Seq<TokenInfoView>, pos: int) -> int {
    if pos + 1 < tokens.len() && tokens[pos + 1].token == TokenView::Assignment {
        pos + 2
    } else {
        pos + 1
    }
}

/// The variable definition at `pos`, where a variable stands: the document
/// with the variable bound to its edits, in place of an earlier definition.
pub open spec fn variable_def(data: DataView, tokens: Seq<TokenInfoView>, pos: int) -> Parsed<
    DataView,
> {
    match edit_run(data.variables, tokens, definition_start(tokens, pos), Seq::empty()) {
        Ok((edits, next)) => Ok(
            (
                DataView {
                    variables: data.variables.insert(tokens[pos].token->Variable_0, edits),
                    ..data
                },
                next,
            ),
        ),
        Err(e) => Err(e),
    }
}

/// The file declaration at `pos`, where a quoted string stands: the path,
/// which no earlier declaration may hold, and the tag list after it.
pub open spec fn file_decl(data: DataView, tokens: Seq<TokenInfoView>, pos: int) -> Parsed<
    DataView,
> {
    let path = tokens[pos].token->String_0;
    if data.file_set.contains(path) {
        Err(ParseErrorView::RepeatedFile { line: tokens[pos].line, file: path })
    } else {
        match tag_list(data.variables, tokens, pos + 1, Set::empty()) {
            Ok((tags, next)) => Ok(
                (
                    DataView {
                        files: data.files.push(FileView { file: path, tags }),
                        tags: data.tags.union(tags),
                        file_set: data.file_set.insert(path),
                        ..data
                    },
                    next,
                ),
            ),
            Err(e) => Err(e),
        }
    }
}

/// The directive at `pos`, outside a group: the quoted string right after
/// it is its value.
pub open spec fn directive_decl(data: DataView, tokens: Seq<TokenInfoView>, pos: int) -> Parsed<
    DataView,
> {
    let name = tokens[pos].token->Directive_0;
    if pos + 1 < tokens.len() && tokens[pos + 1].token is String {
        Ok(
            (
                DataView {
                    directives: data.directives.insert(name, tokens[pos + 1].token->String_0),
                    ..data
                },
                pos + 2,
            ),
        )
    } else {
        Err(ParseErrorView::EmptyDirective { line: tokens[pos].line, name })
    }
}

/// What the parser holds while it reads a group.
#[verifier::ext_equal]
pub struct GroupState {
    pub data: DataView,
    /// The members read so far.
    pub members: Seq<int>,
    /// The tags that the members have handed to the group.
    pub tags: Set<Seq<char>>,
    /// Whether `autotag` was met: from then on each member hands its tags
    /// to the group.
    pub autotag: bool,
}

/// The name of the one directive that may stand in a group.
pub open spec fn autotag_name() -> Seq<char> {
    "autotag"@
}

/// Reads the inside of the group that opened on line `open_line`, from
/// `pos` on, up to and with the `}` that closes it, or to the end of the
/// script.
pub open spec fn group_body(
    state: GroupState,
    tokens: Seq<TokenInfoView>,
    pos: int,
    open_line: u64,
) -> Parsed<GroupState>
    decreases tokens.len() - pos,
    via group_body_decreases
{
    if 0 <= pos < tokens.len() {
        match tokens[pos].token {
            TokenView::Directive(name) => if name == autotag_name() {
                group_body(GroupState { autotag: true, ..state }, tokens, pos + 1, open_line)
            } else {
                Err(ParseErrorView::UnexpectedDirective { line: tokens[pos].line, name })
            },
            TokenView::SetClose => Ok((state, pos + 1)),
            TokenView::String(_) => match file_decl(state.data, tokens, pos) {
                Ok((data, next)) => group_body(
                    GroupState {
                        data,
                        members: state.members.push(state.data.files.len() as int),
                        tags: if state.autotag {
                            state.tags.union(data.files.last().tags)
                        } else {
                            state.tags
                        },
                        autotag: state.autotag,
                    },
                    tokens,
                    next,
                    open_line,
                ),
                Err(e) => Err(e),
            },
            TokenView::LineBreak => group_body(state, tokens, pos + 1, open_line),
            token => Err(ParseErrorView::UnexpectedToken { line: open_line, token }),
        }
    } else {
        Ok((state, pos))
    }
}

#[via_fn]
proof fn group_body_decreases(
    state: GroupState,
    tokens: Seq<TokenInfoView>,
    pos: int,
    open_line: u64,
) {
    if 0 <= pos < tokens.len() {
        lemma_file_decl_advances(state.data, tokens, pos);
    }
}

/// The document as the reading of the inside of a group leaves it, from
/// `pos` on, whether the reading comes to the end of the group or fails:
/// with the files that are declared inside the group up to the `}`, to the
/// end of the script, or to the first token that makes the reading fail.
pub open spec fn group_files(data: DataView, tokens: Seq<TokenInfoView>, pos: int) -> DataView
    decreases tokens.len() - pos,
    via group_files_decreases
{
    if 0 <= pos < tokens.len() {
        match tokens[pos].token {
            TokenView::Directive(name) => if name == autotag_name() {
                group_files(data, tokens, pos + 1)
            } else {
                data
            },
            TokenView::String(_) => match file_decl(data, tokens, pos) {
                Ok((with_file, next)) => group_files(with_file, tokens, next),
                Err(_) => data,
            },
            TokenView::LineBreak => group_files(data, tokens, pos + 1),
            _ => data,
        }
    } else {
        data
    }
}

#[via_fn]
proof fn group_files_decreases(data: DataView, tokens: Seq<TokenInfoView>, pos: int) {
    if 0 <= pos < tokens.len() {
        lemma_file_decl_advances(data, tokens, pos);
    }
}

/// The group declaration at `pos`, where a `{` stands: the inside of the
/// group, and the tag list after it, whose tags the group gets too.
pub open spec fn group_decl(data: DataView, tokens: Seq<TokenInfoView>, pos: int) -> Parsed<
    DataView,
> {
    let start = GroupState { data, members: Seq::empty(), tags: Set::empty(), autotag: false };
    match group_body(start, tokens, pos + 1, tokens[pos].line) {
        Ok((state, after)) => match tag_list(state.data.variables, tokens, after, Set::empty()) {
            Ok((own, next)) => Ok(
                (
                    DataView {
                        sets: state.data.sets.push(
                            GroupView { files: state.members, tags: state.tags.union(own) },
                        ),
                        tags: state.data.tags.union(own),
                        ..state.data
                    },
                    next,
                ),
            ),
            Err(e) => Err(e),
        },
        Err(e) => Err(e),
    }
}

/// The statement that starts at `pos`.
///
/// A variable starts a definition, a quoted string a file declaration, a
/// directive a directive with its value, and `{` a group. Any other token
/// is passed over.
pub open spec fn statement(data: DataView, tokens: Seq<TokenInfoView>, pos: int) -> Parsed<
    DataView,
> {
    match tokens[pos].token {
        TokenView::Variable(_) => variable_def(data, tokens, pos),
        TokenView::String(_) => file_decl(data, tokens, pos),
        TokenView::Directive(_) => directive_decl(data, tokens, pos),
        TokenView::SetOpen => group_decl(data, tokens, pos),
        _ => Ok((data, pos + 1)),
    }
}

/// The document that the statements from `pos` on make of `data`.
pub open spec fn parse_from(data: DataView, tokens: Seq<TokenInfoView>, pos: int) -> Result<
    DataView,
    ParseErrorView,
>
    decreases tokens.len() - pos,
    via parse_from_decreases
{
    if 0 <= pos < tokens.len() {
        match statement(data, tokens, pos) {
            Ok((next_data, next)) => parse_from(next_data, tokens, next),
            Err(e) => Err(e),
        }
    } else {
        Ok(data)
    }
}

#[via_fn]
proof fn parse_from_decreases(data: DataView, tokens: Seq<TokenInfoView>, pos: int) {
    if 0 <= pos < tokens.len() {
        lemma_statement_advances(data, tokens, pos);
    }
}

/// The document that the tokens of a script describe, or the first error.
pub open spec fn parse(tokens: Seq<TokenInfoView>) -> Result<DataView, ParseErrorView> {
    parse_from(DataView::empty(), tokens, 0)
}

/// A tag list ends at or after its start, and inside the script.
pub proof fn lemma_tag_list_advances(
    variables: Map<Seq<char>, Seq<TagEditView>>,
    tokens: Seq<TokenInfoView>,
    pos: int,
    tags: Set<Seq<char>>,
)
    requires
        0 <= pos <= tokens.len(),
    ensures
        tag_list(variables, tokens, pos, tags) matches Ok((_, next)) ==> pos <= next
            <= tokens.len(),
    decreases tokens.len() - pos,
{
    if pos < tokens.len() {
        match tokens[pos].token {
            TokenView::AddTag(tag) => lemma_tag_list_advances(
                variables,
                tokens,
                pos + 1,
                tags.insert(tag),
            ),
            TokenView::RemoveTag(tag) => lemma_tag_list_advances(
                variables,
                tokens,
                pos + 1,
                tags.remove(tag),
            ),
            TokenView::Variable(name) => if variables.dom().contains(name) {
                lemma_tag_list_advances(variables, tokens, pos + 1, replay(tags, variables[name]))
            },
            TokenView::LineBreak => lemma_tag_list_advances(variables, tokens, pos + 1, tags),
            _ => {},
        }
    }
}

/// The edits of a definition end at or after their start, and inside the
/// script.
pub proof fn lemma_edit_run_advances(
    variables: Map<Seq<char>, Seq<TagEditView>>,
    tokens: Seq<TokenInfoView>,
    pos: int,
    edits: Seq<TagEditView>,
)
    requires
        0 <= pos <= tokens.len(),
    ensures
        edit_run(variables, tokens, pos, edits) matches Ok((_, next)) ==> pos <= next
            <= tokens.len(),
    decreases tokens.len() - pos,
{
    if pos < tokens.len() {
        match tokens[pos].token {
            TokenView::AddTag(tag) => lemma_edit_run_advances(
                variables,
                tokens,
                pos + 1,
                edits.push(TagEditView::Add(tag)),
            ),
            TokenView::RemoveTag(tag) => lemma_edit_run_advances(
                variables,
                tokens,
                pos + 1,
                edits.push(TagEditView::Remove(tag)),
            ),
            TokenView::Variable(name) => if variables.dom().contains(name) {
                lemma_edit_run_advances(variables, tokens, pos + 1, edits + variables[name])
            },
            _ => {},
        }
    }
}

/// A file declaration takes at least its path.
pub proof fn lemma_file_decl_advances(data: DataView, tokens: Seq<TokenInfoView>, pos: int)
    requires
        0 <= pos < tokens.len(),
    ensures
        file_decl(data, tokens, pos) matches Ok((_, next)) ==> pos < next <= tokens.len(),
{
    lemma_tag_list_advances(data.variables, tokens, pos + 1, Set::empty());
}

/// The inside of a group ends at or after its start, and inside the script.
pub proof fn lemma_group_body_advances(
    state: GroupState,
    tokens: Seq<TokenInfoView>,
    pos: int,
    open_line: u64,
)
    requires
        0 <= pos <= tokens.len(),
    ensures
        group_body(state, tokens, pos, open_line) matches Ok((_, next)) ==> pos <= next
            <= tokens.len(),
    decreases tokens.len() - pos,
{
    if pos < tokens.len() {
        match tokens[pos].token {
            TokenView::Directive(name) => if name == autotag_name() {
                lemma_group_body_advances(
                    GroupState { autotag: true, ..state },
                    tokens,
                    pos + 1,
                    open_line,
                )
            },
            TokenView::String(_) => {
                lemma_file_decl_advances(state.data, tokens, pos);
                match file_decl(state.data, tokens, pos) {
                    Ok((data, next)) => lemma_group_body_advances(
                        GroupState {
                            data,
                            members: state.members.push(state.data.files.len() as int),
                            tags: if state.autotag {
                                state.tags.union(data.files.last().tags)
                            } else {
                                state.tags
                            },
                            autotag: state.autotag,
                        },
                        tokens,
                        next,
                        open_line,
                    ),
                    Err(_) => {},
                }
            },
            TokenView::LineBreak => lemma_group_body_advances(state, tokens, pos + 1, open_line),
            _ => {},
        }
    }
}

/// Every statement takes at least one token.
pub proof fn lemma_statement_advances(data: DataView, tokens: Seq<TokenInfoView>, pos: int)
    requires
        0 <= pos < tokens.len(),
    ensures
        statement(data, tokens, pos) matches Ok((_, next)) ==> pos < next <= tokens.len(),
{
    match tokens[pos].token {
        TokenView::Variable(_) => {
            lemma_edit_run_advances(
                data.variables,
                tokens,
                definition_start(tokens, pos),
                Seq::empty(),
            );
        },
        TokenView::String(_) => {
            lemma_file_decl_advances(data, tokens, pos);
        },
        TokenView::SetOpen => {
            let start = GroupState {
                data,
                members: Seq::empty(),
                tags: Set::empty(),
                autotag: false,
            };
            lemma_group_body_advances(start, tokens, pos + 1, tokens[pos].line);
            match group_body(start, tokens, pos + 1, tokens[pos].line) {
                Ok((state, after)) => {
                    lemma_tag_list_advances(state.data.variables, tokens, after, Set::empty());
                },
                Err(_) => {},
            }
        },
        _ => {},
    }
}

/// Replaying two runs of edits one after the other is replaying their
/// concatenation.
pub proof fn lemma_replay_concat(
    tags: Set<Seq<char>>,
    first: Seq<TagEditView>,
    second: Seq<TagEditView>,
)
    ensures
        replay(tags, first + second) == replay(replay(tags, first), second),
    decreases second.len(),
{
    if second.len() == 0 {
        assert(first + second =~= first);
    } else {
        lemma_replay_concat(tags, first, second.drop_last());
        assert((first + second).drop_last() =~= first + second.drop_last());
        assert((first + second).last() == second.last());
    }
}

/// The edits that one token of a tag list stands for: its own, or those of
/// the variable that it names.
pub open spec fn edits_of(
    variables: Map<Seq<char>, Seq<TagEditView>>,
    token: TokenView,
) -> Seq<TagEditView> {
    match token {
        TokenView::AddTag(tag) => seq![TagEditView::Add(tag)],
        TokenView::RemoveTag(tag) => seq![TagEditView::Remove(tag)],
        TokenView::Variable(name) => variables[name],
        _ => Seq::empty(),
    }
}

/// The edits that the tokens from `from` up to `to` stand for, one after
/// the other.
pub open spec fn expansion(
    variables: Map<Seq<char>, Seq<TagEditView>>,
    tokens: Seq<TokenInfoView>,
    from: int,
    to: int,
) -> Seq<TagEditView>
    decreases to - from,
{
    if from < to {
        edits_of(variables, tokens[from].token) + expansion(variables, tokens, from + 1, to)
    } else {
        Seq::empty()
    }
}

/// A tag list resolves to what the replay of its edits leaves, whether an
/// edit stands in the list itself or comes from a variable.
pub proof fn lemma_tag_list_replays_its_edits(
    variables: Map<Seq<char>, Seq<TagEditView>>,
    tokens: Seq<TokenInfoView>,
    pos: int,
    tags: Set<Seq<char>>,
)
    requires
        0 <= pos <= tokens.len(),
        tag_list(variables, tokens, pos, tags) is Ok,
    ensures
        ({
            let (found, next) = tag_list(variables, tokens, pos, tags)->Ok_0;
            found == replay(tags, expansion(variables, tokens, pos, next))
        }),
    decreases tokens.len() - pos,
{
    let (found, next) = tag_list(variables, tokens, pos, tags)->Ok_0;
    lemma_tag_list_advances(variables, tokens, pos, tags);
    if pos < tokens.len() {
        let token = tokens[pos].token;
        let own = edits_of(variables, token);
        let after = match token {
            TokenView::AddTag(tag) => Some(tags.insert(tag)),
            TokenView::RemoveTag(tag) => Some(tags.remove(tag)),
            TokenView::Variable(name) => Some(replay(tags, variables[name])),
            TokenView::LineBreak => Some(tags),
            _ => None,
        };
        if after is Some {
            let then = after->Some_0;
            lemma_tag_list_advances(variables, tokens, pos + 1, then);
            lemma_tag_list_replays_its_edits(variables, tokens, pos + 1, then);
            assert(then == replay(tags, own)) by {
                if own.len() == 1 {
                    assert(own.drop_last() =~= Seq::<TagEditView>::empty());
                    assert(replay(tags, own.drop_last()) == tags);
                }
            }
            lemma_replay_concat(tags, own, expansion(variables, tokens, pos + 1, next));
        }
    }
}

/// Two tag lists that stand for the same edits resolve to the same tags.
pub proof fn lemma_same_edits_same_tags(
    variables1: Map<Seq<char>, Seq<TagEditView>>,
    tokens1: Seq<TokenInfoView>,
    pos1: int,
    variables2: Map<Seq<char>, Seq<TagEditView>>,
    tokens2: Seq<TokenInfoView>,
    pos2: int,
)
    requires
        0 <= pos1 <= tokens1.len(),
        0 <= pos2 <= tokens2.len(),
        tag_list(variables1, tokens1, pos1, Set::empty()) is Ok,
        tag_list(variables2, tokens2, pos2, Set::empty()) is Ok,
        expansion(
            variables1,
            tokens1,
            pos1,
            tag_list(variables1, tokens1, pos1, Set::empty())->Ok_0.1,
        ) == expansion(
            variables2,
            tokens2,
            pos2,
            tag_list(variables2, tokens2, pos2, Set::empty())->Ok_0.1,
        ),
    ensures
        tag_list(variables1, tokens1, pos1, Set::empty())->Ok_0.0 == tag_list(
            variables2,
            tokens2,
            pos2,
            Set::empty(),
        )->Ok_0.0,
{
    lemma_tag_list_replays_its_edits(variables1, tokens1, pos1, Set::empty());
    lemma_tag_list_replays_its_edits(variables2, tokens2, pos2, Set::empty());
}

/// Adding `a`, adding `b`, removing `a` and adding `c` leaves `b` and `c`,
/// unless `a` and `b` are one tag that differs from `c`.
pub proof fn lemma_add_add_remove_add(a: Seq<char>, b: Seq<char>, c: Seq<char>)
    requires
        a != b || a == c,
    ensures
        replay(
            Set::empty(),
            seq![
                TagEditView::Add(a),
                TagEditView::Add(b),
                TagEditView::Remove(a),
                TagEditView::Add(c),
            ],
        ) == Set::<Seq<char>>::empty().insert(b).insert(c),
{
    let e4 = seq![
        TagEditView::Add(a),
        TagEditView::Add(b),
        TagEditView::Remove(a),
        TagEditView::Add(c),
    ];
    let e3 = seq![TagEditView::Add(a), TagEditView::Add(b), TagEditView::Remove(a)];
    let e2 = seq![TagEditView::Add(a), TagEditView::Add(b)];
    let e1 = seq![TagEditView::Add(a)];
    let none = Set::<Seq<char>>::empty();
    assert(e4.drop_last() =~= e3);
    assert(e3.drop_last() =~= e2);
    assert(e2.drop_last() =~= e1);
    assert(e1.drop_last() =~= Seq::<TagEditView>::empty());
    assert(replay(none, Seq::<TagEditView>::empty()) == none);
    assert(replay(none, e1) == none.insert(a));
    assert(replay(none, e2) == none.insert(a).insert(b));
    assert(replay(none, e3) == none.insert(a).insert(b).remove(a));
    assert(replay(none, e4) == none.insert(a).insert(b).remove(a).insert(c));
    assert(none.insert(a).insert(b).remove(a).insert(c) =~= none.insert(b).insert(c));
}

/// A tag list that reaches a variable that nothing defines fails there, and
/// names the line on which the variable stands.
pub proof fn lemma_undefined_variable_fails(
    variables: Map<Seq<char>, Seq<TagEditView>>,
    tokens: Seq<TokenInfoView>,
    start: int,
    at: int,
    tags: Set<Seq<char>>,
)
    requires
        0 <= start <= at < tokens.len(),
        forall|i: int|
            start <= i < at ==> match (#[trigger] tokens[i]).token {
                TokenView::AddTag(_) => true,
                TokenView::RemoveTag(_) => true,
                TokenView::LineBreak => true,
                TokenView::Variable(name) => variables.dom().contains(name),
                _ => false,
            },
        tokens[at].token is Variable,
        !variables.dom().contains(tokens[at].token->Variable_0),
    ensures
        tag_list(variables, tokens, start, tags) == Err::<
            (Set<Seq<char>>, int),
            ParseErrorView,
        >(
            ParseErrorView::UndefinedVariable {
                line: tokens[at].line,
                name: tokens[at].token->Variable_0,
            },
        ),
    decreases at - start,
{
    if start < at {
        let then = match tokens[start].token {
            TokenView::AddTag(tag) => tags.insert(tag),
            TokenView::RemoveTag(tag) => tags.remove(tag),
            TokenView::Variable(name) => replay(tags, variables[name]),
            _ => tags,
        };
        lemma_undefined_variable_fails(variables, tokens, start + 1, at, then);
    }
}

/// The paths of the files `files`, in their order.
pub open spec fn paths(files: Seq<FileView>) -> Seq<Seq<char>> {
    files.map_values(|f: FileView| f.file)
}

/// No two files of the document share a path, and the document's set of
/// paths holds the paths of its files and nothing else.
pub open spec fn paths_are_distinct(data: DataView) -> bool {
    &&& paths(data.files).no_duplicates()
    &&& data.file_set == paths(data.files).to_set()
}

/// A file declaration is refused as a repetition exactly where an earlier
/// file holds the same path, character for character; the error names the
/// line of the later declaration.
pub proof fn lemma_repeated_path_is_refused(data: DataView, tokens: Seq<TokenInfoView>, pos: int)
    requires
        paths_are_distinct(data),
        0 <= pos < tokens.len(),
        tokens[pos].token is String,
    ensures
        (exists|i: int| 0 <= i < data.files.len() && data.files[i].file == tokens[pos].token->String_0)
            <==> file_decl(data, tokens, pos) == Err::<(DataView, int), ParseErrorView>(
            ParseErrorView::RepeatedFile {
                line: tokens[pos].line,
                file: tokens[pos].token->String_0,
            },
        ),
        file_decl(data, tokens, pos) matches Err(e) ==> (e is RepeatedFile <==> exists|i: int|
            0 <= i < data.files.len() && data.files[i].file == tokens[pos].token->String_0),
{
    let path = tokens[pos].token->String_0;
    let all = paths(data.files);
    if data.file_set.contains(path) {
        let i = choose|i: int| 0 <= i < all.len() && all[i] == path;
        assert(data.files[i].file == path);
    }
    if exists|i: int| 0 <= i < data.files.len() && data.files[i].file == path {
        let i = choose|i: int| 0 <= i < data.files.len() && data.files[i].file == path;
        assert(all[i] == path);
        assert(all.contains(path));
    }
    if !data.file_set.contains(path) {
        lemma_tag_list_errors(data.variables, tokens, pos + 1, Set::empty());
    }
}

/// A tag list fails only on an undefined variable.
pub proof fn lemma_tag_list_errors(
    variables: Map<Seq<char>, Seq<TagEditView>>,
    tokens: Seq<TokenInfoView>,
    pos: int,
    tags: Set<Seq<char>>,
)
    ensures
        tag_list(variables, tokens, pos, tags) matches Err(e) ==> e is UndefinedVariable,
    decreases tokens.len() - pos,
{
    if 0 <= pos < tokens.len() {
        match tokens[pos].token {
            TokenView::AddTag(tag) => lemma_tag_list_errors(
                variables,
                tokens,
                pos + 1,
                tags.insert(tag),
            ),
            TokenView::RemoveTag(tag) => lemma_tag_list_errors(
                variables,
                tokens,
                pos + 1,
                tags.remove(tag),
            ),
            TokenView::Variable(name) => if variables.dom().contains(name) {
                lemma_tag_list_errors(variables, tokens, pos + 1, replay(tags, variables[name]))
            },
            TokenView::LineBreak => lemma_tag_list_errors(variables, tokens, pos + 1, tags),
            _ => {},
        }
    }
}

/// Every tag of a file or of a group is among the tags that the document
/// refers to, and every member of a group is the position of a file.
pub open spec fn refers_within(data: DataView) -> bool {
    &&& forall|i: int| 0 <= i < data.files.len() ==> (#[trigger] data.files[i]).tags.subset_of(data.tags)
    &&& forall|g: int| 0 <= g < data.sets.len() ==> (#[trigger] data.sets[g]).tags.subset_of(data.tags)
    &&& forall|g: int, m: int|
        0 <= g < data.sets.len() && 0 <= m < data.sets[g].files.len() ==> 0 <= (
        #[trigger] data.sets[g].files[m]) < data.files.len()
}

/// What holds of every document that the parser builds.
pub open spec fn well_formed(data: DataView) -> bool {
    paths_are_distinct(data) && refers_within(data)
}

/// What holds while the parser reads a group.
pub open spec fn group_well_formed(state: GroupState) -> bool {
    &&& well_formed(state.data)
    &&& state.tags.subset_of(state.data.tags)
    &&& forall|m: int|
        0 <= m < state.members.len() ==> 0 <= (#[trigger] state.members[m])
            < state.data.files.len()
}

/// A file declaration keeps the document well formed, and adds one file to
/// it.
pub proof fn lemma_file_decl_keeps_well_formed(
    data: DataView,
    tokens: Seq<TokenInfoView>,
    pos: int,
)
    requires
        well_formed(data),
        file_decl(data, tokens, pos) is Ok,
    ensures
        well_formed(file_decl(data, tokens, pos)->Ok_0.0),
        file_decl(data, tokens, pos)->Ok_0.0.files.len() == data.files.len() + 1,
        file_decl(data, tokens, pos)->Ok_0.0.sets == data.sets,
        data.tags.subset_of(file_decl(data, tokens, pos)->Ok_0.0.tags),
{
    let path = tokens[pos].token->String_0;
    let after = file_decl(data, tokens, pos)->Ok_0.0;
    let old_paths = paths(data.files);
    let new_paths = paths(after.files);
    assert(new_paths =~= old_paths.push(path));
    assert(!old_paths.contains(path));
    assert(new_paths.to_set() =~= old_paths.to_set().insert(path)) by {
        assert forall|a: Seq<char>| new_paths.contains(a) <==> old_paths.contains(a) || a == path by {
            if old_paths.contains(a) {
                let i = choose|i: int| 0 <= i < old_paths.len() && old_paths[i] == a;
                assert(new_paths[i] == a);
            }
            if a == path {
                assert(new_paths[old_paths.len() as int] == a);
            }
        }
    }
    assert forall|i: int| 0 <= i < after.files.len() implies (#[trigger] after.files[i]).tags.subset_of(
        after.tags,
    ) by {
        if i < data.files.len() {
            assert(after.files[i] == data.files[i]);
        }
    }
    assert forall|g: int| 0 <= g < after.sets.len() implies (#[trigger] after.sets[g]).tags.subset_of(
        after.tags,
    ) by {
        assert(data.sets[g].tags.subset_of(data.tags));
    }
}

/// The inside of a group keeps the document well formed.
pub proof fn lemma_group_body_keeps_well_formed(
    state: GroupState,
    tokens: Seq<TokenInfoView>,
    pos: int,
    open_line: u64,
)
    requires
        0 <= pos <= tokens.len(),
        group_well_formed(state),
        group_body(state, tokens, pos, open_line) is Ok,
    ensures
        group_well_formed(group_body(state, tokens, pos, open_line)->Ok_0.0),
    decreases tokens.len() - pos,
{
    if pos < tokens.len() {
        match tokens[pos].token {
            TokenView::Directive(name) => {
                lemma_group_body_keeps_well_formed(
                    GroupState { autotag: true, ..state },
                    tokens,
                    pos + 1,
                    open_line,
                );
            },
            TokenView::String(_) => {
                lemma_file_decl_advances(state.data, tokens, pos);
                lemma_file_decl_keeps_well_formed(state.data, tokens, pos);
                let (data, next) = file_decl(state.data, tokens, pos)->Ok_0;
                let then = GroupState {
                    data,
                    members: state.members.push(state.data.files.len() as int),
                    tags: if state.autotag {
                        state.tags.union(data.files.last().tags)
                    } else {
                        state.tags
                    },
                    autotag: state.autotag,
                };
                assert(data.files.last() == data.files[data.files.len() - 1]);
                assert(group_well_formed(then));
                lemma_group_body_keeps_well_formed(then, tokens, next, open_line);
            },
            TokenView::LineBreak => {
                lemma_group_body_keeps_well_formed(state, tokens, pos + 1, open_line);
            },
            _ => {},
        }
    }
}

/// Every statement keeps the document well formed.
pub proof fn lemma_statement_keeps_well_formed(
    data: DataView,
    tokens: Seq<TokenInfoView>,
    pos: int,
)
    requires
        0 <= pos < tokens.len(),
        well_formed(data),
        statement(data, tokens, pos) is Ok,
    ensures
        well_formed(statement(data, tokens, pos)->Ok_0.0),
{
    let after = statement(data, tokens, pos)->Ok_0.0;
    match tokens[pos].token {
        TokenView::String(_) => {
            lemma_file_decl_keeps_well_formed(data, tokens, pos);
        },
        TokenView::SetOpen => {
            let start = GroupState {
                data,
                members: Seq::empty(),
                tags: Set::empty(),
                autotag: false,
            };
            lemma_group_body_keeps_well_formed(start, tokens, pos + 1, tokens[pos].line);
            let (state, at) = group_body(start, tokens, pos + 1, tokens[pos].line)->Ok_0;
            assert forall|i: int| 0 <= i < after.files.len() implies (
            #[trigger] after.files[i]).tags.subset_of(after.tags) by {
                assert(state.data.files[i].tags.subset_of(state.data.tags));
            }
            assert forall|g: int| 0 <= g < after.sets.len() implies (
            #[trigger] after.sets[g]).tags.subset_of(after.tags) by {
                if g < state.data.sets.len() {
                    assert(after.sets[g] == state.data.sets[g]);
                    assert(state.data.sets[g].tags.subset_of(state.data.tags));
                }
            }
            assert forall|g: int, m: int|
                0 <= g < after.sets.len() && 0 <= m < after.sets[g].files.len() implies 0 <= (
            #[trigger] after.sets[g].files[m]) < after.files.len() by {
                if g < state.data.sets.len() {
                    assert(after.sets[g] == state.data.sets[g]);
                    assert(0 <= state.data.sets[g].files[m] < state.data.files.len());
                } else {
                    assert(after.sets[g].files[m] == state.members[m]);
                }
            }
        },
        TokenView::Variable(_) => {
            assert(after.files == data.files);
            assert(after.sets == data.sets);
        },
        TokenView::Directive(_) => {
            assert(after.files == data.files);
            assert(after.sets == data.sets);
        },
        _ => {},
    }
}

/// The statements from `pos` on keep the document well formed.
pub proof fn lemma_parse_from_keeps_well_formed(
    data: DataView,
    tokens: Seq<TokenInfoView>,
    pos: int,
)
    requires
        0 <= pos <= tokens.len(),
        well_formed(data),
        parse_from(data, tokens, pos) is Ok,
    ensures
        well_formed(parse_from(data, tokens, pos)->Ok_0),
    decreases tokens.len() - pos,
{
    if pos < tokens.len() {
        lemma_statement_advances(data, tokens, pos);
        lemma_statement_keeps_well_formed(data, tokens, pos);
        let (next_data, next) = statement(data, tokens, pos)->Ok_0;
        lemma_parse_from_keeps_well_formed(next_data, tokens, next);
    }
}

/// In the document of a script no two files share a path, every tag of a
/// file or a group is among the tags that the document refers to, and the
/// members of every group are files of the document.
pub proof fn lemma_parsed_document_is_well_formed(tokens: Seq<TokenInfoView>)
    requires
        parse(tokens) is Ok,
    ensures
        well_formed(parse(tokens)->Ok_0),
{
    assert(paths(DataView::empty().files) =~= Seq::<Seq<char>>::empty());
    assert(paths(DataView::empty().files).to_set() =~= Set::<Seq<char>>::empty());
    lemma_parse_from_keeps_well_formed(DataView::empty(), tokens, 0);
}

/// The tags of the files of `files` from position `from` on, all together.
pub open spec fn tags_of_files(files: Seq<FileView>, from: int) -> Set<Seq<char>>
    decreases files.len() - from,
{
    if 0 <= from < files.len() {
        files[from].tags.union(tags_of_files(files, from + 1))
    } else {
        Set::empty()
    }
}

/// The positions from `from` up to `to`, in rising order.
pub open spec fn positions_between(from: int, to: int) -> Seq<int> {
    Seq::new((to - from) as nat, |i: int| from + i)
}

/// A file that is added to a list adds its tags to the tags of the files
/// from any position up to it.
proof fn lemma_tags_of_files_push(files: Seq<FileView>, file: FileView, from: int)
    requires
        0 <= from <= files.len(),
    ensures
        tags_of_files(files.push(file), from) == tags_of_files(files, from).union(file.tags),
    decreases files.len() - from,
{
    let more = files.push(file);
    if from < files.len() {
        lemma_tags_of_files_push(files, file, from + 1);
        assert(more[from] == files[from]);
        assert(tags_of_files(more, from) =~= tags_of_files(files, from).union(file.tags));
    } else {
        assert(more[from] == file);
        assert(tags_of_files(more, from + 1) =~= Set::<Seq<char>>::empty());
        assert(tags_of_files(more, from) =~= tags_of_files(files, from).union(file.tags));
    }
}

/// The members of a group are the files that are declared inside it, in
/// the order of their declarations; and once `autotag` is met, the group
/// gets the tags of every member that follows.
pub proof fn lemma_group_gathers_its_files(
    state: GroupState,
    tokens: Seq<TokenInfoView>,
    pos: int,
    open_line: u64,
)
    requires
        0 <= pos <= tokens.len(),
        group_body(state, tokens, pos, open_line) is Ok,
    ensures
        ({
            let end = group_body(state, tokens, pos, open_line)->Ok_0.0;
            let first = state.data.files.len() as int;
            &&& first <= end.data.files.len()
            &&& end.data.files.take(first) == state.data.files
            &&& end.members == state.members + positions_between(
                first,
                end.data.files.len() as int,
            )
            &&& state.autotag ==> end.tags == state.tags.union(
                tags_of_files(end.data.files, first),
            )
        }),
    decreases tokens.len() - pos,
{
    let end = group_body(state, tokens, pos, open_line)->Ok_0.0;
    let first = state.data.files.len() as int;
    if pos < tokens.len() {
        match tokens[pos].token {
            TokenView::Directive(name) => {
                let then = GroupState { autotag: true, ..state };
                lemma_group_gathers_its_files(then, tokens, pos + 1, open_line);
                if !state.autotag {
                } else {
                    assert(then == state);
                }
            },
            TokenView::String(_) => {
                lemma_file_decl_advances(state.data, tokens, pos);
                let (data, next) = file_decl(state.data, tokens, pos)->Ok_0;
                let file = data.files.last();
                let then = GroupState {
                    data,
                    members: state.members.push(first),
                    tags: if state.autotag {
                        state.tags.union(file.tags)
                    } else {
                        state.tags
                    },
                    autotag: state.autotag,
                };
                lemma_group_gathers_its_files(then, tokens, next, open_line);
                let last = end.data.files.len() as int;
                assert(data.files == state.data.files.push(file));
                assert(end.data.files.take(first + 1) == data.files);
                assert(end.data.files.take(first) =~= state.data.files) by {
                    assert(end.data.files.take(first) =~= end.data.files.take(first + 1).take(
                        first,
                    ));
                }
                assert(end.members =~= state.members + positions_between(first, last)) by {
                    assert(end.members == state.members.push(first) + positions_between(
                        first + 1,
                        last,
                    ));
                }
                if state.autotag {
                    assert(end.data.files[first] == file) by {
                        assert(end.data.files.take(first + 1)[first] == end.data.files[first]);
                    }
                    assert(end.tags =~= state.tags.union(tags_of_files(end.data.files, first)));
                }
            },
            TokenView::LineBreak => {
                lemma_group_gathers_its_files(state, tokens, pos + 1, open_line);
            },
            TokenView::SetClose => {
                assert(end.data.files.take(first) =~= state.data.files);
                assert(end.members =~= state.members + positions_between(first, first));
                assert(tags_of_files(end.data.files, first) =~= Set::<Seq<char>>::empty());
                assert(end.tags =~= state.tags.union(tags_of_files(end.data.files, first)));
            },
            _ => {},
        }
    } else {
        assert(end.data.files.take(first) =~= state.data.files);
        assert(end.members =~= state.members + positions_between(first, first));
        assert(tags_of_files(end.data.files, first) =~= Set::<Seq<char>>::empty());
        assert(end.tags =~= state.tags.union(tags_of_files(end.data.files, first)));
    }
}

/// A group that starts with `autotag` gets the tags of all its members,
/// and the tags of the tag list after it: so it has the tags of its members
/// even where no tag list follows. Its members are the files that are
/// declared inside it.
pub proof fn lemma_autotag_group_has_the_tags_of_its_members(
    data: DataView,
    tokens: Seq<TokenInfoView>,
    pos: int,
)
    requires
        0 <= pos,
        pos + 1 < tokens.len(),
        tokens[pos].token is SetOpen,
        tokens[pos + 1].token == TokenView::Directive(autotag_name()),
        group_decl(data, tokens, pos) is Ok,
    ensures
        ({
            let after = group_decl(data, tokens, pos)->Ok_0.0;
            let first = data.files.len() as int;
            let start = GroupState {
                data,
                members: Seq::empty(),
                tags: Set::empty(),
                autotag: false,
            };
            let (inside, at) = group_body(start, tokens, pos + 1, tokens[pos].line)->Ok_0;
            let own = tag_list(inside.data.variables, tokens, at, Set::empty())->Ok_0.0;
            &&& after.sets.len() == data.sets.len() + 1
            &&& after.sets.last().files == positions_between(first, after.files.len() as int)
            &&& after.sets.last().tags == tags_of_files(after.files, first).union(own)
        }),
{
    let start = GroupState { data, members: Seq::empty(), tags: Set::empty(), autotag: false };
    let then = GroupState { autotag: true, ..start };
    assert(group_body(start, tokens, pos + 1, tokens[pos].line) == group_body(
        then,
        tokens,
        pos + 2,
        tokens[pos].line,
    ));
    lemma_group_body_advances(then, tokens, pos + 2, tokens[pos].line);
    lemma_group_gathers_its_files(then, tokens, pos + 2, tokens[pos].line);
    let (inside, at) = group_body(start, tokens, pos + 1, tokens[pos].line)->Ok_0;
    let own = tag_list(inside.data.variables, tokens, at, Set::empty())->Ok_0.0;
    let after = group_decl(data, tokens, pos)->Ok_0.0;
    let first = data.files.len() as int;
    assert(inside.members =~= positions_between(first, inside.data.files.len() as int));
    assert(inside.tags =~= tags_of_files(inside.data.files, first));
    assert(after.files == inside.data.files);
    assert(after.sets == inside.data.sets.push(
        GroupView { files: inside.members, tags: inside.tags.union(own) },
    ));
    assert(inside.data.sets == data.sets) by {
        lemma_group_body_keeps_sets(then, tokens, pos + 2, tokens[pos].line);
    }
}

/// The inside of a group adds no group to the document.
proof fn lemma_group_body_keeps_sets(
    state: GroupState,
    tokens: Seq<TokenInfoView>,
    pos: int,
    open_line: u64,
)
    requires
        0 <= pos <= tokens.len(),
        group_body(state, tokens, pos, open_line) is Ok,
    ensures
        group_body(state, tokens, pos, open_line)->Ok_0.0.data.sets == state.data.sets,
    decreases tokens.len() - pos,
{
    if pos < tokens.len() {
        match tokens[pos].token {
            TokenView::Directive(name) => {
                lemma_group_body_keeps_sets(
                    GroupState { autotag: true, ..state },
                    tokens,
                    pos + 1,
                    open_line,
                );
            },
            TokenView::String(_) => {
                lemma_file_decl_advances(state.data, tokens, pos);
                let (data, next) = file_decl(state.data, tokens, pos)->Ok_0;
                lemma_group_body_keeps_sets(
                    GroupState {
                        data,
                        members: state.members.push(state.data.files.len() as int),
                        tags: if state.autotag {
                            state.tags.union(data.files.last().tags)
                        } else {
                            state.tags
                        },
                        autotag: state.autotag,
                    },
                    tokens,
                    next,
                    open_line,
                );
            },
            TokenView::LineBreak => {
                lemma_group_body_keeps_sets(state, tokens, pos + 1, open_line);
            },
            _ => {},
        }
    }
}

/// The reading of the inside of a group adds files to the document and
/// nothing else: the groups, the variables and the directives stay, the
/// files that were there stay first, and no tag and no path is lost.
pub proof fn lemma_group_files_adds_files_only(
    data: DataView,
    tokens: Seq<TokenInfoView>,
    pos: int,
)
    requires
        0 <= pos <= tokens.len(),
    ensures
        ({
            let left = group_files(data, tokens, pos);
            &&& left.sets == data.sets
            &&& left.variables == data.variables
            &&& left.directives == data.directives
            &&& data.files.len() <= left.files.len()
            &&& left.files.take(data.files.len() as int) == data.files
            &&& data.tags.subset_of(left.tags)
            &&& data.file_set.subset_of(left.file_set)
        }),
    decreases tokens.len() - pos,
{
    let left = group_files(data, tokens, pos);
    if pos < tokens.len() {
        match tokens[pos].token {
            TokenView::Directive(name) => {
                if name == autotag_name() {
                    lemma_group_files_adds_files_only(data, tokens, pos + 1);
                }
            },
            TokenView::String(_) => {
                lemma_file_decl_advances(data, tokens, pos);
                match file_decl(data, tokens, pos) {
                    Ok((with_file, next)) => {
                        lemma_group_files_adds_files_only(with_file, tokens, next);
                        let first = data.files.len() as int;
                        assert(with_file.files.take(first) =~= data.files);
                        assert(left.files.take(first) =~= left.files.take(first + 1).take(first));
                    },
                    Err(_) => {},
                }
            },
            TokenView::LineBreak => {
                lemma_group_files_adds_files_only(data, tokens, pos + 1);
            },
            _ => {},
        }
    }
    assert(data.files.take(data.files.len() as int) =~= data.files);
}

/// Where the inside of a group is read to its end, the document is then
/// what `group_files` says.
pub proof fn lemma_group_body_leaves_group_files(
    state: GroupState,
    tokens: Seq<TokenInfoView>,
    pos: int,
    open_line: u64,
)
    requires
        0 <= pos <= tokens.len(),
        group_body(state, tokens, pos, open_line) is Ok,
    ensures
        group_body(state, tokens, pos, open_line)->Ok_0.0.data == group_files(
            state.data,
            tokens,
            pos,
        ),
    decreases tokens.len() - pos,
{
    if pos < tokens.len() {
        match tokens[pos].token {
            TokenView::Directive(name) => {
                lemma_group_body_leaves_group_files(
                    GroupState { autotag: true, ..state },
                    tokens,
                    pos + 1,
                    open_line,
                );
            },
            TokenView::String(_) => {
                lemma_file_decl_advances(state.data, tokens, pos);
                let (data, next) = file_decl(state.data, tokens, pos)->Ok_0;
                lemma_group_body_leaves_group_files(
                    GroupState {
                        data,
                        members: state.members.push(state.data.files.len() as int),
                        tags: if state.autotag {
                            state.tags.union(data.files.last().tags)
                        } else {
                            state.tags
                        },
                        autotag: state.autotag,
                    },
                    tokens,
                    next,
                    open_line,
                );
            },
            TokenView::LineBreak => {
                lemma_group_body_leaves_group_files(state, tokens, pos + 1, open_line);
            },
            _ => {},
        }
    }
}

/// Whether `tag` is a tag of one of the files of the document.
pub open spec fn is_tag_of_file(data: DataView, tag: Seq<char>) -> bool {
    exists|i: int| 0 <= i < data.files.len() && (#[trigger] data.files[i]).tags.contains(tag)
}

/// Whether `tag` is a tag of one of the groups of the document.
pub open spec fn is_tag_of_group(data: DataView, tag: Seq<char>) -> bool {
    exists|g: int| 0 <= g < data.sets.len() && (#[trigger] data.sets[g]).tags.contains(tag)
}

/// Every tag that the document refers to is a tag of one of its files or of
/// one of its groups.
pub open spec fn tags_are_used(data: DataView) -> bool {
    forall|tag: Seq<char>| #[trigger]
        data.tags.contains(tag) ==> is_tag_of_file(data, tag) || is_tag_of_group(data, tag)
}

/// A file declaration refers to no tag that no file and no group has.
proof fn lemma_file_decl_keeps_tags_used(data: DataView, tokens: Seq<TokenInfoView>, pos: int)
    requires
        tags_are_used(data),
        file_decl(data, tokens, pos) is Ok,
    ensures
        tags_are_used(file_decl(data, tokens, pos)->Ok_0.0),
{
    let after = file_decl(data, tokens, pos)->Ok_0.0;
    let last = data.files.len() as int;
    assert forall|tag: Seq<char>| #[trigger] after.tags.contains(tag) implies is_tag_of_file(
        after,
        tag,
    ) || is_tag_of_group(after, tag) by {
        if data.tags.contains(tag) {
            if is_tag_of_file(data, tag) {
                let i = choose|i: int|
                    0 <= i < data.files.len() && (#[trigger] data.files[i]).tags.contains(tag);
                assert(after.files[i] == data.files[i]);
                assert(after.files[i].tags.contains(tag));
            } else {
                let g = choose|g: int|
                    0 <= g < data.sets.len() && (#[trigger] data.sets[g]).tags.contains(tag);
                assert(after.sets[g].tags.contains(tag));
            }
        } else {
            assert(after.files[last].tags.contains(tag));
        }
    }
}

/// The inside of a group refers to no tag that no file and no group has.
proof fn lemma_group_body_keeps_tags_used(
    state: GroupState,
    tokens: Seq<TokenInfoView>,
    pos: int,
    open_line: u64,
)
    requires
        0 <= pos <= tokens.len(),
        tags_are_used(state.data),
        group_body(state, tokens, pos, open_line) is Ok,
    ensures
        tags_are_used(group_body(state, tokens, pos, open_line)->Ok_0.0.data),
    decreases tokens.len() - pos,
{
    if pos < tokens.len() {
        match tokens[pos].token {
            TokenView::Directive(name) => {
                lemma_group_body_keeps_tags_used(
                    GroupState { autotag: true, ..state },
                    tokens,
                    pos + 1,
                    open_line,
                );
            },
            TokenView::String(_) => {
                lemma_file_decl_advances(state.data, tokens, pos);
                lemma_file_decl_keeps_tags_used(state.data, tokens, pos);
                let (data, next) = file_decl(state.data, tokens, pos)->Ok_0;
                lemma_group_body_keeps_tags_used(
                    GroupState {
                        data,
                        members: state.members.push(state.data.files.len() as int),
                        tags: if state.autotag {
                            state.tags.union(data.files.last().tags)
                        } else {
                            state.tags
                        },
                        autotag: state.autotag,
                    },
                    tokens,
                    next,
                    open_line,
                );
            },
            TokenView::LineBreak => {
                lemma_group_body_keeps_tags_used(state, tokens, pos + 1, open_line);
            },
            _ => {},
        }
    }
}

/// Every statement refers to no tag that no file and no group has.
proof fn lemma_statement_keeps_tags_used(data: DataView, tokens: Seq<TokenInfoView>, pos: int)
    requires
        0 <= pos < tokens.len(),
        tags_are_used(data),
        statement(data, tokens, pos) is Ok,
    ensures
        tags_are_used(statement(data, tokens, pos)->Ok_0.0),
{
    let after = statement(data, tokens, pos)->Ok_0.0;
    match tokens[pos].token {
        TokenView::String(_) => {
            lemma_file_decl_keeps_tags_used(data, tokens, pos);
        },
        TokenView::SetOpen => {
            let start = GroupState {
                data,
                members: Seq::empty(),
                tags: Set::empty(),
                autotag: false,
            };
            lemma_group_body_keeps_tags_used(start, tokens, pos + 1, tokens[pos].line);
            let (inside, at) = group_body(start, tokens, pos + 1, tokens[pos].line)->Ok_0;
            let last = inside.data.sets.len() as int;
            assert forall|tag: Seq<char>| #[trigger] after.tags.contains(tag) implies is_tag_of_file(
                after,
                tag,
            ) || is_tag_of_group(after, tag) by {
                if inside.data.tags.contains(tag) {
                    if is_tag_of_file(inside.data, tag) {
                        let i = choose|i: int|
                            0 <= i < inside.data.files.len() && (
                            #[trigger] inside.data.files[i]).tags.contains(tag);
                        assert(after.files[i].tags.contains(tag));
                    } else {
                        let g = choose|g: int|
                            0 <= g < inside.data.sets.len() && (
                            #[trigger] inside.data.sets[g]).tags.contains(tag);
                        assert(after.sets[g] == inside.data.sets[g]);
                        assert(after.sets[g].tags.contains(tag));
                    }
                } else {
                    assert(after.sets[last].tags.contains(tag));
                }
            }
        },
        TokenView::Variable(_) => {
            assert(after.files == data.files && after.sets == data.sets && after.tags
                == data.tags);
        },
        TokenView::Directive(_) => {
            assert(after.files == data.files && after.sets == data.sets && after.tags
                == data.tags);
        },
        _ => {},
    }
}

/// The statements from `pos` on refer to no tag that no file and no group
/// has.
proof fn lemma_parse_from_keeps_tags_used(data: DataView, tokens: Seq<TokenInfoView>, pos: int)
    requires
        0 <= pos <= tokens.len(),
        tags_are_used(data),
        parse_from(data, tokens, pos) is Ok,
    ensures
        tags_are_used(parse_from(data, tokens, pos)->Ok_0),
    decreases tokens.len() - pos,
{
    if pos < tokens.len() {
        lemma_statement_advances(data, tokens, pos);
        lemma_statement_keeps_tags_used(data, tokens, pos);
        let (next_data, next) = statement(data, tokens, pos)->Ok_0;
        lemma_parse_from_keeps_tags_used(next_data, tokens, next);
    }
}

/// The tags that the document of a script refers to are the tags of its
/// files and of its groups, all together: every tag of a file or a group is
/// among them, and every one of them is a tag of a file or of a group.
pub proof fn lemma_parsed_tags_are_the_tags_in_use(tokens: Seq<TokenInfoView>)
    requires
        parse(tokens) is Ok,
    ensures
        refers_within(parse(tokens)->Ok_0),
        tags_are_used(parse(tokens)->Ok_0),
{
    lemma_parsed_document_is_well_formed(tokens);
    lemma_parse_from_keeps_tags_used(DataView::empty(), tokens, 0);
}

/// The members of every group rise, and every member of a group stands
/// before every member of a later group: so no file is listed twice in a
/// group, and no file is a member of two groups.
pub open spec fn groups_are_apart(data: DataView) -> bool {
    &&& forall|g: int, m: int, k: int|
        0 <= g < data.sets.len() && 0 <= m < k < data.sets[g].files.len() ==> (
        #[trigger] data.sets[g].files[m]) < (#[trigger] data.sets[g].files[k])
    &&& forall|g: int, h: int, m: int, k: int|
        0 <= g < h < data.sets.len() && 0 <= m < data.sets[g].files.len() && 0 <= k
            < data.sets[h].files.len() ==> (#[trigger] data.sets[g].files[m]) < (
        #[trigger] data.sets[h].files[k])
}

/// Every statement keeps the groups of the document apart.
proof fn lemma_statement_keeps_groups_apart(data: DataView, tokens: Seq<TokenInfoView>, pos: int)
    requires
        0 <= pos < tokens.len(),
        well_formed(data),
        groups_are_apart(data),
        statement(data, tokens, pos) is Ok,
    ensures
        groups_are_apart(statement(data, tokens, pos)->Ok_0.0),
{
    let after = statement(data, tokens, pos)->Ok_0.0;
    match tokens[pos].token {
        TokenView::String(_) => {
            assert(after.sets == data.sets);
        },
        TokenView::SetOpen => {
            let start = GroupState {
                data,
                members: Seq::empty(),
                tags: Set::empty(),
                autotag: false,
            };
            lemma_group_body_keeps_sets(start, tokens, pos + 1, tokens[pos].line);
            lemma_group_gathers_its_files(start, tokens, pos + 1, tokens[pos].line);
            let (inside, at) = group_body(start, tokens, pos + 1, tokens[pos].line)->Ok_0;
            let first = data.files.len() as int;
            let last = data.sets.len() as int;
            let listed = positions_between(first, inside.data.files.len() as int);
            assert(inside.members =~= listed);
            assert(after.sets =~= data.sets.push(after.sets[last]));
            assert(after.sets[last].files == listed);
            assert forall|g: int, m: int, k: int|
                0 <= g < after.sets.len() && 0 <= m < k < after.sets[g].files.len() implies (
            #[trigger] after.sets[g].files[m]) < (#[trigger] after.sets[g].files[k]) by {
                if g < last {
                    assert(after.sets[g] == data.sets[g]);
                }
            }
            assert forall|g: int, h: int, m: int, k: int|
                0 <= g < h < after.sets.len() && 0 <= m < after.sets[g].files.len() && 0 <= k
                    < after.sets[h].files.len() implies (#[trigger] after.sets[g].files[m]) < (
            #[trigger] after.sets[h].files[k]) by {
                assert(after.sets[g] == data.sets[g]);
                if h < last {
                    assert(after.sets[h] == data.sets[h]);
                } else {
                    assert(0 <= data.sets[g].files[m] < data.files.len());
                }
            }
        },
        TokenView::Variable(_) => {
            assert(after.sets == data.sets);
        },
        TokenView::Directive(_) => {
            assert(after.sets == data.sets);
        },
        _ => {},
    }
}

/// The statements from `pos` on keep the groups of the document apart.
proof fn lemma_parse_from_keeps_groups_apart(
    data: DataView,
    tokens: Seq<TokenInfoView>,
    pos: int,
)
    requires
        0 <= pos <= tokens.len(),
        well_formed(data),
        groups_are_apart(data),
        parse_from(data, tokens, pos) is Ok,
    ensures
        groups_are_apart(parse_from(data, tokens, pos)->Ok_0),
    decreases tokens.len() - pos,
{
    if pos < tokens.len() {
        lemma_statement_advances(data, tokens, pos);
        lemma_statement_keeps_well_formed(data, tokens, pos);
        lemma_statement_keeps_groups_apart(data, tokens, pos);
        let (next_data, next) = statement(data, tokens, pos)->Ok_0;
        lemma_parse_from_keeps_groups_apart(next_data, tokens, next);
    }
}

/// In the document of a script no file is a member of two groups, and no
/// group lists a file twice: the members of a group rise, and those of an
/// earlier group stand before those of a later one.
pub proof fn lemma_parsed_groups_are_apart(tokens: Seq<TokenInfoView>)
    requires
        parse(tokens) is Ok,
    ensures
        groups_are_apart(parse(tokens)->Ok_0),
        forall|g: int, h: int, m: int, k: int|
            #![trigger parse(tokens)->Ok_0.sets[g].files[m], parse(tokens)->Ok_0.sets[h].files[k]]
            0 <= g < parse(tokens)->Ok_0.sets.len() && 0 <= h < parse(tokens)->Ok_0.sets.len()
                && 0 <= m < parse(tokens)->Ok_0.sets[g].files.len() && 0 <= k < parse(
                tokens,
            )->Ok_0.sets[h].files.len() && (g != h || m != k) ==> parse(
                tokens,
            )->Ok_0.sets[g].files[m] != parse(tokens)->Ok_0.sets[h].files[k],
{
    assert(paths(DataView::empty().files) =~= Seq::<Seq<char>>::empty());
    assert(paths(DataView::empty().files).to_set() =~= Set::<Seq<char>>::empty());
    lemma_parse_from_keeps_groups_apart(DataView::empty(), tokens, 0);
    let data = parse(tokens)->Ok_0;
    assert forall|g: int, h: int, m: int, k: int|
        0 <= g < data.sets.len() && 0 <= h < data.sets.len() && 0 <= m < data.sets[g].files.len()
            && 0 <= k < data.sets[h].files.len() && (g != h || m != k) implies (
    #[trigger] data.sets[g].files[m]) != (#[trigger] data.sets[h].files[k]) by {
        if g < h {
            assert(data.sets[g].files[m] < data.sets[h].files[k]);
        } else if h < g {
            assert(data.sets[h].files[k] < data.sets[g].files[m]);
        } else if m < k {
            assert(data.sets[g].files[m] < data.sets[g].files[k]);
        } else {
            assert(data.sets[g].files[k] < data.sets[g].files[m]);
        }
    }
}

/// The document that a script describes, as the parser builds it.
#[derive(Debug)]
pub struct Data {
    pub directives: StringMap<String>,
    pub variables: StringMap<Vec<TagEdit>>,
    pub files: Vec<File>,
    pub sets: Vec<Group>,
    pub tags: StringSet,
    pub file_set: StringSet,
}

impl View for Data {
    type V = DataView;

    open spec fn view(&self) -> DataView {
        DataView {
            directives: self.directives@,
            variables: self.variables@,
            files: self.files.deep_view(),
            sets: self.sets.deep_view(),
            tags: self.tags@,
            file_set: self.file_set@,
        }
    }
}

/// A copy of `edit`.
fn copy_of_edit(edit: &TagEdit) -> (copy: TagEdit)
    ensures
        copy@ == edit@,
{
    match edit {
        TagEdit::Add(tag) => TagEdit::Add(tag.clone()),
        TagEdit::Remove(tag) => TagEdit::Remove(tag.clone()),
    }
}

/// Makes the edits `edits` on `tags`, in their order.
fn replay_edits(tags: &mut StringSet, edits: &Vec<TagEdit>)
    ensures
        final(tags)@ == replay(old(tags)@, edits.deep_view()),
{
    let n: usize = edits.len();
    let mut i: usize = 0;
    let ghost all = edits.deep_view();
    proof {
        assert(all.take(0) =~= Seq::<TagEditView>::empty());
    }
    while i < n
        invariant
            n == edits@.len(),
            all == edits.deep_view(),
            i <= n,
            tags@ == replay(old(tags)@, all.take(i as int)),
        decreases n - i,
    {
        proof {
            assert(all[i as int] == edits@[i as int]@);
            assert(all.take(i + 1).drop_last() =~= all.take(i as int));
            assert(all.take(i + 1).last() == all[i as int]);
        }
        match &edits[i] {
            TagEdit::Add(tag) => {
                tags.insert(tag.clone());
            },
            TagEdit::Remove(tag) => {
                tags.remove(tag.as_str());
            },
        }
        i = i + 1;
    }
    proof {
        assert(all.take(n as int) =~= all);
    }
}

impl Data {
    /// The document of a script that declares nothing.
    pub fn new() -> (data: Data)
        ensures
            data@ == DataView::empty(),
    {
        let data = Data {
            directives: StringMap::new(),
            variables: StringMap::new(),
            files: Vec::new(),
            sets: Vec::new(),
            tags: StringSet::new(),
            file_set: StringSet::new(),
        };
        proof {
            assert(data.files.deep_view() =~= Seq::<FileView>::empty());
            assert(data.sets.deep_view() =~= Seq::<GroupView>::empty());
            assert(data@ =~= DataView::empty());
        }
        data
    }

    /// Resolves the tag list that starts at `pos`, and adds the tags that
    /// it resolves to to those that the document refers to. Returns these
    /// tags and the position of the first token after the list.
    pub fn handle_tag_list(&mut self, tokens: &[TokenInfo], pos: usize) -> (res: Result<
        (StringSet, usize),
        ParseError,
    >)
        ensures
            match res {
                Ok((tags, next)) => {
                    &&& tag_list(old(self)@.variables, tokens.deep_view(), pos as int, Set::empty())
                        matches Ok(found)
                    &&& found == (tags@, next as int)
                    &&& final(self)@ == old(self)@.with_tags(tags@)
                },
                Err(e) => {
                    &&& tag_list(old(self)@.variables, tokens.deep_view(), pos as int, Set::empty())
                        matches Err(err)
                    &&& err == e@
                    &&& final(self)@ == old(self)@
                },
            },
    {
        let n: usize = tokens.len();
        let mut found: StringSet = StringSet::new();
        let mut i: usize = pos;
        let mut open: bool = true;
        let ghost toks = tokens.deep_view();
        let ghost vars = self@.variables;
        while open && i < n
            invariant
                n == tokens@.len(),
                toks == tokens.deep_view(),
                vars == self@.variables,
                *self == *old(self),
                pos <= i,
                tag_list(vars, toks, pos as int, Set::empty()) == tag_list(
                    vars,
                    toks,
                    i as int,
                    found@,
                ),
                !open ==> tag_list(vars, toks, i as int, found@) == Ok::<
                    (Set<Seq<char>>, int),
                    ParseErrorView,
                >((found@, i as int)),
            decreases n - i, if open { 1int } else { 0int },
        {
            assert(toks[i as int] == tokens@[i as int]@);
            match &tokens[i].token {
                Token::AddTag(tag) => {
                    found.insert(tag.clone());
                    i = i + 1;
                },
                Token::RemoveTag(tag) => {
                    found.remove(tag.as_str());
                    i = i + 1;
                },
                Token::Variable(name) => {
                    match self.variables.get(name.as_str()) {
                        None => {
                            return Err(
                                ParseError::UndefinedVariable {
                                    line: tokens[i].line,
                                    name: name.clone(),
                                },
                            );
                        },
                        Some(edits) => {
                            replay_edits(&mut found, edits);
                            i = i + 1;
                        },
                    }
                },
                Token::LineBreak => {
                    i = i + 1;
                },
                _ => {
                    open = false;
                },
            }
        }
        self.tags.extend(&found);
        proof {
            assert(self@ =~= old(self)@.with_tags(found@));
        }
        Ok((found, i))
    }

    /// Reads the file declaration at `pos`, where a quoted string stands,
    /// and adds the file to the document. Returns the position of the first
    /// token after the declaration. A declaration that fails leaves the
    /// document as it was.
    pub fn handle_file(&mut self, tokens: &[TokenInfo], pos: usize) -> (res: Result<
        usize,
        ParseError,
    >)
        requires
            pos < tokens@.len(),
            tokens@[pos as int].token is String,
        ensures
            match res {
                Ok(next) => {
                    &&& file_decl(old(self)@, tokens.deep_view(), pos as int) matches Ok(read)
                    &&& read == (final(self)@, next as int)
                },
                Err(e) => {
                    &&& file_decl(old(self)@, tokens.deep_view(), pos as int) matches Err(err)
                    &&& err == e@
                    &&& final(self)@ == old(self)@
                },
            },
    {
        let ghost toks = tokens.deep_view();
        assert(toks[pos as int] == tokens@[pos as int]@);
        let line: u64 = tokens[pos].line;
        match &tokens[pos].token {
            Token::String(path) => {
                if self.file_set.contains(path.as_str()) {
                    return Err(ParseError::RepeatedFile { line, file: path.clone() });
                }
                match self.handle_tag_list(tokens, pos + 1) {
                    Err(e) => Err(e),
                    Ok((tags, next)) => {
                        self.file_set.insert(path.clone());
                        let ghost before = self.files.deep_view();
                        let file = File { file: path.clone(), tags };
                        self.files.push(file);
                        proof {
                            assert(self.files.deep_view() =~= before.push(file@));
                            assert(self@ =~= file_decl(old(self)@, toks, pos as int)->Ok_0.0);
                        }
                        Ok(next)
                    },
                }
            },
            _ => unreached(),
        }
    }

    /// Reads the variable definition at `pos`, where a variable stands, and
    /// binds the variable. Returns the position of the first token after
    /// the definition.
    pub fn handle_variable(&mut self, tokens: &[TokenInfo], pos: usize) -> (res: Result<
        usize,
        ParseError,
    >)
        requires
            pos < tokens@.len(),
            tokens@[pos as int].token is Variable,
        ensures
            match res {
                Ok(next) => {
                    &&& variable_def(old(self)@, tokens.deep_view(), pos as int) matches Ok(read)
                    &&& read == (final(self)@, next as int)
                },
                Err(e) => {
                    &&& variable_def(old(self)@, tokens.deep_view(), pos as int) matches Err(err)
                    &&& err == e@
                    &&& final(self)@ == old(self)@
                },
            },
    {
        let ghost toks = tokens.deep_view();
        let ghost vars = self@.variables;
        assert(toks[pos as int] == tokens@[pos as int]@);
        let n: usize = tokens.len();
        let mut i: usize = pos + 1;
        if i < n {
            assert(toks[i as int] == tokens@[i as int]@);
            match &tokens[i].token {
                Token::Assignment => {
                    i = i + 1;
                },
                _ => {},
            }
        }
        let ghost start = i;
        let mut edits: Vec<TagEdit> = Vec::new();
        let mut open: bool = true;
        proof {
            assert(edits.deep_view() =~= Seq::<TagEditView>::empty());
        }
        while open && i < n
            invariant
                n == tokens@.len(),
                toks == tokens.deep_view(),
                vars == self@.variables,
                *self == *old(self),
                start <= i <= n,
                start == definition_start(toks, pos as int),
                open ==> edit_run(vars, toks, start as int, Seq::empty()) == edit_run(
                    vars,
                    toks,
                    i as int,
                    edits.deep_view(),
                ),
                !open ==> edit_run(vars, toks, start as int, Seq::empty()) == Ok::<
                    (Seq<TagEditView>, int),
                    ParseErrorView,
                >((edits.deep_view(), i as int)),
            decreases n - i, if open { 1int } else { 0int },
        {
            assert(toks[i as int] == tokens@[i as int]@);
            let ghost before = edits.deep_view();
            match &tokens[i].token {
                Token::AddTag(tag) => {
                    edits.push(TagEdit::Add(tag.clone()));
                    proof {
                        assert(edits.deep_view() =~= before.push(TagEditView::Add(tag@)));
                    }
                },
                Token::RemoveTag(tag) => {
                    edits.push(TagEdit::Remove(tag.clone()));
                    proof {
                        assert(edits.deep_view() =~= before.push(TagEditView::Remove(tag@)));
                    }
                },
                Token::Variable(name) => {
                    match self.variables.get(name.as_str()) {
                        None => {
                            return Err(
                                ParseError::UndefinedVariable {
                                    line: tokens[i].line,
                                    name: name.clone(),
                                },
                            );
                        },
                        Some(known) => {
                            append_edits(&mut edits, known);
                        },
                    }
                },
                _ => {
                    open = false;
                },
            }
            i = i + 1;
        }
        match &tokens[pos].token {
            Token::Variable(name) => {
                self.variables.insert(name.clone(), edits);
                proof {
                    assert(self@ =~= variable_def(old(self)@, toks, pos as int)->Ok_0.0);
                }
            },
            _ => unreached(),
        }
        Ok(i)
    }

    /// Reads the directive at `pos`, where a directive stands, with the
    /// quoted string after it, and keeps its value. Returns the position of
    /// the first token after the two.
    pub fn handle_directive(&mut self, tokens: &[TokenInfo], pos: usize) -> (res: Result<
        usize,
        ParseError,
    >)
        requires
            pos < tokens@.len(),
            tokens@[pos as int].token is Directive,
        ensures
            match res {
                Ok(next) => {
                    &&& directive_decl(old(self)@, tokens.deep_view(), pos as int) matches Ok(read)
                    &&& read == (final(self)@, next as int)
                },
                Err(e) => {
                    &&& directive_decl(old(self)@, tokens.deep_view(), pos as int) matches Err(
                        err,
                    )
                    &&& err == e@
                    &&& final(self)@ == old(self)@
                },
            },
    {
        let ghost toks = tokens.deep_view();
        assert(toks[pos as int] == tokens@[pos as int]@);
        let n: usize = tokens.len();
        match &tokens[pos].token {
            Token::Directive(name) => {
                if pos + 1 < n {
                    assert(toks[pos + 1] == tokens@[pos + 1]@);
                    match &tokens[pos + 1].token {
                        Token::String(value) => {
                            self.directives.insert(name.clone(), value.clone());
                            proof {
                                assert(self@ =~= directive_decl(
                                    old(self)@,
                                    toks,
                                    pos as int,
                                )->Ok_0.0);
                            }
                            return Ok(pos + 2);
                        },
                        _ => {},
                    }
                }
                Err(ParseError::EmptyDirective { line: tokens[pos].line, name: name.clone() })
            },
            _ => unreached(),
        }
    }
}

impl Data {
    /// Reads the group declaration at `pos`, where a `{` stands, and adds
    /// the group and its files to the document. Returns the position of the
    /// first token after the declaration. A declaration that fails adds no
    /// group: it leaves the document with the files that were declared
    /// inside the group before the reading failed (see `group_files`).
    pub fn handle_set(&mut self, tokens: &[TokenInfo], pos: usize) -> (res: Result<
        usize,
        ParseError,
    >)
        requires
            pos < tokens@.len(),
            tokens@[pos as int].token is SetOpen,
        ensures
            match res {
                Ok(next) => {
                    &&& group_decl(old(self)@, tokens.deep_view(), pos as int) matches Ok(read)
                    &&& read == (final(self)@, next as int)
                },
                Err(e) => {
                    &&& group_decl(old(self)@, tokens.deep_view(), pos as int) matches Err(err)
                    &&& err == e@
                    &&& final(self)@ == group_files(old(self)@, tokens.deep_view(), pos + 1)
                    &&& final(self)@.sets == old(self)@.sets
                    &&& final(self)@.variables == old(self)@.variables
                    &&& final(self)@.directives == old(self)@.directives
                },
            },
    {
        let ghost toks = tokens.deep_view();
        assert(toks[pos as int] == tokens@[pos as int]@);
        let n: usize = tokens.len();
        let open_line: u64 = tokens[pos].line;
        let mut members: Vec<usize> = Vec::new();
        let mut group_tags: StringSet = StringSet::new();
        let mut autotag: bool = false;
        let mut open: bool = true;
        let mut i: usize = pos + 1;
        proof {
            assert(positions(members@) =~= Seq::<int>::empty());
        }
        let ghost start = GroupState {
            data: old(self)@,
            members: Seq::empty(),
            tags: Set::empty(),
            autotag: false,
        };
        while open && i < n
            invariant
                n == tokens@.len(),
                toks == tokens.deep_view(),
                pos < i <= n,
                open_line == toks[pos as int].line,
                start == (GroupState {
                    data: old(self)@,
                    members: Seq::empty(),
                    tags: Set::empty(),
                    autotag: false,
                }),
                ({
                    let state = GroupState {
                        data: self@,
                        members: positions(members@),
                        tags: group_tags@,
                        autotag,
                    };
                    &&& open ==> group_body(start, toks, pos + 1, open_line) == group_body(
                        state,
                        toks,
                        i as int,
                        open_line,
                    )
                    &&& !open ==> group_body(start, toks, pos + 1, open_line) == Ok::<
                        (GroupState, int),
                        ParseErrorView,
                    >((state, i as int))
                }),
                group_files(old(self)@, toks, pos + 1) == if open {
                    group_files(self@, toks, i as int)
                } else {
                    self@
                },
                self@.sets == old(self)@.sets,
                self@.variables == old(self)@.variables,
                self@.directives == old(self)@.directives,
            decreases n - i, if open { 1int } else { 0int },
        {
            assert(toks[i as int] == tokens@[i as int]@);
            let ghost state = GroupState {
                data: self@,
                members: positions(members@),
                tags: group_tags@,
                autotag,
            };
            match &tokens[i].token {
                Token::Directive(name) => {
                    if !same_text(name.as_str(), "autotag") {
                        return Err(
                            ParseError::UnexpectedDirective {
                                line: tokens[i].line,
                                name: name.clone(),
                            },
                        );
                    }
                    autotag = true;
                    i = i + 1;
                },
                Token::SetClose => {
                    open = false;
                    i = i + 1;
                },
                Token::String(_) => {
                    let index: usize = self.files.len();
                    match self.handle_file(tokens, i) {
                        Err(e) => {
                            return Err(e);
                        },
                        Ok(next) => {
                            proof {
                                lemma_file_decl_advances(state.data, toks, i as int);
                            }
                            let ghost listed = positions(members@);
                            members.push(index);
                            proof {
                                assert(positions(members@) =~= listed.push(index as int));
                            }
                            if autotag {
                                let last: usize = self.files.len() - 1;
                                assert(self.files.deep_view()[last as int]
                                    == self.files@[last as int]@);
                                group_tags.extend(&self.files[last].tags);
                            }
                            i = next;
                        },
                    }
                },
                Token::LineBreak => {
                    i = i + 1;
                },
                other => {
                    return Err(
                        ParseError::UnexpectedToken { line: open_line, token: other.duplicate() },
                    );
                },
            }
        }
        let ghost state = GroupState { data: self@, members: positions(members@), tags: group_tags@, autotag };
        assert(group_body(start, toks, pos + 1, open_line) == Ok::<
            (GroupState, int),
            ParseErrorView,
        >((state, i as int)));
        match self.handle_tag_list(tokens, i) {
            Err(e) => Err(e),
            Ok((own, next)) => {
                group_tags.extend(&own);
                let ghost before = self.sets.deep_view();
                let group = Group { files: members, tags: group_tags };
                self.sets.push(group);
                proof {
                    assert(self.sets.deep_view() =~= before.push(group@));
                    assert(self@ =~= group_decl(old(self)@, toks, pos as int)->Ok_0.0);
                }
                Ok(next)
            },
        }
    }

    /// Builds the document that the tokens of a script describe.
    ///
    /// Fails with the first error that the statements of the script run
    /// into, and then yields no document.
    pub fn from_tokens(tokens: &[TokenInfo]) -> (res: Result<Data, ParseError>)
        ensures
            match res {
                Ok(data) => parse(tokens.deep_view()) == Ok::<DataView, ParseErrorView>(data@),
                Err(e) => parse(tokens.deep_view()) == Err::<DataView, ParseErrorView>(e@),
            },
    {
        let ghost toks = tokens.deep_view();
        let n: usize = tokens.len();
        let mut data: Data = Data::new();
        let mut i: usize = 0;
        while i < n
            invariant
                n == tokens@.len(),
                toks == tokens.deep_view(),
                i <= n,
                parse(toks) == parse_from(data@, toks, i as int),
            decreases n - i,
        {
            assert(toks[i as int] == tokens@[i as int]@);
            proof {
                lemma_statement_advances(data@, toks, i as int);
            }
            let step: Result<usize, ParseError> = match &tokens[i].token {
                Token::Variable(_) => data.handle_variable(tokens, i),
                Token::String(_) => data.handle_file(tokens, i),
                Token::Directive(_) => data.handle_directive(tokens, i),
                Token::SetOpen => data.handle_set(tokens, i),
                _ => Ok(i + 1),
            };
            match step {
                Ok(next) => {
                    i = next;
                },
                Err(e) => {
                    return Err(e);
                },
            }
        }
        Ok(data)
    }
}

/// Appends copies of the edits `more` to `edits`.
fn append_edits(edits: &mut Vec<TagEdit>, more: &Vec<TagEdit>)
    ensures
        final(edits).deep_view() == old(edits).deep_view() + more.deep_view(),
{
    let n: usize = more.len();
    let mut i: usize = 0;
    let ghost all = more.deep_view();
    proof {
        assert(edits.deep_view() =~= old(edits).deep_view() + all.take(0));
    }
    while i < n
        invariant
            n == more@.len(),
            all == more.deep_view(),
            i <= n,
            edits.deep_view() == old(edits).deep_view() + all.take(i as int),
        decreases n - i,
    {
        let ghost before = edits.deep_view();
        edits.push(copy_of_edit(&more[i]));
        proof {
            assert(all[i as int] == more@[i as int]@);
            assert(edits.deep_view() =~= before.push(all[i as int]));
            assert(edits.deep_view() =~= old(edits).deep_view() + all.take(i + 1));
        }
        i = i + 1;
    }
    proof {
        assert(all.take(n as int) =~= all);
    }
}

} // verus!
