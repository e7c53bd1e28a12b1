//! The lexer of the script language: from the bytes of a script to its
//! tokens, each with the line it stands on.

use crate::text::{
    concat3, decoded, lemma_ascii_is_whole_character, lemma_boundary_before_ascii_or_end,
    lemma_run_end, line_prefix, line_prefix_text, run_end, same_text, substring,
};
use vstd::prelude::*;
use vstd::std_specs::cmp::PartialEqSpecImpl;
use vstd::string::*;
use vstd::utf8::*;

verus! {

/// `"`, which opens and closes a quoted string.
pub const QUOTE: u8 = 34;

/// `@`, which starts a directive.
pub const AT_SIGN: u8 = 64;

/// `$`, which starts a variable.
pub const DOLLAR: u8 = 36;

/// `-`, which starts a tag to remove.
pub const MINUS: u8 = 45;

/// `=`, which stands after the variable that a statement defines.
pub const EQUALS: u8 = 61;

/// `{`, which opens a group.
pub const BRACE_OPEN: u8 = 123;

/// `}`, which closes a group.
pub const BRACE_CLOSE: u8 = 125;

/// `;`, which ends a statement.
pub const SEMICOLON: u8 = 59;

/// `#`, which starts a comment.
pub const HASH: u8 = 35;

/// `:`, which is passed over like white space.
pub const COLON: u8 = 58;

/// The line feed, which ends a line.
pub const NEWLINE: u8 = 10;

/// One token of a script.
#[derive(Debug, Clone)]
pub enum Token {
    SetOpen,
    SetClose,
    String(String),
    Variable(String),
    Directive(String),
    AddTag(String),
    RemoveTag(String),
    Assignment,
    LineBreak,
    StatementEnd,
}

/// A token as contracts see it: its kind and the characters of its text.
pub enum TokenView {
    SetOpen,
    SetClose,
    String(Seq<char>),
    Variable(Seq<char>),
    Directive(Seq<char>),
    AddTag(Seq<char>),
    RemoveTag(Seq<char>),
    Assignment,
    LineBreak,
    StatementEnd,
}

impl View for Token {
    type V = TokenView;

    open spec fn view(&self) -> TokenView {
        match self {
            Token::SetOpen => TokenView::SetOpen,
            Token::SetClose => TokenView::SetClose,
            Token::String(s) => TokenView::String(s@),
            Token::Variable(s) => TokenView::Variable(s@),
            Token::Directive(s) => TokenView::Directive(s@),
            Token::AddTag(s) => TokenView::AddTag(s@),
            Token::RemoveTag(s) => TokenView::RemoveTag(s@),
            Token::Assignment => TokenView::Assignment,
            Token::LineBreak => TokenView::LineBreak,
            Token::StatementEnd => TokenView::StatementEnd,
        }
    }
}

impl PartialEq for Token {
    fn eq(&self, other: &Token) -> (same: bool) {
        match (self, other) {
            (Token::SetOpen, Token::SetOpen) => true,
            (Token::SetClose, Token::SetClose) => true,
            (Token::String(a), Token::String(b)) => same_text(a.as_str(), b.as_str()),
            (Token::Variable(a), Token::Variable(b)) => same_text(a.as_str(), b.as_str()),
            (Token::Directive(a), Token::Directive(b)) => same_text(a.as_str(), b.as_str()),
            (Token::AddTag(a), Token::AddTag(b)) => same_text(a.as_str(), b.as_str()),
            (Token::RemoveTag(a), Token::RemoveTag(b)) => same_text(a.as_str(), b.as_str()),
            (Token::Assignment, Token::Assignment) => true,
            (Token::LineBreak, Token::LineBreak) => true,
            (Token::StatementEnd, Token::StatementEnd) => true,
            _ => false,
        }
    }
}

impl PartialEqSpecImpl for Token {
    open spec fn obeys_eq_spec() -> bool {
        true
    }

    /// Two tokens are equal where they are of one kind and hold the same
    /// text.
    open spec fn eq_spec(&self, other: &Token) -> bool {
        self@ == other@
    }
}

impl DeepView for Token {
    type V = TokenView;

    open spec fn deep_view(&self) -> TokenView {
        self@
    }
}

/// A token and the 1-based line of the script on which it starts.
#[derive(Debug, Clone)]
pub struct TokenInfo {
    pub line: u64,
    pub token: Token,
}

impl TokenView {
    /// How a message shows the token: the name of its kind and, for a
    /// token with a text, the text between `("` and `")`.
    pub open spec fn description(self) -> Seq<char> {
        match self {
            TokenView::SetOpen => "SetOpen"@,
            TokenView::SetClose => "SetClose"@,
            TokenView::String(text) => "String(\""@ + text + "\")"@,
            TokenView::Variable(text) => "Variable(\""@ + text + "\")"@,
            TokenView::Directive(text) => "Directive(\""@ + text + "\")"@,
            TokenView::AddTag(text) => "AddTag(\""@ + text + "\")"@,
            TokenView::RemoveTag(text) => "RemoveTag(\""@ + text + "\")"@,
            TokenView::Assignment => "Assignment"@,
            TokenView::LineBreak => "LineBreak"@,
            TokenView::StatementEnd => "StatementEnd"@,
        }
    }
}

impl Token {
    /// The token as a message shows it.
    pub fn description(&self) -> (text: String)
        ensures
            text@ == self@.description(),
    {
        match self {
            Token::SetOpen => String::from_str("SetOpen"),
            Token::SetClose => String::from_str("SetClose"),
            Token::String(text) => concat3("String(\"", text.as_str(), "\")"),
            Token::Variable(text) => concat3("Variable(\"", text.as_str(), "\")"),
            Token::Directive(text) => concat3("Directive(\"", text.as_str(), "\")"),
            Token::AddTag(text) => concat3("AddTag(\"", text.as_str(), "\")"),
            Token::RemoveTag(text) => concat3("RemoveTag(\"", text.as_str(), "\")"),
            Token::Assignment => String::from_str("Assignment"),
            Token::LineBreak => String::from_str("LineBreak"),
            Token::StatementEnd => String::from_str("StatementEnd"),
        }
    }

    /// A copy of the token.
    pub fn duplicate(&self) -> (copy: Token)
        ensures
            copy@ == self@,
    {
        match self {
            Token::SetOpen => Token::SetOpen,
            Token::SetClose => Token::SetClose,
            Token::String(text) => Token::String(text.clone()),
            Token::Variable(text) => Token::Variable(text.clone()),
            Token::Directive(text) => Token::Directive(text.clone()),
            Token::AddTag(text) => Token::AddTag(text.clone()),
            Token::RemoveTag(text) => Token::RemoveTag(text.clone()),
            Token::Assignment => Token::Assignment,
            Token::LineBreak => Token::LineBreak,
            Token::StatementEnd => Token::StatementEnd,
        }
    }
}

/// A token with its line, as contracts see it.
pub struct TokenInfoView {
    pub line: u64,
    pub token: TokenView,
}

impl View for TokenInfo {
    type V = TokenInfoView;

    open spec fn view(&self) -> TokenInfoView {
        TokenInfoView { line: self.line, token: self.token@ }
    }
}

impl DeepView for TokenInfo {
    type V = TokenInfoView;

    open spec fn deep_view(&self) -> TokenInfoView {
        self@
    }
}

impl TokenInfo {
    /// The token `token`, found on line `line`.
    pub fn new(line: u64, token: Token) -> (info: TokenInfo)
        ensures
            info.line == line,
            info.token == token,
    {
        TokenInfo { line, token }
    }
}

/// Why a script could not be split into tokens.
#[derive(Debug, Clone, Copy, PartialEq, Eq, Structural)]
pub enum LexError {
    /// A `"` on the given line has no closing `"` after it.
    UnterminatedString { line: u64 },
}

impl LexError {
    /// The line of the script that the error names.
    pub fn line(&self) -> (line: u64)
        ensures
            line == self.spec_line(),
    {
        match self {
            LexError::UnterminatedString { line } => *line,
        }
    }

    /// What `line` returns.
    pub open spec fn spec_line(&self) -> u64 {
        match self {
            LexError::UnterminatedString { line } => *line,
        }
    }

    /// What `message` returns.
    pub open spec fn spec_message(&self) -> Seq<char> {
        line_prefix(self.spec_line()) + "Unmatched `\"`"@
    }

    /// The error in words, for the one who wrote the script.
    pub fn message(&self) -> (text: String)
        ensures
            text@ == self.spec_message(),
    {
        let mut text: String = line_prefix_text(self.line());
        text.append("Unmatched `\"`");
        text
    }
}

/// White space: the space, the carriage return, the line feed and the tab.
pub open spec fn is_space(b: u8) -> bool {
    b == 32 || b == 13 || b == 10 || b == 9
}

/// A byte that ends a word: white space or `;`.
pub open spec fn ends_word(b: u8) -> bool {
    is_space(b) || b == SEMICOLON
}

/// Where the word that starts at `from` ends.
pub open spec fn word_end(s: Seq<u8>, from: int) -> int {
    run_end(s, from, |b: u8| ends_word(b))
}

/// The position of the first `"` at or after `from`, or the length of `s`.
pub open spec fn quote_end(s: Seq<u8>, from: int) -> int {
    run_end(s, from, |b: u8| b == QUOTE)
}

/// The position of the first line feed at or after `from`, or the length
/// of `s`.
pub open spec fn comment_end(s: Seq<u8>, from: int) -> int {
    run_end(s, from, |b: u8| b == NEWLINE)
}

/// Whether `b` is white space.
pub fn is_whitespace(b: u8) -> (r: bool)
    ensures
        r == is_space(b),
{
    b == 32 || b == 13 || b == 10 || b == 9
}

/// Scans the word that starts at `start`: returns the position of the
/// first white space or `;` from there on, or the length of `bytes`.
pub fn parse_whitespace_terminated(bytes: &[u8], start: usize) -> (end: usize)
    ensures
        end == word_end(bytes@, start as int),
{
    let n: usize = bytes.len();
    let mut i: usize = start;
    while i < n && !(is_whitespace(bytes[i]) || bytes[i] == SEMICOLON)
        invariant
            n == bytes@.len(),
            start <= i,
            start <= n ==> i <= n,
            word_end(bytes@, start as int) == word_end(bytes@, i as int),
        decreases n - i,
    {
        i = i + 1;
    }
    i
}

/// Scans the bytes from `start` on for which `condition` answers yes:
/// returns the position of the first byte for which it answers no, or the
/// length of `bytes`.
pub fn parse_while<C: Fn(u8) -> bool>(bytes: &[u8], start: usize, condition: C) -> (end: usize)
    requires
        forall|b: u8| call_requires(condition, (b,)),
    ensures
        start <= end,
        start <= bytes@.len() ==> end <= bytes@.len(),
        forall|i: int| start <= i < end ==> call_ensures(condition, (#[trigger] bytes@[i],), true),
        end < bytes@.len() ==> call_ensures(condition, (bytes@[end as int],), false),
{
    let n: usize = bytes.len();
    let mut i: usize = start;
    while i < n
        invariant
            n == bytes@.len(),
            start <= i,
            start <= n ==> i <= n,
            forall|b: u8| call_requires(condition, (b,)),
            forall|k: int| start <= k < i ==> call_ensures(condition, (#[trigger] bytes@[k],), true),
        decreases n - i,
    {
        if !condition(bytes[i]) {
            return i;
        }
        i = i + 1;
    }
    i
}

/// What `word_end` is: the least position from `from` on that holds white
/// space or `;`.
pub proof fn lemma_word_end(s: Seq<u8>, from: int)
    requires
        0 <= from <= s.len(),
    ensures
        from <= word_end(s, from) <= s.len(),
        forall|i: int| from <= i < word_end(s, from) ==> !ends_word(#[trigger] s[i]),
        word_end(s, from) < s.len() ==> ends_word(s[word_end(s, from)]),
{
    lemma_run_end(s, from, |b: u8| ends_word(b));
}

/// What `quote_end` is: the least position from `from` on that holds `"`.
pub proof fn lemma_quote_end(s: Seq<u8>, from: int)
    requires
        0 <= from <= s.len(),
    ensures
        from <= quote_end(s, from) <= s.len(),
        forall|i: int| from <= i < quote_end(s, from) ==> #[trigger] s[i] != QUOTE,
        quote_end(s, from) < s.len() ==> s[quote_end(s, from)] == QUOTE,
{
    lemma_run_end(s, from, |b: u8| b == QUOTE);
}

/// What `comment_end` is: the least position from `from` on that holds a
/// line feed.
pub proof fn lemma_comment_end(s: Seq<u8>, from: int)
    requires
        0 <= from <= s.len(),
    ensures
        from <= comment_end(s, from) <= s.len(),
        forall|i: int| from <= i < comment_end(s, from) ==> #[trigger] s[i] != NEWLINE,
        comment_end(s, from) < s.len() ==> s[comment_end(s, from)] == NEWLINE,
{
    lemma_run_end(s, from, |b: u8| b == NEWLINE);
}

/// Scans the quoted string whose opening `"` stands at `start`: returns the
/// position of the `"` that closes it, or `None` where the script ends
/// before one.
pub fn parse_quoted_string(bytes: &[u8], start: usize) -> (close: Option<usize>)
    ensures
        match close {
            Some(end) => end == quote_end(bytes@, start + 1) && end < bytes@.len(),
            None => quote_end(bytes@, start + 1) >= bytes@.len(),
        },
{
    let n: usize = bytes.len();
    if start >= n {
        return None;
    }
    let mut i: usize = start + 1;
    while i < n && bytes[i] != QUOTE
        invariant
            n == bytes@.len(),
            start < i <= n,
            quote_end(bytes@, start + 1) == quote_end(bytes@, i as int),
        decreases n - i,
    {
        i = i + 1;
    }
    if i < n {
        Some(i)
    } else {
        None
    }
}

/// Scans the comment that starts at `start`: returns the position of the
/// line feed that ends it, or the length of `bytes`.
pub fn skip_comment(bytes: &[u8], start: usize) -> (end: usize)
    ensures
        end == comment_end(bytes@, start as int),
{
    let n: usize = bytes.len();
    let mut i: usize = start;
    while i < n && bytes[i] != NEWLINE
        invariant
            n == bytes@.len(),
            start <= i,
            start <= n ==> i <= n,
            comment_end(bytes@, start as int) == comment_end(bytes@, i as int),
        decreases n - i,
    {
        i = i + 1;
    }
    i
}

/// What the lexer does at one position: the token it emits there, if any,
/// and the position at which it goes on.
pub struct Step {
    pub token: Option<TokenView>,
    pub next: int,
}

/// The lexer's step at position `pos` of the script `s`, or `None` where a
/// quoted string that opens there is never closed.
///
/// A quoted string runs to the next `"`. `@`, `$` and `-` start a word that
/// runs to the next white space or `;`, and the sigil is no part of its
/// text. `=`, `{`, `}`, `;` and the line feed are tokens of one byte. `#`
/// starts a comment that runs up to the next line feed. `:` and white space
/// are passed over. Any other byte starts a word that adds a tag.
pub open spec fn step_at(s: Seq<u8>, pos: int) -> Option<Step> {
    let b = s[pos];
    if b == QUOTE {
        let end = quote_end(s, pos + 1);
        if end < s.len() {
            Some(Step { token: Some(TokenView::String(decoded(s, pos + 1, end))), next: end + 1 })
        } else {
            None
        }
    } else if b == AT_SIGN {
        let end = word_end(s, pos + 1);
        Some(Step { token: Some(TokenView::Directive(decoded(s, pos + 1, end))), next: end })
    } else if b == DOLLAR {
        let end = word_end(s, pos + 1);
        Some(Step { token: Some(TokenView::Variable(decoded(s, pos + 1, end))), next: end })
    } else if b == MINUS {
        let end = word_end(s, pos + 1);
        Some(Step { token: Some(TokenView::RemoveTag(decoded(s, pos + 1, end))), next: end })
    } else if b == EQUALS {
        Some(Step { token: Some(TokenView::Assignment), next: pos + 1 })
    } else if b == BRACE_OPEN {
        Some(Step { token: Some(TokenView::SetOpen), next: pos + 1 })
    } else if b == BRACE_CLOSE {
        Some(Step { token: Some(TokenView::SetClose), next: pos + 1 })
    } else if b == SEMICOLON {
        Some(Step { token: Some(TokenView::StatementEnd), next: pos + 1 })
    } else if b == HASH {
        Some(Step { token: None, next: comment_end(s, pos) })
    } else if b == NEWLINE {
        Some(Step { token: Some(TokenView::LineBreak), next: pos + 1 })
    } else if b == COLON || is_space(b) {
        Some(Step { token: None, next: pos + 1 })
    } else {
        let end = word_end(s, pos);
        Some(Step { token: Some(TokenView::AddTag(decoded(s, pos, end))), next: end })
    }
}

/// Every step moves on, and stays inside the script.
pub proof fn lemma_step_advances(s: Seq<u8>, pos: int)
    requires
        0 <= pos < s.len(),
    ensures
        step_at(s, pos) matches Some(step) ==> pos < step.next <= s.len(),
{
    lemma_word_end(s, pos + 1);
    lemma_quote_end(s, pos + 1);
    lemma_comment_end(s, pos + 1);
}

/// The line on which the lexer stands after a step that started on `line`.
pub open spec fn line_after(step: Step, line: int) -> int {
    if step.token == Some(TokenView::LineBreak) {
        line + 1
    } else {
        line
    }
}

/// The tokens of the script `s` from position `pos` on, where `pos` stands
/// on line `line`; or the error, where a quoted string is not closed.
pub open spec fn lex_from(s: Seq<u8>, pos: int, line: int) -> Result<Seq<TokenInfoView>, LexError>
    decreases s.len() - pos,
    via lex_from_decreases
{
    if 0 <= pos < s.len() {
        match step_at(s, pos) {
            None => Err(LexError::UnterminatedString { line: line as u64 }),
            Some(step) => {
                let here = match step.token {
                    Some(token) => seq![TokenInfoView { line: line as u64, token }],
                    None => Seq::empty(),
                };
                match lex_from(s, step.next, line_after(step, line)) {
                    Ok(rest) => Ok(here + rest),
                    Err(e) => Err(e),
                }
            },
        }
    } else {
        Ok(Seq::empty())
    }
}

#[via_fn]
proof fn lex_from_decreases(s: Seq<u8>, pos: int, line: int) {
    if 0 <= pos < s.len() {
        lemma_step_advances(s, pos);
    }
}

/// The tokens of the script `s`, whose first line is line 1.
pub open spec fn lex(s: Seq<u8>) -> Result<Seq<TokenInfoView>, LexError> {
    lex_from(s, 0, 1)
}

/// The number of line breaks among the tokens `tokens`.
pub open spec fn line_breaks(tokens: Seq<TokenInfoView>) -> int
    decreases tokens.len(),
{
    if tokens.len() == 0 {
        0
    } else {
        line_breaks(tokens.drop_last()) + if tokens.last().token == TokenView::LineBreak {
            1int
        } else {
            0int
        }
    }
}

/// The line breaks of two runs of tokens, one after the other, are those of
/// the first and those of the second.
pub proof fn lemma_line_breaks_concat(first: Seq<TokenInfoView>, second: Seq<TokenInfoView>)
    ensures
        line_breaks(first + second) == line_breaks(first) + line_breaks(second),
    decreases second.len(),
{
    if second.len() == 0 {
        assert(first + second =~= first);
    } else {
        lemma_line_breaks_concat(first, second.drop_last());
        assert((first + second).drop_last() =~= first + second.drop_last());
        assert((first + second).last() == second.last());
    }
}

/// The line of a token is the line on which the lexer started, and one
/// more for each line break among the tokens before it.
pub proof fn lemma_lines_count_line_breaks(s: Seq<u8>, pos: int, line: int)
    requires
        0 <= pos <= s.len(),
        0 <= line,
        line + (s.len() - pos) <= u64::MAX,
        lex_from(s, pos, line) is Ok,
    ensures
        forall|i: int|
            0 <= i < lex_from(s, pos, line)->Ok_0.len() ==> (#[trigger] lex_from(
                s,
                pos,
                line,
            )->Ok_0[i]).line == line + line_breaks(lex_from(s, pos, line)->Ok_0.take(i)),
    decreases s.len() - pos,
{
    let tokens = lex_from(s, pos, line)->Ok_0;
    if pos < s.len() {
        lemma_step_advances(s, pos);
        let step = step_at(s, pos)->Some_0;
        let here = match step.token {
            Some(token) => seq![TokenInfoView { line: line as u64, token }],
            None => Seq::empty(),
        };
        let then = line_after(step, line);
        let rest = lex_from(s, step.next, then)->Ok_0;
        lemma_lines_count_line_breaks(s, step.next, then);
        assert(tokens == here + rest);
        assert(line_breaks(Seq::<TokenInfoView>::empty()) == 0);
        if here.len() == 1 {
            assert(here.drop_last() =~= Seq::<TokenInfoView>::empty());
        }
        assert(line_breaks(here) == then - line);
        assert forall|i: int| 0 <= i < tokens.len() implies (#[trigger] tokens[i]).line == line
            + line_breaks(tokens.take(i)) by {
            if i < here.len() {
                assert(tokens.take(i) =~= Seq::<TokenInfoView>::empty());
                assert(tokens[i] == here[0]);
            } else {
                let j = i - here.len();
                assert(tokens[i] == rest[j]);
                assert(tokens.take(i) =~= here + rest.take(j));
                lemma_line_breaks_concat(here, rest.take(j));
            }
        }
    }
}

/// The lexer counts lines from 1: the line of a token of a script is one
/// more than the number of line breaks among the tokens before it.
pub proof fn lemma_token_lines(s: Seq<u8>)
    requires
        s.len() < u64::MAX,
        lex(s) is Ok,
    ensures
        forall|i: int|
            0 <= i < lex(s)->Ok_0.len() ==> (#[trigger] lex(s)->Ok_0[i]).line == 1 + line_breaks(
                lex(s)->Ok_0.take(i),
            ),
{
    lemma_lines_count_line_breaks(s, 0, 1);
}

/// The tokens `done`, followed by what `rest` holds.
pub open spec fn followed_by(
    done: Seq<TokenInfoView>,
    rest: Result<Seq<TokenInfoView>, LexError>,
) -> Result<Seq<TokenInfoView>, LexError> {
    match rest {
        Ok(more) => Ok(done + more),
        Err(e) => Err(e),
    }
}

/// Reads the word that follows the sigil at `pos`.
fn word_after_sigil(input: &str, bytes: &[u8], pos: usize) -> (word: (String, usize))
    requires
        bytes@ == input.spec_bytes(),
        pos < bytes@.len(),
        bytes@[pos as int] < 0x80,
    ensures
        word.1 == word_end(bytes@, pos + 1),
        word.0@ == decoded(bytes@, pos + 1, word.1 as int),
        pos < word.1 <= bytes@.len(),
        is_char_boundary(bytes@, word.1 as int),
{
    let n: usize = bytes.len();
    assert(pos < n);
    let end: usize = parse_whitespace_terminated(bytes, pos + 1);
    proof {
        encode_utf8_valid_utf8(input@);
        lemma_word_end(bytes@, pos + 1);
        lemma_ascii_is_whole_character(bytes@, pos as int);
        lemma_boundary_before_ascii_or_end(bytes@, end as int);
    }
    (substring(input, pos + 1, end), end)
}

/// Takes one step of the lexer at `pos`: the token that starts there, if
/// one does, and the position after it; `None` where a quoted string that
/// opens at `pos` is never closed.
fn next_token(input: &str, bytes: &[u8], pos: usize) -> (res: Option<(Option<Token>, usize)>)
    requires
        bytes@ == input.spec_bytes(),
        pos < bytes@.len(),
        is_char_boundary(bytes@, pos as int),
    ensures
        match res {
            None => step_at(bytes@, pos as int) is None,
            Some((token, next)) => {
                &&& step_at(bytes@, pos as int) == Some(
                    Step { token: token.deep_view(), next: next as int },
                )
                &&& pos < next <= bytes@.len()
                &&& is_char_boundary(bytes@, next as int)
            },
        },
{
    let b: u8 = bytes[pos];
    proof {
        encode_utf8_valid_utf8(input@);
        lemma_step_advances(bytes@, pos as int);
    }
    if b == QUOTE {
        match parse_quoted_string(bytes, pos) {
            None => None,
            Some(end) => {
                proof {
                    lemma_quote_end(bytes@, pos + 1);
                    lemma_ascii_is_whole_character(bytes@, pos as int);
                    lemma_ascii_is_whole_character(bytes@, end as int);
                }
                let text: String = substring(input, pos + 1, end);
                Some((Some(Token::String(text)), end + 1))
            },
        }
    } else if b == AT_SIGN {
        let (text, end) = word_after_sigil(input, bytes, pos);
        Some((Some(Token::Directive(text)), end))
    } else if b == DOLLAR {
        let (text, end) = word_after_sigil(input, bytes, pos);
        Some((Some(Token::Variable(text)), end))
    } else if b == MINUS {
        let (text, end) = word_after_sigil(input, bytes, pos);
        Some((Some(Token::RemoveTag(text)), end))
    } else if b == HASH {
        let end: usize = skip_comment(bytes, pos);
        proof {
            lemma_comment_end(bytes@, pos as int);
            lemma_boundary_before_ascii_or_end(bytes@, end as int);
        }
        Some((None, end))
    } else if b == EQUALS || b == BRACE_OPEN || b == BRACE_CLOSE || b == SEMICOLON || b == NEWLINE
        || b == COLON || is_whitespace(b) {
        proof {
            lemma_ascii_is_whole_character(bytes@, pos as int);
        }
        let token: Option<Token> = if b == EQUALS {
            Some(Token::Assignment)
        } else if b == BRACE_OPEN {
            Some(Token::SetOpen)
        } else if b == BRACE_CLOSE {
            Some(Token::SetClose)
        } else if b == SEMICOLON {
            Some(Token::StatementEnd)
        } else if b == NEWLINE {
            Some(Token::LineBreak)
        } else {
            None
        };
        Some((token, pos + 1))
    } else {
        let end: usize = parse_whitespace_terminated(bytes, pos);
        proof {
            lemma_word_end(bytes@, pos as int);
            lemma_boundary_before_ascii_or_end(bytes@, end as int);
        }
        let text: String = substring(input, pos, end);
        Some((Some(Token::AddTag(text)), end))
    }
}

/// Splits a script into its tokens.
///
/// Fails only where a quoted string is not closed before the script ends,
/// with the line on which the lexer stood when the string opened.
pub fn tokenize(input: &str) -> (res: Result<Vec<TokenInfo>, LexError>)
    ensures
        match res {
            Ok(tokens) => lex(input.spec_bytes()) == Ok::<Seq<TokenInfoView>, LexError>(
                tokens.deep_view(),
            ),
            Err(e) => lex(input.spec_bytes()) == Err::<Seq<TokenInfoView>, LexError>(e),
        },
{
    let bytes: &[u8] = input.as_bytes();
    let n: usize = bytes.len();
    let mut tokens: Vec<TokenInfo> = Vec::new();
    let mut pos: usize = 0;
    let mut breaks: usize = 0;
    proof {
        encode_utf8_valid_utf8(input@);
        is_char_boundary_start_end_of_seq(bytes@);
        assert(tokens.deep_view() =~= Seq::<TokenInfoView>::empty());
        assert(followed_by(Seq::empty(), lex(bytes@)) =~= lex(bytes@)) by {
            match lex(bytes@) {
                Ok(more) => assert(Seq::<TokenInfoView>::empty() + more =~= more),
                Err(e) => {},
            }
        }
    }
    while pos < n
        invariant
            bytes@ == input.spec_bytes(),
            n == bytes@.len(),
            breaks <= pos <= n,
            is_char_boundary(bytes@, pos as int),
            lex(bytes@) == followed_by(
                tokens.deep_view(),
                lex_from(bytes@, pos as int, breaks + 1),
            ),
        decreases n - pos,
    {
        let line: u64 = (breaks + 1) as u64;
        let ghost before = tokens.deep_view();
        match next_token(input, bytes, pos) {
            None => {
                return Err(LexError::UnterminatedString { line });
            },
            Some((token, next)) => {
                let ghost step = Step { token: token.deep_view(), next: next as int };
                let ghost rest = lex_from(bytes@, next as int, line_after(step, breaks + 1));
                match token {
                    None => {
                        proof {
                            assert(Seq::<TokenInfoView>::empty() + rest.unwrap() =~= rest.unwrap());
                        }
                    },
                    Some(token) => {
                        let is_break: bool = match token {
                            Token::LineBreak => true,
                            _ => false,
                        };
                        let ghost here = seq![TokenInfoView { line, token: token@ }];
                        tokens.push(TokenInfo::new(line, token));
                        if is_break {
                            breaks = breaks + 1;
                        }
                        proof {
                            assert(tokens.deep_view() =~= before + here);
                            if rest is Ok {
                                assert(before + (here + rest.unwrap()) =~= (before + here)
                                    + rest.unwrap());
                            }
                        }
                    },
                }
                pos = next;
            },
        }
    }
    proof {
        assert(tokens.deep_view() + Seq::<TokenInfoView>::empty() =~= tokens.deep_view());
    }
    Ok(tokens)
}

} // verus!
