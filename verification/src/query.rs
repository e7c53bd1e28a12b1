//! The words of a search: the tags that an entry must have, those that it
//! must not have, and the words that ask for something else.

use crate::database::models::{CatalogError, EntryQuery, EntryQueryView};
use crate::lookup::{
    all_known, identities, identities_of, known, known_tags, lemma_none_unknown, unknown_among,
    unknown_names,
};
use crate::sync_db::SyncDb;
use crate::text::{
    concat2, concat3, decoded, join, joined, lemma_ascii_is_whole_character, lemma_boundary_before_ascii_or_end,
    lemma_run_end, run_end, same_text, substring,
};
use vstd::prelude::*;
use vstd::string::*;
use vstd::utf8::*;

verus! {

/// A word of a search that starts with `@`: its name and, where the word
/// holds a `=`, its value.
#[derive(Debug, Clone)]
pub struct MetaTag {
    pub name: String,
    pub value: Option<String>,
}

/// A word with a name, as contracts see it.
pub struct MetaTagView {
    pub name: Seq<char>,
    pub value: Option<Seq<char>>,
}

impl View for MetaTag {
    type V = MetaTagView;

    open spec fn view(&self) -> MetaTagView {
        MetaTagView {
            name: self.name@,
            value: match self.value {
                Some(v) => Some(v@),
                None => None,
            },
        }
    }
}

impl DeepView for MetaTag {
    type V = MetaTagView;

    open spec fn deep_view(&self) -> MetaTagView {
        self@
    }
}

/// The words of a search, by their kind and in their order.
#[derive(Debug, Clone)]
pub struct QueryData {
    pub tags_included: Vec<String>,
    pub tags_excluded: Vec<String>,
    pub metatags: Vec<MetaTag>,
}

/// The words of a search, as contracts see them.
#[verifier::ext_equal]
pub struct QueryDataView {
    pub tags_included: Seq<Seq<char>>,
    pub tags_excluded: Seq<Seq<char>>,
    pub metatags: Seq<MetaTagView>,
}

impl View for QueryData {
    type V = QueryDataView;

    open spec fn view(&self) -> QueryDataView {
        QueryDataView {
            tags_included: self.tags_included.deep_view(),
            tags_excluded: self.tags_excluded.deep_view(),
            metatags: self.metatags.deep_view(),
        }
    }
}

/// `-`, which starts a tag that an entry must not have.
pub const MINUS: u8 = 45;

/// `@`, which starts a word with a name.
pub const AT_SIGN: u8 = 64;

/// `=`, which parts the name of a word from its value.
pub const EQUALS: u8 = 61;

/// The position of the first `=` at or after `from`, or the length of `s`.
pub open spec fn equals_from(s: Seq<u8>, from: int) -> int {
    run_end(s, from, |b: u8| b == EQUALS)
}

/// What one word of a search says.
pub enum Word {
    /// The word is empty.
    Nothing,
    /// An entry must have the tag.
    Included(Seq<char>),
    /// An entry must not have the tag.
    Excluded(Seq<char>),
    /// The word asks for something else.
    Meta(MetaTagView),
}

/// What the word `word` says.
///
/// A word that starts with `-` names, after the `-`, a tag that an entry
/// must not have. A word that starts with `@` has a name, which runs from
/// the `@` to the first `=` or to the end, and, where there is a `=`, a
/// value, which runs from there to the next `=` or to the end. Any other
/// word that is not empty names a tag that an entry must have.
pub open spec fn word_of(word: Seq<char>) -> Word {
    let s = encode_utf8(word);
    if s.len() == 0 {
        Word::Nothing
    } else if s[0] == MINUS {
        Word::Excluded(decoded(s, 1, s.len() as int))
    } else if s[0] == AT_SIGN {
        let end = equals_from(s, 1);
        if end < s.len() {
            Word::Meta(
                MetaTagView {
                    name: decoded(s, 1, end),
                    value: Some(decoded(s, end + 1, equals_from(s, end + 1))),
                },
            )
        } else {
            Word::Meta(MetaTagView { name: decoded(s, 1, end), value: None })
        }
    } else {
        Word::Included(word)
    }
}

/// The words `query`, with what `word` says added.
pub open spec fn with_word(query: QueryDataView, word: Word) -> QueryDataView {
    match word {
        Word::Nothing => query,
        Word::Included(tag) => QueryDataView {
            tags_included: query.tags_included.push(tag),
            ..query
        },
        Word::Excluded(tag) => QueryDataView {
            tags_excluded: query.tags_excluded.push(tag),
            ..query
        },
        Word::Meta(meta) => QueryDataView { metatags: query.metatags.push(meta), ..query },
    }
}

/// What the words `words` say, by kind and in their order.
pub open spec fn query_of(words: Seq<Seq<char>>) -> QueryDataView
    decreases words.len(),
{
    if words.len() == 0 {
        QueryDataView {
            tags_included: Seq::empty(),
            tags_excluded: Seq::empty(),
            metatags: Seq::empty(),
        }
    } else {
        with_word(query_of(words.drop_last()), word_of(words.last()))
    }
}

/// The position of the first `=` at or after `from`.
fn next_equals(bytes: &[u8], from: usize) -> (end: usize)
    requires
        from <= bytes@.len(),
    ensures
        end == equals_from(bytes@, from as int),
        from <= end <= bytes@.len(),
        end < bytes@.len() ==> bytes@[end as int] == EQUALS,
{
    let n: usize = bytes.len();
    let mut i: usize = from;
    while i < n && bytes[i] != EQUALS
        invariant
            n == bytes@.len(),
            from <= i <= n,
            equals_from(bytes@, from as int) == equals_from(bytes@, i as int),
        decreases n - i,
    {
        i = i + 1;
    }
    proof {
        lemma_run_end(bytes@, i as int, |b: u8| b == EQUALS);
    }
    i
}

/// Reads the word after the `@` of `word`.
fn meta_tag(word: &str, bytes: &[u8]) -> (meta: MetaTag)
    requires
        bytes@ == word.spec_bytes(),
        bytes@.len() > 0,
        bytes@[0] == AT_SIGN,
    ensures
        word_of(word@) == Word::Meta(meta@),
{
    let n: usize = bytes.len();
    proof {
        encode_utf8_valid_utf8(word@);
        lemma_ascii_is_whole_character(bytes@, 0);
    }
    let end: usize = next_equals(bytes, 1);
    proof {
        lemma_boundary_before_ascii_or_end(bytes@, end as int);
    }
    let name: String = substring(word, 1, end);
    if end < n {
        proof {
            lemma_ascii_is_whole_character(bytes@, end as int);
        }
        let stop: usize = next_equals(bytes, end + 1);
        proof {
            lemma_boundary_before_ascii_or_end(bytes@, stop as int);
        }
        let value: String = substring(word, end + 1, stop);
        MetaTag { name, value: Some(value) }
    } else {
        MetaTag { name, value: None }
    }
}

/// Sorts the words of a search by their kind.
pub fn parse_query(query: &[String]) -> (data: QueryData)
    ensures
        data@ == query_of(query.deep_view()),
{
    let ghost words = query.deep_view();
    let mut tags_included: Vec<String> = Vec::new();
    let mut tags_excluded: Vec<String> = Vec::new();
    let mut metatags: Vec<MetaTag> = Vec::new();
    let n: usize = query.len();
    let mut i: usize = 0;
    proof {
        assert(words.take(0) =~= Seq::<Seq<char>>::empty());
        assert(tags_included.deep_view() =~= Seq::<Seq<char>>::empty());
        assert(tags_excluded.deep_view() =~= Seq::<Seq<char>>::empty());
        assert(metatags.deep_view() =~= Seq::<MetaTagView>::empty());
    }
    while i < n
        invariant
            n == query@.len(),
            words == query.deep_view(),
            i <= n,
            query_of(words.take(i as int)) == (QueryDataView {
                tags_included: tags_included.deep_view(),
                tags_excluded: tags_excluded.deep_view(),
                metatags: metatags.deep_view(),
            }),
        decreases n - i,
    {
        let part: &str = query[i].as_str();
        let bytes: &[u8] = part.as_bytes();
        let ghost included = tags_included.deep_view();
        let ghost excluded = tags_excluded.deep_view();
        let ghost named = metatags.deep_view();
        proof {
            assert(words[i as int] == query@[i as int]@);
            assert(words.take(i + 1).drop_last() =~= words.take(i as int));
            assert(words.take(i + 1).last() == words[i as int]);
            encode_utf8_valid_utf8(part@);
        }
        if bytes.len() == 0 {
        } else if bytes[0] == MINUS {
            proof {
                lemma_ascii_is_whole_character(bytes@, 0);
                is_char_boundary_start_end_of_seq(bytes@);
            }
            let tag: String = substring(part, 1, bytes.len());
            tags_excluded.push(tag);
            proof {
                assert(tags_excluded.deep_view() =~= excluded.push(tag@));
            }
        } else if bytes[0] == AT_SIGN {
            let meta: MetaTag = meta_tag(part, bytes);
            metatags.push(meta);
            proof {
                assert(metatags.deep_view() =~= named.push(meta@));
            }
        } else {
            let tag: String = query[i].clone();
            tags_included.push(tag);
            proof {
                assert(tags_included.deep_view() =~= included.push(tag@));
            }
        }
        i = i + 1;
    }
    proof {
        assert(words.take(n as int) =~= words);
    }
    QueryData { tags_included, tags_excluded, metatags }
}

/// What tells the byte `sep` from the others.
pub open spec fn is_byte(sep: u8) -> spec_fn(u8) -> bool {
    |b: u8| b == sep
}

/// The pieces of `s` from `from` on that the byte `sep` parts: each piece
/// as the positions where it starts and ends. There is always a first
/// piece, and one more after each `sep`.
pub open spec fn pieces(s: Seq<u8>, from: int, sep: u8) -> Seq<(int, int)>
    decreases s.len() - from,
    via pieces_decreases
{
    let end = run_end(s, from, is_byte(sep));
    if 0 <= from && end < s.len() {
        seq![(from, end)] + pieces(s, end + 1, sep)
    } else {
        seq![(from, end)]
    }
}

#[via_fn]
proof fn pieces_decreases(s: Seq<u8>, from: int, sep: u8) {
    if 0 <= from <= s.len() {
        lemma_run_end(s, from, is_byte(sep));
    }
}

/// The texts of the pieces of `s` that the byte `sep` parts.
pub open spec fn split_text(s: Seq<u8>, sep: u8) -> Seq<Seq<u8>> {
    pieces(s, 0, sep).map_values(|piece: (int, int)| s.subrange(piece.0, piece.1))
}

/// Parts `text` at each byte `sep`, which is an ASCII character.
pub fn split(text: &str, sep: u8) -> (parts: Vec<String>)
    requires
        sep < 0x80,
    ensures
        parts@.len() == split_text(text.spec_bytes(), sep).len(),
        forall|i: int|
            0 <= i < parts@.len() ==> encode_utf8((#[trigger] parts@[i])@) == split_text(
                text.spec_bytes(),
                sep,
            )[i],
{
    let bytes: &[u8] = text.as_bytes();
    let n: usize = bytes.len();
    let ghost s = bytes@;
    let mut parts: Vec<String> = Vec::new();
    let mut from: usize = 0;
    let mut done: bool = false;
    let ghost mut ranges: Seq<(int, int)> = Seq::empty();
    proof {
        encode_utf8_valid_utf8(text@);
        is_char_boundary_start_end_of_seq(s);
    }
    while !done
        invariant
            s == text.spec_bytes(),
            s == bytes@,
            n == s.len(),
            sep < 0x80,
            valid_utf8(s),
            from <= n,
            is_char_boundary(s, from as int),
            parts@.len() == ranges.len(),
            forall|i: int|
                0 <= i < parts@.len() ==> encode_utf8((#[trigger] parts@[i])@) == s.subrange(
                    ranges[i].0,
                    ranges[i].1,
                ),
            !done ==> pieces(s, 0, sep) == ranges + pieces(s, from as int, sep),
            done ==> pieces(s, 0, sep) == ranges,
        decreases n - from, if done { 0int } else { 1int },
    {
        let mut end: usize = from;
        while end < n && bytes[end] != sep
            invariant
                s == bytes@,
                n == s.len(),
                from <= end <= n,
                run_end(s, from as int, is_byte(sep)) == run_end(s, end as int, is_byte(sep)),
            decreases n - end,
        {
            end = end + 1;
        }
        proof {
            lemma_boundary_before_ascii_or_end(s, end as int);
            assert(run_end(s, end as int, is_byte(sep)) == end);
            assert(run_end(s, from as int, is_byte(sep)) == end);
            assert(pieces(s, from as int, sep) == if end < n {
                seq![(from as int, end as int)] + pieces(s, end + 1, sep)
            } else {
                seq![(from as int, end as int)]
            });
        }
        let piece: String = substring(text, from, end);
        let ghost before = ranges;
        parts.push(piece);
        proof {
            ranges = ranges.push((from as int, end as int));
            if end < n {
                lemma_ascii_is_whole_character(s, end as int);
                assert(before + (seq![(from as int, end as int)] + pieces(s, end + 1, sep))
                    =~= ranges + pieces(s, end + 1, sep));
            } else {
                assert(before + seq![(from as int, end as int)] =~= ranges);
            }
        }
        if end < n {
            from = end + 1;
        } else {
            done = true;
        }
    }
    proof {
        assert(split_text(s, sep).len() == ranges.len());
        assert forall|i: int| 0 <= i < parts@.len() implies encode_utf8((#[trigger] parts@[i])@)
            == split_text(s, sep)[i] by {
            assert(split_text(s, sep)[i] == s.subrange(ranges[i].0, ranges[i].1));
        }
    }
    parts
}

/// The number that the decimal digits `digits` stand for.
pub open spec fn digits_value(digits: Seq<u8>) -> int
    decreases digits.len(),
{
    if digits.len() == 0 {
        0
    } else {
        digits_value(digits.drop_last()) * 10 + (digits.last() - 48)
    }
}

/// Whether `digits` holds decimal digits only.
pub open spec fn all_digits(digits: Seq<u8>) -> bool {
    forall|i: int| 0 <= i < digits.len() ==> 48 <= #[trigger] digits[i] <= 57
}

/// The whole number that `text` is the decimal form of: at least one
/// digit, after a `+` or, where `signed`, a `-`, or after no sign.
pub open spec fn number_of(text: Seq<u8>, signed: bool) -> Option<int> {
    let sign = if text.len() > 0 && (text[0] == 43 || (signed && text[0] == 45)) {
        1int
    } else {
        0int
    };
    let digits = text.subrange(sign, text.len() as int);
    if digits.len() > 0 && all_digits(digits) {
        if sign == 1 && text[0] == 45 {
            Some(-digits_value(digits))
        } else {
            Some(digits_value(digits))
        }
    } else {
        None
    }
}

/// The number that the bytes of `bytes` from `from` on stand for, where
/// they are digits, at least one, and the number is at most `limit`.
fn magnitude(bytes: &[u8], from: usize, limit: u64) -> (number: Option<u64>)
    requires
        from <= bytes@.len(),
        limit <= 0x1_0000_0000,
    ensures
        ({
            let digits = bytes@.subrange(from as int, bytes@.len() as int);
            match number {
                Some(n) => digits.len() > 0 && all_digits(digits) && n == digits_value(digits)
                    && n <= limit,
                None => !(digits.len() > 0 && all_digits(digits) && digits_value(digits) <= limit),
            }
        }),
{
    let n: usize = bytes.len();
    let ghost digits = bytes@.subrange(from as int, n as int);
    if from == n {
        return None;
    }
    let mut value: u64 = 0;
    let mut i: usize = from;
    proof {
        assert(digits.take(0) =~= Seq::<u8>::empty());
    }
    while i < n
        invariant
            n == bytes@.len(),
            digits == bytes@.subrange(from as int, n as int),
            from <= i <= n,
            limit <= 0x1_0000_0000,
            all_digits(digits.take(i - from)),
            value == digits_value(digits.take(i - from)),
            value <= limit,
        decreases n - i,
    {
        let b: u8 = bytes[i];
        let ghost seen = digits.take(i - from);
        let ghost more = digits.take(i + 1 - from);
        proof {
            assert(digits[i - from] == b);
            assert(more.drop_last() =~= seen);
            assert(more.last() == b);
        }
        if b < 48 || b > 57 {
            proof {
                if all_digits(digits) {
                    assert(48 <= digits[i - from] <= 57);
                }
            }
            return None;
        }
        let next: u64 = value * 10 + (b - 48) as u64;
        if next > limit {
            proof {
                if all_digits(digits) {
                    lemma_digits_grow(digits, i + 1 - from);
                }
            }
            return None;
        }
        value = next;
        i = i + 1;
    }
    proof {
        assert(digits.take(n - from) =~= digits);
    }
    Some(value)
}

/// The number of a longer run of digits is not smaller than that of a
/// part of it that starts with it.
proof fn lemma_digits_grow(digits: Seq<u8>, upto: int)
    requires
        0 <= upto <= digits.len(),
        all_digits(digits),
    ensures
        digits_value(digits.take(upto)) <= digits_value(digits),
    decreases digits.len() - upto,
{
    if upto < digits.len() {
        let more = digits.take(upto + 1);
        assert(more.drop_last() =~= digits.take(upto));
        assert(more.last() == digits[upto]);
        assert(digits_value(digits.take(upto)) >= 0) by {
            lemma_digits_are_no_less_than_zero(digits.take(upto));
        }
        lemma_digits_grow(digits, upto + 1);
    } else {
        assert(digits.take(upto) =~= digits);
    }
}

/// A run of digits stands for no number below zero.
proof fn lemma_digits_are_no_less_than_zero(digits: Seq<u8>)
    requires
        all_digits(digits),
    ensures
        digits_value(digits) >= 0,
    decreases digits.len(),
{
    if digits.len() > 0 {
        assert(48 <= digits[digits.len() - 1] <= 57);
        assert forall|i: int| 0 <= i < digits.drop_last().len() implies 48
            <= #[trigger] digits.drop_last()[i] <= 57 by {
            assert(digits.drop_last()[i] == digits[i]);
        }
        lemma_digits_are_no_less_than_zero(digits.drop_last());
    }
}

/// The number without a sign that `text` is the decimal form of, where it
/// is one and fits in 32 bits.
pub open spec fn u32_of(text: Seq<u8>) -> Option<u32> {
    match number_of(text, false) {
        Some(n) => if n <= u32::MAX {
            Some(n as u32)
        } else {
            None
        },
        None => None,
    }
}

/// The number that `text` is the decimal form of, where it is one and
/// fits in 32 bits with a sign.
pub open spec fn i32_of(text: Seq<u8>) -> Option<i32> {
    match number_of(text, true) {
        Some(n) => if i32::MIN <= n <= i32::MAX {
            Some(n as i32)
        } else {
            None
        },
        None => None,
    }
}

/// Reads `text` as a number without a sign: see `u32_of`.
pub fn parse_u32(text: &str) -> (number: Option<u32>)
    ensures
        number == u32_of(text.spec_bytes()),
{
    let bytes: &[u8] = text.as_bytes();
    let from: usize = if bytes.len() > 0 && bytes[0] == 43 {
        1
    } else {
        0
    };
    match magnitude(bytes, from, 0xffff_ffff) {
        Some(n) => Some(n as u32),
        None => None,
    }
}

/// Reads `text` as a number with a sign: see `i32_of`.
pub fn parse_i32(text: &str) -> (number: Option<i32>)
    ensures
        number == i32_of(text.spec_bytes()),
{
    let bytes: &[u8] = text.as_bytes();
    if bytes.len() > 0 && bytes[0] == 45 {
        match magnitude(bytes, 1, 0x8000_0000) {
            Some(n) => Some((0 - n as i64) as i32),
            None => None,
        }
    } else {
        let from: usize = if bytes.len() > 0 && bytes[0] == 43 {
            1
        } else {
            0
        };
        match magnitude(bytes, from, 0x7fff_ffff) {
            Some(n) => Some(n as i32),
            None => None,
        }
    }
}

/// The seconds from the first second of 1970 to the given minute of the
/// given day, in the calendar as `chrono` counts it, without a time zone;
/// `None` where there is no such day or no such minute.
pub uninterp spec fn utc_timestamp_of(year: int, month: int, day: int, hour: int, minute: int) -> Option<
    int,
>;

/// `chrono::NaiveDate::from_ymd_opt`, `chrono::NaiveTime::from_hms_opt`,
/// `chrono::NaiveDateTime::new`, `and_utc` and `timestamp`: the seconds
/// from the first second of 1970 to the given minute, or `None` where
/// `chrono` knows no such day or no such minute. The result depends on the
/// five numbers alone.
#[verifier::external_body]
fn utc_timestamp(year: i32, month: u32, day: u32, hour: u32, minute: u32) -> (seconds: Option<i64>)
    ensures
        match seconds {
            Some(s) => utc_timestamp_of(year as int, month as int, day as int, hour as int, minute as int)
                == Some(s as int),
            None => utc_timestamp_of(year as int, month as int, day as int, hour as int, minute as int)
                is None,
        },
{
    let date = chrono::NaiveDate::from_ymd_opt(year, month, day)?;
    let time = chrono::NaiveTime::from_hms_opt(hour, minute, 0)?;
    Some(chrono::NaiveDateTime::new(date, time).and_utc().timestamp())
}

/// The time that the day and the minute stand for, or what is wrong with
/// them: a day that the calendar does not have, told by its midnight, is
/// an invalid date; an hour beyond 23 or a minute beyond 59 is an invalid
/// time.
pub open spec fn moment(year: int, month: int, day: int, hour: int, minute: int) -> Result<
    int,
    Seq<char>,
> {
    if utc_timestamp_of(year, month, day, 0, 0) is None {
        Err("Invalid date"@)
    } else if !(hour < 24 && minute < 60) {
        Err("Invalid time"@)
    } else {
        match utc_timestamp_of(year, month, day, hour, minute) {
            Some(seconds) => Ok(seconds),
            None => Err("Invalid date"@),
        }
    }
}

/// The time that the text `text` names, in seconds from the first second
/// of 1970, or what is wrong with the text.
///
/// The text is a date and a time with `_` between them; the date is the
/// day, the month and the year with `-` between them, and the time the hour
/// and the minute with `:` between them.
pub open spec fn timestamp_of(text: Seq<u8>) -> Result<int, Seq<char>> {
    let parts = split_text(text, 95);
    if parts.len() != 2 {
        Err("Invalid date format"@)
    } else {
        let date = split_text(parts[0], 45);
        let time = split_text(parts[1], 58);
        if date.len() != 3 {
            Err("Invalid date format"@)
        } else if u32_of(date[0]) is None {
            Err("Failed to parse day"@)
        } else if u32_of(date[1]) is None {
            Err("Failed to parse month"@)
        } else if i32_of(date[2]) is None {
            Err("Failed to parse year"@)
        } else if time.len() != 2 {
            Err("Invalid time format"@)
        } else if u32_of(time[0]) is None {
            Err("Failed to parse hour"@)
        } else if u32_of(time[1]) is None {
            Err("Failed to parse minute"@)
        } else {
            moment(
                i32_of(date[2])->Some_0 as int,
                u32_of(date[1])->Some_0 as int,
                u32_of(date[0])->Some_0 as int,
                u32_of(time[0])->Some_0 as int,
                u32_of(time[1])->Some_0 as int,
            )
        }
    }
}

/// The time that the day and the minute stand for: see `moment`.
pub fn moment_of(year: i32, month: u32, day: u32, hour: u32, minute: u32) -> (seconds: Result<
    i64,
    &'static str,
>)
    ensures
        match seconds {
            Ok(s) => moment(year as int, month as int, day as int, hour as int, minute as int)
                == Ok::<int, Seq<char>>(s as int),
            Err(why) => moment(year as int, month as int, day as int, hour as int, minute as int)
                == Err::<int, Seq<char>>(why@),
        },
{
    if utc_timestamp(year, month, day, 0, 0).is_none() {
        return Err("Invalid date");
    }
    if !(hour < 24 && minute < 60) {
        return Err("Invalid time");
    }
    match utc_timestamp(year, month, day, hour, minute) {
        Some(seconds) => Ok(seconds),
        None => Err("Invalid date"),
    }
}

/// Reads a time of the form `dd-mm-yyyy_hh:mm`: see `timestamp_of`.
pub fn date_string_to_timestamp(date_str: &str) -> (seconds: Result<i64, &'static str>)
    ensures
        match seconds {
            Ok(s) => timestamp_of(date_str.spec_bytes()) == Ok::<int, Seq<char>>(s as int),
            Err(why) => timestamp_of(date_str.spec_bytes()) == Err::<int, Seq<char>>(why@),
        },
{
    let parts: Vec<String> = split(date_str, 95);
    if parts.len() != 2 {
        return Err("Invalid date format");
    }
    let date: Vec<String> = split(parts[0].as_str(), 45);
    let time: Vec<String> = split(parts[1].as_str(), 58);
    if date.len() != 3 {
        return Err("Invalid date format");
    }
    let day: u32 = match parse_u32(date[0].as_str()) {
        Some(day) => day,
        None => {
            return Err("Failed to parse day");
        },
    };
    let month: u32 = match parse_u32(date[1].as_str()) {
        Some(month) => month,
        None => {
            return Err("Failed to parse month");
        },
    };
    let year: i32 = match parse_i32(date[2].as_str()) {
        Some(year) => year,
        None => {
            return Err("Failed to parse year");
        },
    };
    if time.len() != 2 {
        return Err("Invalid time format");
    }
    let hour: u32 = match parse_u32(time[0].as_str()) {
        Some(hour) => hour,
        None => {
            return Err("Failed to parse hour");
        },
    };
    let minute: u32 = match parse_u32(time[1].as_str()) {
        Some(minute) => minute,
        None => {
            return Err("Failed to parse minute");
        },
    };
    moment_of(year, month, day, hour, minute)
}

/// Which of the four bounds on the times of an entry a word sets.
#[derive(Debug, Clone, Copy, PartialEq, Eq, Structural)]
pub enum TimeBound {
    CreatedAfter,
    CreatedBefore,
    UpdatedAfter,
    UpdatedBefore,
}

/// Which yes-or-no condition a word sets.
#[derive(Debug, Clone, Copy, PartialEq, Eq, Structural)]
pub enum Flag {
    IsSet,
    IsFile,
    Untagged,
    IncludeSetFiles,
}

/// What a word with a name asks of a search.
#[derive(Debug, Clone)]
pub enum MetaEffect {
    /// A bound on a time of the entry.
    Bound(TimeBound, i64),
    /// A yes-or-no condition.
    Flag(Flag),
    /// Nothing: the word is at fault, and this is the message.
    Fault(String),
}

/// The effect of a word, as contracts see it.
pub enum MetaEffectView {
    Bound(TimeBound, i64),
    Flag(Flag),
    Fault(Seq<char>),
}

impl View for MetaEffect {
    type V = MetaEffectView;

    open spec fn view(&self) -> MetaEffectView {
        match self {
            MetaEffect::Bound(bound, time) => MetaEffectView::Bound(*bound, *time),
            MetaEffect::Flag(flag) => MetaEffectView::Flag(*flag),
            MetaEffect::Fault(message) => MetaEffectView::Fault(message@),
        }
    }
}

/// The bound that the name `name` stands for, if it stands for one.
pub open spec fn bound_named(name: Seq<char>) -> Option<TimeBound> {
    if name == "created_after"@ {
        Some(TimeBound::CreatedAfter)
    } else if name == "created_before"@ {
        Some(TimeBound::CreatedBefore)
    } else if name == "updated_after"@ {
        Some(TimeBound::UpdatedAfter)
    } else if name == "updated_before"@ {
        Some(TimeBound::UpdatedBefore)
    } else {
        None
    }
}

/// The condition that the name `name` stands for, if it stands for one.
pub open spec fn flag_named(name: Seq<char>) -> Option<Flag> {
    if name == "is_set"@ {
        Some(Flag::IsSet)
    } else if name == "is_file"@ {
        Some(Flag::IsFile)
    } else if name == "untagged"@ {
        Some(Flag::Untagged)
    } else if name == "include_set_files"@ {
        Some(Flag::IncludeSetFiles)
    } else {
        None
    }
}

/// What the word `meta` asks of a search.
///
/// A bound needs a value, which must name a time (see `timestamp_of`); a
/// condition needs none, and what value it has is passed over. A name that
/// stands for neither is at fault.
pub open spec fn effect_of(meta: MetaTagView) -> MetaEffectView {
    match bound_named(meta.name) {
        Some(bound) => match meta.value {
            None => MetaEffectView::Fault(
                "@"@ + meta.name + " needs a value (`dd-mm-yyyy_hh:mm`)"@,
            ),
            Some(value) => match timestamp_of(encode_utf8(value)) {
                Ok(time) => MetaEffectView::Bound(bound, time as i64),
                Err(why) => MetaEffectView::Fault("@"@ + meta.name + ": "@ + why),
            },
        },
        None => match flag_named(meta.name) {
            Some(flag) => MetaEffectView::Flag(flag),
            None => MetaEffectView::Fault("Unknown meta tag "@ + meta.name),
        },
    }
}

/// The bound that `name` stands for: see `bound_named`.
fn bound_of(name: &str) -> (bound: Option<TimeBound>)
    ensures
        bound == bound_named(name@),
{
    if same_text(name, "created_after") {
        Some(TimeBound::CreatedAfter)
    } else if same_text(name, "created_before") {
        Some(TimeBound::CreatedBefore)
    } else if same_text(name, "updated_after") {
        Some(TimeBound::UpdatedAfter)
    } else if same_text(name, "updated_before") {
        Some(TimeBound::UpdatedBefore)
    } else {
        None
    }
}

/// The condition that `name` stands for: see `flag_named`.
fn flag_of(name: &str) -> (flag: Option<Flag>)
    ensures
        flag == flag_named(name@),
{
    if same_text(name, "is_set") {
        Some(Flag::IsSet)
    } else if same_text(name, "is_file") {
        Some(Flag::IsFile)
    } else if same_text(name, "untagged") {
        Some(Flag::Untagged)
    } else if same_text(name, "include_set_files") {
        Some(Flag::IncludeSetFiles)
    } else {
        None
    }
}

/// What the word `meta` asks of a search: see `effect_of`.
pub fn meta_effect(meta: &MetaTag) -> (effect: MetaEffect)
    ensures
        effect@ == effect_of(meta@),
{
    match bound_of(meta.name.as_str()) {
        Some(bound) => match &meta.value {
            None => MetaEffect::Fault(
                concat3("@", meta.name.as_str(), " needs a value (`dd-mm-yyyy_hh:mm`)"),
            ),
            Some(value) => match date_string_to_timestamp(value.as_str()) {
                Ok(time) => MetaEffect::Bound(bound, time),
                Err(why) => {
                    let mut message: String = concat3("@", meta.name.as_str(), ": ");
                    message.append(why);
                    proof {
                        assert(message@ =~= "@"@ + meta.name@ + ": "@ + why@);
                    }
                    MetaEffect::Fault(message)
                },
            },
        },
        None => match flag_of(meta.name.as_str()) {
            Some(flag) => MetaEffect::Flag(flag),
            None => MetaEffect::Fault(concat2("Unknown meta tag ", meta.name.as_str())),
        },
    }
}

/// The search `query` after `effect`.
pub open spec fn applied(query: EntryQueryView, effect: MetaEffectView) -> EntryQueryView {
    match effect {
        MetaEffectView::Bound(TimeBound::CreatedAfter, time) => EntryQueryView {
            created_after: Some(time),
            ..query
        },
        MetaEffectView::Bound(TimeBound::CreatedBefore, time) => EntryQueryView {
            created_before: Some(time),
            ..query
        },
        MetaEffectView::Bound(TimeBound::UpdatedAfter, time) => EntryQueryView {
            updated_after: Some(time),
            ..query
        },
        MetaEffectView::Bound(TimeBound::UpdatedBefore, time) => EntryQueryView {
            updated_before: Some(time),
            ..query
        },
        MetaEffectView::Flag(Flag::IsSet) => EntryQueryView { is_set: true, ..query },
        MetaEffectView::Flag(Flag::IsFile) => EntryQueryView { is_file: true, ..query },
        MetaEffectView::Flag(Flag::Untagged) => EntryQueryView { untagged: true, ..query },
        MetaEffectView::Flag(Flag::IncludeSetFiles) => EntryQueryView {
            include_set_files: true,
            ..query
        },
        MetaEffectView::Fault(_) => query,
    }
}

/// The lines `log` after `effect`: a fault leaves its message.
pub open spec fn logged(log: Seq<Seq<char>>, effect: MetaEffectView) -> Seq<Seq<char>> {
    match effect {
        MetaEffectView::Fault(message) => log.push(message),
        _ => log,
    }
}

/// Makes `effect` on the search `query`; a fault leaves the search as it
/// is and its message in `log`.
pub fn apply_effect(query: &mut EntryQuery, log: &mut Vec<String>, effect: MetaEffect)
    ensures
        final(query)@ == applied(old(query)@, effect@),
        final(log).deep_view() == logged(old(log).deep_view(), effect@),
{
    let ghost lines = log.deep_view();
    match effect {
        MetaEffect::Bound(bound, time) => match bound {
            TimeBound::CreatedAfter => {
                query.created_after = Some(time);
            },
            TimeBound::CreatedBefore => {
                query.created_before = Some(time);
            },
            TimeBound::UpdatedAfter => {
                query.updated_after = Some(time);
            },
            TimeBound::UpdatedBefore => {
                query.updated_before = Some(time);
            },
        },
        MetaEffect::Flag(flag) => match flag {
            Flag::IsSet => {
                query.is_set = true;
            },
            Flag::IsFile => {
                query.is_file = true;
            },
            Flag::Untagged => {
                query.untagged = true;
            },
            Flag::IncludeSetFiles => {
                query.include_set_files = true;
            },
        },
        MetaEffect::Fault(message) => {
            log.push(message);
            proof {
                assert(log.deep_view() =~= lines.push(message@));
            }
        },
    }
    proof {
        assert(query@ =~= applied(old(query)@, effect@));
    }
}

/// The search and the lines after the words `metas`, one after the other.
pub open spec fn after_words(
    query: EntryQueryView,
    log: Seq<Seq<char>>,
    metas: Seq<MetaTagView>,
) -> (EntryQueryView, Seq<Seq<char>>)
    decreases metas.len(),
{
    if metas.len() == 0 {
        (query, log)
    } else {
        let (before, lines) = after_words(query, log, metas.drop_last());
        (applied(before, effect_of(metas.last())), logged(lines, effect_of(metas.last())))
    }
}

/// The search that the words `words` make, where `included` and `excluded`
/// hold, for each tag that an entry must have and for each that it must not
/// have, the identity of the tag, if the catalog knows it.
///
/// Where some tags are unknown, the words make no search, and one line
/// names them. Else the words with a name are taken one after the other;
/// where some are at fault the words make no search, and the lines are
/// their messages.
pub open spec fn search_of(
    words: QueryDataView,
    included: Seq<Option<i64>>,
    excluded: Seq<Option<i64>>,
) -> Result<EntryQueryView, Seq<Seq<char>>> {
    let unknown = unknown_among(words.tags_included, known_tags(included)) + unknown_among(
        words.tags_excluded,
        known_tags(excluded),
    );
    if unknown.len() > 0 {
        Err(seq!["Tag not found: "@ + joined(unknown, " "@)])
    } else {
        let start = EntryQueryView {
            tags_included: identities(included, words.tags_included.len() as int),
            tags_excluded: identities(excluded, words.tags_excluded.len() as int),
            ..EntryQueryView::empty()
        };
        let (query, log) = after_words(start, Seq::empty(), words.metatags);
        if log.len() > 0 {
            Err(log)
        } else {
            Ok(query)
        }
    }
}

/// What `made` holds, as contracts see it.
pub open spec fn made_view(made: Result<EntryQuery, Vec<String>>) -> Result<
    EntryQueryView,
    Seq<Seq<char>>,
> {
    match made {
        Ok(query) => Ok(query@),
        Err(lines) => Err(lines.deep_view()),
    }
}

/// Appends copies of the texts `more` to `list`.
fn append_texts(list: &mut Vec<String>, more: &Vec<String>)
    ensures
        final(list).deep_view() == old(list).deep_view() + more.deep_view(),
{
    let n: usize = more.len();
    let mut i: usize = 0;
    proof {
        assert(list.deep_view() =~= old(list).deep_view() + more.deep_view().take(0));
    }
    while i < n
        invariant
            n == more@.len(),
            i <= n,
            list.deep_view() == old(list).deep_view() + more.deep_view().take(i as int),
        decreases n - i,
    {
        let ghost before = list.deep_view();
        list.push(more[i].clone());
        proof {
            assert(more.deep_view()[i as int] == more@[i as int]@);
            assert(list.deep_view() =~= before.push(more@[i as int]@));
            assert(list.deep_view() =~= old(list).deep_view() + more.deep_view().take(i + 1));
        }
        i = i + 1;
    }
    proof {
        assert(more.deep_view().take(n as int) =~= more.deep_view());
    }
}

/// Makes a search of the words `words`: see `search_of`.
pub fn search_of_words(
    words: &QueryData,
    included: &Vec<Option<i64>>,
    excluded: &Vec<Option<i64>>,
) -> (made: Result<EntryQuery, Vec<String>>)
    ensures
        made_view(made) == search_of(words@, included@, excluded@),
{
    let mut unknown: Vec<String> = unknown_names(&words.tags_included, &known(included));
    let others: Vec<String> = unknown_names(&words.tags_excluded, &known(excluded));
    append_texts(&mut unknown, &others);
    if unknown.len() > 0 {
        let names: String = join(&unknown, " ");
        let lines: Vec<String> = vec![concat2("Tag not found: ", names.as_str())];
        proof {
            assert(lines.deep_view() =~= seq!["Tag not found: "@ + joined(
                unknown.deep_view(),
                " "@,
            )]);
        }
        return Err(lines);
    }
    proof {
        lemma_none_unknown(words@.tags_included, known_tags(included@));
        lemma_none_unknown(words@.tags_excluded, known_tags(excluded@));
        assert forall|i: int| 0 <= i < words.tags_included@.len() implies i < included@.len() && (
        #[trigger] included@[i]) is Some by {
            assert(i < known_tags(included@).len() && known_tags(included@)[i]);
        }
        assert forall|i: int| 0 <= i < words.tags_excluded@.len() implies i < excluded@.len() && (
        #[trigger] excluded@[i]) is Some by {
            assert(i < known_tags(excluded@).len() && known_tags(excluded@)[i]);
        }
        if words.tags_included@.len() > 0 {
            let last = words.tags_included@.len() - 1;
            assert(last < included@.len() && included@[last] is Some);
        }
        if words.tags_excluded@.len() > 0 {
            let last = words.tags_excluded@.len() - 1;
            assert(last < excluded@.len() && excluded@[last] is Some);
        }
    }
    let mut search: EntryQuery = EntryQuery::default();
    search.tags_included = identities_of(included, words.tags_included.len());
    search.tags_excluded = identities_of(excluded, words.tags_excluded.len());
    let mut log: Vec<String> = Vec::new();
    let ghost start = search@;
    let ghost metas = words@.metatags;
    let n: usize = words.metatags.len();
    let mut i: usize = 0;
    proof {
        assert(metas.take(0) =~= Seq::<MetaTagView>::empty());
        assert(log.deep_view() =~= Seq::<Seq<char>>::empty());
    }
    while i < n
        invariant
            n == words.metatags@.len(),
            metas == words@.metatags,
            i <= n,
            (search@, log.deep_view()) == after_words(start, Seq::empty(), metas.take(i as int)),
        decreases n - i,
    {
        proof {
            assert(metas[i as int] == words.metatags@[i as int]@);
            assert(metas.take(i + 1).drop_last() =~= metas.take(i as int));
            assert(metas.take(i + 1).last() == metas[i as int]);
        }
        let effect: MetaEffect = meta_effect(&words.metatags[i]);
        apply_effect(&mut search, &mut log, effect);
        i = i + 1;
    }
    proof {
        assert(metas.take(n as int) =~= metas);
    }
    if log.len() > 0 {
        return Err(log);
    }
    Ok(search)
}

/// Makes a search of the words `query`: looks the tags up in the catalog,
/// and makes of the words what `search_of` says. Where no word names a
/// tag, the catalog is not asked.
pub fn parse_query_string(db: &SyncDb, query: &[String]) -> (made: Result<
    Result<EntryQuery, Vec<String>>,
    CatalogError,
>)
    ensures
        query_of(query.deep_view()).tags_included.len() == 0 && query_of(
            query.deep_view(),
        ).tags_excluded.len() == 0 ==> (made matches Ok(search) && made_view(search) == search_of(
            query_of(query.deep_view()),
            Seq::empty(),
            Seq::empty(),
        )),
        made matches Err(e) ==> e is Database,
        made matches Ok(search) ==> exists|included: Seq<Option<i64>>, excluded: Seq<Option<i64>>|
            {
                &&& included.len() == query_of(query.deep_view()).tags_included.len()
                &&& excluded.len() == query_of(query.deep_view()).tags_excluded.len()
                &&& made_view(search) == #[trigger] search_of(
                    query_of(query.deep_view()),
                    included,
                    excluded,
                )
            },
{
    let words: QueryData = parse_query(query);
    let included: Vec<Option<i64>> = match db.tag_ids(&words.tags_included) {
        Ok(found) => found,
        Err(e) => {
            return Err(e);
        },
    };
    let excluded: Vec<Option<i64>> = match db.tag_ids(&words.tags_excluded) {
        Ok(found) => found,
        Err(e) => {
            return Err(e);
        },
    };
    proof {
        if included@.len() == 0 {
            assert(included@ =~= Seq::<Option<i64>>::empty());
        }
        if excluded@.len() == 0 {
            assert(excluded@ =~= Seq::<Option<i64>>::empty());
        }
    }
    Ok(search_of_words(&words, &included, &excluded))
}

} // verus!
