//! Files and sets.

use crate::database::models::{
    count_of, counted, int_params, push_ints, question_mark_list, question_marks, CatalogError,
    EntryQuery, EntryQueryMatch, EntryQueryParam, EntryQueryParamView, EntryQueryResult,
    UploadFile,
};
use crate::sync_db::statements::{
    all_uploads, asking_listed, asking_membership, covering, creating_file, creating_set,
    finding_upload, forgetting_upload, interning_upload, keeping_upload, listing, placing,
    releasing, unlisting,
};
use crate::sync_db::tags::malformed;
use crate::sync_db::{first_integer, time, SqlValue, SyncDb};
use crate::text::{concat2, push_signed_decimal};
use vstd::prelude::*;
use vstd::string::*;

verus! {

/// The kind of an entry that is a file.
pub const FILE_ENTRY: i64 = 1;

/// The kind of an entry that is a set.
pub const SET_ENTRY: i64 = 2;

/// Why the entry that `row` describes cannot join a set, if it cannot.
///
/// `row` is what the catalog holds of the entry: its kind and the set that
/// it is a member of. An entry that the catalog does not hold is not
/// found; one that is no file has not the identity of a file; one that is a
/// member of a set belongs to that set.
pub open spec fn member_fault_of(row: Option<Seq<SqlValue>>) -> Option<CatalogError> {
    match row {
        None => Some(CatalogError::NotFound),
        Some(values) => if values.len() < 2 || values[0] != SqlValue::Integer(FILE_ENTRY) {
            Some(CatalogError::InvalidId)
        } else if values[1] is Null {
            None
        } else {
            Some(CatalogError::BelongsToSet)
        },
    }
}

/// The row `row` as contracts see it.
pub open spec fn row_view(row: Option<Vec<SqlValue>>) -> Option<Seq<SqlValue>> {
    match row {
        Some(values) => Some(values@),
        None => None,
    }
}

/// Why an entry cannot join a set: see `member_fault_of`.
pub fn member_fault(row: &Option<Vec<SqlValue>>) -> (fault: Option<CatalogError>)
    ensures
        fault == member_fault_of(row_view(*row)),
{
    match row {
        None => Some(CatalogError::NotFound),
        Some(values) => {
            if values.len() < 2 {
                return Some(CatalogError::InvalidId);
            }
            match &values[0] {
                SqlValue::Integer(kind) => {
                    if *kind != FILE_ENTRY {
                        return Some(CatalogError::InvalidId);
                    }
                },
                _ => {
                    return Some(CatalogError::InvalidId);
                },
            }
            match &values[1] {
                SqlValue::Null => None,
                _ => Some(CatalogError::BelongsToSet),
            }
        },
    }
}

/// Whether the entry whose kind `row` holds can be the cover of a set: it
/// must be held by the catalog, and be a file.
pub open spec fn cover_is_file(row: Option<Seq<SqlValue>>) -> bool {
    row matches Some(values) && values.len() > 0 && values[0] == SqlValue::Integer(FILE_ENTRY)
}

/// Whether an entry can be a cover: see `cover_is_file`.
pub fn can_be_cover(row: &Option<Vec<SqlValue>>) -> (can: bool)
    ensures
        can == cover_is_file(row_view(*row)),
{
    match first_integer(row) {
        Some(kind) => kind == FILE_ENTRY,
        None => false,
    }
}

/// The rows `rows` as contracts see them.
pub open spec fn rows_view(rows: Seq<Option<Vec<SqlValue>>>) -> Seq<Option<Seq<SqlValue>>> {
    rows.map_values(|row: Option<Vec<SqlValue>>| row_view(row))
}

/// Why the entries that `members` describes cannot join a set, if they
/// cannot: the fault of the first of them that is at fault.
pub open spec fn first_fault_of(members: Seq<Option<Seq<SqlValue>>>) -> Option<CatalogError>
    decreases members.len(),
{
    if members.len() == 0 {
        None
    } else {
        match first_fault_of(members.drop_last()) {
            Some(fault) => Some(fault),
            None => member_fault_of(members.last()),
        }
    }
}

/// Why the catalog refuses a set, if it does: because of the first member
/// that is at fault; or, where no member is, because the cover is no file.
pub open spec fn set_fault_of(
    members: Seq<Option<Seq<SqlValue>>>,
    cover: Option<Seq<SqlValue>>,
) -> Option<CatalogError> {
    match first_fault_of(members) {
        Some(fault) => Some(fault),
        None => if cover_is_file(cover) {
            None
        } else {
            Some(CatalogError::InvalidCover)
        },
    }
}

/// Whether the entry that `row` describes is a file that is a member of a
/// set.
pub open spec fn is_in_a_set(row: Option<Seq<SqlValue>>) -> bool {
    match row {
        Some(values) => values.len() >= 2 && values[0] == SqlValue::Integer(FILE_ENTRY) && !(
        values[1] is Null),
        None => false,
    }
}

/// The catalog refuses no set whose members are all files in no set and
/// whose cover is a file, and every other set: so a file that is a member
/// of a set joins no other.
pub proof fn lemma_set_fault(members: Seq<Option<Seq<SqlValue>>>, cover: Option<Seq<SqlValue>>)
    ensures
        first_fault_of(members) is None <==> forall|i: int|
            0 <= i < members.len() ==> member_fault_of(#[trigger] members[i]) is None,
        set_fault_of(members, cover) is None <==> cover_is_file(cover) && forall|i: int|
            0 <= i < members.len() ==> member_fault_of(#[trigger] members[i]) is None,
        forall|i: int|
            0 <= i < members.len() && is_in_a_set(#[trigger] members[i]) ==> set_fault_of(
                members,
                cover,
            ) is Some,
    decreases members.len(),
{
    if members.len() > 0 {
        let shorter = members.drop_last();
        lemma_set_fault(shorter, cover);
        assert forall|i: int| 0 <= i < shorter.len() implies shorter[i] == members[i] by {}
        if first_fault_of(members) is None {
            assert forall|i: int| 0 <= i < members.len() implies member_fault_of(
                #[trigger] members[i],
            ) is None by {
                if i < shorter.len() {
                    assert(shorter[i] == members[i]);
                }
            }
        }
        if forall|i: int|
            0 <= i < members.len() ==> member_fault_of(#[trigger] members[i]) is None {
            assert(member_fault_of(members[members.len() - 1]) is None);
            assert forall|i: int| 0 <= i < shorter.len() implies member_fault_of(
                #[trigger] shorter[i],
            ) is None by {
                assert(shorter[i] == members[i]);
            }
        }
    }
}

/// The fault of a member is that it is not found, that it is no file, or
/// that it belongs to a set.
pub proof fn lemma_fault_kinds(members: Seq<Option<Seq<SqlValue>>>)
    ensures
        first_fault_of(members) matches Some(e) ==> e is NotFound || e is InvalidId
            || e is BelongsToSet,
    decreases members.len(),
{
    if members.len() > 0 {
        lemma_fault_kinds(members.drop_last());
    }
}

/// Why entries cannot join a set: see `first_fault_of`.
pub fn first_fault(members: &Vec<Option<Vec<SqlValue>>>) -> (fault: Option<CatalogError>)
    ensures
        fault == first_fault_of(rows_view(members@)),
        fault matches Some(e) ==> e is NotFound || e is InvalidId || e is BelongsToSet,
{
    let ghost rows = rows_view(members@);
    proof {
        lemma_fault_kinds(rows);
    }
    let n: usize = members.len();
    let mut i: usize = 0;
    proof {
        assert(rows.take(0) =~= Seq::<Option<Seq<SqlValue>>>::empty());
    }
    while i < n
        invariant
            n == members@.len(),
            rows == rows_view(members@),
            i <= n,
            first_fault_of(rows.take(i as int)) is None,
        decreases n - i,
    {
        proof {
            assert(rows.take(i + 1).drop_last() =~= rows.take(i as int));
            assert(rows.take(i + 1).last() == row_view(members@[i as int]));
            assert(rows.take(n as int) =~= rows);
        }
        match member_fault(&members[i]) {
            Some(fault) => {
                proof {
                    lemma_first_fault_stays(rows, i + 1);
                }
                return Some(fault);
            },
            None => {},
        }
        i = i + 1;
    }
    proof {
        assert(rows.take(n as int) =~= rows);
    }
    None
}

/// A fault among the first members is the first fault of all.
proof fn lemma_first_fault_stays(members: Seq<Option<Seq<SqlValue>>>, upto: int)
    requires
        0 <= upto <= members.len(),
        first_fault_of(members.take(upto)) is Some,
    ensures
        first_fault_of(members) == first_fault_of(members.take(upto)),
    decreases members.len() - upto,
{
    if upto < members.len() {
        assert(members.take(upto + 1).drop_last() =~= members.take(upto));
        lemma_first_fault_stays(members, upto + 1);
    } else {
        assert(members.take(upto) =~= members);
    }
}

/// Why the catalog refuses a set: see `set_fault_of`.
pub fn set_fault(members: &Vec<Option<Vec<SqlValue>>>, cover: &Option<Vec<SqlValue>>) -> (fault:
    Option<CatalogError>)
    ensures
        fault == set_fault_of(rows_view(members@), row_view(*cover)),
        fault matches Some(e) ==> e is NotFound || e is InvalidId || e is BelongsToSet
            || e is InvalidCover,
{
    match first_fault(members) {
        Some(fault) => Some(fault),
        None => if can_be_cover(cover) {
            None
        } else {
            Some(CatalogError::InvalidCover)
        },
    }
}

/// Why the entry whose kind `row` holds cannot become the cover of a set,
/// if it cannot: because the catalog does not hold it, or because it is no
/// file.
pub open spec fn cover_fault_of(row: Option<Seq<SqlValue>>) -> Option<CatalogError> {
    if row is None {
        Some(CatalogError::NotFound)
    } else if cover_is_file(row) {
        None
    } else {
        Some(CatalogError::InvalidCover)
    }
}

/// Why an entry cannot become the cover of a set: see `cover_fault_of`.
pub fn cover_fault(row: &Option<Vec<SqlValue>>) -> (fault: Option<CatalogError>)
    ensures
        fault == cover_fault_of(row_view(*row)),
{
    if row.is_none() {
        Some(CatalogError::NotFound)
    } else if can_be_cover(row) {
        None
    } else {
        Some(CatalogError::InvalidCover)
    }
}

/// The place that the member at index `index` of a list gets: places are
/// counted from 1.
pub fn place_of(index: usize) -> (place: i64)
    ensures
        place == if index < i64::MAX {
            index + 1
        } else {
            i64::MAX as int
        },
{
    if (index as u64) < 9223372036854775807u64 {
        (index as u64 + 1) as i64
    } else {
        9223372036854775807i64
    }
}

/// The number of pages that `entry_count` entries fill, with `page_size`
/// entries on a page; one page where there is no entry.
pub open spec fn pages(entry_count: int, page_size: int) -> int {
    if entry_count <= 0 {
        1
    } else {
        (entry_count - 1) / page_size + 1
    }
}

/// The number of pages: see `pages`.
pub fn page_count(entry_count: i64, page_size: i64) -> (count: i64)
    requires
        page_size > 0,
    ensures
        count == pages(entry_count as int, page_size as int),
{
    if entry_count <= 0 {
        1
    } else {
        let full: i64 = (entry_count - 1) / page_size;
        assert(full <= entry_count - 1) by (nonlinear_arith)
            requires
                full == (entry_count - 1) / (page_size as int),
                page_size > 0,
                entry_count > 0,
        ;
        full + 1
    }
}

/// The number of entries that stand before page `page`, where pages are
/// counted from 1 and hold `page_size` entries; `None` where the number is
/// beyond what 64 bits hold.
pub fn page_offset(page: i64, page_size: i64) -> (offset: Option<i64>)
    ensures
        match offset {
            Some(o) => o == (page - 1) * page_size,
            None => !(i64::MIN <= (page - 1) * page_size <= i64::MAX),
        },
{
    let before: i128 = page as i128 - 1;
    let size: i128 = page_size as i128;
    assert(-0x4000_0000_0000_0001_0000_0000_0000_0001 <= before * size
        <= 0x4000_0000_0000_0001_0000_0000_0000_0001) by (nonlinear_arith)
        requires
            -0x8000_0000_0000_0001 <= before <= 0x8000_0000_0000_0001,
            -0x8000_0000_0000_0001 <= size <= 0x8000_0000_0000_0001,
    ;
    let wide: i128 = before * size;
    if wide < -9223372036854775808i128 || wide > 9223372036854775807i128 {
        None
    } else {
        Some(wide as i64)
    }
}

/// The text in column `index` of `row`.
fn text_at(row: &Vec<SqlValue>, index: usize) -> (text: Option<String>)
    ensures
        match text {
            Some(t) => index < row@.len() && row@[index as int] is Text && row@[index as int]->Text_0@
                == t@,
            None => !(index < row@.len() && row@[index as int] is Text),
        },
{
    if index < row.len() {
        match &row[index] {
            SqlValue::Text(text) => Some(text.clone()),
            _ => None,
        }
    } else {
        None
    }
}

/// The integer in column `index` of `row`.
fn integer_at(row: &Vec<SqlValue>, index: usize) -> (number: Option<i64>)
    ensures
        match number {
            Some(n) => index < row@.len() && row@[index as int] == SqlValue::Integer(n),
            None => !(index < row@.len() && row@[index as int] is Integer),
        },
{
    if index < row.len() {
        match &row[index] {
            SqlValue::Integer(number) => Some(*number),
            _ => None,
        }
    } else {
        None
    }
}

/// The received file that `row` holds: its identity, its extension and its
/// title, or `None` where the row holds something else.
pub fn upload_of(row: &Vec<SqlValue>) -> (upload: Option<UploadFile>)
    ensures
        match upload {
            Some(u) => {
                &&& row@.len() >= 3
                &&& row@[0] == SqlValue::Integer(u.id)
                &&& row@[1] is Text && row@[1]->Text_0@ == u.ext@
                &&& row@[2] is Text && row@[2]->Text_0@ == u.title@
            },
            None => !(row@.len() >= 3 && row@[0] is Integer && row@[1] is Text && row@[2] is Text),
        },
{
    match (integer_at(row, 0), text_at(row, 1), text_at(row, 2)) {
        (Some(id), Some(ext), Some(title)) => Some(UploadFile { id, ext, title }),
        _ => None,
    }
}

/// Whether `row` holds an entry as a search finds it: six columns at
/// least, of which the first two are the identity and the kind of the
/// entry; and, for a file, its extension in the fourth, for a set, the
/// identity and the extension of its cover in the fifth and the sixth. An
/// entry of any other kind is none that a search can show.
pub open spec fn holds_match(row: Seq<SqlValue>) -> bool {
    &&& row.len() >= 6
    &&& row[0] is Integer
    &&& row[1] is Integer
    &&& if row[1] == SqlValue::Integer(FILE_ENTRY) {
        row[3] is Text
    } else {
        row[1] == SqlValue::Integer(SET_ENTRY) && row[4] is Integer && row[5] is Text
    }
}

/// The entry that a row of a search holds, or `None` where the row holds
/// something else (see `holds_match`).
///
/// The row holds the identity of the entry, its kind, the set that it is a
/// member of, its extension, and the identity and the extension of its
/// cover. A file is shown by itself, a set by its cover.
pub fn match_of(row: &Vec<SqlValue>) -> (found: Option<EntryQueryMatch>)
    ensures
        found is Some <==> holds_match(row@),
        match found {
            Some(m) => {
                &&& row@.len() >= 6
                &&& row@[0] == SqlValue::Integer(m.id)
                &&& row@[1] == SqlValue::Integer(m.kind)
                &&& m.parent_set == match row@[2] {
                    SqlValue::Integer(set) => Some(set),
                    _ => None,
                }
                &&& m.kind == FILE_ENTRY ==> m.img_id == m.id && row@[3] is Text
                    && row@[3]->Text_0@ == m.img_ext@
                &&& m.kind != FILE_ENTRY ==> m.kind == SET_ENTRY && row@[4] == SqlValue::Integer(
                    m.img_id,
                ) && row@[5] is Text && row@[5]->Text_0@ == m.img_ext@
            },
            None => true,
        },
{
    if row.len() < 6 {
        return None;
    }
    let id: i64 = match integer_at(row, 0) {
        Some(id) => id,
        None => {
            return None;
        },
    };
    let kind: i64 = match integer_at(row, 1) {
        Some(kind) => kind,
        None => {
            return None;
        },
    };
    let parent_set: Option<i64> = integer_at(row, 2);
    if kind == FILE_ENTRY {
        match text_at(row, 3) {
            Some(img_ext) => Some(EntryQueryMatch { kind, id, parent_set, img_id: id, img_ext }),
            None => None,
        }
    } else if kind == SET_ENTRY {
        match (integer_at(row, 4), text_at(row, 5)) {
            (Some(img_id), Some(img_ext)) => Some(
                EntryQueryMatch { kind, id, parent_set, img_id, img_ext },
            ),
            _ => None,
        }
    } else {
        None
    }
}

/// The statement that makes entries the members of a set: it takes the
/// identity of the set, the time, and then, for its list of question marks,
/// the identities of the members `members`.
pub open spec fn joining_statement(members: Seq<i64>) -> Seq<char> {
    "update entry set parent_set = ?, time_updated = ? where entry_id in "@ + question_marks(
        counted(members),
    )
}

/// The values for `joining_statement`: the identity of the set, the time,
/// and the identities of the members, in their order.
pub open spec fn joining_values(set_id: i64, now: i64, members: Seq<i64>) -> Seq<
    EntryQueryParamView,
> {
    seq![EntryQueryParamView::Int(set_id), EntryQueryParamView::Int(now)] + int_params(members)
}

/// What is handed to the engine to make the entries `members` the members
/// of the set `set_id` at the time `now`: the statement and its values.
pub fn joining(set_id: i64, now: i64, members: &Vec<i64>) -> (handed: (
    String,
    Vec<EntryQueryParam>,
))
    ensures
        handed.0@ == joining_statement(members@),
        handed.1.deep_view() == joining_values(set_id, now, members@),
{
    let mut values: Vec<EntryQueryParam> = vec![
        EntryQueryParam::Int(set_id),
        EntryQueryParam::Int(now),
    ];
    proof {
        assert(values.deep_view() =~= seq![
            EntryQueryParamView::Int(set_id),
            EntryQueryParamView::Int(now),
        ]);
    }
    push_ints(&mut values, members);
    let list: String = question_mark_list(count_of(members));
    let sql: String = concat2(
        "update entry set parent_set = ?, time_updated = ? where entry_id in ",
        list.as_str(),
    );
    (sql, values)
}

/// The statement that counts the entries that meet `conditions`.
pub fn count_statement(conditions: &str) -> (sql: String)
    ensures
        sql@ == "select count(*) from entry e where "@ + conditions@,
{
    let mut sql: String = String::from_str("select count(*) from entry e where ");
    sql.append(conditions);
    sql
}

/// The head of the statement that finds a page of entries.
pub const PAGE_HEAD: &'static str =
    "select
                    e.entry_id,
                    e.entry_type,
                    e.parent_set,
                    e.ext,
                    ec.entry_id,
                    ec.ext
                from entry e
                left join entry ec on e.cover = ec.entry_id
                where ";

/// The statement that finds the entries that meet `conditions`,
/// `page_size` of them after the first `page_offset`.
pub fn page_statement(conditions: &str, page_size: i64, page_offset: i64) -> (sql: String)
    ensures
        sql@ == PAGE_HEAD@ + conditions@ + "\n                limit "@
            + crate::text::signed_decimal(page_size as int) + " offset "@
            + crate::text::signed_decimal(page_offset as int),
{
    let mut sql: String = String::from_str(PAGE_HEAD);
    sql.append(conditions);
    sql.append("\n                limit ");
    push_signed_decimal(&mut sql, page_size);
    sql.append(" offset ");
    push_signed_decimal(&mut sql, page_offset);
    sql
}

impl SyncDb {
    /// Makes an entry for a file with the extension `ext`, and returns its
    /// identity. The engine is handed what `creating_file` makes of the
    /// extension and the time.
    pub fn new_file(&self, ext: String) -> (id: Result<i64, CatalogError>)
        ensures
            id matches Err(e) ==> e is Database,
    {
        let (sql, values) = creating_file(ext, time(), time());
        self.insert_row(sql.as_str(), &values)
    }

    /// What the catalog holds of the entry `id` that matters for a set: its
    /// kind and the set that it is a member of. The engine is handed what
    /// `asking_membership` makes of the identity.
    pub fn membership(&self, id: i64) -> (row: Result<Option<Vec<SqlValue>>, CatalogError>)
        ensures
            row matches Ok(Some(values)) ==> values@.len() == 2,
            row matches Err(e) ==> e is Database,
    {
        let (sql, values, columns) = asking_membership(id);
        self.first_row(sql.as_str(), &values, columns)
    }

    /// What the catalog holds of each of the entries `ids`: see
    /// `membership`.
    pub fn memberships(&self, ids: &Vec<i64>) -> (rows: Result<
        Vec<Option<Vec<SqlValue>>>,
        CatalogError,
    >)
        ensures
            rows matches Ok(list) ==> list@.len() == ids@.len(),
            rows matches Err(e) ==> e is Database,
            ids@.len() == 0 ==> rows is Ok,
    {
        let n: usize = ids.len();
        let mut rows: Vec<Option<Vec<SqlValue>>> = Vec::new();
        let mut i: usize = 0;
        while i < n
            invariant
                n == ids@.len(),
                i <= n,
                rows@.len() == i,
            decreases n - i,
        {
            match self.membership(ids[i]) {
                Ok(row) => {
                    rows.push(row);
                },
                Err(e) => {
                    return Err(e);
                },
            }
            i = i + 1;
        }
        Ok(rows)
    }

    /// Makes a set of the files `members`, with `cover` to stand for it,
    /// and returns its identity.
    ///
    /// Nothing is changed unless every member is a file that is in no set,
    /// and the cover is a file: what the catalog holds of the members and
    /// of the cover decides, as `set_fault_of` says. So a refusal is the
    /// fault of one of the members, or that of the cover; and a set
    /// without members is refused for its cover only. A set is made only
    /// where they show no fault. The engine is then handed what
    /// `creating_set` makes of the cover and the time, and what `joining`
    /// makes of the identity that it gave the set, the same time and the
    /// members.
    pub fn new_set(&self, cover: i64, members: Vec<i64>) -> (id: Result<i64, CatalogError>)
        ensures
            id matches Err(e) ==> e is Database || e is NotFound || e is InvalidId
                || e is BelongsToSet || e is InvalidCover,
            id matches Err(e) ==> e is Database || exists|
                held: Seq<Option<Seq<SqlValue>>>,
                cover_held: Option<Seq<SqlValue>>,
            |
                held.len() == members@.len() && #[trigger] set_fault_of(held, cover_held) == Some(
                    e,
                ),
            id is Ok ==> exists|
                held: Seq<Option<Seq<SqlValue>>>,
                cover_held: Option<Seq<SqlValue>>,
            |
                held.len() == members@.len() && #[trigger] set_fault_of(held, cover_held) is None,
            members@.len() == 0 ==> (id matches Err(e) ==> e is Database || e is InvalidCover),
    {
        let rows: Vec<Option<Vec<SqlValue>>> = match self.memberships(&members) {
            Ok(rows) => rows,
            Err(e) => {
                return Err(e);
            },
        };
        let cover_row: Option<Vec<SqlValue>> = match self.membership(cover) {
            Ok(row) => row,
            Err(e) => {
                return Err(e);
            },
        };
        match set_fault(&rows, &cover_row) {
            Some(fault) => {
                proof {
                    let held = rows_view(rows@);
                    assert(held.len() == members@.len());
                    assert(set_fault_of(held, row_view(cover_row)) == Some(fault));
                    if members@.len() == 0 {
                        assert(first_fault_of(held) is None);
                    }
                }
                return Err(fault);
            },
            None => {
                proof {
                    let held = rows_view(rows@);
                    assert(held.len() == members@.len());
                    assert(set_fault_of(held, row_view(cover_row)) is None);
                }
            },
        }
        let now: i64 = time();
        let (creating, created) = creating_set(cover, now);
        let set_id: i64 = match self.insert_row(creating.as_str(), &created) {
            Ok(id) => id,
            Err(e) => {
                return Err(e);
            },
        };
        let (sql, joined) = joining(set_id, now, &members);
        match self.run(sql.as_str(), &joined) {
            Ok(()) => Ok(set_id),
            Err(e) => Err(e),
        }
    }

    /// Whether the file `file_id` is listed in the set `set_id`.
    pub fn is_listed(&self, set_id: i64, file_id: i64) -> (listed: Result<bool, CatalogError>)
        ensures
            listed matches Err(e) ==> e is Database,
    {
        let (sql, values, columns) = asking_listed(set_id, file_id);
        match self.first_row(sql.as_str(), &values, columns) {
            Ok(row) => Ok(row.is_some()),
            Err(e) => Err(e),
        }
    }

    /// Gives the files of the set `set_id` the order `entries`: the first
    /// gets place 1. Nothing is changed, and the error is `InvalidId`,
    /// unless the set lists every file of `entries`. For no files there is
    /// nothing to ask of the catalog and nothing to do.
    pub fn reorder_set(&self, set_id: i64, entries: Vec<i64>) -> (done: Result<(), CatalogError>)
        ensures
            done matches Err(e) ==> e is Database || e is InvalidId,
            entries@.len() == 0 ==> done is Ok,
    {
        let n: usize = entries.len();
        let mut i: usize = 0;
        while i < n
            invariant
                n == entries@.len(),
                i <= n,
            decreases n - i,
        {
            match self.is_listed(set_id, entries[i]) {
                Err(e) => {
                    return Err(e);
                },
                Ok(false) => {
                    return Err(CatalogError::InvalidId);
                },
                Ok(true) => {},
            }
            i = i + 1;
        }
        let mut k: usize = 0;
        while k < n
            invariant
                n == entries@.len(),
                k <= n,
            decreases n - k,
        {
            let (sql, values) = placing(place_of(k), set_id, entries[k]);
            match self.run(sql.as_str(), &values) {
                Ok(()) => {},
                Err(e) => {
                    return Err(e);
                },
            }
            k = k + 1;
        }
        Ok(())
    }

    /// Takes the files `files` out of the set `set_id`; a file that the set
    /// does not list is passed over. For no files there is nothing to ask
    /// of the catalog and nothing to do.
    pub fn remove_from_set(&self, set_id: i64, files: Vec<i64>) -> (done: Result<
        (),
        CatalogError,
    >)
        ensures
            done matches Err(e) ==> e is Database,
            files@.len() == 0 ==> done is Ok,
    {
        let n: usize = files.len();
        let mut i: usize = 0;
        while i < n
            invariant
                n == files@.len(),
                i <= n,
            decreases n - i,
        {
            let listed: bool = match self.is_listed(set_id, files[i]) {
                Ok(listed) => listed,
                Err(e) => {
                    return Err(e);
                },
            };
            if listed {
                let (unlist, pair) = unlisting(set_id, files[i]);
                match self.run(unlist.as_str(), &pair) {
                    Ok(()) => {},
                    Err(e) => {
                        return Err(e);
                    },
                }
                let (release, one) = releasing(files[i]);
                match self.run(release.as_str(), &one) {
                    Ok(()) => {},
                    Err(e) => {
                        return Err(e);
                    },
                }
            }
            i = i + 1;
        }
        Ok(())
    }

    /// Lists the files `files` in the set `set_id`, after those that it
    /// lists. Nothing is changed unless every one of them is a file that is
    /// in no set: what the catalog holds of them decides, as
    /// `first_fault_of` says, so a refusal is the fault of one of them. For
    /// no files there is nothing to ask of the catalog and nothing to do.
    pub fn add_to_set(&self, set_id: i64, files: Vec<i64>) -> (done: Result<(), CatalogError>)
        ensures
            done matches Err(e) ==> e is Database || e is NotFound || e is InvalidId
                || e is BelongsToSet,
            done matches Err(e) ==> e is Database || exists|held: Seq<Option<Seq<SqlValue>>>|
                held.len() == files@.len() && #[trigger] first_fault_of(held) == Some(e),
            done is Ok ==> exists|held: Seq<Option<Seq<SqlValue>>>|
                held.len() == files@.len() && #[trigger] first_fault_of(held) is None,
            files@.len() == 0 ==> done is Ok,
    {
        let rows: Vec<Option<Vec<SqlValue>>> = match self.memberships(&files) {
            Ok(rows) => rows,
            Err(e) => {
                return Err(e);
            },
        };
        match first_fault(&rows) {
            Some(fault) => {
                proof {
                    let held = rows_view(rows@);
                    assert(held.len() == files@.len());
                    assert(first_fault_of(held) == Some(fault));
                }
                return Err(fault);
            },
            None => {
                proof {
                    let held = rows_view(rows@);
                    assert(held.len() == files@.len());
                    assert(first_fault_of(held) is None);
                }
            },
        }
        let n: usize = files.len();
        let mut k: usize = 0;
        while k < n
            invariant
                n == files@.len(),
                k <= n,
                exists|held: Seq<Option<Seq<SqlValue>>>|
                    held.len() == files@.len() && #[trigger] first_fault_of(held) is None,
            decreases n - k,
        {
            let (sql, values) = listing(set_id, files[k]);
            match self.run(sql.as_str(), &values) {
                Ok(()) => {},
                Err(e) => {
                    return Err(e);
                },
            }
            k = k + 1;
        }
        Ok(())
    }

    /// Makes the file `cover` stand for the set `set_id`. Fails with
    /// `NotFound` where the catalog holds no entry `cover`, and with
    /// `InvalidCover` where that entry is no file: what the catalog holds
    /// of the cover decides, as `cover_fault_of` says.
    pub fn set_cover(&self, set_id: i64, cover: i64) -> (done: Result<(), CatalogError>)
        ensures
            done matches Err(e) ==> e is Database || e is NotFound || e is InvalidCover,
            done matches Err(e) ==> e is Database || exists|held: Option<Seq<SqlValue>>|
                #[trigger] cover_fault_of(held) == Some(e),
            done is Ok ==> exists|held: Option<Seq<SqlValue>>| #[trigger]
                cover_fault_of(held) is None,
    {
        match self.membership(cover) {
            Err(e) => {
                return Err(e);
            },
            Ok(row) => match cover_fault(&row) {
                Some(fault) => {
                    proof {
                        assert(cover_fault_of(row_view(row)) == Some(fault));
                    }
                    return Err(fault);
                },
                None => {
                    proof {
                        assert(cover_fault_of(row_view(row)) is None);
                    }
                },
            },
        }
        let (sql, values) = covering(cover, set_id);
        self.run(sql.as_str(), &values)
    }

    /// Keeps the received file `upload`, and returns its identity.
    pub fn post_upload(&self, upload: UploadFile) -> (id: Result<i64, CatalogError>)
        ensures
            id matches Err(e) ==> e is Database,
    {
        let (sql, values) = keeping_upload(upload.ext, upload.title);
        self.insert_row(sql.as_str(), &values)
    }

    /// The received file `id`, where the catalog keeps one.
    pub fn get_upload(&self, id: i64) -> (upload: Result<Option<UploadFile>, CatalogError>)
        ensures
            upload matches Err(e) ==> e is Database,
    {
        let (sql, values, columns) = finding_upload(id);
        match self.first_row(sql.as_str(), &values, columns) {
            Err(e) => Err(e),
            Ok(None) => Ok(None),
            Ok(Some(row)) => match upload_of(&row) {
                Some(upload) => Ok(Some(upload)),
                None => Err(malformed()),
            },
        }
    }

    /// Forgets the received file `id`.
    pub fn delete_upload(&self, id: i64) -> (done: Result<(), CatalogError>)
        ensures
            done matches Err(e) ==> e is Database,
    {
        let (sql, values) = forgetting_upload(id);
        self.run(sql.as_str(), &values)
    }

    /// Makes a file of the received file `upload`, and returns its
    /// identity.
    pub fn intern_upload(&self, upload: UploadFile) -> (id: Result<i64, CatalogError>)
        ensures
            id matches Err(e) ==> e is Database,
    {
        let (sql, values) = interning_upload(upload.ext, time(), time());
        self.insert_row(sql.as_str(), &values)
    }

    /// The received files that the catalog keeps.
    pub fn get_uploads(&self) -> (uploads: Result<Vec<UploadFile>, CatalogError>)
        ensures
            uploads matches Err(e) ==> e is Database,
    {
        let (sql, values, columns) = all_uploads();
        let rows: Vec<Vec<SqlValue>> = match self.all_rows(sql.as_str(), &values, columns) {
            Ok(rows) => rows,
            Err(e) => {
                return Err(e);
            },
        };
        let n: usize = rows.len();
        let mut uploads: Vec<UploadFile> = Vec::new();
        let mut i: usize = 0;
        while i < n
            invariant
                n == rows@.len(),
                i <= n,
                uploads@.len() == i,
            decreases n - i,
        {
            match upload_of(&rows[i]) {
                Some(upload) => {
                    uploads.push(upload);
                },
                None => {
                    return Err(malformed());
                },
            }
            i = i + 1;
        }
        Ok(uploads)
    }

    /// Page `page` of the entries that meet `query_info`, with `page_size`
    /// entries on a page; pages are counted from 1.
    pub fn query(&self, query_info: &EntryQuery, page: i64, page_size: i64) -> (found: Result<
        EntryQueryResult,
        CatalogError,
    >)
        requires
            page_size > 0,
            i64::MIN <= (page - 1) * page_size <= i64::MAX,
        ensures
            found matches Err(e) ==> e is Database,
            found matches Ok(result) ==> {
                &&& result.page == page
                &&& result.page_size == page_size
                &&& result.page_count == pages(result.entry_count as int, page_size as int)
            },
    {
        let (conditions, args) = query_info.generate_query();
        let offset: i64 = match page_offset(page, page_size) {
            Some(offset) => offset,
            None => {
                return Err(malformed());
            },
        };
        let count_sql: String = count_statement(conditions.as_str());
        let entry_count: i64 = match self.first_row(count_sql.as_str(), &args, 1) {
            Err(e) => {
                return Err(e);
            },
            Ok(row) => match first_integer(&row) {
                Some(count) => count,
                None => {
                    return Err(malformed());
                },
            },
        };
        let page_sql: String = page_statement(conditions.as_str(), page_size, offset);
        let rows: Vec<Vec<SqlValue>> = match self.all_rows(page_sql.as_str(), &args, 6) {
            Ok(rows) => rows,
            Err(e) => {
                return Err(e);
            },
        };
        let n: usize = rows.len();
        let mut entries: Vec<EntryQueryMatch> = Vec::new();
        let mut i: usize = 0;
        while i < n
            invariant
                n == rows@.len(),
                i <= n,
                entries@.len() == i,
            decreases n - i,
        {
            match match_of(&rows[i]) {
                Some(entry) => {
                    entries.push(entry);
                },
                None => {
                    return Err(malformed());
                },
            }
            i = i + 1;
        }
        Ok(
            EntryQueryResult {
                entry_count,
                page,
                page_size,
                page_count: page_count(entry_count, page_size),
                page_entries: entries,
            },
        )
    }
}

} // verus!
