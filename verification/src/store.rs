//! The store of practice records: one table in one SQLite database.

use vstd::arithmetic::power2::{lemma_pow2_strictly_increases, lemma_pow2_unfold, pow2};
use vstd::prelude::*;
use vstd::string::*;

use crate::binary64::{a_mean_of_fractions_is_one, are_fractions, is_mean, means_agree, signed_steps};
use crate::domain::{all_records, date_of, dates_of, is_roll_up, kinds_survive_storage, the_last_time_is_one, totals_of, PracticeKind, PracticeRecord, RecordView, Score, Stats};
use crate::error::{AppError, AppResult};
use crate::mean::{a_mean_is_near_the_mean, is_mean_of};
use crate::sql;
use crate::sql::{are_all_ids, cell, cells, cells_of, day_of, day_prefix, days_in, db, is_complete, is_latest, is_new, is_newest, kept, matching, real_in, row_of, row_read, rows_read, table, totals, undone, with_row, Cell, Db, Part, Row, MEAN_DIGITS, MEAN_ROWS};
use crate::text::{first_place, has_prefix, text_in_order};

verus! {

// ---------------------------------------------------------------- rows and records

/// The row that a record is written as.
pub open spec fn row_from(r: RecordView) -> Row {
    Row {
        id: r.id,
        kind: r.kind.word(),
        target: r.target,
        transcript: r.transcript,
        total: r.total,
        accuracy: r.accuracy,
        fluency: r.fluency,
        completeness: r.completeness,
        label: r.label,
        at: r.at,
    }
}

/// The record that a row is read as.
pub open spec fn record_of(r: Row) -> RecordView {
    RecordView {
        id: r.id,
        kind: PracticeKind::stored_as(r.kind),
        target: r.target,
        transcript: r.transcript,
        total: r.total,
        accuracy: r.accuracy,
        fluency: r.fluency,
        completeness: r.completeness,
        label: r.label,
        at: r.at,
    }
}

fn text_of(v: &rusqlite::types::Value) -> (r: Option<String>)
    ensures
        r is Some == (cell(*v) is Text),
        r matches Some(s) ==> s@ == cell(*v)->Text_0,
{
    match sql::part(v) {
        Part::Text(s) => Some(s.to_owned()),
        _ => None,
    }
}

fn score_of(v: &rusqlite::types::Value) -> (r: Option<Score>)
    ensures
        r is Some == (real_in(cell(*v)) is Some),
        r matches Some(s) ==> s.bits() == real_in(cell(*v))->0,
{
    match sql::as_real(v) {
        Some(x) => Score::new(x),
        None => None,
    }
}

fn integer_of(v: &rusqlite::types::Value) -> (r: Option<i64>)
    ensures
        r is Some == (cell(*v) is Integer),
        r matches Some(n) ==> n == cell(*v)->Integer_0,
{
    match sql::part(v) {
        Part::Integer(n) => Some(n),
        _ => None,
    }
}

/// The record that a row of cells is read as; `None` if it is no row of the table. A
/// kind that is not known is no fault, nor is a score that is an integer.
pub fn row_to_record(row: &Vec<rusqlite::types::Value>) -> (r: Option<PracticeRecord>)
    ensures
        r is Some == (row_read(cells(row@)) is Some),
        r matches Some(x) ==> x@ == record_of(row_read(cells(row@))->0),
{
    if row.len() != 10 {
        return None;
    }
    assert forall|i: int| 0 <= i < 10 implies #[trigger] cells(row@)[i] == cell(row@[i]) by {}
    match (
        text_of(&row[0]),
        text_of(&row[1]),
        text_of(&row[2]),
        text_of(&row[3]),
        score_of(&row[4]),
        score_of(&row[5]),
        score_of(&row[6]),
        score_of(&row[7]),
        text_of(&row[8]),
        text_of(&row[9]),
    ) {
        (
            Some(id),
            Some(kind),
            Some(target),
            Some(transcript),
            Some(total),
            Some(accuracy),
            Some(fluency),
            Some(completeness),
            Some(label),
            Some(at),
        ) => {
            let kind = PracticeKind::from_stored(kind.as_str());
            Some(
                PracticeRecord {
                    id,
                    kind,
                    target,
                    transcript,
                    total,
                    accuracy,
                    fluency,
                    completeness,
                    label,
                    at,
                },
            )
        },
        _ => None,
    }
}

/// The number in 64 bits without a sign that has the bits of `n`.
pub open spec fn unsigned_of(n: int) -> int {
    if n >= 0 {
        n
    } else {
        n + 0x1_0000_0000_0000_0000
    }
}

fn unsigned(n: i64) -> (r: u64)
    ensures
        r == unsigned_of(n as int),
{
    if n >= 0 {
        n as u64
    } else {
        (n as i128 + 0x1_0000_0000_0000_0000) as u64
    }
}

/// Whether a row of cells is a summary: two counts, an average or none, and a time or
/// none.
pub open spec fn is_stats_row(c: Seq<Cell>) -> bool {
    &&& c.len() == 4
    &&& c[0] is Integer
    &&& c[1] is Integer
    &&& c[2] is Null || real_in(c[2]) is Some
    &&& c[3] is Null || c[3] is Text
}

/// The summary that a row of cells is read as; `None` if it is none. No average counts
/// as 0.
pub fn row_to_stats(row: &Vec<rusqlite::types::Value>) -> (r: Option<Stats>)
    ensures
        r is Some == is_stats_row(cells(row@)),
        r matches Some(s) ==> is_read_as(cells(row@), s),
{
    if row.len() != 4 {
        return None;
    }
    assert forall|i: int| 0 <= i < 4 implies #[trigger] cells(row@)[i] == cell(row@[i]) by {}
    let total = match integer_of(&row[0]) {
        Some(n) => n,
        None => return None,
    };
    let days = match integer_of(&row[1]) {
        Some(n) => n,
        None => return None,
    };
    let average_total: u64 = match sql::part(&row[2]) {
        Part::Null => 0,
        _ => match score_of(&row[2]) {
            Some(s) => s.to_bits(),
            None => return None,
        },
    };
    let last_practiced_at = match sql::part(&row[3]) {
        Part::Null => None,
        Part::Text(at) => Some(at.to_owned()),
        _ => return None,
    };
    Some(
        Stats {
            total_sessions: unsigned(total),
            active_days: unsigned(days),
            average_total,
            last_practiced_at,
        },
    )
}

/// The values that a record is written with.
pub fn record_params(r: &PracticeRecord) -> (v: Vec<rusqlite::types::Value>)
    ensures
        cells(v@) == cells_of(row_from(r@)),
{
    let mut v: Vec<rusqlite::types::Value> = Vec::new();
    v.push(sql::text_value(r.id.as_str()));
    v.push(sql::text_value(r.kind.as_str()));
    v.push(sql::text_value(r.target.as_str()));
    v.push(sql::text_value(r.transcript.as_str()));
    v.push(r.total.value());
    v.push(r.accuracy.value());
    v.push(r.fluency.value());
    v.push(r.completeness.value());
    v.push(sql::text_value(r.label.as_str()));
    v.push(sql::text_value(r.at.as_str()));
    assert(cells(v@) =~= cells_of(row_from(r@)));
    v
}

// ---------------------------------------------------------------- what writing does

/// The table after records have been written in turn.
pub open spec fn all_written(rows: Map<Seq<char>, Row>, records: Seq<RecordView>) -> Map<Seq<char>, Row>
    decreases records.len(),
{
    if records.len() == 0 {
        rows
    } else {
        with_row(all_written(rows, records.drop_last()), row_from(records.last()))
    }
}

/// How many of the records were new.
pub open spec fn new_ones(rows: Map<Seq<char>, Row>, records: Seq<RecordView>) -> nat
    decreases records.len(),
{
    if records.len() == 0 {
        0
    } else {
        let before = all_written(rows, records.drop_last());
        new_ones(rows, records.drop_last()) + if is_new(before, row_from(records.last())) {
            1nat
        } else {
            0
        }
    }
}

/// What `limit` means to the database: more than it can count means no limit.
pub open spec fn limit_of(limit: usize) -> int {
    if limit <= i64::MAX {
        limit as int
    } else {
        -1
    }
}

/// The word by which a kind is looked for.
pub open spec fn kind_word(kind: Option<PracticeKind>) -> Option<Seq<char>> {
    match kind {
        Some(k) => Some(k.word()),
        None => None,
    }
}

/// Whether these are the newest records of a kind, the newest first.
pub open spec fn is_listing(rows: Map<Seq<char>, Row>, kind: Option<PracticeKind>, limit: usize, out: Seq<RecordView>) -> bool {
    exists|ids: Seq<Seq<char>>|
        #[trigger] is_newest(rows, kind_word(kind), limit_of(limit), ids) && out == ids.map_values(
            |id: Seq<char>| record_of(rows[id]),
        )
}

/// Whether this sums the rows up. The average of several rows is their mean but for
/// rounding, where it is known how much that is.
pub open spec fn is_summary(rows: Map<Seq<char>, Row>, s: Stats) -> bool {
    &&& s.total_sessions == rows.len()
    &&& s.active_days == days_in(rows).len()
    &&& rows.len() == 0 ==> s.average_total == 0
    &&& forall|id: Seq<char>|
        rows.len() == 1 && rows.dom().contains(id) ==> s.average_total == (#[trigger] rows[id]).total
    &&& forall|ids: Seq<Seq<char>>|
        are_all_ids(rows, ids) && 0 < ids.len() <= MEAN_ROWS && are_fractions(#[trigger] totals(rows, ids)) ==> is_mean(
            totals(rows, ids),
            s.average_total,
            MEAN_DIGITS as nat,
        )
    &&& s.last_practiced_at is Some == (rows.len() > 0)
    &&& s.last_practiced_at matches Some(at) ==> is_latest(rows, at@)
}

// ---------------------------------------------------------------- the store

/// Whether an error is an internal one that begins with `what`.
pub open spec fn is_failure(e: AppError, what: Seq<char>) -> bool {
    e matches AppError::Internal(why) && has_prefix(why@, what)
}

fn failure(what: &str, e: &rusqlite::Error) -> (r: AppError)
    ensures
        is_failure(r, what@),
{
    let why = what.to_owned().concat(sql::error_text(e).as_str());
    assert(why@.take(what@.len() as int) =~= what@);
    AppError::Internal(why)
}

fn misread(what: &str) -> (r: AppError)
    ensures
        is_failure(r, what@),
{
    let why = what.to_owned().concat("结果的形状不对");
    assert(why@.take(what@.len() as int) =~= what@);
    AppError::Internal(why)
}

/// The query for a listing and the values that it is asked with.
pub fn page(kind: Option<PracticeKind>, limit: usize) -> (r: (&'static str, Vec<rusqlite::types::Value>))
    ensures
        match kind {
            None => r.0@ == sql::PAGE@ && cells(r.1@) == seq![Cell::Integer(limit_of(limit))],
            Some(k) => r.0@ == sql::PAGE_OF_KIND@ && cells(r.1@) == seq![
                Cell::Text(k.word()),
                Cell::Integer(limit_of(limit)),
            ],
        },
{
    let bound: i64 = if limit as u64 <= i64::MAX as u64 {
        limit as i64
    } else {
        -1
    };
    let mut params: Vec<rusqlite::types::Value> = Vec::new();
    match kind {
        None => {
            params.push(sql::integer_value(bound));
            assert(cells(params@) =~= seq![Cell::Integer(limit_of(limit))]);
            (sql::PAGE, params)
        },
        Some(k) => {
            params.push(sql::text_value(k.as_str()));
            params.push(sql::integer_value(bound));
            assert(cells(params@) =~= seq![Cell::Text(k.word()), Cell::Integer(limit_of(limit))]);
            (sql::PAGE_OF_KIND, params)
        },
    }
}

/// The values with which a record is looked for or removed by its id.
pub fn id_params(id: &str) -> (v: Vec<rusqlite::types::Value>)
    ensures
        cells(v@) == seq![Cell::Text(id@)],
{
    let mut v: Vec<rusqlite::types::Value> = Vec::new();
    v.push(sql::text_value(id));
    assert(cells(v@) =~= seq![Cell::Text(id@)]);
    v
}

/// Whether each of a list of rows can be read as a record.
pub open spec fn are_rows(rows: Seq<Seq<Cell>>) -> bool {
    forall|i: int| 0 <= i < rows.len() ==> row_read(#[trigger] rows[i]) is Some
}

/// The records that a list of rows is read as.
pub open spec fn records_read(rows: Seq<Seq<Cell>>) -> Seq<RecordView> {
    rows.map_values(|row: Seq<Cell>| record_of(row_read(row)->0))
}

/// Reads a list of rows as records, in their order. One row that cannot be read spoils
/// the list.
pub fn rows_to_records(rows: &Vec<Vec<rusqlite::types::Value>>) -> (r: AppResult<Vec<PracticeRecord>>)
    ensures
        r is Ok == are_rows(table(rows@)),
        r matches Ok(out) ==> all_records(out@) == records_read(table(rows@)),
        r matches Err(e) ==> is_failure(e, "读取记录失败："@),
{
    let ghost all = table(rows@);
    let mut out: Vec<PracticeRecord> = Vec::new();
    let mut i: usize = 0;
    while i < rows.len()
        invariant
            i <= rows@.len(),
            all == table(rows@),
            out@.len() == i,
            forall|j: int| 0 <= j < i ==> row_read(#[trigger] all[j]) is Some,
            forall|j: int| 0 <= j < i ==> (#[trigger] out@[j])@ == record_of(row_read(all[j])->0),
        decreases rows@.len() - i,
    {
        assert(all[i as int] == cells(rows@[i as int]@));
        match row_to_record(&rows[i]) {
            Some(x) => {
                out.push(x);
            },
            None => return Err(misread("读取记录失败：")),
        }
        i += 1;
    }
    assert(all_records(out@) =~= records_read(all));
    Ok(out)
}

proof fn rows_are_read_back(rows: Map<Seq<char>, Row>, ids: Seq<Seq<char>>)
    ensures
        are_rows(rows_read(rows, ids)),
        records_read(rows_read(rows, ids)) == ids.map_values(|id: Seq<char>| record_of(rows[id])),
{
    let read = rows_read(rows, ids);
    assert forall|i: int| 0 <= i < read.len() implies row_read(#[trigger] read[i]) == Some(rows[ids[i]]) by {
        assert(read[i] == cells_of(rows[ids[i]]));
        assert(row_read(cells_of(rows[ids[i]])) == Some(rows[ids[i]]));
    }
    assert(records_read(read) =~= ids.map_values(|id: Seq<char>| record_of(rows[id])));
}

/// The integer that a list of rows gives, if it is one row of one integer.
pub open spec fn one_integer(rows: Seq<Seq<Cell>>) -> Option<int> {
    if rows.len() == 1 && rows[0].len() == 1 && rows[0][0] is Integer {
        Some(rows[0][0]->Integer_0)
    } else {
        None
    }
}

/// Reads the answer to the question how many records there are: one row of one integer.
pub fn rows_to_count(rows: &Vec<Vec<rusqlite::types::Value>>) -> (r: AppResult<u64>)
    ensures
        match one_integer(table(rows@)) {
            Some(c) => r matches Ok(n) && n == unsigned_of(c),
            None => r matches Err(e) && is_failure(e, "统计条数失败："@),
        },
{
    assert(table(rows@).len() == rows@.len());
    if rows.len() != 1 {
        return Err(misread("统计条数失败："));
    }
    assert(table(rows@)[0] == cells(rows@[0]@));
    assert(cells(rows@[0]@).len() == rows@[0]@.len());
    if rows[0].len() != 1 {
        return Err(misread("统计条数失败："));
    }
    assert(table(rows@)[0][0] == cell(rows@[0]@[0]));
    match integer_of(&rows[0][0]) {
        Some(n) => Ok(unsigned(n)),
        None => Err(misread("统计条数失败：")),
    }
}

/// Whether a summary is what a row of cells says. No average counts as 0.
pub open spec fn is_read_as(c: Seq<Cell>, s: Stats) -> bool {
    &&& s.total_sessions == unsigned_of(c[0]->Integer_0)
    &&& s.active_days == unsigned_of(c[1]->Integer_0)
    &&& s.average_total == match real_in(c[2]) {
        Some(bits) => bits,
        None => 0,
    }
    &&& s.last_practiced_at is Some == (c[3] is Text)
    &&& s.last_practiced_at matches Some(at) ==> at@ == c[3]->Text_0
}

/// Reads the answer to the question for a summary: one row that is one.
pub fn rows_to_stats(rows: &Vec<Vec<rusqlite::types::Value>>) -> (r: AppResult<Stats>)
    ensures
        r is Ok == (table(rows@).len() == 1 && is_stats_row(table(rows@)[0])),
        r matches Ok(s) ==> is_read_as(table(rows@)[0], s),
        r matches Err(e) ==> is_failure(e, "统计失败："@),
{
    assert(table(rows@).len() == rows@.len());
    if rows.len() != 1 {
        return Err(misread("统计失败："));
    }
    assert(table(rows@)[0] == cells(rows@[0]@));
    match row_to_stats(&rows[0]) {
        Some(s) => Ok(s),
        None => Err(misread("统计失败：")),
    }
}

/// Whether the answer to the question for a record says that it is there.
pub fn is_there(rows: &Vec<Vec<rusqlite::types::Value>>) -> (r: bool)
    ensures
        r == (rows@.len() > 0),
{
    rows.len() > 0
}

/// Whether a record was there to be removed, given how many were.
pub fn was_there(n: usize) -> (r: bool)
    ensures
        r == (n > 0),
{
    n > 0
}

/// The sum of a row of counts.
pub open spec fn sum_of(counts: Seq<usize>) -> nat
    decreases counts.len(),
{
    if counts.len() == 0 {
        0
    } else {
        sum_of(counts.drop_last()) + counts.last() as nat
    }
}

proof fn part_sums_are_less(counts: Seq<usize>, n: int)
    requires
        0 <= n <= counts.len(),
    ensures
        sum_of(counts.take(n)) <= sum_of(counts),
    decreases counts.len(),
{
    if n < counts.len() {
        part_sums_are_less(counts.drop_last(), n);
        assert(counts.drop_last().take(n) =~= counts.take(n));
    } else {
        assert(counts.take(n) =~= counts);
    }
}

/// How many records were written, given how many each statement wrote.
pub fn tally(counts: &Vec<usize>) -> (r: usize)
    requires
        sum_of(counts@) <= usize::MAX,
    ensures
        r == sum_of(counts@),
{
    let mut r: usize = 0;
    let mut i: usize = 0;
    assert(counts@.take(0) =~= Seq::empty());
    while i < counts.len()
        invariant
            i <= counts@.len(),
            sum_of(counts@) <= usize::MAX,
            r == sum_of(counts@.take(i as int)),
        decreases counts@.len() - i,
    {
        proof {
            part_sums_are_less(counts@, i + 1);
            assert(counts@.take(i + 1).drop_last() =~= counts@.take(i as int));
        }
        r = r + counts[i];
        i += 1;
    }
    assert(counts@.take(counts@.len() as int) =~= counts@);
    r
}

/// Makes the table, if it is not there. What is in it stays, whether or not this
/// succeeds.
pub fn init_schema(c: &mut rusqlite::Connection) -> (r: Result<(), rusqlite::Error>)
    ensures
        r is Ok ==> match db(*old(c)) {
            Db::Fresh => db(*final(c)) == (Db::Table { rows: Map::empty(), saved: None }),
            Db::Table { rows, saved: None } => db(*final(c)) == db(*old(c)),
            _ => true,
        },
        r is Err && db(*old(c)) is Table ==> undone(db(*old(c)), db(*final(c))),
{
    sql::execute_batch(c, sql::SCHEMA)
}

/// The store of practice records.
///
/// What its operations do is stated for a database that this connection alone
/// reaches (`is_known`): what others write to a shared one in between is theirs.
pub struct Store {
    conn: rusqlite::Connection,
}

impl Store {
    /// Whether all that is in the database is known, and no transaction is running.
    pub closed spec fn is_known(self) -> bool {
        db(self.conn) matches Db::Table { rows, saved: None }
    }

    /// The rows of the table, by id.
    pub closed spec fn rows(self) -> Map<Seq<char>, Row> {
        db(self.conn)->rows
    }

    /// Whether a transaction that began with these rows is still running, so that they
    /// are what there will be once it is undone.
    pub closed spec fn is_open_since(self, rows: Map<Seq<char>, Row>) -> bool {
        db(self.conn) is Table && db(self.conn)->saved == Some(rows)
    }

    /// Takes over an open database and makes the table in it, if it is not there.
    pub fn open(conn: rusqlite::Connection) -> (r: AppResult<Store>)
        ensures
            r matches Ok(s) ==> match db(conn) {
                Db::Fresh => s.is_known() && s.rows() == Map::<Seq<char>, Row>::empty(),
                Db::Table { rows, saved: None } => s.is_known() && s.rows() == rows,
                _ => true,
            },
            r matches Err(e) ==> is_failure(e, "初始化表结构失败："@),
    {
        let mut conn = conn;
        match init_schema(&mut conn) {
            Ok(()) => Ok(Store { conn }),
            Err(e) => Err(failure("初始化表结构失败：", &e)),
        }
    }

    /// A store in memory, with nothing in it.
    pub fn open_memory() -> (r: AppResult<Store>)
        ensures
            r matches Ok(s) ==> s.is_known() && s.rows() == Map::<Seq<char>, Row>::empty(),
            r matches Err(e) ==> is_failure(e, "初始化表结构失败："@) || is_failure(e, "建内存库失败："@),
    {
        match sql::open_in_memory() {
            Ok(conn) => Store::open(conn),
            Err(e) => Err(failure("建内存库失败：", &e)),
        }
    }

    /// Undoes the transaction that is running, so that the rows are again what they
    /// were when it began. Where none is running there is nothing to do, and that
    /// cannot fail.
    fn roll_back(&mut self) -> (r: Result<(), rusqlite::Error>)
        ensures
            r is Ok ==> match db(old(self).conn) {
                Db::Table { rows, saved: Some(first) } => db(final(self).conn) == (Db::Table { rows: first, saved: None }),
                Db::Table { rows, saved: None } => db(final(self).conn) == db(old(self).conn),
                _ => true,
            },
            r is Err ==> undone(db(old(self).conn), db(final(self).conn)),
            old(self).is_known() ==> r is Ok,
    {
        if sql::is_autocommit(&self.conn) {
            return Ok(());
        }
        sql::execute_batch(&mut self.conn, sql::ROLLBACK)
    }

    /// Writes records, all or none. One whose id is there already is passed over, so
    /// that a client may send the same records again; so is one with a score that is
    /// no number. Returns how many were new.
    pub fn insert_many(&mut self, records: Vec<PracticeRecord>) -> (r: AppResult<usize>)
        ensures
            old(self).is_known() ==> (r matches Ok(n) ==> {
                &&& final(self).is_known()
                &&& final(self).rows() == all_written(old(self).rows(), all_records(records@))
                &&& n == new_ones(old(self).rows(), all_records(records@))
            }),
            r matches Err(e) ==> is_failure(e, "写入记录失败："@),
            r is Err && old(self).is_known() ==> {
                ||| final(self).is_known() && final(self).rows() == old(self).rows()
                ||| final(self).is_open_since(old(self).rows())
            },
    {
        let ghost known = self.is_known();
        let ghost first = self.rows();
        let ghost all = all_records(records@);
        if let Err(e) = sql::execute_batch(&mut self.conn, sql::BEGIN) {
            return Err(failure("写入记录失败：", &e));
        }
        let mut counts: Vec<usize> = Vec::new();
        let mut i: usize = 0;
        assert(all.take(0) =~= Seq::empty());
        while i < records.len()
            invariant
                all == all_records(records@),
                i <= records@.len(),
                sum_of(counts@) <= i,
                known ==> db(self.conn) == (Db::Table {
                    rows: all_written(first, all.take(i as int)),
                    saved: Some(first),
                }),
                known ==> sum_of(counts@) == new_ones(first, all.take(i as int)),
                known == old(self).is_known(),
                first == old(self).rows(),
            decreases records@.len() - i,
        {
            assert(all.take(i + 1).drop_last() =~= all.take(i as int));
            assert(all.take(i + 1).last() == records@[i as int]@);
            assert(row_of(cells_of(row_from(records@[i as int]@))) == Some(row_from(records@[i as int]@)));
            match sql::execute(&mut self.conn, sql::INSERT, record_params(&records[i])) {
                Ok(n) => {
                    let ghost before = counts@;
                    counts.push(n);
                    assert(counts@.drop_last() =~= before);
                },
                Err(e) => {
                    let _ = self.roll_back();
                    return Err(failure("写入记录失败：", &e));
                },
            }
            i += 1;
        }
        assert(all.take(all.len() as int) =~= all);
        if let Err(e) = sql::execute_batch(&mut self.conn, sql::COMMIT) {
            let _ = self.roll_back();
            return Err(failure("写入记录失败：", &e));
        }
        Ok(tally(&counts))
    }

    /// The newest records, of a kind or of all, the newest first; at most `limit`.
    pub fn list(&self, kind: Option<PracticeKind>, limit: usize) -> (r: AppResult<Vec<PracticeRecord>>)
        ensures
            self.is_known() ==> (r matches Ok(out) ==> is_listing(self.rows(), kind, limit, all_records(out@))),
            r matches Err(e) ==> is_failure(e, "读取记录失败："@),
    {
        let (sql, params) = page(kind, limit);
        let rows = match sql::query(&self.conn, sql, params) {
            Ok(rows) => rows,
            Err(e) => return Err(failure("读取记录失败：", &e)),
        };
        proof {
            if self.is_known() {
                let ids = choose|ids: Seq<Seq<char>>|
                    #[trigger] is_newest(self.rows(), kind_word(kind), limit_of(limit), ids) && table(rows@)
                        == rows_read(self.rows(), ids);
                rows_are_read_back(self.rows(), ids);
                assert(is_newest(self.rows(), kind_word(kind), limit_of(limit), ids));
            }
        }
        rows_to_records(&rows)
    }

    /// The number of records, of all kinds.
    pub fn count(&self) -> (r: AppResult<u64>)
        ensures
            self.is_known() ==> (r matches Ok(n) ==> n == self.rows().len()),
            r matches Err(e) ==> is_failure(e, "统计条数失败："@),
    {
        let rows = match sql::query(&self.conn, sql::COUNT, Vec::new()) {
            Ok(rows) => rows,
            Err(e) => return Err(failure("统计条数失败：", &e)),
        };
        rows_to_count(&rows)
    }

    /// A summary of all records, worked out by the database. The average of none is 0,
    /// that of one is its score, and that of more is their mean but for rounding: how much
    /// that is, is stated of up to `MEAN_ROWS` scores from 0 to 1.
    pub fn stats(&self) -> (r: AppResult<Stats>)
        ensures
            self.is_known() ==> (r matches Ok(s) ==> is_summary(self.rows(), s)),
            r matches Err(e) ==> is_failure(e, "统计失败："@),
    {
        let rows = match sql::query(&self.conn, sql::STATS, Vec::new()) {
            Ok(rows) => rows,
            Err(e) => return Err(failure("统计失败：", &e)),
        };
        rows_to_stats(&rows)
    }

    /// Removes the record of this id; whether there was one.
    pub fn delete(&mut self, id: &str) -> (r: AppResult<bool>)
        ensures
            old(self).is_known() ==> {
                &&& final(self).is_known()
                &&& r matches Ok(there) ==> {
                    &&& there == old(self).rows().dom().contains(id@)
                    &&& final(self).rows() == old(self).rows().remove(id@)
                }
                &&& r is Err ==> final(self).rows() == old(self).rows()
            },
            r matches Err(e) ==> is_failure(e, "删除记录失败："@),
    {
        match sql::execute(&mut self.conn, sql::DELETE, id_params(id)) {
            Ok(n) => Ok(was_there(n)),
            Err(e) => Err(failure("删除记录失败：", &e)),
        }
    }

    /// Whether there is a record of this id.
    pub fn contains(&self, id: &str) -> (r: AppResult<bool>)
        ensures
            self.is_known() ==> (r matches Ok(there) ==> there == self.rows().dom().contains(id@)),
            r matches Err(e) ==> is_failure(e, "查询失败："@),
    {
        match sql::query(&self.conn, sql::EXISTS, id_params(id)) {
            Ok(rows) => {
                assert(table(rows@).len() == rows@.len());
                Ok(is_there(&rows))
            },
            Err(e) => Err(failure("查询失败：", &e)),
        }
    }
}

// ---------------------------------------------------------------- laws

/// What a record says once it has been stored: minus zero has become zero.
pub open spec fn stored_record(r: RecordView) -> RecordView {
    RecordView {
        total: kept(r.total),
        accuracy: kept(r.accuracy),
        fluency: kept(r.fluency),
        completeness: kept(r.completeness),
        ..r
    }
}

/// A record is read back as it was written: whoever writes records, the first with a
/// new id among them, all its scores being numbers, is what the table then holds
/// under that id.
pub proof fn what_is_written_is_read(rows: Map<Seq<char>, Row>, records: Seq<RecordView>, i: int)
    requires
        0 <= i < records.len(),
        is_complete(row_from(records[i])),
        !rows.dom().contains(records[i].id),
        forall|j: int| 0 <= j < i ==> (#[trigger] records[j]).id != records[i].id,
    ensures
        all_written(rows, records).dom().contains(records[i].id),
        record_of(all_written(rows, records)[records[i].id]) == stored_record(records[i]),
    decreases records.len(),
{
    let rest = records.drop_last();
    if i < rest.len() {
        assert(rest[i] == records[i]);
        assert forall|j: int| 0 <= j < i implies (#[trigger] rest[j]).id != rest[i].id by {
            assert(rest[j] == records[j]);
        }
        what_is_written_is_read(rows, rest, i);
    } else {
        only_written_ids_appear(rows, rest, records[i].id);
        assert forall|j: int| 0 <= j < rest.len() implies (#[trigger] rest[j]).id != records[i].id by {
            assert(rest[j] == records[j]);
        }
        kinds_survive_storage(records[i].kind);
    }
}

proof fn only_written_ids_appear(rows: Map<Seq<char>, Row>, records: Seq<RecordView>, id: Seq<char>)
    ensures
        all_written(rows, records).dom().contains(id) ==> rows.dom().contains(id) || exists|j: int|
            0 <= j < records.len() && (#[trigger] records[j]).id == id,
    decreases records.len(),
{
    if records.len() > 0 {
        let rest = records.drop_last();
        only_written_ids_appear(rows, rest, id);
        if all_written(rows, records).dom().contains(id) && !rows.dom().contains(id) {
            if records.last().id == id {
                assert(records[records.len() - 1].id == id);
            } else {
                let j = choose|j: int| 0 <= j < rest.len() && (#[trigger] rest[j]).id == id;
                assert(records[j].id == id);
            }
        }
    }
}

/// Writing never changes what is there.
pub proof fn writing_keeps_what_is_there(rows: Map<Seq<char>, Row>, records: Seq<RecordView>, id: Seq<char>)
    requires
        rows.dom().contains(id),
    ensures
        all_written(rows, records).dom().contains(id),
        all_written(rows, records)[id] == rows[id],
    decreases records.len(),
{
    if records.len() > 0 {
        writing_keeps_what_is_there(rows, records.drop_last(), id);
    }
}

proof fn written_or_incomplete(rows: Map<Seq<char>, Row>, records: Seq<RecordView>, i: int)
    requires
        0 <= i < records.len(),
    ensures
        !is_new(all_written(rows, records), row_from(records[i])),
    decreases records.len(),
{
    let rest = records.drop_last();
    if i < rest.len() {
        assert(rest[i] == records[i]);
        written_or_incomplete(rows, rest, i);
    }
}

proof fn nothing_new_changes_nothing(rows: Map<Seq<char>, Row>, records: Seq<RecordView>)
    requires
        forall|i: int| 0 <= i < records.len() ==> !is_new(rows, row_from(#[trigger] records[i])),
    ensures
        all_written(rows, records) == rows,
        new_ones(rows, records) == 0,
    decreases records.len(),
{
    if records.len() > 0 {
        let rest = records.drop_last();
        assert forall|i: int| 0 <= i < rest.len() implies !is_new(rows, row_from(#[trigger] rest[i])) by {
            assert(rest[i] == records[i]);
        }
        nothing_new_changes_nothing(rows, rest);
        assert(!is_new(rows, row_from(records[records.len() - 1])));
    }
}

/// To write the same records again changes nothing, and none of them counts as new.
pub proof fn writing_again_changes_nothing(rows: Map<Seq<char>, Row>, records: Seq<RecordView>)
    ensures
        all_written(all_written(rows, records), records) == all_written(rows, records),
        new_ones(all_written(rows, records), records) == 0,
{
    assert forall|i: int| 0 <= i < records.len() implies !is_new(
        all_written(rows, records),
        row_from(#[trigger] records[i]),
    ) by {
        written_or_incomplete(rows, records, i);
    }
    nothing_new_changes_nothing(all_written(rows, records), records);
}

/// The number that writing returns is by how much the table has grown.
pub proof fn new_ones_are_the_growth(rows: Map<Seq<char>, Row>, records: Seq<RecordView>)
    requires
        rows.dom().finite(),
    ensures
        all_written(rows, records).dom().finite(),
        all_written(rows, records).len() == rows.len() + new_ones(rows, records),
    decreases records.len(),
{
    if records.len() > 0 {
        new_ones_are_the_growth(rows, records.drop_last());
    }
}

/// A listing never holds more than its limit, nor a record of another kind.
pub proof fn a_listing_keeps_its_bounds(rows: Map<Seq<char>, Row>, kind: PracticeKind, limit: usize, out: Seq<RecordView>)
    requires
        is_listing(rows, Some(kind), limit, out),
        limit <= i64::MAX,
    ensures
        out.len() <= limit,
        forall|i: int| 0 <= i < out.len() ==> (#[trigger] out[i]).kind == kind,
{
    let ids = choose|ids: Seq<Seq<char>>|
        #[trigger] is_newest(rows, Some(kind.word()), limit_of(limit), ids) && out == ids.map_values(
            |id: Seq<char>| record_of(rows[id]),
        );
    kinds_survive_storage(kind);
    assert forall|i: int| 0 <= i < out.len() implies (#[trigger] out[i]).kind == kind by {
        assert(matching(rows, Some(kind.word())).contains(ids[i]));
    }
}

/// A listing runs from the newest to the oldest.
pub proof fn a_listing_is_newest_first(
    rows: Map<Seq<char>, Row>,
    kind: Option<PracticeKind>,
    limit: usize,
    out: Seq<RecordView>,
    i: int,
    j: int,
)
    requires
        is_listing(rows, kind, limit, out),
        0 <= i < j < out.len(),
    ensures
        text_in_order(out[j].at, out[i].at),
{
    let ids = choose|ids: Seq<Seq<char>>|
        #[trigger] is_newest(rows, kind_word(kind), limit_of(limit), ids) && out == ids.map_values(
            |id: Seq<char>| record_of(rows[id]),
        );
    assert(text_in_order(rows[ids[j]].at, rows[ids[i]].at));
}

/// A listing that is not cut short holds every record.
pub proof fn a_whole_listing_misses_nothing(rows: Map<Seq<char>, Row>, limit: usize, out: Seq<RecordView>, id: Seq<char>)
    requires
        rows.dom().finite(),
        is_listing(rows, None, limit, out),
        limit >= rows.len(),
        rows.dom().contains(id),
    ensures
        out.contains(record_of(rows[id])),
{
    let ids = choose|ids: Seq<Seq<char>>|
        #[trigger] is_newest(rows, None, limit_of(limit), ids) && out == ids.map_values(
            |id: Seq<char>| record_of(rows[id]),
        );
    let all = matching(rows, None);
    assert(all =~= rows.dom());
    ids.unique_seq_to_set();
    assert(ids.to_set().subset_of(all));
    vstd::set_lib::lemma_subset_equality(ids.to_set(), all);
    assert(ids.to_set().contains(id));
    let k = choose|k: int| 0 <= k < ids.len() && ids[k] == id;
    assert(out[k] == record_of(rows[id]));
}

/// What has been written is listed: a listing that is not cut short holds the first
/// record of a new id, all its scores being numbers.
pub proof fn what_is_written_is_listed(
    rows: Map<Seq<char>, Row>,
    records: Seq<RecordView>,
    i: int,
    limit: usize,
    out: Seq<RecordView>,
)
    requires
        rows.dom().finite(),
        0 <= i < records.len(),
        is_complete(row_from(records[i])),
        !rows.dom().contains(records[i].id),
        forall|j: int| 0 <= j < i ==> (#[trigger] records[j]).id != records[i].id,
        is_listing(all_written(rows, records), None, limit, out),
        limit >= all_written(rows, records).len(),
    ensures
        out.contains(stored_record(records[i])),
{
    what_is_written_is_read(rows, records, i);
    new_ones_are_the_growth(rows, records);
    a_whole_listing_misses_nothing(all_written(rows, records), limit, out, records[i].id);
}

/// Whether these are the records in the table, each once.
pub open spec fn are_the_records(rows: Map<Seq<char>, Row>, records: Seq<RecordView>) -> bool {
    &&& records.len() == rows.len()
    &&& forall|i: int, j: int|
        0 <= i < j < records.len() ==> (#[trigger] records[i]).id != (#[trigger] records[j]).id
    &&& forall|i: int|
        0 <= i < records.len() ==> rows.dom().contains((#[trigger] records[i]).id) && record_of(rows[records[i].id])
            == records[i]
}

/// Whether a time has its `T` behind ten characters, as RFC 3339 has it, none of which
/// is NUL.
pub open spec fn is_full_time(at: Seq<char>) -> bool {
    &&& at.len() > 10
    &&& first_place(at, 'T') == 10
    &&& forall|i: int| 0 <= i < 10 ==> #[trigger] at[i] != '\0'
}

proof fn prefix_without_nul(s: Seq<char>, n: nat)
    requires
        n <= s.len(),
        forall|i: int| 0 <= i < n ==> #[trigger] s[i] != '\0',
    ensures
        day_prefix(s, n) == s.take(n as int),
    decreases n,
{
    if n > 0 {
        let rest = s.drop_first();
        assert forall|i: int| 0 <= i < n - 1 implies #[trigger] rest[i] != '\0' by {
            assert(rest[i] == s[i + 1]);
        }
        assert(s[0] != '\0');
        prefix_without_nul(rest, (n - 1) as nat);
        assert(s.take(n as int) =~= seq![s[0]] + rest.take(n - 1));
    } else {
        assert(s.take(0) =~= Seq::empty());
    }
}

proof fn ids_are_all(rows: Map<Seq<char>, Row>, records: Seq<RecordView>)
    requires
        rows.dom().finite(),
        are_the_records(rows, records),
    ensures
        are_all_ids(rows, records.map_values(|r: RecordView| r.id)),
        totals(rows, records.map_values(|r: RecordView| r.id)) == totals_of(records),
{
    let ids = records.map_values(|r: RecordView| r.id);
    assert(ids.no_duplicates());
    ids.unique_seq_to_set();
    assert(ids.to_set().subset_of(rows.dom())) by {
        assert forall|id: Seq<char>| ids.to_set().contains(id) implies rows.dom().contains(id) by {
            let i = choose|i: int| 0 <= i < ids.len() && ids[i] == id;
            assert(rows.dom().contains(records[i].id));
        }
    }
    vstd::set_lib::lemma_subset_equality(ids.to_set(), rows.dom());
    assert(totals(rows, ids) =~= totals_of(records)) by {
        assert forall|i: int| 0 <= i < records.len() implies rows[ids[i]].total == (#[trigger] records[i]).total by {
            assert(record_of(rows[records[i].id]) == records[i]);
        }
    }
}

/// The database and the library sum records up alike, where all times are full: the
/// same number, the same days and the same last time.
pub proof fn both_ways_of_summing_up_agree(rows: Map<Seq<char>, Row>, records: Seq<RecordView>, x: Stats, y: Stats)
    requires
        rows.dom().finite(),
        are_the_records(rows, records),
        forall|i: int| 0 <= i < records.len() ==> is_full_time((#[trigger] records[i]).at),
        is_summary(rows, x),
        is_roll_up(records, y),
    ensures
        x.total_sessions == y.total_sessions,
        x.active_days == y.active_days,
        x.last_practiced_at is Some == y.last_practiced_at is Some,
        x.last_practiced_at is Some ==> x.last_practiced_at->0@ == y.last_practiced_at->0@,
{
    let ids = records.map_values(|r: RecordView| r.id);
    ids_are_all(rows, records);
    assert forall|id: Seq<char>| rows.dom().contains(id) implies exists|i: int|
        0 <= i < records.len() && (#[trigger] records[i]).id == id by {
        assert(ids.to_set().contains(id));
        let i = choose|i: int| 0 <= i < ids.len() && ids[i] == id;
        assert(records[i].id == id);
    }
    let f = |r: RecordView| date_of(r.at);
    assert forall|i: int| 0 <= i < records.len() implies day_of(rows[(#[trigger] records[i]).id].at) == date_of(
        records[i].at,
    ) by {
        prefix_without_nul(records[i].at, 10);
    }
    assert forall|day: Seq<char>| days_in(rows).contains(day) == dates_of(records).contains(day) by {
        if days_in(rows).contains(day) {
            let id = choose|id: Seq<char>| rows.dom().contains(id) && day_of(rows[id].at) == day;
            let i = choose|i: int| 0 <= i < records.len() && (#[trigger] records[i]).id == id;
            assert(records.map_values(f)[i] == day);
        }
        if dates_of(records).contains(day) {
            let i = choose|i: int| 0 <= i < records.len() && records.map_values(f)[i] == day;
            assert(rows.dom().contains(records[i].id));
        }
    }
    assert(days_in(rows) =~= dates_of(records));
    if records.len() > 0 {
        let last = x.last_practiced_at->0@;
        let id = choose|id: Seq<char>| rows.dom().contains(id) && (#[trigger] rows[id]).at == last;
        let i = choose|i: int| 0 <= i < records.len() && (#[trigger] records[i]).id == id;
        assert(records[i].at == last);
        assert forall|k: int| 0 <= k < records.len() implies text_in_order((#[trigger] records[k]).at, last) by {
            assert(text_in_order(rows[records[k].id].at, last));
        }
        the_last_time_is_one(records, last, y.last_practiced_at->0@);
    }
}

/// The average that the database works out and the one that the library works out differ
/// by two to the power -20 at most, which is less than a millionth.
pub proof fn averages_agree(rows: Map<Seq<char>, Row>, records: Seq<RecordView>, x: Stats, y: Stats)
    requires
        rows.dom().finite(),
        are_the_records(rows, records),
        0 < records.len() <= MEAN_ROWS,
        are_fractions(totals_of(records)),
        is_summary(rows, x),
        is_mean_of(totals_of(records), y.average_total),
    ensures
        -pow2(1054) <= signed_steps(x.average_total) - signed_steps(y.average_total) <= pow2(1054),
{
    let ids = records.map_values(|r: RecordView| r.id);
    ids_are_all(rows, records);
    a_mean_is_near_the_mean(totals_of(records), y.average_total);
    means_agree(totals_of(records), x.average_total, y.average_total, 30, 21);
    lemma_pow2_strictly_increases(1044, 1053);
    lemma_pow2_unfold(1054);
}

/// The average of scores from 0 to 1 lies there too, but for rounding: by two to the
/// power -30 at most.
pub proof fn an_average_of_scores_is_a_score(rows: Map<Seq<char>, Row>, records: Seq<RecordView>, x: Stats)
    requires
        rows.dom().finite(),
        are_the_records(rows, records),
        0 < records.len() <= MEAN_ROWS,
        are_fractions(totals_of(records)),
        is_summary(rows, x),
    ensures
        -pow2(1044) <= signed_steps(x.average_total) <= pow2(1074) + pow2(1044),
{
    let ids = records.map_values(|r: RecordView| r.id);
    ids_are_all(rows, records);
    a_mean_of_fractions_is_one(totals_of(records), x.average_total, 30);
}

/// Each field of a record is written to the column of its name: the values come in the
/// order in which the statement names the columns.
pub proof fn each_field_has_its_column(r: RecordView)
    ensures
        ({
            let c = cells_of(row_from(r));
            &&& c.len() == 10
            &&& c[0] == Cell::Text(r.id)
            &&& c[1] == Cell::Text(r.kind.word())
            &&& c[2] == Cell::Text(r.target)
            &&& c[3] == Cell::Text(r.transcript)
            &&& c[4] == Cell::Real(r.total)
            &&& c[5] == Cell::Real(r.accuracy)
            &&& c[6] == Cell::Real(r.fluency)
            &&& c[7] == Cell::Real(r.completeness)
            &&& c[8] == Cell::Text(r.label)
            &&& c[9] == Cell::Text(r.at)
        }),
        has_prefix(
            sql::INSERT@,
            "INSERT OR IGNORE INTO practices\n (id, kind, target, transcript, total, accuracy, fluency, completeness, label, at)"@,
        ),
{
    reveal_strlit(
        "INSERT OR IGNORE INTO practices\n (id, kind, target, transcript, total, accuracy, fluency, completeness, label, at)\n VALUES (?1,?2,?3,?4,?5,?6,?7,?8,?9,?10)",
    );
    reveal_strlit(
        "INSERT OR IGNORE INTO practices\n (id, kind, target, transcript, total, accuracy, fluency, completeness, label, at)",
    );
    let head = "INSERT OR IGNORE INTO practices\n (id, kind, target, transcript, total, accuracy, fluency, completeness, label, at)"@;
    assert(sql::INSERT@.take(head.len() as int) =~= head);
}

/// Each column is read as the field of its name: the cells come in the order in which the
/// queries name the columns.
pub proof fn each_column_has_its_field(c: Seq<Cell>)
    requires
        row_read(c) is Some,
    ensures
        ({
            let r = record_of(row_read(c)->0);
            &&& c[0] == Cell::Text(r.id)
            &&& c[1] matches Cell::Text(word) && (word == "chat"@ ==> r.kind is Chat) && (word == "phoneme"@ ==> r.kind is Phoneme)
            &&& c[2] == Cell::Text(r.target)
            &&& c[3] == Cell::Text(r.transcript)
            &&& c[4] is Real ==> c[4] == Cell::Real(r.total)
            &&& c[5] is Real ==> c[5] == Cell::Real(r.accuracy)
            &&& c[6] is Real ==> c[6] == Cell::Real(r.fluency)
            &&& c[7] is Real ==> c[7] == Cell::Real(r.completeness)
            &&& c[8] == Cell::Text(r.label)
            &&& c[9] == Cell::Text(r.at)
        }),
        has_prefix(sql::PAGE@, "SELECT id,kind,target,transcript,total,accuracy,fluency,completeness,label,at\n FROM practices"@),
        has_prefix(sql::PAGE_OF_KIND@, "SELECT id,kind,target,transcript,total,accuracy,fluency,completeness,label,at\n FROM practices"@),
{
    reveal_strlit("SELECT id,kind,target,transcript,total,accuracy,fluency,completeness,label,at\n FROM practices ORDER BY at DESC LIMIT ?1");
    reveal_strlit("SELECT id,kind,target,transcript,total,accuracy,fluency,completeness,label,at\n FROM practices WHERE kind = ?1 ORDER BY at DESC LIMIT ?2");
    reveal_strlit("SELECT id,kind,target,transcript,total,accuracy,fluency,completeness,label,at\n FROM practices");
    reveal_strlit("chat");
    reveal_strlit("phoneme");
    assert("chat"@.len() == 4 && "phoneme"@.len() == 7);
    let head = "SELECT id,kind,target,transcript,total,accuracy,fluency,completeness,label,at\n FROM practices"@;
    assert(sql::PAGE@.take(head.len() as int) =~= head);
    assert(sql::PAGE_OF_KIND@.take(head.len() as int) =~= head);
}

/// A limit is the limit that is asked for, as far as the database can count.
pub proof fn limits_are_as_asked(limit: usize)
    ensures
        limit <= i64::MAX ==> limit_of(limit) == limit,
        limit > i64::MAX ==> limit_of(limit) < 0,
{
}

/// A sum of counts is no less than any of them, and grows by each.
pub proof fn counts_add_up(counts: Seq<usize>, n: usize)
    ensures
        sum_of(counts.push(n)) == sum_of(counts) + n,
        sum_of(Seq::<usize>::empty()) == 0,
{
    assert(counts.push(n).drop_last() =~= counts);
}

} // verus!
