//! The database as `rusqlite` gives it: what a cell holds, what the table of
//! practices holds, and what each statement of this library does to it.
//!
//! Everything here is taken on trust from `rusqlite` and from the SQLite that is
//! built into it. The statements themselves, and what is made of their answers,
//! are in `store`.

use rusqlite::types::{Value, ValueRef};
use vstd::prelude::*;
use vstd::string::*;

use crate::binary64::{are_fractions, bits_of_integer, is_mean, is_nan, SIGN_BIT};
use crate::text::text_in_order;

verus! {

// ---------------------------------------------------------------- cells

/// A cell of a row, or a value bound to a statement. A floating-point number is
/// kept by its bits in binary64.
#[verifier::ext_equal]
pub enum Cell {
    Null,
    Integer(int),
    Real(u64),
    Text(Seq<char>),
    Blob(Seq<u8>),
}

/// A look into a cell.
pub enum Part<'a> {
    Null,
    Integer(i64),
    Real(u64),
    Text(&'a str),
    Blob(&'a [u8]),
}

impl<'a> View for Part<'a> {
    type V = Cell;

    open spec fn view(&self) -> Cell {
        match self {
            Part::Null => Cell::Null,
            Part::Integer(n) => Cell::Integer(*n as int),
            Part::Real(bits) => Cell::Real(*bits),
            Part::Text(s) => Cell::Text(s@),
            Part::Blob(b) => Cell::Blob(b@),
        }
    }
}

#[verifier::external_type_specification]
#[verifier::external_body]
pub struct ExSqlValue(rusqlite::types::Value);

#[verifier::external_type_specification]
#[verifier::external_body]
pub struct ExSqlError(rusqlite::Error);

#[verifier::external_type_specification]
#[verifier::external_body]
pub struct ExConnection(rusqlite::Connection);

/// What a `rusqlite::types::Value` holds.
pub uninterp spec fn cell(v: rusqlite::types::Value) -> Cell;

/// What a row of cells holds.
pub open spec fn cells(s: Seq<rusqlite::types::Value>) -> Seq<Cell> {
    s.map_values(|v: rusqlite::types::Value| cell(v))
}

/// What a table of cells holds.
pub open spec fn table(s: Seq<Vec<rusqlite::types::Value>>) -> Seq<Seq<Cell>> {
    s.map_values(|row: Vec<rusqlite::types::Value>| cells(row@))
}

/// Opens a `rusqlite::types::Value`: tells its variants apart and hands out what it
/// holds, a floating-point number by its bits (`to_bits` of std).
#[verifier::external_body]
pub(crate) fn part(v: &rusqlite::types::Value) -> (r: Part<'_>)
    ensures
        r@ == cell(*v),
{
    match v {
        rusqlite::types::Value::Null => Part::Null,
        rusqlite::types::Value::Integer(n) => Part::Integer(*n),
        rusqlite::types::Value::Real(x) => Part::Real(x.to_bits()),
        rusqlite::types::Value::Text(s) => Part::Text(s),
        rusqlite::types::Value::Blob(b) => Part::Blob(b),
    }
}

/// Makes a `rusqlite::types::Value::Text`.
#[verifier::external_body]
pub(crate) fn text_value(s: &str) -> (r: rusqlite::types::Value)
    ensures
        cell(r) == Cell::Text(s@),
{
    rusqlite::types::Value::Text(s.to_owned())
}

/// Makes a `rusqlite::types::Value::Integer`.
#[verifier::external_body]
pub(crate) fn integer_value(n: i64) -> (r: rusqlite::types::Value)
    ensures
        cell(r) == Cell::Integer(n as int),
{
    rusqlite::types::Value::Integer(n)
}

/// `rusqlite::types::Value::clone`: the copy holds the same.
#[verifier::external_body]
pub(crate) fn copy_value(v: &rusqlite::types::Value) -> (r: rusqlite::types::Value)
    ensures
        cell(r) == cell(*v),
{
    v.clone()
}

/// The bits of the number that a cell is read as: a floating-point number as it is,
/// an integer as the number nearest to it.
pub open spec fn real_in(c: Cell) -> Option<u64> {
    match c {
        Cell::Real(bits) => Some(bits),
        Cell::Integer(n) => Some(bits_of_integer(n)),
        _ => None,
    }
}

/// `rusqlite::types::FromSql` for a binary64 number: takes floating-point numbers and
/// integers, the latter as the number nearest to them, and refuses all else.
#[verifier::external_body]
pub(crate) fn as_real(v: &rusqlite::types::Value) -> (r: Option<rusqlite::types::Value>)
    ensures
        r is Some == (real_in(cell(*v)) is Some),
        r matches Some(x) ==> cell(x) == Cell::Real(real_in(cell(*v))->0),
{
    rusqlite::types::FromSql::column_result(v.into()).ok().map(rusqlite::types::Value::Real)
}

/// What a `rusqlite::Error` says of itself, by its `Display`. Nothing is claimed of
/// the words.
#[verifier::external_body]
pub(crate) fn error_text(e: &rusqlite::Error) -> (r: String) {
    e.to_string()
}

// ---------------------------------------------------------------- statements

/// Makes the table and its indexes, if they are not there.
pub const SCHEMA: &'static str = "PRAGMA journal_mode = WAL;
PRAGMA synchronous = NORMAL;
PRAGMA foreign_keys = ON;

CREATE TABLE IF NOT EXISTS practices (
    id           TEXT PRIMARY KEY,
    kind         TEXT NOT NULL,
    target       TEXT NOT NULL DEFAULT '',
    transcript   TEXT NOT NULL DEFAULT '',
    total        REAL NOT NULL,
    accuracy     REAL NOT NULL DEFAULT 0,
    fluency      REAL NOT NULL DEFAULT 0,
    completeness REAL NOT NULL DEFAULT 0,
    label        TEXT NOT NULL DEFAULT '',
    at           TEXT NOT NULL,
    created_at   TEXT NOT NULL DEFAULT (datetime('now'))
);

CREATE INDEX IF NOT EXISTS idx_practices_at   ON practices(at DESC);
CREATE INDEX IF NOT EXISTS idx_practices_kind ON practices(kind, at DESC);";

pub const BEGIN: &'static str = "BEGIN DEFERRED";

pub const COMMIT: &'static str = "COMMIT";

pub const ROLLBACK: &'static str = "ROLLBACK";

/// Writes a row; one whose id is there already, or that lacks a value, is passed over.
pub const INSERT: &'static str = "INSERT OR IGNORE INTO practices
 (id, kind, target, transcript, total, accuracy, fluency, completeness, label, at)
 VALUES (?1,?2,?3,?4,?5,?6,?7,?8,?9,?10)";

pub const DELETE: &'static str = "DELETE FROM practices WHERE id = ?1";

pub const PAGE: &'static str = "SELECT id,kind,target,transcript,total,accuracy,fluency,completeness,label,at
 FROM practices ORDER BY at DESC LIMIT ?1";

pub const PAGE_OF_KIND: &'static str = "SELECT id,kind,target,transcript,total,accuracy,fluency,completeness,label,at
 FROM practices WHERE kind = ?1 ORDER BY at DESC LIMIT ?2";

pub const COUNT: &'static str = "SELECT COUNT(*) FROM practices";

pub const STATS: &'static str = "SELECT COUNT(*), COUNT(DISTINCT substr(at, 1, 10)), AVG(total), MAX(at) FROM practices";

pub const EXISTS: &'static str = "SELECT 1 FROM practices WHERE id = ?1";

// ---------------------------------------------------------------- the table

/// A row of the table of practices.
#[verifier::ext_equal]
pub struct Row {
    pub id: Seq<char>,
    pub kind: Seq<char>,
    pub target: Seq<char>,
    pub transcript: Seq<char>,
    pub total: u64,
    pub accuracy: u64,
    pub fluency: u64,
    pub completeness: u64,
    pub label: Seq<char>,
    pub at: Seq<char>,
}

/// What is known of a database.
#[verifier::ext_equal]
pub enum Db {
    /// It may be changed by others, or hold what this library did not write.
    Unknown,
    /// It is new and empty, and only this connection reaches it.
    Fresh,
    /// Only this connection reaches it, and these are its practices, by id. `saved`
    /// holds what a running transaction began with.
    Table { rows: Map<Seq<char>, Row>, saved: Option<Map<Seq<char>, Row>> },
}

/// What is known of the database behind a connection.
pub uninterp spec fn db(c: rusqlite::Connection) -> Db;

/// The bits under which a number is kept: zero has no sign in the database.
pub open spec fn kept(bits: u64) -> u64 {
    if bits == SIGN_BIT {
        0
    } else {
        bits
    }
}

/// The row that ten cells make up: four texts, four numbers and two texts.
pub open spec fn row_of(c: Seq<Cell>) -> Option<Row> {
    if c.len() == 10 && c[0] is Text && c[1] is Text && c[2] is Text && c[3] is Text && c[4] is Real && c[5] is Real
        && c[6] is Real && c[7] is Real && c[8] is Text && c[9] is Text {
        Some(
            Row {
                id: c[0]->Text_0,
                kind: c[1]->Text_0,
                target: c[2]->Text_0,
                transcript: c[3]->Text_0,
                total: c[4]->Real_0,
                accuracy: c[5]->Real_0,
                fluency: c[6]->Real_0,
                completeness: c[7]->Real_0,
                label: c[8]->Text_0,
                at: c[9]->Text_0,
            },
        )
    } else {
        None
    }
}

/// The row that ten cells are read as. Where the table is not of this library's making
/// a number may be kept as an integer.
pub open spec fn row_read(c: Seq<Cell>) -> Option<Row> {
    if c.len() == 10 && c[0] is Text && c[1] is Text && c[2] is Text && c[3] is Text && real_in(c[4]) is Some
        && real_in(c[5]) is Some && real_in(c[6]) is Some && real_in(c[7]) is Some && c[8] is Text && c[9] is Text {
        Some(
            Row {
                id: c[0]->Text_0,
                kind: c[1]->Text_0,
                target: c[2]->Text_0,
                transcript: c[3]->Text_0,
                total: real_in(c[4])->0,
                accuracy: real_in(c[5])->0,
                fluency: real_in(c[6])->0,
                completeness: real_in(c[7])->0,
                label: c[8]->Text_0,
                at: c[9]->Text_0,
            },
        )
    } else {
        None
    }
}

/// The cells that a row reads as.
pub open spec fn cells_of(r: Row) -> Seq<Cell> {
    seq![
        Cell::Text(r.id),
        Cell::Text(r.kind),
        Cell::Text(r.target),
        Cell::Text(r.transcript),
        Cell::Real(r.total),
        Cell::Real(r.accuracy),
        Cell::Real(r.fluency),
        Cell::Real(r.completeness),
        Cell::Text(r.label),
        Cell::Text(r.at),
    ]
}

/// Whether a row can be written: what is no number counts as missing.
pub open spec fn is_complete(r: Row) -> bool {
    !is_nan(r.total) && !is_nan(r.accuracy) && !is_nan(r.fluency) && !is_nan(r.completeness)
}

/// A row as the table keeps it.
pub open spec fn kept_row(r: Row) -> Row {
    Row {
        total: kept(r.total),
        accuracy: kept(r.accuracy),
        fluency: kept(r.fluency),
        completeness: kept(r.completeness),
        ..r
    }
}

/// Whether writing a row changes the table.
pub open spec fn is_new(rows: Map<Seq<char>, Row>, r: Row) -> bool {
    is_complete(r) && !rows.dom().contains(r.id)
}

/// The table after a row has been written.
pub open spec fn with_row(rows: Map<Seq<char>, Row>, r: Row) -> Map<Seq<char>, Row> {
    if is_new(rows, r) {
        rows.insert(r.id, kept_row(r))
    } else {
        rows
    }
}

/// The ids of the rows of a kind, or of all.
pub open spec fn matching(rows: Map<Seq<char>, Row>, kind: Option<Seq<char>>) -> Set<Seq<char>> {
    rows.dom().filter(|id: Seq<char>| kind is None || rows[id].kind == kind->0)
}

/// Whether `ids` are the ids of the newest rows of a kind, the newest first: at most
/// `limit` of them, or all if `limit` is negative. Which of two rows of the same
/// time comes first is open.
pub open spec fn is_newest(rows: Map<Seq<char>, Row>, kind: Option<Seq<char>>, limit: int, ids: Seq<Seq<char>>) -> bool {
    let all = matching(rows, kind);
    &&& ids.no_duplicates()
    &&& ids.len() == if 0 <= limit < all.len() {
        limit
    } else {
        all.len() as int
    }
    &&& forall|i: int| 0 <= i < ids.len() ==> all.contains(#[trigger] ids[i])
    &&& forall|i: int, j: int|
        0 <= i < j < ids.len() ==> text_in_order(rows[#[trigger] ids[j]].at, rows[#[trigger] ids[i]].at)
    &&& forall|id: Seq<char>, i: int|
        all.contains(id) && !ids.contains(id) && 0 <= i < ids.len() ==> text_in_order(
            (#[trigger] rows[id]).at,
            rows[#[trigger] ids[i]].at,
        )
}

/// The rows of some ids, as cells.
pub open spec fn rows_read(rows: Map<Seq<char>, Row>, ids: Seq<Seq<char>>) -> Seq<Seq<Cell>> {
    ids.map_values(|id: Seq<char>| cells_of(rows[id]))
}

/// The day of a time: its first ten characters, up to the first that is NUL.
pub open spec fn day_of(at: Seq<char>) -> Seq<char>
{
    day_prefix(at, 10)
}

/// The first `n` characters, up to the first that is NUL.
pub open spec fn day_prefix(s: Seq<char>, n: nat) -> Seq<char>
    decreases n,
{
    if n == 0 || s.len() == 0 || s[0] == '\0' {
        Seq::empty()
    } else {
        seq![s[0]] + day_prefix(s.drop_first(), (n - 1) as nat)
    }
}

/// The days on which there was practice.
pub open spec fn days_in(rows: Map<Seq<char>, Row>) -> Set<Seq<char>> {
    rows.dom().map(|id: Seq<char>| day_of(rows[id].at))
}

/// Whether `at` is the latest of the times.
pub open spec fn is_latest(rows: Map<Seq<char>, Row>, at: Seq<char>) -> bool {
    &&& exists|id: Seq<char>| rows.dom().contains(id) && (#[trigger] rows[id]).at == at
    &&& forall|id: Seq<char>| rows.dom().contains(id) ==> text_in_order((#[trigger] rows[id]).at, at)
}

// ---------------------------------------------------------------- the connection

/// What a batch does that succeeds.
pub open spec fn batch_done(sql: Seq<char>, before: Db, after: Db) -> bool {
    &&& sql == SCHEMA@ ==> match before {
        Db::Unknown => true,
        Db::Fresh => after == (Db::Table { rows: Map::empty(), saved: None }),
        Db::Table { rows, saved } => saved is None ==> after == before,
    }
    &&& sql == BEGIN@ ==> match before {
        Db::Table { rows, saved: None } => after == (Db::Table { rows, saved: Some(rows) }),
        _ => true,
    }
    &&& sql == COMMIT@ ==> match before {
        Db::Table { rows, saved: Some(_) } => after == (Db::Table { rows, saved: None }),
        _ => true,
    }
    &&& sql == ROLLBACK@ ==> match before {
        Db::Table { rows, saved: Some(first) } => after == (Db::Table { rows: first, saved: None }),
        _ => true,
    }
}

/// What a statement leaves behind that fails: outside a transaction all is as it was,
/// and within one either the transaction is still open or it is undone.
pub open spec fn undone(before: Db, after: Db) -> bool {
    match before {
        Db::Table { rows, saved: None } => after == before,
        Db::Table { rows, saved: Some(first) } => {
            ||| after == (Db::Table { rows: first, saved: None })
            ||| after is Table && after->saved == Some(first)
        },
        _ => true,
    }
}

/// What a statement does that succeeds, with `n` as the number of rows it changed.
pub open spec fn statement_done(sql: Seq<char>, params: Seq<Cell>, before: Db, after: Db, n: nat) -> bool {
    &&& sql == INSERT@ ==> n <= 1
    &&& match before {
        Db::Table { rows, saved } => {
            &&& sql == INSERT@ && row_of(params) is Some ==> {
                let row = row_of(params)->0;
                &&& after == (Db::Table { rows: with_row(rows, row), saved })
                &&& n == if is_new(rows, row) {
                    1nat
                } else {
                    0
                }
            }
            &&& sql == DELETE@ && params.len() == 1 && params[0] is Text ==> {
                let id = params[0]->Text_0;
                &&& after == (Db::Table { rows: rows.remove(id), saved })
                &&& n == if rows.dom().contains(id) {
                    1nat
                } else {
                    0
                }
            }
        },
        _ => true,
    }
}

/// The total scores of the rows of some ids.
pub open spec fn totals(rows: Map<Seq<char>, Row>, ids: Seq<Seq<char>>) -> Seq<u64> {
    ids.map_values(|id: Seq<char>| rows[id].total)
}

/// Whether these are the ids of all rows, each once.
pub open spec fn are_all_ids(rows: Map<Seq<char>, Row>, ids: Seq<Seq<char>>) -> bool {
    ids.no_duplicates() && ids.to_set() == rows.dom()
}

/// Of at most so many rows it is said how near an average is to the mean.
pub const MEAN_ROWS: usize = 0x10_0000;

/// How near it is: up to two to the power of minus this.
pub const MEAN_DIGITS: u32 = 30;

/// Whether this is the average of the total scores: nothing where there is no row, of
/// one row the number itself, and of more rows, where all numbers lie from 0 to 1, the
/// mean but for rounding. SQLite adds the numbers in binary64 in an order of its own,
/// adds what it has lost on the way, and divides: each of at most `MEAN_ROWS` additions,
/// of sums not above that number, errs by two to the power -33 at most, and what is
/// added at the end is no more than all these errors together.
pub open spec fn is_average(rows: Map<Seq<char>, Row>, c: Cell) -> bool {
    &&& c is Null || c is Real
    &&& rows.len() == 0 ==> c is Null
    &&& forall|id: Seq<char>|
        rows.len() == 1 && rows.dom().contains(id) ==> c == Cell::Real((#[trigger] rows[id]).total)
    &&& forall|ids: Seq<Seq<char>>|
        are_all_ids(rows, ids) && 0 < ids.len() <= MEAN_ROWS && are_fractions(#[trigger] totals(rows, ids)) ==> c is Real
            && is_mean(totals(rows, ids), c->Real_0, MEAN_DIGITS as nat)
}

/// What a query answers.
pub open spec fn query_answered(sql: Seq<char>, params: Seq<Cell>, before: Db, out: Seq<Seq<Cell>>) -> bool {
    match before {
        Db::Table { rows, saved } => {
            &&& sql == PAGE@ && params.len() == 1 && params[0] is Integer ==> exists|ids: Seq<Seq<char>>|
                #[trigger] is_newest(rows, None, params[0]->Integer_0, ids) && out == rows_read(rows, ids)
            &&& sql == PAGE_OF_KIND@ && params.len() == 2 && params[0] is Text && params[1] is Integer ==> exists|
                ids: Seq<Seq<char>>,
            |
                #[trigger] is_newest(rows, Some(params[0]->Text_0), params[1]->Integer_0, ids) && out == rows_read(
                    rows,
                    ids,
                )
            &&& sql == COUNT@ && params.len() == 0 ==> out == seq![seq![Cell::Integer(rows.len() as int)]]
            &&& sql == STATS@ && params.len() == 0 ==> {
                &&& out.len() == 1
                &&& out[0].len() == 4
                &&& out[0][0] == Cell::Integer(rows.len() as int)
                &&& out[0][1] == Cell::Integer(days_in(rows).len() as int)
                &&& is_average(rows, out[0][2])
                &&& rows.len() == 0 ==> out[0][3] is Null
                &&& rows.len() > 0 ==> (out[0][3] matches Cell::Text(at) && is_latest(rows, at))
            }
            &&& sql == EXISTS@ && params.len() == 1 && params[0] is Text ==> out == if rows.dom().contains(
                params[0]->Text_0,
            ) {
                seq![seq![Cell::Integer(1)]]
            } else {
                Seq::empty()
            }
        },
        _ => true,
    }
}

/// `rusqlite::Connection::open_in_memory`: a database of its own, with nothing in it.
#[verifier::external_body]
pub(crate) fn open_in_memory() -> (r: Result<rusqlite::Connection, rusqlite::Error>)
    ensures
        r matches Ok(c) ==> db(c) is Fresh,
{
    rusqlite::Connection::open_in_memory()
}

/// Whether this is one of the batches named above.
pub open spec fn is_batch(sql: Seq<char>) -> bool {
    sql == SCHEMA@ || sql == BEGIN@ || sql == COMMIT@ || sql == ROLLBACK@
}

/// Whether this is one of the statements named above that change rows.
pub open spec fn is_statement(sql: Seq<char>) -> bool {
    sql == INSERT@ || sql == DELETE@
}

/// Whether this is one of the queries named above, which change nothing.
pub open spec fn is_query(sql: Seq<char>) -> bool {
    sql == PAGE@ || sql == PAGE_OF_KIND@ || sql == COUNT@ || sql == STATS@ || sql == EXISTS@
}

/// `rusqlite::Connection::execute_batch`, on the batches named above: runs the
/// statements of the text in turn. What is claimed is what SQLite documents of them.
#[verifier::external_body]
pub(crate) fn execute_batch(c: &mut rusqlite::Connection, sql: &str) -> (r: Result<(), rusqlite::Error>)
    requires
        is_batch(sql@),
    ensures
        r is Ok ==> batch_done(sql@, db(*old(c)), db(*final(c))),
        r is Err && db(*old(c)) is Table ==> undone(db(*old(c)), db(*final(c))),
{
    c.execute_batch(sql)
}

/// `rusqlite::Connection::execute`, on the statements named above: runs one with bound
/// values and returns how many rows it changed. What is no number is bound as `NULL`,
/// which `OR IGNORE` passes over where the column does not take it, and minus zero is
/// kept as zero.
#[verifier::external_body]
pub(crate) fn execute(c: &mut rusqlite::Connection, sql: &str, params: Vec<rusqlite::types::Value>) -> (r: Result<
    usize,
    rusqlite::Error,
>)
    requires
        is_statement(sql@),
    ensures
        r matches Ok(n) ==> statement_done(sql@, cells(params@), db(*old(c)), db(*final(c)), n as nat),
        r is Err ==> undone(db(*old(c)), db(*final(c))),
{
    c.execute(sql, rusqlite::params_from_iter(params))
}

/// `rusqlite::Connection::prepare` and `Statement::query_map`, on the queries named
/// above: the rows that a query gives, each as the list of its cells. The database
/// stays as it is. A text that is not UTF-8, which a file of other making may hold, is
/// an error.
#[verifier::external_body]
pub(crate) fn query(c: &rusqlite::Connection, sql: &str, params: Vec<rusqlite::types::Value>) -> (r: Result<
    Vec<Vec<rusqlite::types::Value>>,
    rusqlite::Error,
>)
    requires
        is_query(sql@),
    ensures
        r matches Ok(rows) ==> query_answered(sql@, cells(params@), db(*c), table(rows@)),
{
    let mut statement = c.prepare(sql)?;
    let width = statement.column_count();
    let rows = statement.query_map(rusqlite::params_from_iter(params), |row| {
        (0..width).map(|i| match row.get_ref(i)? {
            ValueRef::Null => Ok(Value::Null),
            ValueRef::Integer(n) => Ok(Value::Integer(n)),
            ValueRef::Real(x) => Ok(Value::Real(x)),
            ValueRef::Text(_) => row.get(i).map(Value::Text),
            ValueRef::Blob(b) => Ok(Value::Blob(b.to_vec())),
        }).collect()
    })?;
    rows.collect()
}

/// `rusqlite::Connection::is_autocommit`: whether no transaction is running.
#[verifier::external_body]
pub(crate) fn is_autocommit(c: &rusqlite::Connection) -> (r: bool)
    ensures
        db(*c) is Table ==> r == (db(*c)->saved is None),
{
    c.is_autocommit()
}

} // verus!
