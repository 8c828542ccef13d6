use rusqlite::types::Value;
use rusqlite::Connection;
use speaklab_server::domain::{PracticeKind, PracticeRecord, Score, Stats};
use speaklab_server::error::AppError;
use speaklab_server::store::{
    id_params, init_schema, is_there, page, record_params, row_to_record, row_to_stats, rows_to_count, rows_to_records,
    rows_to_stats, tally, was_there, Store,
};

fn score(x: f32) -> Score {
    Score::new(Value::Real(f64::from(x))).unwrap()
}

fn number(s: &Score) -> f32 {
    match s.value() {
        Value::Real(x) => x as f32,
        other => panic!("{:?}", other),
    }
}

fn rec(id: &str, total: f32, at: &str) -> PracticeRecord {
    PracticeRecord {
        id: id.into(),
        kind: PracticeKind::Shadow,
        target: "hello".into(),
        transcript: "hello".into(),
        total: score(total),
        accuracy: score(total),
        fluency: score(total),
        completeness: score(total),
        label: "Daily".into(),
        at: at.into(),
    }
}

fn ids(records: Vec<PracticeRecord>) -> Vec<String> {
    records.into_iter().map(|r| r.id).collect()
}

#[test]
fn insert_then_read_back() {
    let mut s = Store::open_memory().unwrap();
    let n = s.insert_many(vec![rec("a", 0.8, "2026-01-01T09:00:00Z")]).unwrap();
    assert_eq!(n, 1);

    let rows = s.list(None, 10).unwrap();
    assert_eq!(rows.len(), 1);
    assert_eq!(rows[0].id, "a");
    assert!((number(&rows[0].total) - 0.8).abs() < 1e-6);
}

#[test]
fn duplicate_id_is_ignored_not_an_error() {
    let mut s = Store::open_memory().unwrap();
    s.insert_many(vec![rec("a", 0.5, "2026-01-01T09:00:00Z")]).unwrap();
    let n = s.insert_many(vec![rec("a", 0.5, "2026-01-01T09:00:00Z")]).unwrap();

    assert_eq!(n, 0, "重复的 id 不该被写入");
    assert_eq!(s.count().unwrap(), 1);
}

#[test]
fn list_is_newest_first() {
    let mut s = Store::open_memory().unwrap();
    s.insert_many(vec![
        rec("old", 0.1, "2026-01-01T00:00:00Z"),
        rec("new", 0.9, "2026-03-01T00:00:00Z"),
        rec("mid", 0.5, "2026-02-01T00:00:00Z"),
    ])
    .unwrap();

    let ids: Vec<_> = s.list(None, 10).unwrap().into_iter().map(|r| r.id).collect();
    assert_eq!(ids, vec!["new", "mid", "old"]);
}

#[test]
fn list_respects_limit() {
    let mut s = Store::open_memory().unwrap();
    s.insert_many(vec![
        rec("a", 0.1, "2026-01-01T00:00:00Z"),
        rec("b", 0.2, "2026-01-02T00:00:00Z"),
        rec("c", 0.3, "2026-01-03T00:00:00Z"),
    ])
    .unwrap();
    assert_eq!(s.list(None, 2).unwrap().len(), 2);
}

#[test]
fn list_filters_by_kind() {
    let mut s = Store::open_memory().unwrap();
    let mut chat = rec("c1", 0.5, "2026-01-01T00:00:00Z");
    chat.kind = PracticeKind::Chat;
    s.insert_many(vec![rec("s1", 0.5, "2026-01-01T00:00:00Z"), chat]).unwrap();

    let shadows = s.list(Some(PracticeKind::Shadow), 10).unwrap();
    assert_eq!(shadows.len(), 1);
    assert_eq!(shadows[0].id, "s1");

    let chats = s.list(Some(PracticeKind::Chat), 10).unwrap();
    assert_eq!(chats.len(), 1);
    assert_eq!(chats[0].id, "c1");
}

#[test]
fn stats_roll_up_correctly() {
    let mut s = Store::open_memory().unwrap();
    s.insert_many(vec![
        rec("a", 0.8, "2026-01-01T09:00:00Z"),
        rec("b", 0.6, "2026-01-01T21:00:00Z"),
        rec("c", 1.0, "2026-01-03T10:00:00Z"),
    ])
    .unwrap();

    let st = s.stats().unwrap();
    assert_eq!(st.total_sessions, 3);
    assert_eq!(st.active_days, 2, "同一天的两条只算一天");
    let average = f64::from_bits(st.average_total) as f32;
    assert!((average - 0.8).abs() < 1e-6, "平均 {}", average);
    assert_eq!(st.last_practiced_at.as_deref(), Some("2026-01-03T10:00:00Z"));
}

#[test]
fn stats_of_empty_db() {
    let s = Store::open_memory().unwrap();
    let st = s.stats().unwrap();
    assert_eq!(st.total_sessions, 0);
    assert_eq!(st.active_days, 0);
    assert!(st.last_practiced_at.is_none());
    assert_eq!(st.average_total, 0);
}

#[test]
fn the_average_of_one_is_its_score() {
    let mut s = Store::open_memory().unwrap();
    s.insert_many(vec![rec("a", 0.1, "t")]).unwrap();
    assert_eq!(s.stats().unwrap().average_total, score(0.1).to_bits());
    let row = vec![Value::Integer(3), Value::Integer(2), Value::Real(0.25), Value::Null];
    let st = row_to_stats(&row).unwrap();
    assert_eq!((st.total_sessions, st.active_days), (3, 2));
    assert_eq!(f64::from_bits(st.average_total), 0.25);
    assert_eq!(st.last_practiced_at, None);
    assert!(row_to_stats(&Vec::new()).is_none());
    assert!(row_to_stats(&vec![Value::Null, Value::Integer(2), Value::Null, Value::Null]).is_none());
}

#[test]
fn delete_removes_row() {
    let mut s = Store::open_memory().unwrap();
    s.insert_many(vec![rec("a", 0.5, "2026-01-01T00:00:00Z")]).unwrap();
    assert!(s.delete("a").unwrap());
    assert!(!s.contains("a").unwrap());
    assert!(!s.delete("a").unwrap(), "删不存在的应返回 false");
}

#[test]
fn unknown_kind_falls_back_instead_of_erroring() {
    let mut conn = Connection::open_in_memory().unwrap();
    init_schema(&mut conn).unwrap();
    conn.execute(
        "INSERT INTO practices (id,kind,total,at) VALUES ('x','legacy_kind',0.5,'2026-01-01T00:00:00Z')",
        [],
    )
    .unwrap();
    let s = Store::open(conn).unwrap();

    let rows = s.list(None, 10).unwrap();
    assert_eq!(rows.len(), 1);
    assert_eq!(rows[0].kind, PracticeKind::Shadow, "未知类型应退回默认值");
}

#[test]
fn every_field_is_read_back() {
    let mut s = Store::open_memory().unwrap();
    let r = PracticeRecord {
        id: "编号\0x".into(),
        kind: PracticeKind::Phoneme,
        target: "a'b\"".into(),
        transcript: "".into(),
        total: score(0.1),
        accuracy: score(1.0),
        fluency: score(0.0),
        completeness: score(f32::INFINITY),
        label: "标签".into(),
        at: "2026-01-01T00:00:00Z".into(),
    };
    assert_eq!(s.insert_many(vec![r.clone()]).unwrap(), 1);
    assert_eq!(s.list(None, 1).unwrap(), vec![r]);
    assert!(s.contains("编号\0x").unwrap());
    assert!(!s.contains("编号").unwrap());
}

#[test]
fn minus_zero_is_kept_as_zero() {
    let mut s = Store::open_memory().unwrap();
    s.insert_many(vec![rec("a", -0.0, "t")]).unwrap();
    assert_eq!(s.list(None, 1).unwrap()[0].total.to_bits(), 0);
}

#[test]
fn a_score_that_is_no_number_is_passed_over() {
    let mut s = Store::open_memory().unwrap();
    let mut odd = rec("odd", 0.5, "t");
    odd.fluency = score(f32::NAN);
    assert_eq!(s.insert_many(vec![odd, rec("a", 0.5, "t")]).unwrap(), 1);
    assert!(!s.contains("odd").unwrap());
    assert!(s.contains("a").unwrap());
}

#[test]
fn the_first_of_two_with_one_id_stays() {
    let mut s = Store::open_memory().unwrap();
    let n = s.insert_many(vec![rec("a", 0.25, "t1"), rec("a", 0.75, "t2"), rec("b", 0.5, "t3")]).unwrap();
    assert_eq!(n, 2);
    s.insert_many(vec![rec("a", 1.0, "t4")]).unwrap();
    let rows = s.list(None, 10).unwrap();
    assert_eq!(rows.len(), 2);
    assert_eq!(rows[1].at, "t1");
    assert_eq!(number(&rows[1].total), 0.25);
}

#[test]
fn writing_again_changes_nothing() {
    let mut s = Store::open_memory().unwrap();
    let all = vec![rec("a", 0.25, "t1"), rec("b", 0.5, "t2")];
    assert_eq!(s.insert_many(all.clone()).unwrap(), 2);
    let before = s.list(None, 10).unwrap();
    assert_eq!(s.insert_many(all).unwrap(), 0);
    assert_eq!(s.list(None, 10).unwrap(), before);
}

#[test]
fn limits_at_the_edges() {
    let mut s = Store::open_memory().unwrap();
    s.insert_many(vec![rec("a", 0.1, "1"), rec("b", 0.2, "2")]).unwrap();
    assert!(s.list(None, 0).unwrap().is_empty());
    assert_eq!(s.list(None, usize::MAX).unwrap().len(), 2);
    assert_eq!(ids(s.list(None, 1).unwrap()), vec!["b"]);
    assert!(s.list(Some(PracticeKind::Chat), 5).unwrap().is_empty());
}

#[test]
fn days_are_the_first_ten_characters() {
    let mut s = Store::open_memory().unwrap();
    s.insert_many(vec![
        rec("a", 0.1, "2026-01-01x"),
        rec("b", 0.2, "2026-01-01y"),
        rec("c", 0.2, "2026-01-02\0y"),
        rec("d", 0.2, "2026\0a"),
        rec("e", 0.2, "2026\0b"),
    ])
    .unwrap();
    assert_eq!(s.stats().unwrap().active_days, 3);
}

#[test]
fn the_table_is_made_once() {
    let name = "file:made_once?mode=memory&cache=shared";
    let mut s = Store::open(Connection::open(name).unwrap()).unwrap();
    s.insert_many(vec![rec("a", 0.1, "1")]).unwrap();
    let mut other = Connection::open(name).unwrap();
    init_schema(&mut other).unwrap();
    let again = Store::open(other).unwrap();
    assert_eq!(again.count().unwrap(), 1);
    assert_eq!(s.count().unwrap(), 1);
}

#[test]
fn a_broken_database_is_reported() {
    let name = "file:broken?mode=memory&cache=shared";
    let other = Connection::open(name).unwrap();
    let mut s = Store::open(Connection::open(name).unwrap()).unwrap();
    other.execute("DROP TABLE practices", []).unwrap();
    let words = |e: AppError| match e {
        AppError::Internal(why) => why,
        other => panic!("{:?}", other),
    };
    assert!(words(s.insert_many(vec![rec("a", 0.1, "1")]).unwrap_err()).starts_with("写入记录失败："));
    assert!(words(s.list(None, 1).unwrap_err()).starts_with("读取记录失败："));
    assert!(words(s.count().unwrap_err()).starts_with("统计条数失败："));
    assert!(words(s.stats().unwrap_err()).starts_with("统计失败："));
    assert!(words(s.delete("a").unwrap_err()).starts_with("删除记录失败："));
    assert!(words(s.contains("a").unwrap_err()).starts_with("查询失败："));
}

#[test]
fn a_failure_half_way_writes_nothing() {
    let mut conn = Connection::open_in_memory().unwrap();
    init_schema(&mut conn).unwrap();
    conn.execute_batch(
        "CREATE TRIGGER no_b BEFORE INSERT ON practices WHEN NEW.id = 'b'
         BEGIN SELECT RAISE(FAIL, 'no'); END;",
    )
    .unwrap();
    let mut s = Store::open(conn).unwrap();
    assert!(s.insert_many(vec![rec("a", 0.1, "1"), rec("b", 0.1, "2")]).is_err());
    assert_eq!(s.count().unwrap(), 0);
    // The transaction is over: the next one can begin.
    assert_eq!(s.insert_many(vec![rec("c", 0.1, "1")]).unwrap(), 1);
}

#[test]
fn a_score_kept_as_an_integer_is_read() {
    let conn = Connection::open_in_memory().unwrap();
    conn.execute_batch(
        "CREATE TABLE practices (id TEXT PRIMARY KEY, kind TEXT, target TEXT, transcript TEXT, total INTEGER,
         accuracy INTEGER, fluency INTEGER, completeness INTEGER, label TEXT, at TEXT);
         INSERT INTO practices VALUES ('x','chat','','',1,0,-2,9007199254740993,'','t');",
    )
    .unwrap();
    let s = Store::open(conn).unwrap();
    let r = &s.list(None, 1).unwrap()[0];
    assert_eq!(r.total.to_bits(), 1f64.to_bits());
    assert_eq!(r.accuracy.to_bits(), 0);
    assert_eq!(r.fluency.to_bits(), (-2f64).to_bits());
    assert_eq!(r.completeness.to_bits(), 9007199254740993f64.to_bits());
}

#[test]
fn both_ways_of_summing_up_agree() {
    let records = vec![
        rec("a", 0.5, "2026-01-01T09:00:00Z"),
        rec("b", 0.5, "2026-01-03T21:00:00Z"),
        rec("c", 0.5, "2026-01-01T10:00:00Z"),
    ];
    let mut s = Store::open_memory().unwrap();
    s.insert_many(records.clone()).unwrap();
    let by_store = s.stats().unwrap();
    assert_eq!(by_store, Stats::from_records(&records));
    let mut turned = records;
    turned.reverse();
    assert_eq!(by_store, Stats::from_records(&turned));
    assert_eq!(by_store.total_sessions, s.count().unwrap());
}

#[test]
fn text_that_is_not_utf8_is_an_error() {
    let mut conn = Connection::open_in_memory().unwrap();
    init_schema(&mut conn).unwrap();
    conn.execute(
        "INSERT INTO practices (id,kind,total,label,at) VALUES ('x','chat',0.5,CAST(x'ff' AS TEXT),CAST(x'fe' AS TEXT))",
        [],
    )
    .unwrap();
    let s = Store::open(conn).unwrap();
    let words = |e: AppError| match e {
        AppError::Internal(why) => why,
        other => panic!("{:?}", other),
    };
    assert!(words(s.list(None, 10).unwrap_err()).starts_with("读取记录失败："));
    assert!(words(s.stats().unwrap_err()).starts_with("统计失败："));
    assert_eq!(s.count().unwrap(), 1);
    assert!(s.contains("x").unwrap());
}

#[test]
fn questions_and_answers_have_a_shape() {
    let text = |s: &str| Value::Text(s.into());
    assert_eq!(page(None, 7).1, vec![Value::Integer(7)]);
    assert!(!page(None, 7).0.contains("WHERE"));
    assert_eq!(page(Some(PracticeKind::Chat), usize::MAX).1, vec![text("chat"), Value::Integer(-1)]);
    assert!(page(Some(PracticeKind::Chat), 1).0.contains("WHERE kind = ?1"));
    assert_eq!(id_params("a"), vec![text("a")]);
    let params = record_params(&rec("a", 0.5, "t"));
    assert_eq!(params.len(), 10);
    assert_eq!((&params[0], &params[1], &params[4]), (&text("a"), &text("shadow"), &Value::Real(0.5)));
    let words = |e: AppError| match e {
        AppError::Internal(why) => why,
        other => panic!("{:?}", other),
    };
    assert_eq!(rows_to_count(&vec![vec![Value::Integer(3)]]).unwrap(), 3);
    assert_eq!(rows_to_count(&vec![vec![Value::Integer(-1)]]).unwrap(), u64::MAX);
    for bad in [vec![], vec![vec![]], vec![vec![Value::Null]], vec![vec![Value::Integer(1)], vec![Value::Integer(1)]]] {
        assert!(words(rows_to_count(&bad).unwrap_err()).starts_with("统计条数失败："));
    }
    assert!(words(rows_to_stats(&Vec::new()).unwrap_err()).starts_with("统计失败："));
    let summary = vec![vec![Value::Integer(1), Value::Integer(1), Value::Real(0.5), text("t")]];
    assert_eq!(rows_to_stats(&summary).unwrap().last_practiced_at.as_deref(), Some("t"));
    let read = rows_to_records(&vec![params.clone(), params.clone()]).unwrap();
    assert_eq!(read, vec![rec("a", 0.5, "t"), rec("a", 0.5, "t")]);
    assert!(words(rows_to_records(&vec![params, Vec::new()]).unwrap_err()).starts_with("读取记录失败："));
    assert!(is_there(&vec![Vec::new()]) && !is_there(&Vec::new()));
    assert!(was_there(1) && !was_there(0));
    assert_eq!(tally(&vec![1, 0, 1]), 2);
}

#[test]
fn a_row_of_another_shape_is_no_record() {
    assert!(row_to_record(&Vec::new()).is_none());
    let text = |s: &str| Value::Text(s.into());
    let real = || Value::Real(0.5);
    let mut row = vec![
        text("a"), text("chat"), text("t"), text("u"), real(), real(), real(), real(), text("l"), text("w"),
    ];
    assert_eq!(row_to_record(&row).unwrap().kind, PracticeKind::Chat);
    row[4] = Value::Null;
    assert!(row_to_record(&row).is_none());
}
