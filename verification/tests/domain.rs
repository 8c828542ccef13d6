use rusqlite::types::Value;
use speaklab_server::domain::{Field, PracticeKind, PracticeRecord, Score, Stats, Violation};

fn score(x: f32) -> Score {
    Score::new(Value::Real(f64::from(x))).unwrap()
}

fn rec(id: &str, total: f32, at: &str) -> PracticeRecord {
    PracticeRecord {
        id: id.into(),
        kind: PracticeKind::Shadow,
        target: "hello".into(),
        transcript: "hello".into(),
        total: score(total),
        accuracy: score(total),
        fluency: score(total),
        completeness: score(total),
        label: "Daily".into(),
        at: at.into(),
    }
}

#[test]
fn validates_score_range() {
    let mut r = rec("a", 1.5, "2026-01-01T00:00:00Z");
    assert!(r.validate().is_err(), "总分超过 1 应该被拒");

    r.total = score(0.5);
    r.accuracy = score(0.5);
    r.fluency = score(0.5);
    r.completeness = score(0.5);
    assert!(r.validate().is_ok());

    r.total = score(0.0);
    assert!(r.validate().is_ok());
    r.total = score(1.0);
    assert!(r.validate().is_ok());

    r.accuracy = score(-0.1);
    assert!(r.validate().is_err(), "单个维度越界也应被拒");
}

#[test]
fn rejects_blank_id() {
    let r = rec("  ", 0.5, "2026-01-01T00:00:00Z");
    assert!(r.validate().is_err());
}

#[test]
fn rejects_nan() {
    let r = rec("a", f32::NAN, "2026-01-01T00:00:00Z");
    assert!(r.validate().is_err());
}

#[test]
fn stats_counts_distinct_days() {
    let records = vec![
        rec("a", 0.8, "2026-01-01T09:00:00Z"),
        rec("b", 0.6, "2026-01-01T21:00:00Z"),
        rec("c", 1.0, "2026-01-03T10:00:00Z"),
    ];
    let s = Stats::from_records(&records);
    assert_eq!(s.total_sessions, 3);
    assert_eq!(s.active_days, 2, "同一天的两条只算一天");
    assert!((f64::from_bits(s.average_total) as f32 - 0.8).abs() < 1e-6);
    assert_eq!(s.last_practiced_at.as_deref(), Some("2026-01-03T10:00:00Z"));
}

#[test]
fn stats_of_empty_is_default() {
    assert_eq!(Stats::from_records(&[]), Stats::default());
    assert_eq!(Stats::default().average_total, 0);
}

#[test]
fn each_fault_has_its_reason() {
    let good = rec("a", 0.5, "2026-01-01T00:00:00Z");
    assert_eq!(good.validate(), Ok(()));
    let long = PracticeRecord { id: "x".repeat(129), ..good.clone() };
    assert_eq!(long.validate(), Err(Violation::LongId));
    let edge = PracticeRecord { id: "x".repeat(128), ..good.clone() };
    assert_eq!(edge.validate(), Ok(()));
    // The length counts bytes.
    let wide = PracticeRecord { id: "练".repeat(43), ..good.clone() };
    assert_eq!(wide.validate(), Err(Violation::LongId));
    let infinite = PracticeRecord { fluency: score(f32::INFINITY), ..good.clone() };
    assert_eq!(infinite.validate(), Err(Violation::NotFinite(Field::Fluency)));
    let above = PracticeRecord { completeness: score(1.7), ..good.clone() };
    assert_eq!(above.validate(), Err(Violation::OutOfRange(Field::Completeness)));
    let untimed = PracticeRecord { at: "\t".into(), ..good.clone() };
    assert_eq!(untimed.validate(), Err(Violation::BlankTime));
    let minus_zero = PracticeRecord { total: score(-0.0), ..good.clone() };
    assert_eq!(minus_zero.validate(), Ok(()));
    let tiny = PracticeRecord { total: score(-1e-45), ..good };
    assert_eq!(tiny.validate(), Err(Violation::OutOfRange(Field::Total)));
}

#[test]
fn reasons_are_in_words() {
    assert_eq!(Violation::BlankId.reason(""), "id 不能为空");
    assert_eq!(Violation::LongId.reason(""), "id 过长");
    assert_eq!(Violation::NotFinite(Field::Accuracy).reason(""), "accuracy 不是有限数");
    assert_eq!(Violation::OutOfRange(Field::Total).reason("1.7"), "total 应在 0..=1 之间，实际 1.7");
    assert_eq!(Violation::BlankTime.reason(""), "at 不能为空");
    assert_eq!(Violation::OutOfRange(Field::Fluency).out_of_range(), Some(Field::Fluency));
    assert_eq!(Violation::BlankId.out_of_range(), None);
}

#[test]
fn kinds_have_words() {
    for k in [PracticeKind::Shadow, PracticeKind::Chat, PracticeKind::Phoneme] {
        assert_eq!(PracticeKind::from_word(k.as_str()), Some(k));
        assert_eq!(PracticeKind::from_stored(k.as_str()), k);
    }
    assert_eq!(PracticeKind::Phoneme.as_str(), "phoneme");
    assert_eq!(PracticeKind::from_word("Chat"), None);
    assert_eq!(PracticeKind::from_stored("legacy_kind"), PracticeKind::Shadow);
}

#[test]
fn only_a_real_is_a_score() {
    assert!(Score::new(Value::Integer(1)).is_none());
    assert!(Score::new(Value::Null).is_none());
    assert!(Score::new(Value::Text("1".into())).is_none());
    assert_eq!(score(0.5).to_bits(), 0.5f64.to_bits());
    let r = rec("a", 0.25, "t");
    assert_eq!(r.score(Field::Accuracy).to_bits(), 0.25f64.to_bits());
}

#[test]
fn a_time_without_a_t_is_its_own_day() {
    let records = vec![rec("a", 0.1, "yesterday"), rec("b", 0.2, "yesterday"), rec("c", 0.3, "Today")];
    let s = Stats::from_records(&records);
    assert_eq!(s.active_days, 2);
    assert_eq!(s.last_practiced_at.as_deref(), Some("yesterday"));
}
