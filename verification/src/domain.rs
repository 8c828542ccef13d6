//! The records of practice and what follows from them alone.

use vstd::prelude::*;
use vstd::string::*;
use vstd::utf8::*;

use crate::binary64::{finite, fraction, is_finite, is_fraction};
use crate::mean::{is_mean_of, mean};
use crate::sql;
use crate::sql::{cell, Cell, Part};
use crate::text::{before, blank, first_place, has_prefix, lemma_first_place, in_order_is_total, in_order_is_transitive, is_blank, not_after, same, text_in_order, text_in_order_is_antisymmetric};

verus! {

// ---------------------------------------------------------------- scores

/// A score. It is any binary64 number, carried as the database takes it; whether it
/// is one that a record may have is for `validate` to say.
#[derive(Debug, PartialEq)]
pub struct Score {
    real: rusqlite::types::Value,
}

impl Score {
    #[verifier::type_invariant]
    spec fn is_real(self) -> bool {
        cell(self.real) is Real
    }

    /// The bits of the number.
    pub closed spec fn bits(self) -> u64 {
        cell(self.real)->Real_0
    }

    /// The score that a value stands for; `None` for one that is no
    /// floating-point number.
    pub fn new(value: rusqlite::types::Value) -> (r: Option<Score>)
        ensures
            r is Some == (cell(value) is Real),
            r matches Some(s) ==> s.bits() == cell(value)->Real_0,
    {
        match sql::part(&value) {
            Part::Real(_) => Some(Score { real: value }),
            _ => None,
        }
    }

    /// The number, as the database takes it.
    pub fn value(&self) -> (r: rusqlite::types::Value)
        ensures
            cell(r) == Cell::Real(self.bits()),
    {
        proof {
            use_type_invariant(self);
        }
        sql::copy_value(&self.real)
    }

    /// The bits of the number.
    pub fn to_bits(&self) -> (r: u64)
        ensures
            r == self.bits(),
    {
        proof {
            use_type_invariant(self);
        }
        match sql::part(&self.real) {
            Part::Real(bits) => bits,
            _ => 0,
        }
    }
}

impl Clone for Score {
    fn clone(&self) -> (r: Score)
        ensures
            r.bits() == self.bits(),
    {
        proof {
            use_type_invariant(self);
        }
        Score { real: sql::copy_value(&self.real) }
    }
}

// ---------------------------------------------------------------- records

/// What was practised.
#[derive(Debug, Clone, Copy, PartialEq, Eq, Structural)]
pub enum PracticeKind {
    Shadow,
    Chat,
    Phoneme,
}

impl PracticeKind {
    /// The word for a kind.
    pub open spec fn word(self) -> Seq<char> {
        match self {
            PracticeKind::Shadow => "shadow"@,
            PracticeKind::Chat => "chat"@,
            PracticeKind::Phoneme => "phoneme"@,
        }
    }

    /// The word for a kind.
    pub fn as_str(self) -> (r: &'static str)
        ensures
            r@ == self.word(),
            self is Shadow ==> r@ == "shadow"@,
            self is Chat ==> r@ == "chat"@,
            self is Phoneme ==> r@ == "phoneme"@,
    {
        match self {
            PracticeKind::Shadow => "shadow",
            PracticeKind::Chat => "chat",
            PracticeKind::Phoneme => "phoneme",
        }
    }

    /// The kind that a stored word stands for. A word that means nothing here, from
    /// another version perhaps, is read as `Shadow`.
    pub open spec fn stored_as(word: Seq<char>) -> PracticeKind {
        if word == "chat"@ {
            PracticeKind::Chat
        } else if word == "phoneme"@ {
            PracticeKind::Phoneme
        } else {
            PracticeKind::Shadow
        }
    }

    /// The kind that a stored word stands for.
    pub fn from_stored(word: &str) -> (r: PracticeKind)
        ensures
            r == PracticeKind::stored_as(word@),
    {
        if same(word, "chat") {
            PracticeKind::Chat
        } else if same(word, "phoneme") {
            PracticeKind::Phoneme
        } else {
            PracticeKind::Shadow
        }
    }

    /// The kind that a word names; `None` if it names none.
    pub fn from_word(word: &str) -> (r: Option<PracticeKind>)
        ensures
            match r {
                Some(k) => k.word() == word@,
                None => forall|k: PracticeKind| #[trigger] k.word() != word@,
            },
    {
        if same(word, "shadow") {
            Some(PracticeKind::Shadow)
        } else if same(word, "chat") {
            Some(PracticeKind::Chat)
        } else if same(word, "phoneme") {
            Some(PracticeKind::Phoneme)
        } else {
            None
        }
    }
}

/// A kind is read back as it was written.
pub proof fn kinds_survive_storage(k: PracticeKind)
    ensures
        PracticeKind::stored_as(k.word()) == k,
{
    reveal_strlit("shadow");
    reveal_strlit("chat");
    reveal_strlit("phoneme");
    assert("shadow"@.len() == 6 && "chat"@.len() == 4 && "phoneme"@.len() == 7);
}

/// No two kinds have the same word.
pub proof fn kinds_have_their_own_words(a: PracticeKind, b: PracticeKind)
    requires
        a.word() == b.word(),
    ensures
        a == b,
{
    kinds_survive_storage(a);
    kinds_survive_storage(b);
}

/// One practice.
#[derive(Debug, PartialEq)]
pub struct PracticeRecord {
    /// Given by the client and never changed, so that nothing is entered twice.
    pub id: String,
    pub kind: PracticeKind,
    /// The text that was to be said.
    pub target: String,
    /// The text that was heard.
    pub transcript: String,
    /// The score as a whole, from 0 to 1.
    pub total: Score,
    pub accuracy: Score,
    pub fluency: Score,
    pub completeness: Score,
    /// The scene or the sound that was practised.
    pub label: String,
    /// When it took place, in RFC 3339.
    pub at: String,
}

/// What a record says.
#[verifier::ext_equal]
pub struct RecordView {
    pub id: Seq<char>,
    pub kind: PracticeKind,
    pub target: Seq<char>,
    pub transcript: Seq<char>,
    pub total: u64,
    pub accuracy: u64,
    pub fluency: u64,
    pub completeness: u64,
    pub label: Seq<char>,
    pub at: Seq<char>,
}

impl View for PracticeRecord {
    type V = RecordView;

    open spec fn view(&self) -> RecordView {
        RecordView {
            id: self.id@,
            kind: self.kind,
            target: self.target@,
            transcript: self.transcript@,
            total: self.total.bits(),
            accuracy: self.accuracy.bits(),
            fluency: self.fluency.bits(),
            completeness: self.completeness.bits(),
            label: self.label@,
            at: self.at@,
        }
    }
}

impl Clone for PracticeRecord {
    fn clone(&self) -> (r: PracticeRecord)
        ensures
            r@ == self@,
    {
        PracticeRecord {
            id: self.id.clone(),
            kind: self.kind,
            target: self.target.clone(),
            transcript: self.transcript.clone(),
            total: self.total.clone(),
            accuracy: self.accuracy.clone(),
            fluency: self.fluency.clone(),
            completeness: self.completeness.clone(),
            label: self.label.clone(),
            at: self.at.clone(),
        }
    }
}

/// What the records of a row say.
pub open spec fn all_records(s: Seq<PracticeRecord>) -> Seq<RecordView> {
    s.map_values(|r: PracticeRecord| r@)
}

/// A score of a record.
#[derive(Debug, Clone, Copy, PartialEq, Eq, Structural)]
pub enum Field {
    Total,
    Accuracy,
    Fluency,
    Completeness,
}

impl Field {
    /// The name of the score.
    pub open spec fn name(self) -> Seq<char> {
        match self {
            Field::Total => "total"@,
            Field::Accuracy => "accuracy"@,
            Field::Fluency => "fluency"@,
            Field::Completeness => "completeness"@,
        }
    }

    /// The name of the score.
    pub fn as_str(self) -> (r: &'static str)
        ensures
            r@ == self.name(),
            self is Total ==> r@ == "total"@,
            self is Accuracy ==> r@ == "accuracy"@,
            self is Fluency ==> r@ == "fluency"@,
            self is Completeness ==> r@ == "completeness"@,
    {
        match self {
            Field::Total => "total",
            Field::Accuracy => "accuracy",
            Field::Fluency => "fluency",
            Field::Completeness => "completeness",
        }
    }
}

/// Why a record is refused.
#[derive(Debug, Clone, Copy, PartialEq, Eq, Structural)]
pub enum Violation {
    BlankId,
    LongId,
    NotFinite(Field),
    OutOfRange(Field),
    BlankTime,
}

impl Violation {
    /// The reason in words. `shown` is the score in question, written out.
    pub open spec fn words(self, shown: Seq<char>) -> Seq<char> {
        match self {
            Violation::BlankId => "id 不能为空"@,
            Violation::LongId => "id 过长"@,
            Violation::NotFinite(f) => f.name() + " 不是有限数"@,
            Violation::OutOfRange(f) => f.name() + " 应在 0..=1 之间，实际 "@ + shown,
            Violation::BlankTime => "at 不能为空"@,
        }
    }

    /// The reason in words. `shown` is the score in question, written out; where no
    /// score is out of range it is not used.
    pub fn reason(self, shown: &str) -> (r: String)
        ensures
            r@ == self.words(shown@),
    {
        match self {
            Violation::BlankId => "id 不能为空".to_owned(),
            Violation::LongId => "id 过长".to_owned(),
            Violation::NotFinite(f) => f.as_str().to_owned().concat(" 不是有限数"),
            Violation::OutOfRange(f) => f.as_str().to_owned().concat(" 应在 0..=1 之间，实际 ").concat(shown),
            Violation::BlankTime => "at 不能为空".to_owned(),
        }
    }

    /// The score that is out of range, if that is the reason.
    pub fn out_of_range(self) -> (r: Option<Field>)
        ensures
            r == (match self {
                Violation::OutOfRange(f) => Some(f),
                _ => None,
            }),
    {
        match self {
            Violation::OutOfRange(f) => Some(f),
            _ => None,
        }
    }
}

/// The longest id that is taken, in bytes.
pub const ID_BYTES: usize = 128;

/// What is wrong with a score, if anything is.
pub open spec fn score_fault(bits: u64, field: Field) -> Option<Violation> {
    if !is_finite(bits) {
        Some(Violation::NotFinite(field))
    } else if !is_fraction(bits) {
        Some(Violation::OutOfRange(field))
    } else {
        None
    }
}

/// The first thing that is wrong with a record, if anything is.
pub open spec fn fault_of(r: RecordView) -> Option<Violation> {
    if is_blank(r.id) {
        Some(Violation::BlankId)
    } else if encode_utf8(r.id).len() > ID_BYTES {
        Some(Violation::LongId)
    } else if score_fault(r.total, Field::Total) is Some {
        score_fault(r.total, Field::Total)
    } else if score_fault(r.accuracy, Field::Accuracy) is Some {
        score_fault(r.accuracy, Field::Accuracy)
    } else if score_fault(r.fluency, Field::Fluency) is Some {
        score_fault(r.fluency, Field::Fluency)
    } else if score_fault(r.completeness, Field::Completeness) is Some {
        score_fault(r.completeness, Field::Completeness)
    } else if is_blank(r.at) {
        Some(Violation::BlankTime)
    } else {
        None
    }
}

fn check_score(score: &Score, field: Field) -> (r: Result<(), Violation>)
    ensures
        r == (match score_fault(score.bits(), field) {
            Some(v) => Err::<(), Violation>(v),
            None => Ok(()),
        }),
{
    let bits = score.to_bits();
    if !finite(bits) {
        return Err(Violation::NotFinite(field));
    }
    if !fraction(bits) {
        return Err(Violation::OutOfRange(field));
    }
    Ok(())
}

impl PracticeRecord {
    /// The score of a record.
    pub fn score(&self, field: Field) -> (r: &Score)
        ensures
            r.bits() == (match field {
                Field::Total => self@.total,
                Field::Accuracy => self@.accuracy,
                Field::Fluency => self@.fluency,
                Field::Completeness => self@.completeness,
            }),
    {
        match field {
            Field::Total => &self.total,
            Field::Accuracy => &self.accuracy,
            Field::Fluency => &self.fluency,
            Field::Completeness => &self.completeness,
        }
    }

    /// Refuses what should never get into the database, with the first reason found.
    pub fn validate(&self) -> (r: Result<(), Violation>)
        ensures
            r == (match fault_of(self@) {
                Some(v) => Err::<(), Violation>(v),
                None => Ok(()),
            }),
            r is Ok == {
                &&& !is_blank(self.id@)
                &&& encode_utf8(self.id@).len() <= 128
                &&& is_fraction(self.total.bits())
                &&& is_fraction(self.accuracy.bits())
                &&& is_fraction(self.fluency.bits())
                &&& is_fraction(self.completeness.bits())
                &&& !is_blank(self.at@)
            },
    {
        if blank(self.id.as_str()) {
            return Err(Violation::BlankId);
        }
        if self.id.as_str().as_bytes().len() > ID_BYTES {
            return Err(Violation::LongId);
        }
        check_score(&self.total, Field::Total)?;
        check_score(&self.accuracy, Field::Accuracy)?;
        check_score(&self.fluency, Field::Fluency)?;
        check_score(&self.completeness, Field::Completeness)?;
        if blank(self.at.as_str()) {
            return Err(Violation::BlankTime);
        }
        Ok(())
    }
}

// ---------------------------------------------------------------- statistics

/// A summary of records.
#[derive(Debug, PartialEq)]
pub struct Stats {
    pub total_sessions: u64,
    /// The number of different days on which there was practice.
    pub active_days: u64,
    /// The mean of the total scores, by its bits in binary64.
    pub average_total: u64,
    /// The time of the latest practice, in RFC 3339.
    pub last_practiced_at: Option<String>,
}

/// The day of a time in RFC 3339: what stands before the first `T`.
pub open spec fn date_of(at: Seq<char>) -> Seq<char> {
    at.take(first_place(at, 'T'))
}

/// The days of records.
pub open spec fn dates_of(s: Seq<RecordView>) -> Set<Seq<char>> {
    s.map_values(|r: RecordView| date_of(r.at)).to_set()
}

/// Whether `at` is the latest of the times of records.
pub open spec fn is_last(s: Seq<RecordView>, at: Seq<char>) -> bool {
    &&& exists|i: int| 0 <= i < s.len() && (#[trigger] s[i]).at == at
    &&& forall|i: int| 0 <= i < s.len() ==> text_in_order((#[trigger] s[i]).at, at)
}

/// The total scores of records.
pub open spec fn totals_of(s: Seq<RecordView>) -> Seq<u64> {
    s.map_values(|r: RecordView| r.total)
}

/// Whether this sums records up: how many there are, on how many days, and when the
/// last one was.
pub open spec fn is_roll_up(s: Seq<RecordView>, stats: Stats) -> bool {
    &&& stats.total_sessions == s.len()
    &&& stats.active_days == dates_of(s).len()
    &&& stats.last_practiced_at is Some == (s.len() > 0)
    &&& stats.last_practiced_at matches Some(at) ==> is_last(s, at@)
}

impl Default for Stats {
    fn default() -> (r: Stats)
        ensures
            r.total_sessions == 0,
            r.active_days == 0,
            r.average_total == 0,
            r.last_practiced_at is None,
    {
        Stats { total_sessions: 0, active_days: 0, average_total: 0, last_practiced_at: None }
    }
}

/// What a row of texts holds.
spec fn held_texts(s: Seq<&str>) -> Seq<Seq<char>> {
    s.map_values(|t: &str| t@)
}

proof fn adding_adds(m: Seq<Seq<char>>, x: Seq<char>)
    ensures
        m.push(x).to_set() == m.to_set().insert(x),
{
    assert forall|y: Seq<char>| m.to_set().insert(x).contains(y) implies m.push(x).to_set().contains(y) by {
        if y == x {
            assert(m.push(x)[m.len() as int] == y);
        } else {
            let k = choose|k: int| 0 <= k < m.len() && m[k] == y;
            assert(m.push(x)[k] == y);
        }
    }
    assert(m.push(x).to_set() =~= m.to_set().insert(x));
}

fn is_among(s: &str, all: &Vec<&str>) -> (r: bool)
    ensures
        r == held_texts(all@).contains(s@),
{
    let mut i: usize = 0;
    while i < all.len()
        invariant
            i <= all@.len(),
            forall|j: int| 0 <= j < i ==> #[trigger] held_texts(all@)[j] != s@,
        decreases all@.len() - i,
    {
        assert(held_texts(all@)[i as int] == all@[i as int]@);
        if same(all[i], s) {
            return true;
        }
        i += 1;
    }
    assert(held_texts(all@).len() == all@.len());
    false
}

impl Stats {
    /// Sums records up; no record at all gives the default.
    pub fn from_records(records: &[PracticeRecord]) -> (r: Stats)
        ensures
            is_roll_up(all_records(records@), r),
            records@.len() == 0 ==> r.average_total == 0,
            records@.len() > 0 ==> is_mean_of(totals_of(all_records(records@)), r.average_total),
    {
        if records.len() == 0 {
            assert(dates_of(all_records(records@)) =~= Set::empty());
            return Stats::default();
        }
        let ghost all = all_records(records@);
        let mut days: Vec<&str> = Vec::new();
        let mut totals: Vec<u64> = Vec::new();
        let mut last: &str = records[0].at.as_str();
        let mut i: usize = 0;
        proof {
            assert(held_texts(days@) =~= Seq::empty());
            assert(dates_of(all.take(0)) =~= Set::empty());
            assert(held_texts(days@).to_set() =~= Set::empty());
            in_order_is_total(encode_utf8(last@), encode_utf8(last@));
            assert(all[0].at == last@);
        }
        while i < records.len()
            invariant
                all == all_records(records@),
                i <= records@.len(),
                totals@.len() == i,
                forall|j: int| 0 <= j < i ==> #[trigger] totals@[j] == all[j].total,
                held_texts(days@).no_duplicates(),
                held_texts(days@).to_set() == dates_of(all.take(i as int)),
                exists|j: int| 0 <= j < all.len() && (#[trigger] all[j]).at == last@,
                forall|j: int| 0 <= j < i ==> text_in_order((#[trigger] all[j]).at, last@),
            decreases records@.len() - i,
        {
            let at = records[i].at.as_str();
            let day = before(at, 'T');
            totals.push(records[i].total.to_bits());
            let ghost old_days = days@;
            proof {
                assert(all[i as int].at == at@);
                assert(all.take(i + 1) =~= all.take(i as int).push(all[i as int]));
                let f = |r: RecordView| date_of(r.at);
                assert(all.take(i + 1).map_values(f) =~= all.take(i as int).map_values(f).push(day@));
                assert(dates_of(all.take(i + 1)) =~= dates_of(all.take(i as int)).insert(day@)) by {
                    let m = all.take(i as int).map_values(f);
                    adding_adds(m, day@);
                }
            }
            if !is_among(day, &days) {
                days.push(day);
                proof {
                    let m = held_texts(old_days);
                    assert(held_texts(days@) =~= m.push(day@));
                    adding_adds(m, day@);
                }
            } else {
                assert(held_texts(days@).to_set().contains(day@));
                assert(held_texts(days@).to_set() =~= held_texts(days@).to_set().insert(day@));
            }
            let ghost old_last = last@;
            if !not_after(at, last) {
                proof {
                    in_order_is_total(encode_utf8(at@), encode_utf8(old_last));
                    in_order_is_total(encode_utf8(at@), encode_utf8(at@));
                    assert forall|j: int| 0 <= j < i implies text_in_order((#[trigger] all[j]).at, at@) by {
                        in_order_is_transitive(encode_utf8(all[j].at), encode_utf8(old_last), encode_utf8(at@));
                    }
                }
                last = at;
            }
            i += 1;
        }
        assert(all.take(all.len() as int) =~= all);
        assert(totals@ =~= totals_of(all));
        proof {
            held_texts(days@).unique_seq_to_set();
        }
        Stats {
            total_sessions: records.len() as u64,
            active_days: days.len() as u64,
            average_total: mean(&totals),
            last_practiced_at: Some(last.to_owned()),
        }
    }
}

/// There is one latest time at most.
pub proof fn the_last_time_is_one(s: Seq<RecordView>, a: Seq<char>, b: Seq<char>)
    requires
        is_last(s, a),
        is_last(s, b),
    ensures
        a == b,
{
    let i = choose|i: int| 0 <= i < s.len() && (#[trigger] s[i]).at == a;
    let j = choose|j: int| 0 <= j < s.len() && (#[trigger] s[j]).at == b;
    assert(text_in_order(s[i].at, b) && text_in_order(s[j].at, a));
    text_in_order_is_antisymmetric(a, b);
}

/// Records that are there make for at least one day, and for no more days than records.
pub proof fn days_lie_between_one_and_the_count(s: Seq<RecordView>)
    requires
        s.len() > 0,
    ensures
        1 <= dates_of(s).len() <= s.len(),
{
    let days = s.map_values(|r: RecordView| date_of(r.at));
    days.lemma_cardinality_of_set();
    assert(days.to_set().contains(days[0]));
    if days.to_set().len() == 0 {
        days.to_set().lemma_len0_is_empty();
    }
}

/// In whatever order records come, they sum up to the same number, the same days and
/// the same last time.
pub proof fn order_does_not_matter(a: Seq<RecordView>, b: Seq<RecordView>, x: Stats, y: Stats)
    requires
        a.to_multiset() == b.to_multiset(),
        is_roll_up(a, x),
        is_roll_up(b, y),
    ensures
        x.total_sessions == y.total_sessions,
        x.active_days == y.active_days,
        x.last_practiced_at is Some == y.last_practiced_at is Some,
        x.last_practiced_at is Some ==> x.last_practiced_at->0@ == y.last_practiced_at->0@,
{
    a.to_multiset_ensures();
    b.to_multiset_ensures();
    assert forall|r: RecordView| a.contains(r) == b.contains(r) by {
        assert(a.contains(r) <==> a.to_multiset().count(r) > 0);
        assert(b.contains(r) <==> b.to_multiset().count(r) > 0);
    }
    same_records_have_the_same_days(a, b);
    same_records_have_the_same_days(b, a);
    assert(dates_of(a) =~= dates_of(b));
    if a.len() > 0 {
        let last = y.last_practiced_at->0@;
        let j = choose|j: int| 0 <= j < b.len() && (#[trigger] b[j]).at == last;
        assert(a.contains(b[j]));
        let i = choose|i: int| 0 <= i < a.len() && a[i] == b[j];
        assert(a[i].at == last);
        assert forall|k: int| 0 <= k < a.len() implies text_in_order((#[trigger] a[k]).at, last) by {
            assert(b.contains(a[k]));
            let m = choose|m: int| 0 <= m < b.len() && b[m] == a[k];
            assert(text_in_order(b[m].at, last));
        }
        the_last_time_is_one(a, x.last_practiced_at->0@, last);
    }
}

proof fn same_records_have_the_same_days(a: Seq<RecordView>, b: Seq<RecordView>)
    requires
        forall|r: RecordView| a.contains(r) ==> b.contains(r),
    ensures
        forall|day: Seq<char>| dates_of(a).contains(day) ==> dates_of(b).contains(day),
{
    let f = |r: RecordView| date_of(r.at);
    assert forall|day: Seq<char>| dates_of(a).contains(day) implies dates_of(b).contains(day) by {
        let i = choose|i: int| 0 <= i < a.len() && a.map_values(f)[i] == day;
        assert(a.contains(a[i]));
        let j = choose|j: int| 0 <= j < b.len() && b[j] == a[i];
        assert(b.map_values(f)[j] == day);
    }
}

/// A record is known by all that it holds.
pub proof fn a_record_is_known_whole(r: PracticeRecord)
    ensures
        r@.id == r.id@,
        r@.kind == r.kind,
        r@.target == r.target@,
        r@.transcript == r.transcript@,
        r@.total == r.total.bits(),
        r@.accuracy == r.accuracy.bits(),
        r@.fluency == r.fluency.bits(),
        r@.completeness == r.completeness.bits(),
        r@.label == r.label@,
        r@.at == r.at@,
{
}

/// A record is accepted exactly if it has an id of up to 128 bytes and a time, neither of
/// them blank, and each of its four scores is a number from 0 to 1.
pub proof fn only_whole_records_are_accepted(r: RecordView)
    ensures
        fault_of(r) is None == {
            &&& !is_blank(r.id)
            &&& encode_utf8(r.id).len() <= 128
            &&& is_fraction(r.total)
            &&& is_fraction(r.accuracy)
            &&& is_fraction(r.fluency)
            &&& is_fraction(r.completeness)
            &&& !is_blank(r.at)
        },
{
}

/// The score of a record by its field.
pub open spec fn score_in(r: RecordView, field: Field) -> u64 {
    match field {
        Field::Total => r.total,
        Field::Accuracy => r.accuracy,
        Field::Fluency => r.fluency,
        Field::Completeness => r.completeness,
    }
}

/// A record is refused for what is wrong with it, and for nothing else; of several things
/// for the id before the scores, the scores in their order, and the time last.
pub proof fn a_refusal_has_its_reason(r: RecordView)
    ensures
        match fault_of(r) {
            None => true,
            Some(Violation::BlankId) => is_blank(r.id),
            Some(Violation::LongId) => !is_blank(r.id) && encode_utf8(r.id).len() > 128,
            Some(Violation::NotFinite(f)) => !is_finite(score_in(r, f)),
            Some(Violation::OutOfRange(f)) => is_finite(score_in(r, f)) && !is_fraction(score_in(r, f)),
            Some(Violation::BlankTime) => is_blank(r.at),
        },
        is_blank(r.id) ==> fault_of(r) == Some(Violation::BlankId),
        fault_of(r) == Some(Violation::BlankTime) ==> is_fraction(r.total) && is_fraction(r.accuracy) && is_fraction(
            r.fluency,
        ) && is_fraction(r.completeness),
        (fault_of(r) matches Some(Violation::OutOfRange(f)) && f != Field::Total) ==> is_fraction(r.total),
        (fault_of(r) matches Some(Violation::NotFinite(f)) && f != Field::Total) ==> is_fraction(r.total),
        (fault_of(r) matches Some(Violation::OutOfRange(f)) && (f is Fluency || f is Completeness)) ==> is_fraction(
            r.accuracy,
        ),
        (fault_of(r) matches Some(Violation::NotFinite(f)) && (f is Fluency || f is Completeness)) ==> is_fraction(
            r.accuracy,
        ),
        (fault_of(r) matches Some(Violation::OutOfRange(Field::Completeness))) ==> is_fraction(r.fluency),
        (fault_of(r) matches Some(Violation::NotFinite(Field::Completeness))) ==> is_fraction(r.fluency),
{
}

/// The reason for a refusal names the score that is at fault, and shows it where it is out
/// of range.
pub proof fn a_reason_names_the_score(f: Field, shown: Seq<char>)
    ensures
        Violation::OutOfRange(f).words(shown) == f.name() + " 应在 0..=1 之间，实际 "@ + shown,
        Violation::NotFinite(f).words(shown) == f.name() + " 不是有限数"@,
        f is Total ==> f.name() == "total"@,
        f is Accuracy ==> f.name() == "accuracy"@,
        f is Fluency ==> f.name() == "fluency"@,
        f is Completeness ==> f.name() == "completeness"@,
{
}

/// The words for the kinds are those that clients use.
pub proof fn kinds_have_known_words(k: PracticeKind)
    ensures
        k is Shadow ==> k.word() == "shadow"@,
        k is Chat ==> k.word() == "chat"@,
        k is Phoneme ==> k.word() == "phoneme"@,
{
}

/// A word that names no kind is read from the store as shadowing.
pub proof fn unknown_kinds_are_read_as_shadowing(word: Seq<char>)
    requires
        word != "chat"@,
        word != "phoneme"@,
    ensures
        PracticeKind::stored_as(word) == PracticeKind::Shadow,
{
}

/// The day of a time is all that stands before its first `T`, and there is no `T` in it.
pub proof fn a_day_ends_at_the_t(at: Seq<char>)
    ensures
        at.contains('T') ==> date_of(at).len() < at.len() && at[date_of(at).len() as int] == 'T',
        !at.contains('T') ==> date_of(at) == at,
        !date_of(at).contains('T'),
        has_prefix(at, date_of(at)),
{
    lemma_first_place(at, 'T');
    let k = first_place(at, 'T');
    assert(date_of(at) =~= at.take(k));
    if !at.contains('T') {
        if k < at.len() {
            assert(at.contains(at[k]));
        }
        assert(date_of(at) =~= at);
    } else {
        let j = choose|j: int| 0 <= j < at.len() && at[j] == 'T';
        if k == at.len() {
            assert(at[j] != 'T');
        }
    }
    assert forall|i: int| 0 <= i < date_of(at).len() implies date_of(at)[i] != 'T' by {
        assert(date_of(at)[i] == at[i]);
    }
}

} // verus!
