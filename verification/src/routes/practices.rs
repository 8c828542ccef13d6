//! Records of practice and recordings of speech, as callers send and ask for them.

use vstd::prelude::*;
use vstd::string::*;
use vstd::utf8::*;

use crate::binary64::is_fraction;
use crate::config::Config;
use crate::domain::{all_records, fault_of, only_whole_records_are_accepted, score_in, Field, PracticeKind, PracticeRecord, RecordView, Score, Stats, Violation};
use crate::error::{AppError, AppResult};
use crate::routes::token::{is_admitted, let_in};
use crate::sql::{is_complete, Row};
use crate::state::AppState;
use crate::store::{all_written, is_failure, is_listing, is_summary, row_from, Store};
use crate::text::{decimal, decimal_text, is_blank, same};

verus! {

// ---------------------------------------------------------------- writing

/// The most records that one request may bring.
pub const MAX_BATCH: usize = 500;

/// A request to write records.
#[derive(Debug)]
pub struct CreateRequest {
    pub records: Vec<PracticeRecord>,
}

/// What became of the records.
#[derive(Debug)]
pub struct CreateResponse {
    pub accepted: usize,
    /// The records that were refused: one of them does not spoil the rest.
    pub rejected: Vec<Rejection>,
}

/// A record that was refused.
#[derive(Debug)]
pub struct Rejection {
    pub id: String,
    pub reason: Violation,
    /// The score that is out of range, if that is the reason.
    pub score: Option<Score>,
}

/// What says why a record was refused.
#[verifier::ext_equal]
pub struct RejectionView {
    pub id: Seq<char>,
    pub reason: Violation,
    pub score: Option<u64>,
}

impl View for Rejection {
    type V = RejectionView;

    open spec fn view(&self) -> RejectionView {
        RejectionView {
            id: self.id@,
            reason: self.reason,
            score: match self.score {
                Some(s) => Some(s.bits()),
                None => None,
            },
        }
    }
}

/// What says why each of a row of records was refused.
pub open spec fn all_rejections(s: Seq<Rejection>) -> Seq<RejectionView> {
    s.map_values(|r: Rejection| r@)
}

/// The score of a record that is out of range, if that is what is wrong with it.
pub open spec fn score_at_fault(r: RecordView, reason: Violation) -> Option<u64> {
    match reason {
        Violation::OutOfRange(Field::Total) => Some(r.total),
        Violation::OutOfRange(Field::Accuracy) => Some(r.accuracy),
        Violation::OutOfRange(Field::Fluency) => Some(r.fluency),
        Violation::OutOfRange(Field::Completeness) => Some(r.completeness),
        _ => None,
    }
}

/// Why a record is refused.
pub open spec fn rejection_of(r: RecordView) -> RejectionView {
    let reason = fault_of(r)->0;
    RejectionView { id: r.id, reason, score: score_at_fault(r, reason) }
}

/// Whether there is nothing wrong with a record.
pub open spec fn is_good(r: RecordView) -> bool {
    fault_of(r) is None
}

/// The records with which nothing is wrong, in their order.
pub open spec fn good_ones(s: Seq<RecordView>) -> Seq<RecordView> {
    s.filter(|r: RecordView| is_good(r))
}

/// The refusals of the others, in their order.
pub open spec fn refusals(s: Seq<RecordView>) -> Seq<RejectionView> {
    s.filter(|r: RecordView| !is_good(r)).map_values(|r: RecordView| rejection_of(r))
}

/// Parts records into those that may be stored and those that are refused.
pub fn sift(records: Vec<PracticeRecord>) -> (r: (Vec<PracticeRecord>, Vec<Rejection>))
    ensures
        all_records(r.0@) == good_ones(all_records(records@)),
        all_rejections(r.1@) == refusals(all_records(records@)),
{
    let ghost all = all_records(records@);
    let ghost good = |r: RecordView| is_good(r);
    let ghost bad = |r: RecordView| !is_good(r);
    let ghost refuse = |r: RecordView| rejection_of(r);
    let mut kept: Vec<PracticeRecord> = Vec::new();
    let mut refused: Vec<Rejection> = Vec::new();
    let mut i: usize = 0;
    proof {
        reveal(Seq::filter);
        assert(all.take(0) =~= Seq::empty());
        assert(all_records(kept@) =~= all.take(0).filter(good));
        assert(all_rejections(refused@) =~= all.take(0).filter(bad).map_values(refuse));
    }
    while i < records.len()
        invariant
            i <= records@.len(),
            all == all_records(records@),
            good == (|r: RecordView| is_good(r)),
            bad == (|r: RecordView| !is_good(r)),
            refuse == (|r: RecordView| rejection_of(r)),
            all_records(kept@) == all.take(i as int).filter(good),
            all_rejections(refused@) == all.take(i as int).filter(bad).map_values(refuse),
        decreases records@.len() - i,
    {
        let ghost next = all[i as int];
        let ghost before_kept = kept@;
        let ghost before_refused = refused@;
        proof {
            reveal(Seq::filter);
            assert(all.take(i + 1).drop_last() =~= all.take(i as int));
            assert(all.take(i + 1).last() == next);
        }
        let r = &records[i];
        match r.validate() {
            Ok(()) => {
                kept.push(r.clone());
                assert(all_records(kept@) =~= all_records(before_kept).push(next));
            },
            Err(reason) => {
                let score = match reason.out_of_range() {
                    Some(field) => Some(r.score(field).clone()),
                    None => None,
                };
                refused.push(Rejection { id: r.id.clone(), reason, score });
                assert(all_rejections(refused@) =~= all_rejections(before_refused).push(rejection_of(next)));
                assert(all.take(i + 1).filter(bad).map_values(refuse) =~= all.take(i as int).filter(bad).map_values(
                    refuse,
                ).push(rejection_of(next)));
            },
        }
        i += 1;
    }
    assert(all.take(all.len() as int) =~= all);
    (kept, refused)
}

/// Every record is either kept or refused, never both and never neither.
pub proof fn sifting_loses_nothing(s: Seq<RecordView>)
    ensures
        good_ones(s).len() + refusals(s).len() == s.len(),
    decreases s.len(),
{
    reveal(Seq::filter);
    if s.len() > 0 {
        sifting_loses_nothing(s.drop_last());
    }
}

/// A record with which nothing is wrong can be stored: all its scores are numbers.
pub proof fn good_records_can_be_stored(r: RecordView)
    requires
        is_good(r),
    ensures
        is_complete(row_from(r)),
{
}

/// Whether a request to write is refused as a whole.
pub open spec fn batch_fault(n: nat) -> Option<Seq<char>> {
    if n == 0 {
        Some("records 不能为空"@)
    } else if n > MAX_BATCH {
        Some("单次最多 500 条，收到 "@ + decimal(n))
    } else {
        None
    }
}

/// Writes records to the store, those with which nothing is wrong. Who is not let in
/// gets nothing done, nor does a request without records or with too many.
pub fn create(
    state: &AppState,
    headers: &axum::http::HeaderMap<axum::http::HeaderValue>,
    req: CreateRequest,
    store: &mut Store,
) -> (r: AppResult<CreateResponse>)
    ensures
        ({
            let all = all_records(req.records@);
            if !is_admitted(*state, *headers) {
                (r matches Err(e) && e is Unauthorized) && *final(store) == *old(store)
            } else if batch_fault(all.len()) is Some {
                &&& r matches Err(AppError::BadRequest(why))
                &&& why@ == batch_fault(all.len())->0
                &&& *final(store) == *old(store)
            } else {
                match r {
                    Ok(done) => {
                        &&& done.accepted == good_ones(all).len()
                        &&& all_rejections(done.rejected@) == refusals(all)
                        &&& old(store).is_known() ==> final(store).is_known() && final(store).rows() == all_written(
                            old(store).rows(),
                            good_ones(all),
                        )
                    },
                    Err(e) => {
                        &&& is_failure(e, "写入记录失败："@)
                        &&& old(store).is_known() ==> {
                            ||| final(store).is_known() && final(store).rows() == old(store).rows()
                            ||| final(store).is_open_since(old(store).rows())
                        }
                    },
                }
            }
        }),
{
    let_in(state, headers)?;
    let n = req.records.len();
    if n == 0 {
        return Err(AppError::BadRequest("records 不能为空".to_owned()));
    }
    if n > MAX_BATCH {
        let shown = decimal_text(n as u64);
        return Err(AppError::BadRequest("单次最多 500 条，收到 ".to_owned().concat(shown.as_str())));
    }
    let (kept, rejected) = sift(req.records);
    let accepted = kept.len();
    assert(all_records(kept@).len() == kept@.len());
    match store.insert_many(kept) {
        Ok(_) => Ok(CreateResponse { accepted, rejected }),
        Err(e) => Err(e),
    }
}

// ---------------------------------------------------------------- reading

/// How many records are listed unless something else is asked for.
pub const DEFAULT_LIMIT: usize = 50;

/// The most records that are listed.
pub const MAX_LIMIT: usize = 500;

/// A request to list records.
#[derive(Debug)]
pub struct ListQuery {
    /// The only kind to list.
    pub kind: Option<String>,
    /// The most records to list.
    pub limit: Option<usize>,
}

/// Records that were asked for.
#[derive(Debug)]
pub struct ListResponse {
    pub records: Vec<PracticeRecord>,
    pub total: usize,
}

/// How many records are listed at most.
pub open spec fn list_limit(asked: Option<usize>) -> usize {
    match asked {
        Some(n) => if n > MAX_LIMIT {
            MAX_LIMIT
        } else {
            n
        },
        None => DEFAULT_LIMIT,
    }
}

/// Whether these are the records to list: the newest of the kind that is asked for, or
/// of all; of a kind that there is not, none.
pub open spec fn is_listed(rows: Map<Seq<char>, Row>, q: ListQuery, out: Seq<RecordView>) -> bool {
    match q.kind {
        None => is_listing(rows, None, list_limit(q.limit), out),
        Some(word) => {
            &&& forall|k: PracticeKind|
                #[trigger] k.word() == word@ ==> is_listing(rows, Some(k), list_limit(q.limit), out)
            &&& (forall|k: PracticeKind| #[trigger] k.word() != word@) ==> out.len() == 0
        },
    }
}

/// Whether a kind is asked for that there is not. Then nothing is looked up.
pub open spec fn asks_for_no_kind(q: ListQuery) -> bool {
    q.kind matches Some(word) && forall|k: PracticeKind| #[trigger] k.word() != word@
}

/// Lists records, the newest first.
pub fn list(
    state: &AppState,
    headers: &axum::http::HeaderMap<axum::http::HeaderValue>,
    q: ListQuery,
    store: &Store,
) -> (r: AppResult<ListResponse>)
    ensures
        if !is_admitted(*state, *headers) {
            r matches Err(e) && e is Unauthorized
        } else if asks_for_no_kind(q) {
            r matches Ok(out) && out.records@.len() == 0 && out.total == 0
        } else {
            match r {
                Ok(out) => {
                    &&& out.total == out.records@.len()
                    &&& store.is_known() ==> is_listed(store.rows(), q, all_records(out.records@))
                },
                Err(e) => is_failure(e, "读取记录失败："@),
            }
        },
{
    let_in(state, headers)?;
    let limit: usize = match q.limit {
        Some(n) => if n > MAX_LIMIT {
            MAX_LIMIT
        } else {
            n
        },
        None => DEFAULT_LIMIT,
    };
    let kind = match &q.kind {
        Some(word) => match PracticeKind::from_word(word.as_str()) {
            Some(k) => {
                assert forall|other: PracticeKind| #[trigger] other.word() == word@ implies other == k by {
                    crate::domain::kinds_have_their_own_words(other, k);
                }
                Some(k)
            },
            None => {
                let records: Vec<PracticeRecord> = Vec::new();
                assert(all_records(records@) =~= Seq::empty());
                return Ok(ListResponse { records, total: 0 });
            },
        },
        None => None,
    };
    match store.list(kind, limit) {
        Ok(records) => {
            let total = records.len();
            Ok(ListResponse { records, total })
        },
        Err(e) => Err(e),
    }
}

/// Sums the records up.
pub fn stats(
    state: &AppState,
    headers: &axum::http::HeaderMap<axum::http::HeaderValue>,
    store: &Store,
) -> (r: AppResult<Stats>)
    ensures
        if !is_admitted(*state, *headers) {
            r matches Err(e) && e is Unauthorized
        } else {
            match r {
                Ok(s) => store.is_known() ==> is_summary(store.rows(), s),
                Err(e) => is_failure(e, "统计失败："@),
            }
        },
{
    let_in(state, headers)?;
    store.stats()
}

// ---------------------------------------------------------------- speech

/// A part of an upload.
#[derive(Debug, Clone, Copy, PartialEq, Eq, Structural)]
pub enum PartKind {
    Audio,
    Language,
    /// Not for this version; it is passed over.
    Other,
}

/// What a part of an upload is, by its name.
pub fn part_kind(name: Option<&str>) -> (r: PartKind)
    ensures
        r is Audio == (name matches Some(s) && s@ == "audio"@),
        r is Language == (name matches Some(s) && s@ == "language"@),
{
    proof {
        reveal_strlit("audio");
        reveal_strlit("language");
        assert("audio"@.len() != "language"@.len());
    }
    match name {
        Some(s) => if same(s, "audio") {
            PartKind::Audio
        } else if same(s, "language") {
            PartKind::Language
        } else {
            PartKind::Other
        },
        None => PartKind::Other,
    }
}

/// What an upload has brought so far. Of several parts of a kind the last one counts,
/// and a language that cannot be read counts as none.
#[derive(Debug)]
pub struct Upload {
    pub audio: Option<Vec<u8>>,
    pub language: Option<String>,
}

impl Upload {
    /// Nothing yet.
    pub fn new() -> (r: Upload)
        ensures
            r.audio is None,
            r.language is None,
    {
        Upload { audio: None, language: None }
    }

    /// Takes the recording in.
    pub fn take_audio(&mut self, bytes: Vec<u8>)
        ensures
            *final(self) == (Upload { audio: Some(bytes), ..*old(self) }),
    {
        self.audio = Some(bytes);
    }

    /// Takes the language in, if it could be read.
    pub fn take_language(&mut self, text: Option<String>)
        ensures
            *final(self) == (Upload { language: text, ..*old(self) }),
    {
        self.language = text;
    }

    /// The recording and its language. There has to be a recording, and the server
    /// has to be able to recognise it; unless the upload says otherwise the language is
    /// the one in the settings.
    pub fn finish(self, config: &Config) -> (r: AppResult<(Vec<u8>, String)>)
        ensures
            match self.audio {
                None => r matches Err(AppError::BadRequest(why)) && why@ == "缺少 audio 字段"@,
                Some(audio) => if audio@.len() == 0 {
                    r matches Err(AppError::BadRequest(why)) && why@ == "音频为空"@
                } else if !(config.asr.whisper && config.asr.model_path is Some) {
                    r matches Err(AppError::NotImplemented(what)) && what@
                        == "本地语音识别（编译时加 --features whisper 并设置 SPEAKLAB_ASR_MODEL）"@
                } else {
                    &&& r matches Ok((bytes, language))
                    &&& bytes@ == audio@
                    &&& language@ == match self.language {
                        Some(l) => l@,
                        None => config.asr.language@,
                    }
                },
            },
    {
        let audio = match self.audio {
            Some(audio) => audio,
            None => return Err(AppError::BadRequest("缺少 audio 字段".to_owned())),
        };
        if audio.len() == 0 {
            return Err(AppError::BadRequest("音频为空".to_owned()));
        }
        if !config.asr.enabled() {
            return Err(
                AppError::NotImplemented(
                    "本地语音识别（编译时加 --features whisper 并设置 SPEAKLAB_ASR_MODEL）".to_owned(),
                ),
            );
        }
        let language = match self.language {
            Some(l) => l,
            None => config.asr.language.clone(),
        };
        Ok((audio, language))
    }
}

/// What can go wrong with an upload, each with what was said of it.
#[derive(Debug)]
pub enum UploadFault {
    Unreadable(String),
    AudioUnreadable(String),
}

impl UploadFault {
    /// The fault in words.
    pub open spec fn words(self) -> Seq<char> {
        match self {
            UploadFault::Unreadable(e) => "multipart 解析失败："@ + e@,
            UploadFault::AudioUnreadable(e) => "读取音频失败："@ + e@,
        }
    }

    /// The error that the fault is reported as.
    pub fn error(self) -> (r: AppError)
        ensures
            r matches AppError::BadRequest(why) && why@ == self.words(),
    {
        let why = match self {
            UploadFault::Unreadable(e) => "multipart 解析失败：".to_owned().concat(e.as_str()),
            UploadFault::AudioUnreadable(e) => "读取音频失败：".to_owned().concat(e.as_str()),
        };
        AppError::BadRequest(why)
    }
}

/// What is accepted is what was sent and is whole; what is whole and was sent is accepted.
pub proof fn exactly_the_good_ones_are_accepted(s: Seq<RecordView>, r: RecordView)
    ensures
        good_ones(s).contains(r) == {
            &&& s.contains(r)
            &&& !is_blank(r.id)
            &&& encode_utf8(r.id).len() <= 128
            &&& is_fraction(r.total)
            &&& is_fraction(r.accuracy)
            &&& is_fraction(r.fluency)
            &&& is_fraction(r.completeness)
            &&& !is_blank(r.at)
        },
    decreases s.len(),
{
    only_whole_records_are_accepted(r);
    let good = |x: RecordView| is_good(x);
    reveal(Seq::filter);
    if s.len() > 0 {
        let rest = s.drop_last();
        exactly_the_good_ones_are_accepted(rest, r);
        let kept = good_ones(rest);
        if is_good(s.last()) {
            assert(good_ones(s) =~= kept.push(s.last()));
            assert(kept.push(s.last()).contains(r) == (kept.contains(r) || r == s.last())) by {
                if kept.contains(r) {
                    let i = choose|i: int| 0 <= i < kept.len() && kept[i] == r;
                    assert(kept.push(s.last())[i] == r);
                }
                if r == s.last() {
                    assert(kept.push(s.last())[kept.len() as int] == r);
                }
            }
        }
        assert(s.contains(r) == (rest.contains(r) || r == s.last())) by {
            if rest.contains(r) {
                let i = choose|i: int| 0 <= i < rest.len() && rest[i] == r;
                assert(s[i] == r);
            }
            if r == s.last() {
                assert(s[s.len() - 1] == r);
            }
            if s.contains(r) && r != s.last() {
                let i = choose|i: int| 0 <= i < s.len() && s[i] == r;
                assert(rest[i] == r);
            }
        }
    }
}

/// Every refusal is of a record that was sent and is not whole: by its id, for its own
/// reason, and with the score that is out of range.
pub proof fn a_refusal_is_of_a_bad_record(s: Seq<RecordView>, i: int)
    requires
        0 <= i < refusals(s).len(),
    ensures
        exists|j: int|
            0 <= j < s.len() && fault_of(#[trigger] s[j]) is Some && refusals(s)[i].id == s[j].id && Some(
                refusals(s)[i].reason,
            ) == fault_of(s[j]) && (refusals(s)[i].reason matches Violation::OutOfRange(f) ==> refusals(s)[i].score
                == Some(score_in(s[j], f))) && (!(refusals(s)[i].reason is OutOfRange) ==> refusals(s)[i].score is None),
    decreases s.len(),
{
    reveal(Seq::filter);
    let bad = |x: RecordView| !is_good(x);
    let refuse = |x: RecordView| rejection_of(x);
    if s.len() > 0 {
        let rest = s.drop_last();
        let before = refusals(rest);
        if is_good(s.last()) {
            assert(refusals(s) =~= before);
        } else {
            assert(refusals(s) =~= before.push(rejection_of(s.last())));
        }
        if i < before.len() {
            a_refusal_is_of_a_bad_record(rest, i);
            let j = choose|j: int|
                0 <= j < rest.len() && fault_of(#[trigger] rest[j]) is Some && before[i].id == rest[j].id && Some(
                    before[i].reason,
                ) == fault_of(rest[j]) && (before[i].reason matches Violation::OutOfRange(f) ==> before[i].score
                    == Some(score_in(rest[j], f))) && (!(before[i].reason is OutOfRange) ==> before[i].score is None);
            assert(s[j] == rest[j]);
        } else {
            let j = s.len() - 1;
            assert(s[j] == s.last());
        }
    }
}

/// A batch is taken exactly if it has one record at least and five hundred at most.
pub proof fn batches_have_one_to_five_hundred_records(n: nat)
    ensures
        batch_fault(n) is None == (1 <= n <= 500),
        n == 0 ==> batch_fault(n) == Some("records 不能为空"@),
        n > 500 ==> batch_fault(n) == Some("单次最多 500 条，收到 "@ + decimal(n)),
{
}

/// A listing is as long as is asked for, but never longer than five hundred records, and
/// fifty where nothing is asked for.
pub proof fn listings_have_five_hundred_records_at_most(asked: Option<usize>)
    ensures
        list_limit(asked) <= 500,
        asked is None ==> list_limit(asked) == 50,
        asked matches Some(n) ==> (n <= 500 ==> list_limit(asked) == n),
        asked matches Some(n) ==> (n > 500 ==> list_limit(asked) == 500),
{
}

/// A refusal is known by all that it holds.
pub proof fn a_refusal_is_known_whole(r: Rejection)
    ensures
        r@.id == r.id@,
        r@.reason == r.reason,
        r.score is Some == r@.score is Some,
        r.score matches Some(s) ==> r@.score == Some(s.bits()),
{
}

} // verus!
