//! The query executor's decisions. A query runs through the states
//! validating input, resolving files, streaming files, filtering, done —
//! or failed, and every failure is terminal for that query.
//!
//! The outside work — the one directory listing and the per-file decoding
//! — is performed by the caller between these functions; every decision
//! about what that work means for the query is made and verified here.
use vstd::prelude::*;
use crate::config::Config;
use crate::error::QueryError;
use crate::file_finder::{
    FileFinder, FileFinderView, spec_candidate, spec_find_files, spec_sorted_by_date,
};
use crate::fs::{FileMetaView, TimeSlice};
use crate::records::{
    Message, MessageView, RawEntry, RawEntryView, collect_messages, filter_messages,
    spec_collect_messages, spec_decode_message, spec_filter_messages, spec_message_in_slice,
    spec_message_views,
};
use crate::seq_util::{
    lemma_block_offset_ordered, lemma_concat_append, lemma_concat_block_position,
    lemma_filter_map_concat, spec_block_offset, spec_concat,
};

verus! {

/// The well-formed time slice a pair of optional bounds denotes, when it
/// denotes one.
pub open spec fn spec_slice_of_bounds(from_millis: Option<i64>, to_millis: Option<i64>) -> Option<
    TimeSlice,
> {
    match (from_millis, to_millis) {
        (Some(f), Some(t)) => {
            let ts = TimeSlice { from_millis: f, to_millis: t };
            if ts.wf() {
                Some(ts)
            } else {
                None
            }
        },
        _ => None,
    }
}

/// Input validation, the first state of every query. Both bounds must be
/// present, in order, and representable; everything else is rejected as
/// `InvalidQuery` before any filesystem access.
pub fn validate_time_slice(from_millis: Option<i64>, to_millis: Option<i64>) -> (r: Result<
    TimeSlice,
    QueryError,
>)
    ensures
        match r {
            Ok(ts) => spec_slice_of_bounds(from_millis, to_millis) == Some(ts) && ts.wf(),
            Err(e) => spec_slice_of_bounds(from_millis, to_millis) is None && e
                == QueryError::InvalidQuery,
        },
{
    match (from_millis, to_millis) {
        (Some(f), Some(t)) => {
            if f <= t && crate::fs::MIN_INSTANT_MILLIS <= f && t <= crate::fs::MAX_INSTANT_MILLIS {
                Ok(TimeSlice { from_millis: f, to_millis: t })
            } else {
                Err(QueryError::InvalidQuery)
            }
        },
        _ => Err(QueryError::InvalidQuery),
    }
}

/// The file finder a valid query resolves to.
pub open spec fn spec_planned_finder(
    config: Config,
    exchange: Seq<char>,
    market_type: Seq<char>,
    stream: Seq<char>,
    symbol: Seq<char>,
    ts: TimeSlice,
) -> FileFinderView {
    FileFinderView {
        parquet_file_extension: config.parquet_file_extension@,
        base_path: config.market_data_path@,
        exchange: exchange,
        market_type: market_type,
        stream: stream,
        symbol: symbol,
        time_slice: ts,
    }
}

/// Turns a request into a file-finding plan, or rejects it. On `Err`
/// no plan exists, so nothing downstream can touch the filesystem: an
/// invalid interval fails before any listing or decoding.
pub fn plan_query(
    config: &Config,
    exchange: String,
    market_type: String,
    stream: String,
    symbol: String,
    from_millis: Option<i64>,
    to_millis: Option<i64>,
) -> (r: Result<FileFinder, QueryError>)
    ensures
        match r {
            Ok(f) => {
                &&& spec_slice_of_bounds(from_millis, to_millis) is Some
                &&& f@ == spec_planned_finder(
                    *config,
                    exchange@,
                    market_type@,
                    stream@,
                    symbol@,
                    spec_slice_of_bounds(from_millis, to_millis)->Some_0,
                )
                &&& f.wf()
            },
            Err(e) => spec_slice_of_bounds(from_millis, to_millis) is None && e
                == QueryError::InvalidQuery,
        },
{
    let time_slice = match validate_time_slice(from_millis, to_millis) {
        Ok(ts) => ts,
        Err(e) => {
            return Err(e);
        },
    };
    Ok(
        FileFinder {
            parquet_file_extension: config.parquet_file_extension.clone(),
            base_path: config.market_data_path.clone(),
            exchange,
            market_type,
            stream,
            symbol,
            time_slice,
        },
    )
}

/// What decoding one candidate file produced: its raw entries, or one of
/// the two file-level failures, each fatal to the whole query in the
/// materialized mode.
pub enum FileDecodeOutcome {
    Entries(Vec<RawEntry>),
    OpenFailed,
    DecodeFailed,
}

pub enum FileOutcomeView {
    Entries(Seq<RawEntryView>),
    OpenFailed,
    DecodeFailed,
}

impl View for FileDecodeOutcome {
    type V = FileOutcomeView;

    open spec fn view(&self) -> FileOutcomeView {
        match self {
            FileDecodeOutcome::Entries(es) => FileOutcomeView::Entries(
                es@.map_values(|e: RawEntry| e@),
            ),
            FileDecodeOutcome::OpenFailed => FileOutcomeView::OpenFailed,
            FileDecodeOutcome::DecodeFailed => FileOutcomeView::DecodeFailed,
        }
    }
}

pub open spec fn spec_outcome_views(s: Seq<FileDecodeOutcome>) -> Seq<FileOutcomeView> {
    s.map_values(|o: FileDecodeOutcome| o@)
}

pub open spec fn spec_outcome_error(o: FileOutcomeView) -> QueryError {
    match o {
        FileOutcomeView::OpenFailed => QueryError::OpenFailed,
        _ => QueryError::DecodeFailed,
    }
}

/// The entry sequences of the files, in file order — or the error of the
/// first file that failed, which aborts the whole query.
pub open spec fn spec_gather_entries(outs: Seq<FileOutcomeView>) -> Result<
    Seq<Seq<RawEntryView>>,
    QueryError,
>
    decreases outs.len(),
{
    if outs.len() == 0 {
        Ok(Seq::empty())
    } else {
        match outs.first() {
            FileOutcomeView::Entries(es) => match spec_gather_entries(outs.drop_first()) {
                Ok(rest) => Ok(seq![es] + rest),
                Err(e) => Err(e),
            },
            FileOutcomeView::OpenFailed => Err(QueryError::OpenFailed),
            FileOutcomeView::DecodeFailed => Err(QueryError::DecodeFailed),
        }
    }
}

/// The whole materialized run over the decoded files: concatenate each
/// file's converted messages in file order, then apply the exact
/// millisecond filter; or fail with the first file's failure.
pub open spec fn spec_run_materialized(outs: Seq<FileOutcomeView>, ts: TimeSlice) -> Result<
    Seq<MessageView>,
    QueryError,
>
{
    match spec_gather_entries(outs) {
        Ok(files) => Ok(
            spec_filter_messages(
                spec_concat(files.map_values(|es: Seq<RawEntryView>| spec_collect_messages(es))),
                ts,
            ),
        ),
        Err(e) => Err(e),
    }
}

pub open spec fn spec_file_messages(o: FileOutcomeView) -> Seq<MessageView>
    recommends
        o is Entries,
{
    spec_collect_messages(o->Entries_0)
}

/// The materialized mode: files are consumed in the order the finder
/// produced them; one file-level failure fails the whole query; records
/// with malformed payloads are skipped; the assembled result is filtered
/// by exact millisecond timestamp, order preserved.
pub fn run_materialized(outcomes: Vec<FileDecodeOutcome>, ts: &TimeSlice) -> (r: Result<
    Vec<Message>,
    QueryError,
>)
    ensures
        match r {
            Ok(ms) => spec_run_materialized(spec_outcome_views(outcomes@), *ts) == Ok::<
                _,
                QueryError,
            >(spec_message_views(ms@)),
            Err(e) => spec_run_materialized(spec_outcome_views(outcomes@), *ts) == Err::<
                Seq<MessageView>,
                _,
            >(e),
        },
{
    let ghost ovs = spec_outcome_views(outcomes@);
    let mut acc: Vec<Message> = Vec::new();
    let mut pending = outcomes;
    let ghost orig = pending@;
    let mut i: usize = 0;
    let n = pending.len();
    #[verifier::loop_isolation(false)]
    while i < n
        invariant
            i <= n,
            n == orig.len(),
            ovs == spec_outcome_views(orig),
            pending@.len() == orig.len() - i,
            forall|k: int| 0 <= k < pending@.len() ==> pending@[k] == orig[k + i],
            forall|k: int| 0 <= k < i ==> (#[trigger] ovs[k]) is Entries,
            spec_message_views(acc@) == spec_concat(
                ovs.take(i as int).map_values(|o: FileOutcomeView| spec_file_messages(o)),
            ),
        decreases n - i,
    {
        let outcome = pending.remove(0);
        proof {
            assert(outcome@ == ovs[i as int]);
        }
        match outcome {
            FileDecodeOutcome::Entries(es) => {
                let ghost old_acc = acc@;
                let mut msgs = collect_messages(es);
                let ghost msgs_snapshot = msgs@;
                acc.append(&mut msgs);
                proof {
                    let fm = |o: FileOutcomeView| spec_file_messages(o);
                    lemma_concat_append(
                        ovs.take(i as int).map_values(fm),
                        seq![fm(ovs[i as int])],
                    );
                    assert(ovs.take(i as int + 1).map_values(fm) =~= ovs.take(i as int).map_values(
                        fm,
                    ) + seq![fm(ovs[i as int])]);
                    assert(spec_concat(seq![fm(ovs[i as int])]) =~= fm(ovs[i as int])) by {
                        assert(seq![fm(ovs[i as int])].drop_first() =~= Seq::<Seq<MessageView>>::empty());
                        assert(spec_concat(seq![fm(ovs[i as int])].drop_first()) =~= Seq::<
                            MessageView,
                        >::empty());
                    }
                    assert(spec_message_views(acc@) =~= spec_message_views(old_acc)
                        + spec_message_views(msgs_snapshot));
                }
            },
            FileDecodeOutcome::OpenFailed => {
                proof {
                    lemma_gather_first_failure(ovs, i as int);
                }
                return Err(QueryError::OpenFailed);
            },
            FileDecodeOutcome::DecodeFailed => {
                proof {
                    lemma_gather_first_failure(ovs, i as int);
                }
                return Err(QueryError::DecodeFailed);
            },
        }
        i = i + 1;
    }
    proof {
        assert(ovs.take(i as int) =~= ovs);
        lemma_gather_all_entries(ovs);
        assert(spec_gather_entries(ovs)->Ok_0.map_values(
            |es: Seq<RawEntryView>| spec_collect_messages(es),
        ) =~= ovs.map_values(|o: FileOutcomeView| spec_file_messages(o)));
    }
    Ok(filter_messages(acc, ts))
}

/// When every file decoded, gathering succeeds with the files' entries in
/// order.
proof fn lemma_gather_all_entries(outs: Seq<FileOutcomeView>)
    requires
        forall|k: int| 0 <= k < outs.len() ==> (#[trigger] outs[k]) is Entries,
    ensures
        spec_gather_entries(outs) == Ok::<_, QueryError>(
            outs.map_values(|o: FileOutcomeView| o->Entries_0),
        ),
    decreases outs.len(),
{
    let f = |o: FileOutcomeView| o->Entries_0;
    if outs.len() == 0 {
        assert(outs.map_values(f) =~= Seq::<Seq<RawEntryView>>::empty());
    } else {
        let rest = outs.drop_first();
        assert(forall|k: int| 0 <= k < rest.len() ==> rest[k] == outs[k + 1]);
        lemma_gather_all_entries(rest);
        assert(outs.first() == outs[0]);
        assert(outs.map_values(f) =~= seq![f(outs[0])] + rest.map_values(f));
    }
}

/// The first file that failed decides the query's error, whatever stands
/// after it.
proof fn lemma_gather_first_failure(outs: Seq<FileOutcomeView>, i: int)
    requires
        0 <= i < outs.len(),
        forall|k: int| 0 <= k < i ==> (#[trigger] outs[k]) is Entries,
        !(outs[i] is Entries),
    ensures
        spec_gather_entries(outs) == Err::<Seq<Seq<RawEntryView>>, _>(spec_outcome_error(outs[i])),
    decreases i,
{
    assert(outs.first() == outs[0]);
    if i == 0 {
    } else {
        let rest = outs.drop_first();
        assert(forall|k: int| 0 <= k < rest.len() ==> rest[k] == outs[k + 1]);
        lemma_gather_first_failure(rest, i - 1);
    }
}

/// One step of the incremental mode, per record.
pub enum StreamStep {
    /// The record passed the filter: produce it to the consumer.
    Emit(Message),
    /// The record is outside the interval, or cannot be placed in time:
    /// produce nothing and continue.
    Skip,
    /// The record's payload is malformed: produce this error as the final
    /// item and terminate the sequence.
    Fail(QueryError),
}

pub enum StreamStepView {
    Emit(MessageView),
    Skip,
    Fail(QueryError),
}

impl View for StreamStep {
    type V = StreamStepView;

    open spec fn view(&self) -> StreamStepView {
        match self {
            StreamStep::Emit(m) => StreamStepView::Emit(m@),
            StreamStep::Skip => StreamStepView::Skip,
            StreamStep::Fail(e) => StreamStepView::Fail(*e),
        }
    }
}

/// What the incremental mode does with one raw entry: emit it when the
/// payload decodes and the timestamp lies in the interval; skip it when it
/// decodes but lies outside; fail the stream when the payload is
/// malformed.
pub open spec fn spec_stream_step(e: RawEntryView, ts: TimeSlice) -> StreamStepView {
    match spec_decode_message(e) {
        Some(m) => if spec_message_in_slice(m, ts) {
            StreamStepView::Emit(m)
        } else {
            StreamStepView::Skip
        },
        None => StreamStepView::Fail(QueryError::RecordDecodeFailed),
    }
}

/// The incremental mode's per-query state: the date-ordered files still to
/// stream, the filter interval, and whether the stream has terminated.
/// Files are opened one at a time, each only after the previous one's
/// records were fully produced; once `finished`, no further decode work
/// may be issued.
pub struct StreamSession {
    pub files: Vec<String>,
    pub next_file: usize,
    pub time_slice: TimeSlice,
    pub finished: bool,
}

impl StreamSession {
    pub fn new(files: Vec<String>, time_slice: TimeSlice) -> (s: Self)
        ensures
            s.files == files,
            s.next_file == 0,
            s.time_slice == time_slice,
            !s.finished,
    {
        StreamSession { files, next_file: 0, time_slice, finished: false }
    }

    /// The path of the next file to open, advancing past it — or `None`
    /// when the session is finished or every file was consumed, which
    /// terminates the sequence successfully.
    pub fn next_file(&mut self) -> (r: Option<String>)
        ensures
            match r {
                Some(p) => {
                    &&& !old(self).finished
                    &&& old(self).next_file < old(self).files@.len()
                    &&& p == old(self).files@[old(self).next_file as int]
                    &&& final(self).files == old(self).files
                    &&& final(self).next_file == old(self).next_file + 1
                    &&& final(self).time_slice == old(self).time_slice
                    &&& final(self).finished == old(self).finished
                },
                None => {
                    &&& old(self).finished || old(self).next_file >= old(self).files@.len()
                    &&& *final(self) == *old(self)
                },
            },
    {
        if self.finished || self.next_file >= self.files.len() {
            return None;
        }
        let p = self.files[self.next_file].clone();
        self.next_file = self.next_file + 1;
        Some(p)
    }

    /// Decides one record of the currently open file. A `Fail` step
    /// terminates the session: the error is produced in-band as the final
    /// item of the sequence.
    pub fn on_entry(&mut self, entry: RawEntry) -> (r: StreamStep)
        requires
            !old(self).finished,
        ensures
            r@ == spec_stream_step(entry@, old(self).time_slice),
            final(self).files == old(self).files,
            final(self).next_file == old(self).next_file,
            final(self).time_slice == old(self).time_slice,
            final(self).finished == (r@ is Fail),
    {
        match crate::records::decode_message(entry) {
            Some(m) => {
                if crate::records::message_in_slice(&m, &self.time_slice) {
                    StreamStep::Emit(m)
                } else {
                    StreamStep::Skip
                }
            },
            None => {
                self.finished = true;
                StreamStep::Fail(QueryError::RecordDecodeFailed)
            },
        }
    }

    /// The currently open file could not be opened or read: the stream
    /// terminates with this single error item, never resuming with the
    /// next file.
    pub fn on_file_failed(&mut self) -> (e: QueryError)
        ensures
            e == QueryError::OpenFailed,
            final(self).files == old(self).files,
            final(self).next_file == old(self).next_file,
            final(self).time_slice == old(self).time_slice,
            final(self).finished,
    {
        self.finished = true;
        QueryError::OpenFailed
    }
}

/// A valid directory with no matching files is an empty success, not an
/// error: the finder selects nothing, and running the materialized mode
/// over no files yields `Ok` with no messages.
pub proof fn lemma_empty_selection_empty_success(
    names: Seq<Seq<char>>,
    f: FileFinderView,
    ts: TimeSlice,
)
    requires
        forall|i: int| 0 <= i < names.len() ==> spec_candidate(f, #[trigger] names[i]) is None,
    ensures
        spec_find_files(names, f) == Seq::<Seq<char>>::empty(),
        spec_run_materialized(Seq::empty(), ts) == Ok::<_, QueryError>(Seq::<MessageView>::empty()),
{
    crate::file_finder::lemma_no_matches_empty(names, f);
    let empty_outs = Seq::<FileOutcomeView>::empty();
    assert(spec_gather_entries(empty_outs) == Ok::<_, QueryError>(Seq::<Seq<RawEntryView>>::empty()));
    assert(Seq::<Seq<RawEntryView>>::empty().map_values(
        |es: Seq<RawEntryView>| spec_collect_messages(es),
    ) =~= Seq::<Seq<MessageView>>::empty());
    assert(spec_concat(Seq::<Seq<MessageView>>::empty()) =~= Seq::<MessageView>::empty());
    assert(spec_filter_messages(Seq::<MessageView>::empty(), ts) =~= Seq::<MessageView>::empty());
}

/// The cross-file ordering of the assembled result: when the candidate
/// files stand in ascending date order, every record of an earlier file
/// precedes every record of a later file in the concatenation, whatever
/// the files contain and however long each took to decode.
pub proof fn lemma_cross_file_ordering(
    cands: Seq<FileMetaView>,
    per_file: Seq<Seq<MessageView>>,
    i: int,
    j: int,
    a: int,
    b: int,
)
    requires
        spec_sorted_by_date(cands),
        per_file.len() == cands.len(),
        0 <= i < j < cands.len(),
        0 <= a < per_file[i].len(),
        0 <= b < per_file[j].len(),
    ensures
        cands[i].date.spec_day_num() <= cands[j].date.spec_day_num(),
        spec_block_offset(per_file, i) + a < spec_block_offset(per_file, j) + b,
        spec_concat(per_file)[spec_block_offset(per_file, i) + a] == per_file[i][a],
        spec_concat(per_file)[spec_block_offset(per_file, j) + b] == per_file[j][b],
{
    lemma_concat_block_position(per_file, i, a);
    lemma_concat_block_position(per_file, j, b);
    lemma_block_offset_ordered(per_file, i, j);
}

/// The millisecond filter never moves a record across a file boundary:
/// when every file decoded, the materialized result is, file by file in
/// the order the finder produced them, that file's converted and filtered
/// records. So even after filtering, every record of an earlier file
/// precedes every record of a later file.
pub proof fn lemma_result_groups_by_file(outs: Seq<FileOutcomeView>, ts: TimeSlice)
    requires
        forall|k: int| 0 <= k < outs.len() ==> (#[trigger] outs[k]) is Entries,
    ensures
        spec_run_materialized(outs, ts) == Ok::<_, QueryError>(
            spec_concat(
                outs.map_values(
                    |o: FileOutcomeView| spec_filter_messages(spec_file_messages(o), ts),
                ),
            ),
        ),
{
    lemma_gather_all_entries(outs);
    let per_file = outs.map_values(|o: FileOutcomeView| spec_file_messages(o));
    assert(spec_gather_entries(outs)->Ok_0.map_values(
        |es: Seq<RawEntryView>| spec_collect_messages(es),
    ) =~= per_file);
    let keep = |m: MessageView|
        if spec_message_in_slice(m, ts) {
            Some(m)
        } else {
            None
        };
    lemma_filter_map_concat(per_file, keep);
    assert(per_file.map_values(|b: Seq<MessageView>| crate::seq_util::spec_filter_map(b, keep))
        =~= outs.map_values(
        |o: FileOutcomeView| spec_filter_messages(spec_file_messages(o), ts),
    ));
}

/// Idempotence: a query is a function of its inputs alone. Two runs over
/// the same listing, the same finder and the same decoded file contents
/// select the same files and produce the same ordered result.
pub proof fn lemma_query_deterministic(
    names1: Seq<Seq<char>>,
    names2: Seq<Seq<char>>,
    f1: FileFinderView,
    f2: FileFinderView,
    outs1: Seq<FileOutcomeView>,
    outs2: Seq<FileOutcomeView>,
    ts1: TimeSlice,
    ts2: TimeSlice,
)
    requires
        names1 == names2,
        f1 == f2,
        outs1 == outs2,
        ts1 == ts2,
    ensures
        spec_find_files(names1, f1) == spec_find_files(names2, f2),
        spec_run_materialized(outs1, ts1) == spec_run_materialized(outs2, ts2),
{
}

} // verus!
