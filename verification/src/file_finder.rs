//! The file finder: resolves the directory of a symbol's daily files,
//! selects the directory entries that follow the naming contract
//! `<symbol>.<YYYY-MM-DD>.<extension>`, sorts them by ascending filename
//! date, and keeps those whose date falls inside the day-level projection
//! of the query interval.
//!
//! The finder itself performs no directory listing: it is handed the names
//! found by one listing call, or `None` when that call failed.
use vstd::prelude::*;
use crate::date::{Date, parse_date, spec_parse_date};
use crate::error::QueryError;
use crate::fs::{
    FileMetaView, FileMetadata, TimeSlice, extract_date_from_filename, files_in_time_slice,
    spec_date_part, spec_files_in_time_slice, spec_matches_filename, spec_meta_views,
    spec_path_views,
};
use crate::seq_util::{
    lemma_filter_map_all_none, lemma_filter_map_membership,
    lemma_filter_map_take_step, spec_filter_map,
};

verus! {

/// One instance of the file-finding component: the query key, the archive
/// layout it resolves against, and the query's time slice.
#[derive(Clone, Debug)]
pub struct FileFinder {
    pub parquet_file_extension: String,
    pub base_path: String,
    pub exchange: String,
    pub market_type: String,
    pub stream: String,
    pub symbol: String,
    pub time_slice: TimeSlice,
}

pub struct FileFinderView {
    pub parquet_file_extension: Seq<char>,
    pub base_path: Seq<char>,
    pub exchange: Seq<char>,
    pub market_type: Seq<char>,
    pub stream: Seq<char>,
    pub symbol: Seq<char>,
    pub time_slice: TimeSlice,
}

impl View for FileFinder {
    type V = FileFinderView;

    open spec fn view(&self) -> FileFinderView {
        FileFinderView {
            parquet_file_extension: self.parquet_file_extension@,
            base_path: self.base_path@,
            exchange: self.exchange@,
            market_type: self.market_type@,
            stream: self.stream@,
            symbol: self.symbol@,
            time_slice: self.time_slice,
        }
    }
}

/// The directory that holds one symbol's daily files:
/// `<base>/<exchange>/<market_type>/<stream>`, joined in that fixed order.
/// No existence check happens here; a missing directory surfaces later as
/// `DirectoryUnavailable`.
pub open spec fn spec_symbol_path(f: FileFinderView) -> Seq<char> {
    f.base_path + "/"@ + f.exchange + "/"@ + f.market_type + "/"@ + f.stream
}

/// The filename suffix the finder matches: a dot followed by the
/// configured extension.
pub open spec fn spec_dotted_extension(f: FileFinderView) -> Seq<char> {
    "."@ + f.parquet_file_extension
}

/// What one directory entry contributes: a file of this symbol and
/// extension whose middle part is a real calendar date, under the resolved
/// directory; anything else is silently skipped.
pub open spec fn spec_candidate(f: FileFinderView, name: Seq<char>) -> Option<FileMetaView> {
    if spec_matches_filename(name, f.symbol, spec_dotted_extension(f)) && spec_parse_date(
        spec_date_part(name, f.symbol, spec_dotted_extension(f)),
    ) is Some {
        Some(
            FileMetaView {
                path: spec_symbol_path(f) + "/"@ + name,
                date: spec_parse_date(spec_date_part(name, f.symbol, spec_dotted_extension(f)))->Some_0,
            },
        )
    } else {
        None
    }
}

/// The selection pass over one directory listing, in listing order.
pub open spec fn spec_scan(names: Seq<Seq<char>>, f: FileFinderView) -> Seq<FileMetaView> {
    spec_filter_map(names, |n: Seq<char>| spec_candidate(f, n))
}

/// Insertion after every earlier file of the same or an earlier date, so
/// insertion keeps the scan order of files that share a date.
pub open spec fn spec_insert_by_date(m: FileMetaView, s: Seq<FileMetaView>) -> Seq<FileMetaView>
    decreases s.len(),
{
    if s.len() == 0 {
        seq![m]
    } else if s.first().date.spec_day_num() <= m.date.spec_day_num() {
        seq![s.first()] + spec_insert_by_date(m, s.drop_first())
    } else {
        seq![m] + s
    }
}

/// Sorting by ascending filename date: each file in turn is inserted into
/// the sorted result of the files before it.
pub open spec fn spec_sort_by_date(s: Seq<FileMetaView>) -> Seq<FileMetaView>
    decreases s.len(),
{
    if s.len() == 0 {
        Seq::empty()
    } else {
        spec_insert_by_date(s.last(), spec_sort_by_date(s.drop_last()))
    }
}

pub open spec fn spec_sorted_by_date(s: Seq<FileMetaView>) -> bool {
    forall|i: int, j: int|
        0 <= i < j < s.len() ==> (#[trigger] s[i]).date.spec_day_num() <= (
        #[trigger] s[j]).date.spec_day_num()
}

/// The selected files of one listing, sorted by ascending date.
pub open spec fn spec_sorted_candidates(names: Seq<Seq<char>>, f: FileFinderView) -> Seq<
    FileMetaView,
> {
    spec_sort_by_date(spec_scan(names, f))
}

/// The whole finder on one listing: scan, sort by date, then keep the
/// paths of the files inside the day-level interval.
pub open spec fn spec_find_files(names: Seq<Seq<char>>, f: FileFinderView) -> Seq<Seq<char>> {
    spec_files_in_time_slice(spec_sorted_candidates(names, f), f.time_slice)
}

impl FileFinder {
    pub open spec fn wf(self) -> bool {
        self.time_slice.wf()
    }

    /// Resolves the directory expected to hold this symbol's daily files.
    pub fn path_for_symbol(&self) -> (r: String)
        ensures
            r@ == spec_symbol_path(self@),
    {
        let mut p = self.base_path.clone();
        p.append("/");
        p.append(self.exchange.as_str());
        p.append("/");
        p.append(self.market_type.as_str());
        p.append("/");
        p.append(self.stream.as_str());
        p
    }

    /// The scan-and-sort pass: every listed name that follows the naming
    /// contract for this symbol and extension becomes a file with its
    /// parsed date, and the result is ordered by ascending date.
    pub fn files_for_symbol(&self, listing: &Vec<String>) -> (r: Vec<FileMetadata>)
        ensures
            spec_meta_views(r@) == spec_sorted_candidates(spec_path_views(listing@), self@),
            forall|i: int| 0 <= i < r@.len() ==> (#[trigger] r@[i]).wf(),
    {
        let dir = self.path_for_symbol();
        let mut dotted = String::new();
        dotted.append(".");
        dotted.append(self.parquet_file_extension.as_str());
        let ghost fv = self@;
        let ghost names = spec_path_views(listing@);
        let ghost cand = |n: Seq<char>| spec_candidate(fv, n);
        let mut out: Vec<FileMetadata> = Vec::new();
        let mut i: usize = 0;
        while i < listing.len()
            invariant
                i <= listing@.len(),
                names == spec_path_views(listing@),
                cand == (|n: Seq<char>| spec_candidate(fv, n)),
                fv == self@,
                dir@ == spec_symbol_path(fv),
                dotted@ == spec_dotted_extension(fv),
                spec_meta_views(out@) == spec_sort_by_date(
                    spec_filter_map(names.take(i as int), cand),
                ),
                forall|k: int| 0 <= k < out@.len() ==> (#[trigger] out@[k]).wf(),
            decreases listing@.len() - i,
        {
            let name = &listing[i];
            proof {
                lemma_filter_map_take_step(names, i as int, cand);
                assert(names[i as int] == listing@[i as int]@);
            }
            let ghost scanned = spec_filter_map(names.take(i as int), cand);
            match extract_date_from_filename(name.as_str(), self.symbol.as_str(), dotted.as_str()) {
                Some(date_str) => {
                    match parse_date(date_str.as_str()) {
                        Some(date) => {
                            let mut path = dir.clone();
                            path.append("/");
                            path.append(name.as_str());
                            let meta = FileMetadata { path, date };
                            proof {
                                assert(cand(names[i as int]) == Some(meta@));
                                assert(spec_filter_map(names.take(i as int + 1), cand) == scanned
                                    + seq![meta@]);
                                assert(scanned + seq![meta@] =~= scanned.push(meta@));
                                lemma_sort_push(scanned, meta@);
                            }
                            insert_by_date(&mut out, meta);
                        },
                        None => {
                            proof {
                                assert(cand(names[i as int]) is None);
                                assert(spec_filter_map(names.take(i as int + 1), cand) == scanned);
                            }
                        },
                    }
                },
                None => {
                    proof {
                        assert(cand(names[i as int]) is None);
                        assert(spec_filter_map(names.take(i as int + 1), cand) == scanned);
                    }
                },
            }
            i = i + 1;
        }
        proof {
            assert(names.take(i as int) =~= names);
        }
        out
    }

    /// The whole finder. `listing` is the outcome of the one directory
    /// listing call: the entry names on success, `None` when the directory
    /// could not be listed, which is the one failure of this component and
    /// must not be mistaken for an empty result.
    pub fn find_files(&self, listing: Option<Vec<String>>) -> (r: Result<Vec<String>, QueryError>)
        requires
            self.wf(),
        ensures
            match r {
                Ok(paths) => listing is Some && spec_path_views(paths@) == spec_find_files(
                    spec_path_views(listing->Some_0@),
                    self@,
                ),
                Err(e) => listing is None && e == QueryError::DirectoryUnavailable,
            },
    {
        match listing {
            None => Err(QueryError::DirectoryUnavailable),
            Some(names) => {
                let files = self.files_for_symbol(&names);
                Ok(files_in_time_slice(&files, &self.time_slice))
            },
        }
    }
}

/// One sorting step: a file inserted into an already built sequence goes
/// after every file of the same or an earlier date.
proof fn lemma_insert_position(m: FileMetaView, s: Seq<FileMetaView>, j: int)
    requires
        0 <= j <= s.len(),
        forall|k: int| 0 <= k < j ==> (#[trigger] s[k]).date.spec_day_num() <= m.date.spec_day_num(),
        j < s.len() ==> s[j].date.spec_day_num() > m.date.spec_day_num(),
    ensures
        spec_insert_by_date(m, s) == s.take(j) + seq![m] + s.skip(j),
    decreases j,
{
    if j == 0 {
        if s.len() == 0 {
            assert(s.take(0int) + seq![m] + s.skip(0int) =~= seq![m]);
        } else {
            assert(s[0] == s.first());
            assert(s.take(0int) + seq![m] + s.skip(0int) =~= seq![m] + s);
        }
    } else {
        let rest = s.drop_first();
        assert(forall|k: int| 0 <= k < rest.len() ==> rest[k] == s[k + 1]);
        assert(s[0] == s.first());
        lemma_insert_position(m, rest, j - 1);
        assert(seq![s.first()] + (rest.take(j - 1) + seq![m] + rest.skip(j - 1)) =~= s.take(j)
            + seq![m] + s.skip(j));
    }
}

/// Inserting keeps sortedness.
proof fn lemma_insert_sorted(m: FileMetaView, s: Seq<FileMetaView>)
    requires
        spec_sorted_by_date(s),
    ensures
        spec_sorted_by_date(spec_insert_by_date(m, s)),
    decreases s.len(),
{
    if s.len() == 0 {
    } else if s.first().date.spec_day_num() <= m.date.spec_day_num() {
        let rest = s.drop_first();
        assert(forall|k: int| 0 <= k < rest.len() ==> rest[k] == s[k + 1]);
        lemma_insert_sorted(m, rest);
        lemma_insert_membership(m, rest);
        let r = seq![s.first()] + spec_insert_by_date(m, rest);
        assert forall|i: int, j: int| 0 <= i < j < r.len() implies (#[trigger] r[i]).date.spec_day_num()
            <= (#[trigger] r[j]).date.spec_day_num() by {
            if i == 0 {
                assert(r[j] == spec_insert_by_date(m, rest)[j - 1]);
            }
        }
    } else {
    }
}

/// Everything in an insertion's result is the inserted file or one of the
/// originals.
proof fn lemma_insert_membership(m: FileMetaView, s: Seq<FileMetaView>)
    ensures
        spec_insert_by_date(m, s).len() == s.len() + 1,
        forall|k: int|
            0 <= k < spec_insert_by_date(m, s).len() ==> (#[trigger] spec_insert_by_date(m, s)[k])
                == m || exists|i: int| 0 <= i < s.len() && spec_insert_by_date(m, s)[k] == #[trigger] s[i],
    decreases s.len(),
{
    if s.len() == 0 {
    } else if s.first().date.spec_day_num() <= m.date.spec_day_num() {
        let rest = s.drop_first();
        assert(forall|k: int| 0 <= k < rest.len() ==> rest[k] == s[k + 1]);
        lemma_insert_membership(m, rest);
        let r = seq![s.first()] + spec_insert_by_date(m, rest);
        assert forall|k: int| 0 <= k < r.len() implies (#[trigger] r[k]) == m || exists|i: int|
            0 <= i < s.len() && r[k] == #[trigger] s[i] by {
            if k == 0 {
                assert(r[0] == s[0]);
            } else {
                let rk = spec_insert_by_date(m, rest)[k - 1];
                assert(r[k] == rk);
                if rk == m {
                } else {
                    let i = choose|i: int| 0 <= i < rest.len() && rk == #[trigger] rest[i];
                    assert(r[k] == s[i + 1]);
                }
            }
        }
    } else {
    }
}

/// Sorting sorts.
pub proof fn lemma_sort_sorted(s: Seq<FileMetaView>)
    ensures
        spec_sorted_by_date(spec_sort_by_date(s)),
    decreases s.len(),
{
    if s.len() > 0 {
        lemma_sort_sorted(s.drop_last());
        lemma_insert_sorted(s.last(), spec_sort_by_date(s.drop_last()));
    }
}

/// Sorting one more file is inserting it into the sorted rest.
proof fn lemma_sort_push(sorted_of: Seq<FileMetaView>, m: FileMetaView)
    ensures
        spec_sort_by_date(sorted_of.push(m)) == spec_insert_by_date(m, spec_sort_by_date(sorted_of)),
{
    let p = sorted_of.push(m);
    assert(p.last() == m);
    assert(p.drop_last() =~= sorted_of);
}

/// Exec insertion into a date-sorted vector, matching `spec_insert_by_date`.
fn insert_by_date(v: &mut Vec<FileMetadata>, m: FileMetadata)
    requires
        m.wf(),
        forall|i: int| 0 <= i < old(v)@.len() ==> (#[trigger] old(v)@[i]).wf(),
    ensures
        spec_meta_views(final(v)@) == spec_insert_by_date(m@, spec_meta_views(old(v)@)),
        forall|i: int| 0 <= i < final(v)@.len() ==> (#[trigger] final(v)@[i]).wf(),
{
    let ghost s = spec_meta_views(old(v)@);
    let md = m.date.day_number();
    let mut j: usize = 0;
    while j < v.len() && v[j].date.day_number() <= md
        invariant
            j <= v@.len(),
            m.wf(),
            forall|i: int| 0 <= i < v@.len() ==> (#[trigger] v@[i]).wf(),
            v@ == old(v)@,
            s == spec_meta_views(old(v)@),
            md as int == m@.date.spec_day_num(),
            forall|k: int| 0 <= k < j ==> (#[trigger] s[k]).date.spec_day_num()
                <= m@.date.spec_day_num(),
        decreases v@.len() - j,
    {
        j = j + 1;
    }
    proof {
        lemma_insert_position(m@, s, j as int);
    }
    v.insert(j, m);
    proof {
        assert(spec_meta_views(v@) =~= s.take(j as int) + seq![m@] + s.skip(j as int));
    }
}

/// A listing in which nothing matches this finder's symbol, extension and
/// interval yields the empty selection: an empty success, never an error.
pub proof fn lemma_no_matches_empty(names: Seq<Seq<char>>, f: FileFinderView)
    requires
        forall|i: int| 0 <= i < names.len() ==> spec_candidate(f, #[trigger] names[i]) is None,
    ensures
        spec_find_files(names, f) == Seq::<Seq<char>>::empty(),
{
    lemma_filter_map_all_none(names, |n: Seq<char>| spec_candidate(f, n));
    assert(spec_scan(names, f) == Seq::<FileMetaView>::empty());
    assert(spec_sort_by_date(Seq::<FileMetaView>::empty()) == Seq::<FileMetaView>::empty());
    assert(spec_files_in_time_slice(Seq::<FileMetaView>::empty(), f.time_slice)
        == Seq::<Seq<char>>::empty());
}

/// The files the whole finder keeps are in ascending date order, and the
/// kept paths are exactly the paths of those files: the day-level filter
/// drops files but never reorders them.
pub proof fn lemma_find_files_sorted(names: Seq<Seq<char>>, f: FileFinderView)
    ensures
        spec_sorted_by_date(spec_selected_metas(spec_sorted_candidates(names, f), f.time_slice)),
        spec_find_files(names, f) == spec_selected_metas(
            spec_sorted_candidates(names, f),
            f.time_slice,
        ).map_values(|m: FileMetaView| m.path),
{
    let cands = spec_sorted_candidates(names, f);
    let ts = f.time_slice;
    lemma_sort_sorted(spec_scan(names, f));
    lemma_selected_sorted(cands, ts);
    lemma_selected_paths(cands, ts);
}

/// The path-level filter is the file-level filter followed by taking each
/// kept file's path.
proof fn lemma_selected_paths(ms: Seq<FileMetaView>, ts: TimeSlice)
    ensures
        spec_files_in_time_slice(ms, ts) == spec_selected_metas(ms, ts).map_values(
            |m: FileMetaView| m.path,
        ),
    decreases ms.len(),
{
    let path_of = |m: FileMetaView| m.path;
    if ms.len() == 0 {
        assert(spec_selected_metas(ms, ts).map_values(path_of) =~= Seq::<Seq<char>>::empty());
    } else {
        let rest = ms.drop_first();
        lemma_selected_paths(rest, ts);
        if ts.spec_contains_day(ms.first().date.spec_day_num()) {
            assert((seq![ms.first()] + spec_selected_metas(rest, ts)).map_values(path_of)
                =~= seq![ms.first().path] + spec_selected_metas(rest, ts).map_values(path_of));
        }
    }
}

/// The day-level filter, keeping whole files.
pub open spec fn spec_selected_metas(ms: Seq<FileMetaView>, ts: TimeSlice) -> Seq<FileMetaView> {
    spec_filter_map(
        ms,
        |m: FileMetaView|
            if ts.spec_contains_day(m.date.spec_day_num()) {
                Some(m)
            } else {
                None
            },
    )
}

/// Dropping files outside the interval keeps the date order of the rest.
proof fn lemma_selected_sorted(ms: Seq<FileMetaView>, ts: TimeSlice)
    requires
        spec_sorted_by_date(ms),
    ensures
        spec_sorted_by_date(spec_selected_metas(ms, ts)),
{
    let keep = |m: FileMetaView|
        if ts.spec_contains_day(m.date.spec_day_num()) {
            Some(m)
        } else {
            None
        };
    let sel = spec_filter_map(ms, keep);
    assert forall|i: int, j: int| 0 <= i < j < sel.len() implies (#[trigger] sel[i]).date.spec_day_num()
        <= (#[trigger] sel[j]).date.spec_day_num() by {
        lemma_filter_map_ordered_pair(ms, keep, i, j);
        let a = choose|a: int, b: int|
            0 <= a < b < ms.len() && keep(#[trigger] ms[a]) == Some(sel[i]) && keep(
                #[trigger] ms[b],
            ) == Some(sel[j]);
    }
}

/// Two elements of a filter-map come from two source elements in the same
/// relative order.
proof fn lemma_filter_map_ordered_pair<A, B>(s: Seq<A>, f: spec_fn(A) -> Option<B>, k1: int, k2: int)
    requires
        0 <= k1 < k2 < spec_filter_map(s, f).len(),
    ensures
        exists|i1: int, i2: int|
            0 <= i1 < i2 < s.len() && f(#[trigger] s[i1]) == Some(spec_filter_map(s, f)[k1]) && f(
                #[trigger] s[i2],
            ) == Some(spec_filter_map(s, f)[k2]),
    decreases s.len(),
{
    let res = spec_filter_map(s, f);
    let rest = s.drop_first();
    assert(forall|i: int| 0 <= i < rest.len() ==> rest[i] == s[i + 1]);
    match f(s.first()) {
        Some(b) => {
            if k1 == 0 {
                lemma_filter_map_membership(rest, f, k2 - 1);
                let i2 = choose|i: int|
                    0 <= i < rest.len() && f(#[trigger] rest[i]) == Some(
                        spec_filter_map(rest, f)[k2 - 1],
                    );
                assert(s.first() == s[0]);
                assert(f(s[0]) == Some(res[0]));
                assert(f(s[i2 + 1]) == Some(res[k2]));
                assert(0 < i2 + 1 < s.len());
            } else {
                lemma_filter_map_ordered_pair(rest, f, k1 - 1, k2 - 1);
                let (i1, i2) = choose|i1: int, i2: int|
                    0 <= i1 < i2 < rest.len() && f(#[trigger] rest[i1]) == Some(
                        spec_filter_map(rest, f)[k1 - 1],
                    ) && f(#[trigger] rest[i2]) == Some(spec_filter_map(rest, f)[k2 - 1]);
                assert(f(s[i1 + 1]) == Some(res[k1]));
                assert(f(s[i2 + 1]) == Some(res[k2]));
            }
        },
        None => {
            lemma_filter_map_ordered_pair(rest, f, k1, k2);
            let (i1, i2) = choose|i1: int, i2: int|
                0 <= i1 < i2 < rest.len() && f(#[trigger] rest[i1]) == Some(
                    spec_filter_map(rest, f)[k1],
                ) && f(#[trigger] rest[i2]) == Some(spec_filter_map(rest, f)[k2]);
            assert(f(s[i1 + 1]) == Some(res[k1]));
            assert(f(s[i2 + 1]) == Some(res[k2]));
        },
    }
}

} // verus!
