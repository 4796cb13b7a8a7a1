//! The data the file finder works on: millisecond time slices, their
//! day-level projection, filename matching against the
//! `<symbol>.<YYYY-MM-DD>.<extension>` naming contract, and the day-level
//! filtering of already-scanned files.
use vstd::prelude::*;
use vstd::arithmetic::div_mod::lemma_hoist_over_denominator;
use crate::date::{Date, spec_parse_date};
use crate::seq_util::{spec_filter_map, lemma_filter_map_take_step};

verus! {

/// Milliseconds per day.
pub const DAY_MILLIS: i64 = 86400000;

/// Earliest instant the archive's calendar model can represent
/// (midnight of the earliest representable date, about 262,000 years
/// before the common era), in milliseconds since the Unix epoch.
pub const MIN_INSTANT_MILLIS: i64 = -8334601315200000;

/// Latest representable instant (the last millisecond of the latest
/// representable date, about 262,000 years after the common era).
pub const MAX_INSTANT_MILLIS: i64 = 8210266876799999;

/// A millisecond timestamp that can be reconstructed into a calendar
/// instant. A record whose timestamp falls outside this range is dropped
/// by the filter, never an error.
pub open spec fn spec_valid_instant(ms: int) -> bool {
    MIN_INSTANT_MILLIS <= ms <= MAX_INSTANT_MILLIS
}

/// The day (as days since the Unix epoch, rounding toward minus infinity)
/// that contains a millisecond instant.
pub open spec fn spec_day_of_millis(ms: int) -> int {
    ms / (DAY_MILLIS as int)
}

/// A closed time interval at millisecond resolution, both ends inclusive.
#[derive(Clone, Copy, PartialEq, Eq, Structural, Debug)]
pub struct TimeSlice {
    pub from_millis: i64,
    pub to_millis: i64,
}

impl TimeSlice {
    /// Well-formed: ordered bounds, both representable instants.
    pub open spec fn wf(self) -> bool {
        &&& self.from_millis <= self.to_millis
        &&& spec_valid_instant(self.from_millis as int)
        &&& spec_valid_instant(self.to_millis as int)
    }

    pub open spec fn spec_from_day(self) -> int {
        spec_day_of_millis(self.from_millis as int)
    }

    pub open spec fn spec_to_day(self) -> int {
        spec_day_of_millis(self.to_millis as int)
    }

    /// Millisecond-level membership: the exact filter applied to records.
    pub open spec fn spec_contains_millis(self, ms: int) -> bool {
        &&& spec_valid_instant(ms)
        &&& self.from_millis <= ms
        &&& ms <= self.to_millis
    }

    /// Day-level membership: the projection used to select candidate files.
    /// A file of a day inside the interval may still hold records outside
    /// it; those are removed later by the millisecond filter.
    pub open spec fn spec_contains_day(self, day: int) -> bool {
        self.spec_from_day() <= day <= self.spec_to_day()
    }

    pub fn from_day(&self) -> (d: i64)
        requires
            self.wf(),
        ensures
            d as int == self.spec_from_day(),
    {
        day_of_millis(self.from_millis)
    }

    pub fn to_day(&self) -> (d: i64)
        requires
            self.wf(),
        ensures
            d as int == self.spec_to_day(),
    {
        day_of_millis(self.to_millis)
    }

    pub fn contains_millis(&self, ms: i64) -> (r: bool)
        ensures
            r == self.spec_contains_millis(ms as int),
    {
        MIN_INSTANT_MILLIS <= ms && ms <= MAX_INSTANT_MILLIS && self.from_millis <= ms
            && ms <= self.to_millis
    }

    /// Day-level test of a calendar date against the interval.
    pub fn contains_date(&self, date: &Date) -> (r: bool)
        requires
            self.wf(),
            date.wf(),
        ensures
            r == self.spec_contains_day(date.spec_day_num()),
    {
        let dn = date.day_number();
        self.from_day() <= dn && dn <= self.to_day()
    }
}

/// Floor division of a representable instant by the length of a day.
fn day_of_millis(ms: i64) -> (d: i64)
    requires
        spec_valid_instant(ms as int),
    ensures
        d as int == spec_day_of_millis(ms as int),
{
    proof {
        assert(100000000int * 86400000int == 8640000000000000int);
        lemma_hoist_over_denominator(ms as int, 100000000int, 86400000nat);
    }
    let shifted: i64 = ms + 8640000000000000;
    let q: u64 = (shifted as u64) / 86400000;
    (q as i64) - 100000000
}

/// A file found in a scan: its full path and the calendar date parsed from
/// its name.
#[derive(Clone, Debug)]
pub struct FileMetadata {
    pub path: String,
    pub date: Date,
}

/// What a `FileMetadata` denotes: the path as a character sequence, the
/// date as a plain value.
pub struct FileMetaView {
    pub path: Seq<char>,
    pub date: Date,
}

impl View for FileMetadata {
    type V = FileMetaView;

    open spec fn view(&self) -> FileMetaView {
        FileMetaView { path: self.path@, date: self.date }
    }
}

impl FileMetadata {
    pub open spec fn wf(self) -> bool {
        self.date.wf()
    }
}

/// A filename matches when it is literally `<symbol>.<something>.<ext>`:
/// the symbol followed by a dot, then any (possibly empty) middle part,
/// then the extension suffix. `file_extension` carries its leading dot.
pub open spec fn spec_matches_filename(f: Seq<char>, symbol: Seq<char>, file_extension: Seq<char>) -> bool {
    &&& f.len() >= symbol.len() + 1 + file_extension.len()
    &&& f.subrange(0, symbol.len() as int) == symbol
    &&& f[symbol.len() as int] == '.'
    &&& f.subrange(f.len() - file_extension.len(), f.len() as int) == file_extension
}

/// The middle part between the symbol's dot and the extension suffix.
pub open spec fn spec_date_part(f: Seq<char>, symbol: Seq<char>, file_extension: Seq<char>) -> Seq<char> {
    f.subrange(symbol.len() + 1 as int, f.len() - file_extension.len())
}

/// Compares `a[a_from ..]` with `b` character by character.
fn chars_match_at(a: &str, a_from: usize, b: &str) -> (r: bool)
    requires
        a_from + b@.len() <= a@.len(),
    ensures
        r == (a@.subrange(a_from as int, a_from + b@.len()) == b@),
{
    let n = b.unicode_len();
    let alen = a.unicode_len();
    let mut i: usize = 0;
    while i < n
        invariant
            i <= n,
            n == b@.len(),
            alen == a@.len(),
            a_from + n <= alen,
            forall|k: int| 0 <= k < i ==> a@[a_from + k] == b@[k],
        decreases n - i,
    {
        if a.get_char(a_from + i) != b.get_char(i) {
            proof {
                assert(a@.subrange(a_from as int, a_from + b@.len())[i as int] != b@[i as int]);
            }
            return false;
        }
        i = i + 1;
    }
    proof {
        assert(a@.subrange(a_from as int, a_from + b@.len()) =~= b@);
    }
    true
}

/// Tries to read a filename as `<symbol>.<date>.<extension>` and hands back
/// the date part. `file_extension` carries its leading dot, as in
/// `".parquet"`. Filenames of other symbols, other extensions, or too short
/// to hold all three parts give `None`; the date part itself is not
/// examined here.
pub fn extract_date_from_filename(filename: &str, symbol: &str, file_extension: &str) -> (r: Option<
    String,
>)
    ensures
        r is Some <==> spec_matches_filename(filename@, symbol@, file_extension@),
        r is Some ==> r->Some_0@ == spec_date_part(filename@, symbol@, file_extension@),
{
    let n = filename.unicode_len();
    let ps = symbol.unicode_len();
    let pe = file_extension.unicode_len();
    if n < ps || n - ps < 1 || n - ps - 1 < pe {
        return None;
    }
    if !chars_match_at(filename, 0, symbol) {
        return None;
    }
    if filename.get_char(ps) != '.' {
        return None;
    }
    if !chars_match_at(filename, n - pe, file_extension) {
        return None;
    }
    let date_part = filename.substring_char(ps + 1, n - pe);
    Some(date_part.to_owned())
}

/// The day-level selection: keeps, in order, the path of each file whose
/// date lies inside the interval's day-level projection.
pub open spec fn spec_files_in_time_slice(ms: Seq<FileMetaView>, ts: TimeSlice) -> Seq<Seq<char>> {
    spec_filter_map(
        ms,
        |m: FileMetaView|
            if ts.spec_contains_day(m.date.spec_day_num()) {
                Some(m.path)
            } else {
                None
            },
    )
}

pub open spec fn spec_meta_views(s: Seq<FileMetadata>) -> Seq<FileMetaView> {
    s.map_values(|m: FileMetadata| m@)
}

pub open spec fn spec_path_views(s: Seq<String>) -> Seq<Seq<char>> {
    s.map_values(|p: String| p@)
}

/// Keeps the paths of the files whose filename date falls inside the
/// day-level projection of the time slice, preserving their order.
pub fn files_in_time_slice(file_metadata: &Vec<FileMetadata>, time_slice: &TimeSlice) -> (r: Vec<
    String,
>)
    requires
        time_slice.wf(),
        forall|i: int| 0 <= i < file_metadata@.len() ==> (#[trigger] file_metadata@[i]).wf(),
    ensures
        spec_path_views(r@) == spec_files_in_time_slice(spec_meta_views(file_metadata@), *time_slice),
{
    let ghost views = spec_meta_views(file_metadata@);
    let ghost keep = |m: FileMetaView|
        if time_slice.spec_contains_day(m.date.spec_day_num()) {
            Some(m.path)
        } else {
            None
        };
    let mut out: Vec<String> = Vec::new();
    let mut i: usize = 0;
    while i < file_metadata.len()
        invariant
            i <= file_metadata@.len(),
            time_slice.wf(),
            forall|k: int| 0 <= k < file_metadata@.len() ==> (#[trigger] file_metadata@[k]).wf(),
            views == spec_meta_views(file_metadata@),
            keep == (|m: FileMetaView|
                if time_slice.spec_contains_day(m.date.spec_day_num()) {
                    Some(m.path)
                } else {
                    None
                }),
            spec_path_views(out@) == spec_filter_map(views.take(i as int), keep),
        decreases file_metadata@.len() - i,
    {
        let m = &file_metadata[i];
        proof {
            lemma_filter_map_take_step(views, i as int, keep);
            assert(views[i as int] == file_metadata@[i as int]@);
        }
        if time_slice.contains_date(&m.date) {
            let ghost old_out = out@;
            out.push(m.path.clone());
            proof {
                assert(spec_path_views(out@) =~= spec_path_views(old_out).push(m.path@));
            }
        }
        i = i + 1;
    }
    proof {
        assert(views.take(i as int) =~= views);
    }
    out
}

} // verus!
