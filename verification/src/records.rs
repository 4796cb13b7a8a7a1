//! Records: the raw entries a file decoder produces, the messages the
//! engine serves, the per-record payload decoding, and the exact
//! millisecond-timestamp filter.
use vstd::prelude::*;
use vstd::utf8::{decode_utf8, valid_utf8};
use crate::fs::TimeSlice;
use crate::seq_util::{lemma_filter_map_congruence, lemma_filter_map_take_step, spec_filter_map};

verus! {

/// A raw record as decoded from one file: a millisecond timestamp (the
/// sole authority for filtering and ordering), its second/sub-second
/// decomposition as supplied for display, and the undecoded payload bytes.
pub struct RawEntry {
    pub timestamp_millis: i64,
    pub timestamp_sec: i64,
    pub timestamp_sub_sec: i32,
    pub data: Vec<u8>,
}

pub struct RawEntryView {
    pub timestamp_millis: i64,
    pub timestamp_sec: i64,
    pub timestamp_sub_sec: i32,
    pub data: Seq<u8>,
}

impl View for RawEntry {
    type V = RawEntryView;

    open spec fn view(&self) -> RawEntryView {
        RawEntryView {
            timestamp_millis: self.timestamp_millis,
            timestamp_sec: self.timestamp_sec,
            timestamp_sub_sec: self.timestamp_sub_sec,
            data: self.data@,
        }
    }
}

/// A served record: the same timestamps with the payload decoded to text.
pub struct Message {
    pub timestamp_millis: i64,
    pub timestamp_sec: i64,
    pub timestamp_sub_sec: i32,
    pub data: String,
}

pub struct MessageView {
    pub timestamp_millis: i64,
    pub timestamp_sec: i64,
    pub timestamp_sub_sec: i32,
    pub data: Seq<char>,
}

impl View for Message {
    type V = MessageView;

    open spec fn view(&self) -> MessageView {
        MessageView {
            timestamp_millis: self.timestamp_millis,
            timestamp_sec: self.timestamp_sec,
            timestamp_sub_sec: self.timestamp_sub_sec,
            data: self.data@,
        }
    }
}

pub open spec fn spec_entry_views(s: Seq<RawEntry>) -> Seq<RawEntryView> {
    s.map_values(|e: RawEntry| e@)
}

pub open spec fn spec_message_views(s: Seq<Message>) -> Seq<MessageView> {
    s.map_values(|m: Message| m@)
}

/// Relies on `String::from_utf8`: it accepts exactly the byte sequences
/// that are valid UTF-8 and decodes them to their character sequence, as
/// `vstd::utf8` specifies those notions.
#[verifier::external_body]
fn utf8_to_string(bytes: Vec<u8>) -> (r: Option<String>)
    ensures
        r is Some <==> valid_utf8(bytes@),
        r is Some ==> r->Some_0@ == decode_utf8(bytes@),
{
    match String::from_utf8(bytes) {
        Ok(s) => Some(s),
        Err(_) => None,
    }
}

/// What decoding one raw entry yields: the message, or nothing when the
/// payload is not valid text — an unrecoverable decode error for that one
/// record alone.
pub open spec fn spec_decode_message(e: RawEntryView) -> Option<MessageView> {
    if valid_utf8(e.data) {
        Some(
            MessageView {
                timestamp_millis: e.timestamp_millis,
                timestamp_sec: e.timestamp_sec,
                timestamp_sub_sec: e.timestamp_sub_sec,
                data: decode_utf8(e.data),
            },
        )
    } else {
        None
    }
}

/// Decodes one raw entry's payload into a message.
pub fn decode_message(entry: RawEntry) -> (r: Option<Message>)
    ensures
        match r {
            Some(m) => spec_decode_message(entry@) == Some(m@),
            None => spec_decode_message(entry@) is None,
        },
{
    let timestamp_millis = entry.timestamp_millis;
    let timestamp_sec = entry.timestamp_sec;
    let timestamp_sub_sec = entry.timestamp_sub_sec;
    match utf8_to_string(entry.data) {
        Some(data) => Some(Message { timestamp_millis, timestamp_sec, timestamp_sub_sec, data }),
        None => None,
    }
}

/// The per-file conversion: each entry in decode order, entries with
/// malformed payloads skipped.
pub open spec fn spec_collect_messages(es: Seq<RawEntryView>) -> Seq<MessageView> {
    spec_filter_map(es, |e: RawEntryView| spec_decode_message(e))
}

/// Converts one file's raw entries to messages in decode order, dropping
/// each record whose payload is not valid text.
pub fn collect_messages(entries: Vec<RawEntry>) -> (r: Vec<Message>)
    ensures
        spec_message_views(r@) == spec_collect_messages(spec_entry_views(entries@)),
{
    let ghost evs = spec_entry_views(entries@);
    let ghost dec = |e: RawEntryView| spec_decode_message(e);
    let mut out: Vec<Message> = Vec::new();
    let mut entries = entries;
    let ghost orig = entries@;
    let mut i: usize = 0;
    let n = entries.len();
    while i < n
        invariant
            i <= n,
            n == orig.len(),
            entries@.len() == orig.len() - i,
            forall|k: int| 0 <= k < entries@.len() ==> entries@[k] == orig[k + i],
            evs == spec_entry_views(orig),
            dec == (|e: RawEntryView| spec_decode_message(e)),
            spec_message_views(out@) == spec_filter_map(evs.take(i as int), dec),
        decreases n - i,
    {
        let entry = entries.remove(0);
        proof {
            lemma_filter_map_take_step(evs, i as int, dec);
            assert(evs[i as int] == orig[i as int]@);
        }
        let ghost old_out = out@;
        match decode_message(entry) {
            Some(m) => {
                out.push(m);
                proof {
                    assert(spec_message_views(out@) =~= spec_message_views(old_out).push(m@));
                    assert(spec_filter_map(evs.take(i as int), dec) + seq![m@] =~= spec_filter_map(
                        evs.take(i as int),
                        dec,
                    ).push(m@));
                }
            },
            None => {},
        }
        i = i + 1;
    }
    proof {
        assert(evs.take(i as int) =~= evs);
    }
    out
}

/// The exact record filter: a message is kept when its millisecond
/// timestamp is a representable instant inside the closed interval.
pub open spec fn spec_message_in_slice(m: MessageView, ts: TimeSlice) -> bool {
    ts.spec_contains_millis(m.timestamp_millis as int)
}

pub fn message_in_slice(m: &Message, ts: &TimeSlice) -> (r: bool)
    ensures
        r == spec_message_in_slice(m@, *ts),
{
    ts.contains_millis(m.timestamp_millis)
}

/// The messages of `ms` whose timestamps lie inside the interval, in
/// their original order.
pub open spec fn spec_filter_messages(ms: Seq<MessageView>, ts: TimeSlice) -> Seq<MessageView> {
    spec_filter_map(
        ms,
        |m: MessageView|
            if spec_message_in_slice(m, ts) {
                Some(m)
            } else {
                None
            },
    )
}

/// Applies the exact millisecond filter, preserving order.
pub fn filter_messages(messages: Vec<Message>, ts: &TimeSlice) -> (r: Vec<Message>)
    ensures
        spec_message_views(r@) == spec_filter_messages(spec_message_views(messages@), *ts),
{
    let ghost mvs = spec_message_views(messages@);
    let ghost keep = |m: MessageView|
        if spec_message_in_slice(m, *ts) {
            Some(m)
        } else {
            None
        };
    let mut out: Vec<Message> = Vec::new();
    let mut messages = messages;
    let ghost orig = messages@;
    let mut i: usize = 0;
    let n = messages.len();
    while i < n
        invariant
            i <= n,
            n == orig.len(),
            messages@.len() == orig.len() - i,
            forall|k: int| 0 <= k < messages@.len() ==> messages@[k] == orig[k + i],
            mvs == spec_message_views(orig),
            keep == (|m: MessageView|
                if spec_message_in_slice(m, *ts) {
                    Some(m)
                } else {
                    None
                }),
            spec_message_views(out@) == spec_filter_map(mvs.take(i as int), keep),
        decreases n - i,
    {
        let m = messages.remove(0);
        proof {
            lemma_filter_map_take_step(mvs, i as int, keep);
            assert(mvs[i as int] == orig[i as int]@);
        }
        let ghost old_out = out@;
        if message_in_slice(&m, ts) {
            out.push(m);
            proof {
                assert(spec_message_views(out@) =~= spec_message_views(old_out).push(m@));
                assert(spec_filter_map(mvs.take(i as int), keep) + seq![m@] =~= spec_filter_map(
                    mvs.take(i as int),
                    keep,
                ).push(m@));
            }
        }
        i = i + 1;
    }
    proof {
        assert(mvs.take(i as int) =~= mvs);
    }
    out
}

/// When an interval's two bounds are the same millisecond, the filter
/// keeps exactly the messages carrying that exact millisecond timestamp.
pub proof fn lemma_point_slice_filter(ms: Seq<MessageView>, ts: TimeSlice)
    requires
        ts.wf(),
        ts.from_millis == ts.to_millis,
    ensures
        spec_filter_messages(ms, ts) == spec_filter_map(
            ms,
            |m: MessageView|
                if m.timestamp_millis == ts.from_millis {
                    Some(m)
                } else {
                    None
                },
        ),
{
    let keep = |m: MessageView|
        if spec_message_in_slice(m, ts) {
            Some(m)
        } else {
            None
        };
    let exact = |m: MessageView|
        if m.timestamp_millis == ts.from_millis {
            Some(m)
        } else {
            None
        };
    assert forall|i: int| 0 <= i < ms.len() implies keep(#[trigger] ms[i]) == exact(ms[i]) by {}
    lemma_filter_map_congruence(ms, keep, exact);
}

} // verus!
