use vstd::prelude::*;

pub mod timestamps;
pub mod utils;
pub mod whisper;

use crate::decimal::{decimal, fmt_int, push_decimal, push_fmt_int};
use crate::text::{chars_of, push_all, string_of, trim, trim_chars};

verus! {

// ---------------------------------------------------------------------------
// SRT timestamps and segments
// ---------------------------------------------------------------------------

/// Integer division rounding toward zero (Rust's `/` on `i64`), for `b > 0`.
pub open spec fn tdiv(a: int, b: int) -> int {
    if a >= 0 {
        a / b
    } else {
        -((-a) / b)
    }
}

/// The remainder that goes with `tdiv` (Rust's `%` on `i64`), for `b > 0`.
pub open spec fn trem(a: int, b: int) -> int {
    a - b * tdiv(a, b)
}

/// The SRT separator between the start and the end time of a segment.
pub open spec fn arrow() -> Seq<char> {
    seq![' ', '-', '-', '>', ' ']
}

/// A Whisper timestamp `t` (in units of 10 ms) whose millisecond count fits in `i64`.
pub open spec fn tick_in_range(t: int) -> bool {
    i64::MIN <= t * 10 <= i64::MAX
}

/// `HH:MM:SS,mmm` for `t` ticks of 10 ms: hours, minutes, seconds and
/// milliseconds of `10 * t` milliseconds, each part padded with zeros to two
/// digits (three for the milliseconds) and signed like the time itself.
pub open spec fn timestamp_text(t: int) -> Seq<char> {
    let ms = t * 10;
    fmt_int(tdiv(ms, 3_600_000), 2) + seq![':'] + fmt_int(trem(tdiv(ms, 60_000), 60), 2) + seq![
        ':',
    ] + fmt_int(trem(tdiv(ms, 1_000), 60), 2) + seq![','] + fmt_int(trem(ms, 1_000), 3)
}

/// One SRT segment: its number, its time line, its trimmed text and a blank line.
pub open spec fn srt_segment_text(index: nat, t0: int, t1: int, text: Seq<char>) -> Seq<char> {
    decimal(index) + seq!['\n'] + timestamp_text(t0) + arrow() + timestamp_text(t1) + seq!['\n']
        + trim(text) + seq!['\n', '\n']
}

/// The separator between the start and end of an SRT time line.
pub fn arrow_chars() -> (v: Vec<char>)
    ensures
        v@ == arrow(),
{
    let mut v: Vec<char> = Vec::new();
    v.push(' ');
    v.push('-');
    v.push('-');
    v.push('>');
    v.push(' ');
    v
}

proof fn lemma_neg_parts(a: int)
    requires
        a >= 0,
    ensures
        tdiv(-a, 3_600_000) == -(a / 3_600_000),
        trem(tdiv(-a, 60_000), 60) == -((a / 60_000) % 60),
        trem(tdiv(-a, 1_000), 60) == -((a / 1_000) % 60),
        trem(-a, 1_000) == -(a % 1_000),
{
    let q1 = a / 60_000;
    let q2 = a / 1_000;
    assert(q1 >= 0);
    assert(q2 >= 0);
    if a > 0 {
        assert(tdiv(-a, 60_000) == -q1);
        assert(tdiv(-a, 1_000) == -q2);
        if q1 > 0 {
            assert(tdiv(-q1, 60) == -(q1 / 60));
        }
        if q2 > 0 {
            assert(tdiv(-q2, 60) == -(q2 / 60));
        }
    }
}

/// Appends `timestamp_text(t)` to `out`.
pub fn push_timestamp(out: &mut Vec<char>, t: i64)
    requires
        tick_in_range(t as int),
    ensures
        final(out)@ == old(out)@ + timestamp_text(t as int),
{
    let ghost start = out@;
    let ms: i64 = t * 10;
    let negative = ms < 0;
    let a: u64 = if negative {
        (0 - ms) as u64
    } else {
        ms as u64
    };
    proof {
        if negative {
            lemma_neg_parts(a as int);
            assert(ms == -(a as int));
        }
    }
    push_fmt_int(out, negative, a / 3_600_000, 2);
    out.push(':');
    push_fmt_int(out, negative, (a / 60_000) % 60, 2);
    out.push(':');
    push_fmt_int(out, negative, (a / 1_000) % 60, 2);
    out.push(',');
    push_fmt_int(out, negative, a % 1_000, 3);
    assert(out@ =~= start + timestamp_text(t as int));
}

/// Formats a Whisper timestamp (ticks of 10 ms) as an SRT time, `HH:MM:SS,mmm`.
pub fn format_timestamp(t: i64) -> (s: String)
    requires
        tick_in_range(t as int),
    ensures
        s@ == timestamp_text(t as int),
{
    let mut out: Vec<char> = Vec::new();
    push_timestamp(&mut out, t);
    assert(out@ =~= timestamp_text(t as int));
    string_of(&out)
}

/// Appends `srt_segment_text(index, t0, t1, text)` to `out`.
#[verifier::rlimit(30)]
pub fn push_srt_segment(out: &mut Vec<char>, index: usize, t0: i64, t1: i64, text: &str)
    requires
        tick_in_range(t0 as int),
        tick_in_range(t1 as int),
    ensures
        final(out)@ == old(out)@ + srt_segment_text(index as nat, t0 as int, t1 as int, text@),
{
    let ghost start = out@;
    push_decimal(out, index as u64);
    out.push('\n');
    push_timestamp(out, t0);
    let sep_line = arrow_chars();
    push_all(out, &sep_line);
    push_timestamp(out, t1);
    out.push('\n');
    let cs = chars_of(text);
    let trimmed = trim_chars(&cs);
    push_all(out, &trimmed);
    out.push('\n');
    out.push('\n');
    assert(out@ =~= start + srt_segment_text(index as nat, t0 as int, t1 as int, text@));
}

/// One SRT segment: `index`, the time line `t0 --> t1` and the trimmed text,
/// followed by a blank line.
pub fn format_srt_segment(index: usize, t0: i64, t1: i64, text: &str) -> (s: String)
    requires
        tick_in_range(t0 as int),
        tick_in_range(t1 as int),
    ensures
        s@ == srt_segment_text(index as nat, t0 as int, t1 as int, text@),
{
    let mut out: Vec<char> = Vec::new();
    push_srt_segment(&mut out, index, t0, t1, text);
    assert(out@ =~= srt_segment_text(index as nat, t0 as int, t1 as int, text@));
    string_of(&out)
}

/// A segment of a transcription: start and end (in ticks of 10 ms) and text.
#[derive(Debug)]
pub struct TranscriptSegment {
    pub t0: i64,
    pub t1: i64,
    pub text: String,
}

/// All timestamps of `segs` are in range.
pub open spec fn segments_in_range(segs: Seq<TranscriptSegment>) -> bool {
    forall|i: int|
        0 <= i < segs.len() ==> tick_in_range(#[trigger] segs[i].t0 as int) && tick_in_range(
            segs[i].t1 as int,
        )
}

/// The SRT document made of `segs`, numbered from 1.
pub open spec fn srt_document(segs: Seq<TranscriptSegment>) -> Seq<char>
    decreases segs.len(),
{
    if segs.len() == 0 {
        seq![]
    } else {
        srt_document(segs.drop_last()) + srt_segment_text(
            segs.len(),
            segs.last().t0 as int,
            segs.last().t1 as int,
            segs.last().text@,
        )
    }
}

/// The transcription text that Whisper's segments make: each segment as an SRT
/// segment numbered from 1, in order.
pub fn srt_from_segments(segs: &Vec<TranscriptSegment>) -> (s: String)
    requires
        segments_in_range(segs@),
    ensures
        s@ == srt_document(segs@),
{
    let mut out: Vec<char> = Vec::new();
    for i in 0..segs.len()
        invariant
            segments_in_range(segs@),
            out@ == srt_document(segs@.take(i as int)),
    {
        let seg = &segs[i];
        assert(tick_in_range(segs@[i as int].t0 as int));
        let ghost prev = segs@.take(i as int);
        assert(segs@.take(i + 1).drop_last() == prev);
        push_srt_segment(&mut out, i + 1, seg.t0, seg.t1, seg.text.as_str());
    }
    assert(segs@.take(segs@.len() as int) == segs@);
    string_of(&out)
}


} // verus!
