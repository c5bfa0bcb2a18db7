//! Selecting the segments of an SRT document that overlap a time range.
//!
//! A segment's times are read from its time line `START --> END`, each as
//! `H:M:S` where `H` and `M` are whole numbers and `S` is a decimal number of
//! seconds, truncated. Reading `S` is floating-point work, which this library
//! leaves to its caller: `srt_seconds_field` gives the text of `S`, and
//! `srt_timestamp_secs` completes a time from the whole seconds of `S`.
use vstd::prelude::*;

use crate::audio::{arrow, arrow_chars};
use crate::audio::{tdiv, timestamp_text, trem};
use crate::decimal::{
    all_digits, decimal, digit_char, digit_value, digits_value, fmt_int, parse_u64, parse_u64_chars,
    parse_u64_or_zero, push_decimal, zero_padded,
};
use crate::text::{
    char_lines, chars_of, is_digit, is_whitespace, join, lines, lines_from, lines_of, push_all,
    push_joined, split, split_chars, split_from, split_once, split_once_at, split_once_from,
    starts_with, string_of, strip_cr, trim, trim_chars, trim_end, trim_start,
};

verus! {

// ---------------------------------------------------------------------------
// Segments
// ---------------------------------------------------------------------------

/// A segment of an SRT document, as text: its time line, the start and end
/// times on it, and its text lines joined by `'\n'`.
#[derive(Debug)]
pub struct SrtCue {
    pub ts_line: String,
    pub start_ts: String,
    pub end_ts: String,
    pub text: String,
}

/// The texts of a segment: time line, start, end and text.
pub open spec fn cue_view(c: SrtCue) -> (Seq<char>, Seq<char>, Seq<char>, Seq<char>) {
    (c.ts_line@, c.start_ts@, c.end_ts@, c.text@)
}

/// The segment that a block of an SRT document holds: the trimmed block has
/// at least three lines and its second line contains `" --> "`.
pub open spec fn block_cue(block: Seq<char>) -> Option<(Seq<char>, Seq<char>, Seq<char>, Seq<char>)> {
    let ls = lines(trim(block));
    if ls.len() < 3 {
        None
    } else {
        match split_once(ls[1], arrow()) {
            Some((s, e)) => Some((ls[1], s, e, join(ls.skip(2), seq!['\n']))),
            None => None,
        }
    }
}

/// The segments held by `blocks`, in order.
pub open spec fn cues_of(blocks: Seq<Seq<char>>) -> Seq<(Seq<char>, Seq<char>, Seq<char>, Seq<char>)>
    decreases blocks.len(),
{
    if blocks.len() == 0 {
        seq![]
    } else {
        match block_cue(blocks.last()) {
            Some(c) => cues_of(blocks.drop_last()).push(c),
            None => cues_of(blocks.drop_last()),
        }
    }
}

/// The segments of an SRT document: those of its blocks, which blank lines
/// (`"\n\n"`) separate.
pub open spec fn srt_cue_texts(srt: Seq<char>) -> Seq<(Seq<char>, Seq<char>, Seq<char>, Seq<char>)> {
    cues_of(split(srt, seq!['\n', '\n']))
}

fn block_cue_exec(block: &[char]) -> (r: Option<SrtCue>)
    ensures
        match block_cue(block@) {
            Some(c) => r matches Some(x) && cue_view(x) == c,
            None => r is None,
        },
{
    let b = trim_chars(block);
    let ls = lines_of(&b);
    if ls.len() < 3 {
        return None;
    }
    let ghost all = char_lines(&ls);
    assert(all[1] == ls[1]@);
    let sep = arrow_chars();
    match split_once_at(&ls[1], &sep) {
        None => None,
        Some(i) => {
            let line = &ls[1];
            let start = crate::text::slice_chars(line, 0, i);
            let end = crate::text::slice_chars(line, i + 5, line.len());
            assert(start@ == line@.take(i as int));
            assert(end@ == line@.skip(i + 5));
            let mut rest: Vec<Vec<char>> = Vec::new();
            let mut k: usize = 2;
            while k < ls.len()
                invariant
                    2 <= k <= ls.len(),
                    all == char_lines(&ls),
                    char_lines(&rest) == all.subrange(2, k as int),
                decreases ls.len() - k,
            {
                let ghost before = char_lines(&rest);
                let piece = crate::text::slice_chars(&ls[k], 0, ls[k].len());
                assert(piece@ == ls[k as int]@);
                assert(all[k as int] == ls[k as int]@);
                rest.push(piece);
                assert(char_lines(&rest) =~= before.push(all[k as int]));
                assert(all.subrange(2, k + 1) =~= all.subrange(2, k as int).push(all[k as int]));
                k += 1;
            }
            assert(all.subrange(2, all.len() as int) == all.skip(2));
            let mut text: Vec<char> = Vec::new();
            let mut nl: Vec<char> = Vec::new();
            nl.push('\n');
            push_joined(&mut text, &rest, &nl);
            assert(text@ =~= join(all.skip(2), seq!['\n']));
            Some(
                SrtCue {
                    ts_line: string_of(&ls[1]),
                    start_ts: string_of(&start),
                    end_ts: string_of(&end),
                    text: string_of(&text),
                },
            )
        },
    }
}

/// The segments of an SRT document (see `srt_cue_texts`).
pub fn srt_cues(srt: &str) -> (r: Vec<SrtCue>)
    ensures
        r@.map_values(|c: SrtCue| cue_view(c)) == srt_cue_texts(srt@),
{
    let cs = chars_of(srt);
    let mut sep: Vec<char> = Vec::new();
    sep.push('\n');
    sep.push('\n');
    assert(sep@ =~= seq!['\n', '\n']);
    let blocks = split_chars(&cs, &sep);
    let ghost all = char_lines(&blocks);
    assert(all == split(srt@, seq!['\n', '\n']));
    let mut out: Vec<SrtCue> = Vec::new();
    for i in 0..blocks.len()
        invariant
            all == char_lines(&blocks),
            out@.map_values(|c: SrtCue| cue_view(c)) == cues_of(all.take(i as int)),
    {
        assert(all.take(i + 1).drop_last() == all.take(i as int));
        assert(all.take(i + 1).last() == blocks[i as int]@);
        let ghost before = out@.map_values(|c: SrtCue| cue_view(c));
        match block_cue_exec(&blocks[i]) {
            Some(c) => {
                out.push(c);
                assert(out@.map_values(|c: SrtCue| cue_view(c)) =~= before.push(
                    block_cue(all[i as int]).unwrap(),
                ));
            },
            None => {},
        }
    }
    assert(all.take(blocks.len() as int) == all);
    out
}

// ---------------------------------------------------------------------------
// Times
// ---------------------------------------------------------------------------

/// A time as read: trimmed, with `','` read as `'.'`.
pub open spec fn normalized_time(ts: Seq<char>) -> Seq<char> {
    trim(ts).map_values(|c: char| if c == ',' { '.' } else { c })
}

/// `str::splitn(3, ':')`: the parts before the first `':'`, between the first
/// and the second, and after the second (fewer when there are fewer `':'`).
pub open spec fn split_colon3(s: Seq<char>) -> Seq<Seq<char>> {
    match split_once(s, seq![':']) {
        None => seq![s],
        Some((a, rest)) => match split_once(rest, seq![':']) {
            None => seq![a, rest],
            Some((b, c)) => seq![a, b, c],
        },
    }
}

/// The seconds part of a time, when it has hours, minutes and seconds.
pub open spec fn seconds_field(ts: Seq<char>) -> Option<Seq<char>> {
    let p = split_colon3(normalized_time(ts));
    if p.len() == 3 {
        Some(p[2])
    } else {
        None
    }
}

/// The seconds that a time names, where `seconds` is the value of its seconds
/// part: `H * 3600 + M * 60 + seconds` (an `H` or `M` that is not a `u64`
/// counts as 0), or 0 when the time does not have three parts.
pub open spec fn time_secs(ts: Seq<char>, seconds: nat) -> nat {
    let p = split_colon3(normalized_time(ts));
    if p.len() == 3 {
        parse_u64_or_zero(p[0]) * 3600 + parse_u64_or_zero(p[1]) * 60 + seconds
    } else {
        0
    }
}

fn split_colon3_exec(s: &[char]) -> (r: Vec<Vec<char>>)
    ensures
        char_lines(&r) == split_colon3(s@),
{
    let mut colon: Vec<char> = Vec::new();
    colon.push(':');
    assert(colon@ =~= seq![':']);
    let mut out: Vec<Vec<char>> = Vec::new();
    match split_once_at(s, &colon) {
        None => {
            let whole = crate::text::slice_chars(s, 0, s.len());
            assert(whole@ == s@);
            out.push(whole);
            assert(char_lines(&out) =~= seq![s@]);
        },
        Some(i) => {
            let a = crate::text::slice_chars(s, 0, i);
            let rest = crate::text::slice_chars(s, i + 1, s.len());
            assert(a@ == s@.take(i as int));
            assert(rest@ == s@.skip(i + 1));
            let ghost av = a@;
            out.push(a);
            match split_once_at(&rest, &colon) {
                None => {
                    let ghost rv = rest@;
                    out.push(rest);
                    assert(char_lines(&out) =~= seq![av, rv]);
                },
                Some(j) => {
                    let b = crate::text::slice_chars(&rest, 0, j);
                    let c = crate::text::slice_chars(&rest, j + 1, rest.len());
                    assert(b@ == rest@.take(j as int));
                    assert(c@ == rest@.skip(j + 1));
                    let ghost bv = b@;
                    let ghost cv = c@;
                    out.push(b);
                    out.push(c);
                    assert(char_lines(&out) =~= seq![av, bv, cv]);
                },
            }
        },
    }
    assert(char_lines(&out) =~= split_colon3(s@));
    out
}

fn normalized_time_exec(ts: &str) -> (r: Vec<char>)
    ensures
        r@ == normalized_time(ts@),
{
    let cs = chars_of(ts);
    let t = trim_chars(&cs);
    let mut out: Vec<char> = Vec::new();
    for i in 0..t.len()
        invariant
            out@ == t@.take(i as int).map_values(|c: char| if c == ',' { '.' } else { c }),
    {
        let c = t[i];
        out.push(if c == ',' { '.' } else { c });
        assert(out@ =~= t@.take(i + 1).map_values(|c: char| if c == ',' { '.' } else { c }));
    }
    assert(t@.take(t@.len() as int) == t@);
    out
}

/// The text of the seconds part of the time `ts` (see `seconds_field`).
pub fn srt_seconds_field(ts: &str) -> (r: Option<String>)
    ensures
        match seconds_field(ts@) {
            Some(f) => r matches Some(s) && s@ == f,
            None => r is None,
        },
{
    let n = normalized_time_exec(ts);
    let p = split_colon3_exec(&n);
    if p.len() == 3 {
        assert(char_lines(&p)[2] == p[2]@);
        Some(string_of(&p[2]))
    } else {
        None
    }
}

/// The seconds that the time `ts` names, with `seconds` as the value of its
/// seconds part (see `time_secs`); `None` when that does not fit in `u64`.
pub fn srt_timestamp_secs(ts: &str, seconds: u64) -> (r: Option<u64>)
    ensures
        r == if time_secs(ts@, seconds as nat) <= u64::MAX {
            Some(time_secs(ts@, seconds as nat) as u64)
        } else {
            None
        },
{
    let n = normalized_time_exec(ts);
    let p = split_colon3_exec(&n);
    if p.len() != 3 {
        return Some(0);
    }
    assert(char_lines(&p)[0] == p[0]@);
    assert(char_lines(&p)[1] == p[1]@);
    let h = match parse_u64_chars(&p[0]) {
        Some(v) => v,
        None => 0,
    };
    let m = match parse_u64_chars(&p[1]) {
        Some(v) => v,
        None => 0,
    };
    if h > (u64::MAX - seconds) / 3600 || m > (u64::MAX - seconds - h * 3600) / 60 {
        return None;
    }
    Some(h * 3600 + m * 60 + seconds)
}

// ---------------------------------------------------------------------------
// Filtering
// ---------------------------------------------------------------------------

/// The time range `[start, end)` that a start and a duration select: from
/// `start` (or 0) for `duration` seconds (or without end); none when neither
/// is given.
pub open spec fn time_range(start: Option<u64>, duration: Option<u64>) -> Option<(nat, nat)> {
    match (start, duration) {
        (Some(s), Some(d)) => Some((s as nat, (s + d) as nat)),
        (Some(s), None) => Some((s as nat, u64::MAX as nat)),
        (None, Some(d)) => Some((0, d as nat)),
        (None, None) => None,
    }
}

/// The segment `[seg_start, seg_end]` overlaps `[start, end)`.
pub open spec fn overlaps(seg_start: nat, seg_end: nat, start: nat, end: nat) -> bool {
    seg_end > start && seg_start < end
}

/// The segments among `cues` whose times (`times`, one pair per segment)
/// overlap `[start, end)`, in order.
pub open spec fn selected(
    cues: Seq<(Seq<char>, Seq<char>, Seq<char>, Seq<char>)>,
    times: Seq<(u64, u64)>,
    start: nat,
    end: nat,
) -> Seq<(Seq<char>, Seq<char>, Seq<char>, Seq<char>)>
    decreases cues.len(),
{
    if cues.len() == 0 || times.len() == 0 {
        seq![]
    } else {
        let rest = selected(cues.drop_last(), times.drop_last(), start, end);
        if overlaps(times.last().0 as nat, times.last().1 as nat, start, end) {
            rest.push(cues.last())
        } else {
            rest
        }
    }
}

/// The SRT document made of `cues`, renumbered from 1: each segment's number,
/// time line and text, followed by a blank line.
pub open spec fn render(cues: Seq<(Seq<char>, Seq<char>, Seq<char>, Seq<char>)>) -> Seq<char>
    decreases cues.len(),
{
    if cues.len() == 0 {
        seq![]
    } else {
        render(cues.drop_last()) + decimal(cues.len()) + seq!['\n'] + cues.last().0 + seq!['\n']
            + cues.last().3 + seq!['\n', '\n']
    }
}

/// What filtering `srt` to the range of `start` and `duration` gives, where
/// `times` are the start and end of each of its segments: the document as is
/// when no range is given; otherwise the segments that overlap the range,
/// renumbered from 1; `None` when the range's end, or the number of segments
/// kept, would not fit (`u64`, `u32`).
pub open spec fn filtered_srt(
    srt: Seq<char>,
    start: Option<u64>,
    duration: Option<u64>,
    times: Seq<(u64, u64)>,
) -> Option<Seq<char>> {
    match time_range(start, duration) {
        None => Some(srt),
        Some((s, e)) => {
            let sel = selected(srt_cue_texts(srt), times, s, e);
            if e <= u64::MAX && sel.len() < u32::MAX {
                Some(render(sel))
            } else {
                None
            }
        },
    }
}

/// Keeps the segments of `srt` that overlap `[start, start + duration)` (from
/// 0 without a start, without end without a duration) and renumbers them
/// from 1; with neither, returns the document as is. `times` holds the start
/// and end (in seconds) of each segment of `srt`, in order.
pub fn filter_srt_with_times(
    srt: &str,
    start_secs: Option<u64>,
    duration_secs: Option<u64>,
    times: &Vec<(u64, u64)>,
) -> (r: Option<String>)
    requires
        time_range(start_secs, duration_secs) is Some ==> times@.len() == srt_cue_texts(srt@).len(),
    ensures
        match filtered_srt(srt@, start_secs, duration_secs, times@) {
            Some(t) => r matches Some(s) && s@ == t,
            None => r is None,
        },
{
    let (range_start, range_end): (u64, u64) = match (start_secs, duration_secs) {
        (Some(s), Some(d)) => {
            if s > u64::MAX - d {
                return None;
            }
            (s, s + d)
        },
        (Some(s), None) => (s, u64::MAX),
        (None, Some(d)) => (0, d),
        (None, None) => return Some(srt.to_owned()),
    };
    assert(time_range(start_secs, duration_secs) == Some((range_start as nat, range_end as nat)));
    let cues = srt_cues(srt);
    let ghost cv = cues@.map_values(|c: SrtCue| cue_view(c));
    let mut out: Vec<char> = Vec::new();
    let mut count: u32 = 0;
    let sep = arrow_chars();
    for i in 0..cues.len()
        invariant
            cv == cues@.map_values(|c: SrtCue| cue_view(c)),
            cv == srt_cue_texts(srt@),
            times@.len() == cv.len(),
            time_range(start_secs, duration_secs) == Some((range_start as nat, range_end as nat)),
            count < u32::MAX,
            count as nat == selected(cv.take(i as int), times@.take(i as int), range_start as nat, range_end as nat).len(),
            out@ == render(selected(cv.take(i as int), times@.take(i as int), range_start as nat, range_end as nat)),
    {
        let ghost sel = selected(cv.take(i as int), times@.take(i as int), range_start as nat, range_end as nat);
        assert(cv.take(i + 1).drop_last() == cv.take(i as int));
        assert(times@.take(i + 1).drop_last() == times@.take(i as int));
        assert(cv.take(i + 1).last() == cue_view(cues@[i as int]));
        assert(times@.take(i + 1).last() == times@[i as int]);
        let (seg_start, seg_end) = times[i];
        assert(cv[i as int] == cue_view(cues@[i as int]));
        let ghost sel_next = selected(cv.take(i + 1), times@.take(i + 1), range_start as nat, range_end as nat);
        if seg_end > range_start && seg_start < range_end {
            assert(sel_next == sel.push(cv[i as int]));
            if count == u32::MAX - 1 {
                proof {
                    lemma_selected_grows(cv, times@, i + 1, range_start as nat, range_end as nat);
                }
                return None;
            }
            count += 1;
            let c = &cues[i];
            push_decimal(&mut out, count as u64);
            out.push('\n');
            let l = chars_of(c.ts_line.as_str());
            push_all(&mut out, &l);
            out.push('\n');
            let t = chars_of(c.text.as_str());
            push_all(&mut out, &t);
            out.push('\n');
            out.push('\n');
            let ghost sel2 = sel.push(cv[i as int]);
            assert(sel2.drop_last() =~= sel);
            assert(render(sel2) == render(sel) + decimal(sel2.len()) + seq!['\n'] + cv[i as int].0
                + seq!['\n'] + cv[i as int].3 + seq!['\n', '\n']);
            assert(out@ =~= render(sel2));
        } else {
            assert(sel_next == sel);
        }
    }
    assert(cv.take(cues.len() as int) == cv);
    assert(times@.take(cues.len() as int) == times@);
    Some(string_of(&out))
}

proof fn lemma_selected_grows(
    cues: Seq<(Seq<char>, Seq<char>, Seq<char>, Seq<char>)>,
    times: Seq<(u64, u64)>,
    k: int,
    start: nat,
    end: nat,
)
    requires
        0 <= k <= cues.len(),
        cues.len() == times.len(),
    ensures
        selected(cues.take(k), times.take(k), start, end).len() <= selected(cues, times, start, end).len(),
    decreases cues.len() - k,
{
    if k < cues.len() {
        lemma_selected_grows(cues.drop_last(), times.drop_last(), k, start, end);
        assert(cues.drop_last().take(k) == cues.take(k));
        assert(times.drop_last().take(k) == times.take(k));
    } else {
        assert(cues.take(k) == cues);
        assert(times.take(k) == times);
    }
}

// ---------------------------------------------------------------------------
// Laws
// ---------------------------------------------------------------------------

/// Without a time range, filtering returns the document as it is.
pub proof fn law_no_range_keeps_document(srt: Seq<char>, times: Seq<(u64, u64)>)
    ensures
        filtered_srt(srt, None, None, times) == Some(srt),
{
}

/// Filtering from 0 without end keeps every segment that ends after 0 s and
/// starts before `u64::MAX`, renumbered from 1.
pub proof fn law_open_range_keeps_segments(
    cues: Seq<(Seq<char>, Seq<char>, Seq<char>, Seq<char>)>,
    times: Seq<(u64, u64)>,
)
    requires
        cues.len() == times.len(),
        forall|k: int| 0 <= k < times.len() ==> (#[trigger] times[k]).1 > 0 && times[k].0 < u64::MAX,
    ensures
        selected(cues, times, 0, u64::MAX as nat) == cues,
    decreases cues.len(),
{
    if cues.len() > 0 {
        assert forall|k: int| 0 <= k < times.drop_last().len() implies (#[trigger] times.drop_last()[k]).1 > 0
            && times.drop_last()[k].0 < u64::MAX by {
            assert(times.drop_last()[k] == times[k]);
        }
        law_open_range_keeps_segments(cues.drop_last(), times.drop_last());
        assert(times.last() == times[times.len() - 1]);
        assert(cues.drop_last().push(cues.last()) == cues);
    }
}

/// The times among `times` that overlap `[start, end)`, in order: the times
/// of the segments that filtering keeps.
pub open spec fn kept_times(times: Seq<(u64, u64)>, start: nat, end: nat) -> Seq<(u64, u64)>
    decreases times.len(),
{
    if times.len() == 0 {
        seq![]
    } else if overlaps(times.last().0 as nat, times.last().1 as nat, start, end) {
        kept_times(times.drop_last(), start, end).push(times.last())
    } else {
        kept_times(times.drop_last(), start, end)
    }
}

/// Selecting again, with the same range, among the segments that a range
/// selected, each with its own times, keeps them all: a segment kept once is
/// kept again, in the same order.
pub proof fn law_selection_is_idempotent(
    cues: Seq<(Seq<char>, Seq<char>, Seq<char>, Seq<char>)>,
    times: Seq<(u64, u64)>,
    start: nat,
    end: nat,
)
    requires
        cues.len() == times.len(),
    ensures
        kept_times(times, start, end).len() == selected(cues, times, start, end).len(),
        selected(selected(cues, times, start, end), kept_times(times, start, end), start, end)
            == selected(cues, times, start, end),
    decreases cues.len(),
{
    if cues.len() > 0 {
        law_selection_is_idempotent(cues.drop_last(), times.drop_last(), start, end);
        let sel = selected(cues, times, start, end);
        let kt = kept_times(times, start, end);
        if overlaps(times.last().0 as nat, times.last().1 as nat, start, end) {
            assert(sel.drop_last() == selected(cues.drop_last(), times.drop_last(), start, end));
            assert(kt.drop_last() == kept_times(times.drop_last(), start, end));
            assert(sel.last() == cues.last());
            assert(kt.last() == times.last());
            assert(sel.len() > 0 && kt.len() > 0);
            assert(selected(sel, kt, start, end) == selected(sel.drop_last(), kt.drop_last(), start, end).push(
                sel.last(),
            ));
            assert(sel.drop_last().push(sel.last()) =~= sel);
        }
    }
}

/// Transcribing in consecutive windows misses no segment and adds none:
/// for `a <= b <= c`, a segment that starts before it ends overlaps `[a, c)`
/// exactly when it overlaps `[a, b)` or `[b, c)`.
pub proof fn law_consecutive_windows_cover(seg_start: nat, seg_end: nat, a: nat, b: nat, c: nat)
    requires
        a <= b <= c,
        seg_start < seg_end,
    ensures
        overlaps(seg_start, seg_end, a, c) <==> (overlaps(seg_start, seg_end, a, b) || overlaps(
            seg_start,
            seg_end,
            b,
            c,
        )),
{
}

proof fn lemma_split_once_first(cur: Seq<char>, x: Seq<char>, y: Seq<char>)
    requires
        forall|i: int| 0 <= i < x.len() ==> x[i] != ':',
    ensures
        split_once_from(cur, x + seq![':'] + y, seq![':']) == Some((cur + x, y)),
    decreases x.len(),
{
    let s = x + seq![':'] + y;
    if x.len() == 0 {
        assert(s.take(1) == seq![':']);
        assert(s.skip(1) == y);
        assert(cur + x == cur);
    } else {
        assert(s.take(1) == seq![x[0]]);
        assert(!starts_with(s, seq![':'])) by {
            if starts_with(s, seq![':']) {
                assert(s.take(1)[0] == ':');
            }
        }
        assert(s.drop_first() == x.drop_first() + seq![':'] + y);
        lemma_split_once_first(cur.push(x[0]), x.drop_first(), y);
        assert(cur.push(x[0]) + x.drop_first() == cur + x);
    }
}

proof fn lemma_digits_value_decimal(n: nat)
    ensures
        digits_value(decimal(n)) == n,
        all_digits(decimal(n)),
        decimal(n).len() > 0,
    decreases n,
{
    if n >= 10 {
        lemma_digits_value_decimal(n / 10);
        let d = decimal(n);
        assert(d.drop_last() == decimal(n / 10));
        assert(d.last() == digit_char((n % 10) as int));
        assert(digit_value(digit_char((n % 10) as int)) == n % 10);
        assert(digits_value(d) == digits_value(d.drop_last()) * 10 + digit_value(d.last()));
        assert((n / 10) * 10 + n % 10 == n);
        assert forall|i: int| 0 <= i < d.len() implies is_digit(#[trigger] d[i]) by {
            if i < d.len() - 1 {
                assert(d[i] == decimal(n / 10)[i]);
            }
        }
    } else {
        assert(digit_value(digit_char(n as int)) == n);
        assert(decimal(n).drop_last() =~= Seq::<char>::empty());
        assert(digits_value(Seq::<char>::empty()) == 0);
        assert(decimal(n).last() == digit_char(n as int));
        assert(digits_value(decimal(n)) == digits_value(decimal(n).drop_last()) * 10 + digit_value(decimal(n).last()));
    }
}

proof fn lemma_digits_value_zeros(k: nat, s: Seq<char>)
    ensures
        digits_value(Seq::new(k, |i: int| '0') + s) == digits_value(s),
    decreases s.len(), k,
{
    let z = Seq::new(k, |i: int| '0');
    if s.len() > 0 {
        lemma_digits_value_zeros(k, s.drop_last());
        assert((z + s).drop_last() == z + s.drop_last());
        assert((z + s).last() == s.last());
    } else {
        assert(z + s == z);
        if k > 0 {
            lemma_digits_value_zeros((k - 1) as nat, s);
            assert(z.drop_last() == Seq::new((k - 1) as nat, |i: int| '0') + s);
            assert(digit_value(z.last()) == 0);
        }
    }
}

proof fn lemma_parse_padded(n: nat, w: nat)
    requires
        n <= u64::MAX,
    ensures
        parse_u64(zero_padded(decimal(n), w)) == Some(n as u64),
        all_digits(zero_padded(decimal(n), w)),
        zero_padded(decimal(n), w).len() > 0,
{
    lemma_digits_value_decimal(n);
    let d = decimal(n);
    let p = zero_padded(d, w);
    if d.len() < w {
        let z = Seq::new((w - d.len()) as nat, |i: int| '0');
        lemma_digits_value_zeros((w - d.len()) as nat, d);
        assert(p == z + d);
        assert forall|i: int| 0 <= i < p.len() implies is_digit(#[trigger] p[i]) by {
            if i < z.len() {
                assert(p[i] == '0');
            } else {
                assert(p[i] == d[i - z.len()]);
            }
        }
    }
    assert(is_digit(p[0]));
}

proof fn lemma_time_arith(ms: int)
    requires
        ms >= 0,
    ensures
        (ms / 3_600_000) * 3600 + ((ms / 60_000) % 60) * 60 + (ms / 1_000) % 60 == ms / 1_000,
{
    let q = ms / 1_000;
    assert(ms / 60_000 == q / 60) by (nonlinear_arith)
        requires
            ms >= 0,
            q == ms / 1_000,
    ;
    assert(ms / 3_600_000 == (q / 60) / 60) by (nonlinear_arith)
        requires
            ms >= 0,
            q == ms / 1_000,
    ;
    let r = q / 60;
    assert(q == r * 60 + q % 60);
    assert(r == (r / 60) * 60 + r % 60);
}

/// The seconds that a time written by `format_timestamp` holds: the whole
/// seconds of its seconds part.
pub open spec fn written_seconds(t: int) -> nat {
    ((t * 10 / 1_000) % 60) as nat
}

/// A time that transcription writes (`format_timestamp`, for `t >= 0` ticks)
/// is read back by the filter: its seconds part is `SS.mmm` (seconds and
/// milliseconds), and with `SS` as that part's value the time is the whole
/// seconds of `10 * t` milliseconds.
pub proof fn law_written_times_read_back(t: int)
    requires
        0 <= t * 10 <= i64::MAX,
    ensures
        seconds_field(timestamp_text(t)) == Some(
            zero_padded(decimal(written_seconds(t)), 2) + seq!['.'] + zero_padded(
                decimal(((t * 10) % 1_000) as nat),
                3,
            ),
        ),
        time_secs(timestamp_text(t), written_seconds(t)) == t * 10 / 1_000,
{
    let ms = t * 10;
    let h = (ms / 3_600_000) as nat;
    let m = ((ms / 60_000) % 60) as nat;
    let sec = ((ms / 1_000) % 60) as nat;
    let milli = (ms % 1_000) as nat;
    assert(tdiv(ms, 3_600_000) == h);
    assert(tdiv(ms, 60_000) == ms / 60_000);
    assert(trem(tdiv(ms, 60_000), 60) == m);
    assert(trem(tdiv(ms, 1_000), 60) == sec);
    assert(trem(ms, 1_000) == milli);
    let a = zero_padded(decimal(h), 2);
    let b = zero_padded(decimal(m), 2);
    let c = zero_padded(decimal(sec), 2);
    let d = zero_padded(decimal(milli), 3);
    assert(fmt_int(h as int, 2) == a);
    assert(fmt_int(m as int, 2) == b);
    assert(fmt_int(sec as int, 2) == c);
    assert(fmt_int(milli as int, 3) == d);
    let text = a + seq![':'] + b + seq![':'] + c + seq![','] + d;
    assert(timestamp_text(t) == text);
    assert(h <= u64::MAX);
    lemma_parse_padded(h, 2);
    lemma_parse_padded(m, 2);
    lemma_parse_padded(sec, 2);
    lemma_parse_padded(milli, 3);
    // Trimming and reading ',' as '.'.
    assert(!is_whitespace(text[0])) by {
        assert(text[0] == a[0]);
    }
    assert(!is_whitespace(text.last())) by {
        assert(text.last() == d.last());
        assert(is_digit(d[d.len() - 1]));
    }
    assert(trim_start(text) == text);
    assert(trim_end(text) == text);
    let cd = c + seq!['.'] + d;
    let norm = a + seq![':'] + b + seq![':'] + cd;
    assert(normalized_time(timestamp_text(t)) =~= norm) by {
        assert forall|i: int| 0 <= i < text.len() implies #[trigger] norm[i] == (if text[i] == ',' {
            '.'
        } else {
            text[i]
        }) by {
            let i1 = a.len() as int;
            let i2 = i1 + 1 + b.len();
            let i3 = i2 + 1 + c.len();
            if i < i1 {
                assert(text[i] == a[i] && norm[i] == a[i] && is_digit(a[i]));
            } else if i == i1 {
            } else if i < i2 {
                assert(text[i] == b[i - i1 - 1] && norm[i] == b[i - i1 - 1] && is_digit(b[i - i1 - 1]));
            } else if i == i2 {
            } else if i < i3 {
                assert(text[i] == c[i - i2 - 1] && norm[i] == c[i - i2 - 1] && is_digit(c[i - i2 - 1]));
            } else if i == i3 {
            } else {
                assert(text[i] == d[i - i3 - 1] && norm[i] == d[i - i3 - 1] && is_digit(d[i - i3 - 1]));
            }
        }
    }
    // Splitting at the colons.
    assert forall|i: int| 0 <= i < a.len() implies a[i] != ':' by {
        assert(is_digit(a[i]));
    }
    assert forall|i: int| 0 <= i < b.len() implies b[i] != ':' by {
        assert(is_digit(b[i]));
    }
    let rest = b + seq![':'] + cd;
    assert(norm == a + seq![':'] + rest);
    lemma_split_once_first(seq![], a, rest);
    lemma_split_once_first(seq![], b, cd);
    assert(Seq::<char>::empty() + a == a);
    assert(Seq::<char>::empty() + b == b);
    assert(split_colon3(norm) == seq![a, rest].take(1) + seq![b, cd]);
    assert(split_colon3(norm) =~= seq![a, b, cd]);
    lemma_time_arith(ms);
}

/// The times (in seconds) of `cues`, where `seconds` holds the whole seconds
/// of each cue's start and end seconds parts (see `time_secs`); `None` when one
/// of them does not fit in `u64`.
pub open spec fn cue_times(
    cues: Seq<(Seq<char>, Seq<char>, Seq<char>, Seq<char>)>,
    seconds: Seq<(u64, u64)>,
) -> Option<Seq<(u64, u64)>>
    decreases cues.len(),
{
    if cues.len() == 0 || seconds.len() == 0 {
        Some(seq![])
    } else {
        match cue_times(cues.drop_last(), seconds.drop_last()) {
            None => None,
            Some(ts) => {
                let a = time_secs(cues.last().1, seconds.last().0 as nat);
                let b = time_secs(cues.last().2, seconds.last().1 as nat);
                if a <= u64::MAX && b <= u64::MAX {
                    Some(ts.push((a as u64, b as u64)))
                } else {
                    None
                }
            },
        }
    }
}

proof fn lemma_cue_times_prefix_none(
    cues: Seq<(Seq<char>, Seq<char>, Seq<char>, Seq<char>)>,
    seconds: Seq<(u64, u64)>,
    i: int,
)
    requires
        0 <= i <= cues.len(),
        cues.len() == seconds.len(),
        cue_times(cues.take(i), seconds.take(i)) is None,
    ensures
        cue_times(cues, seconds) is None,
    decreases cues.len() - i,
{
    if i < cues.len() {
        assert(cues.take(i + 1).drop_last() =~= cues.take(i));
        assert(seconds.take(i + 1).drop_last() =~= seconds.take(i));
        lemma_cue_times_prefix_none(cues, seconds, i + 1);
    } else {
        assert(cues.take(i) =~= cues);
        assert(seconds.take(i) =~= seconds);
    }
}

/// Filters SRT content to the segments that overlap `[start_secs,
/// start_secs + duration_secs)` and renumbers them from 1 (see
/// `filter_srt_with_times`); with neither bound it is returned as is.
/// `seconds` holds, for each segment in order, the whole seconds of the
/// seconds parts of its start and end times (read as decimal numbers and
/// truncated); the times themselves are completed here (see `cue_times`).
/// `None` when a time, the range's end or the number of segments kept does
/// not fit (`u64`, `u32`).
pub fn filter_srt_by_range(
    srt_content: &str,
    start_secs: Option<u64>,
    duration_secs: Option<u64>,
    seconds: &Vec<(u64, u64)>,
) -> (r: Option<String>)
    requires
        time_range(start_secs, duration_secs) is Some ==> seconds@.len() == srt_cue_texts(
            srt_content@,
        ).len(),
    ensures
        time_range(start_secs, duration_secs) is None ==> (r matches Some(x) && x@ == srt_content@),
        time_range(start_secs, duration_secs) is Some ==> match cue_times(
            srt_cue_texts(srt_content@),
            seconds@,
        ) {
            Some(ts) => match filtered_srt(srt_content@, start_secs, duration_secs, ts) {
                Some(t) => r matches Some(x) && x@ == t,
                None => r is None,
            },
            None => r is None,
        },
{
    if start_secs.is_none() && duration_secs.is_none() {
        return filter_srt_with_times(srt_content, start_secs, duration_secs, &Vec::new());
    }
    assert(time_range(start_secs, duration_secs) is Some);
    let cues = srt_cues(srt_content);
    let ghost cv = cues@.map_values(|c: SrtCue| cue_view(c));
    let ghost sv = seconds@;
    let mut times: Vec<(u64, u64)> = Vec::new();
    assert(cv.take(0) =~= Seq::<(Seq<char>, Seq<char>, Seq<char>, Seq<char>)>::empty());
    assert(sv.take(0) =~= Seq::<(u64, u64)>::empty());
    for i in 0..cues.len()
        invariant
            cv == cues@.map_values(|c: SrtCue| cue_view(c)),
            cv == srt_cue_texts(srt_content@),
            sv == seconds@,
            sv.len() == cv.len(),
            time_range(start_secs, duration_secs) is Some,
            times@.len() == i,
            cue_times(cv.take(i as int), sv.take(i as int)) == Some(times@),
    {
        assert(cv.take(i + 1).drop_last() =~= cv.take(i as int));
        assert(sv.take(i + 1).drop_last() =~= sv.take(i as int));
        assert(cv.take(i + 1).last() == cue_view(cues@[i as int]));
        assert(sv.take(i + 1).last() == seconds@[i as int]);
        let a = srt_timestamp_secs(cues[i].start_ts.as_str(), seconds[i].0);
        let b = srt_timestamp_secs(cues[i].end_ts.as_str(), seconds[i].1);
        match (a, b) {
            (Some(x), Some(y)) => {
                times.push((x, y));
            },
            _ => {
                proof {
                    lemma_cue_times_prefix_none(cv, sv, i + 1);
                }
                return None;
            },
        }
    }
    assert(cv.take(cues.len() as int) =~= cv);
    assert(sv.take(cues.len() as int) =~= sv);
    filter_srt_with_times(srt_content, start_secs, duration_secs, &times)
}

// ---------------------------------------------------------------------------
// Reading back what filtering writes
// ---------------------------------------------------------------------------

/// The separator of SRT blocks: a blank line.
pub open spec fn blank_sep() -> Seq<char> {
    seq!['\n', '\n']
}

/// No two line breaks in a row in `s`.
pub open spec fn no_blank_line(s: Seq<char>) -> bool {
    forall|i: int| 0 <= i < s.len() - 1 ==> !(#[trigger] s[i] == '\n' && s[i + 1] == '\n')
}

/// No carriage return in `s`.
pub open spec fn no_cr(s: Seq<char>) -> bool {
    forall|i: int| 0 <= i < s.len() ==> s[i] != '\r'
}

/// The block that `render` writes for `c` as its `k`-th segment, without the
/// blank line after it.
pub open spec fn cue_body(k: nat, c: (Seq<char>, Seq<char>, Seq<char>, Seq<char>)) -> Seq<char> {
    decimal(k) + seq!['\n'] + c.0 + seq!['\n'] + c.3
}

/// The blocks that `render` writes for `cues`, numbered from 1.
pub open spec fn cue_bodies(cues: Seq<(Seq<char>, Seq<char>, Seq<char>, Seq<char>)>) -> Seq<
    Seq<char>,
>
    decreases cues.len(),
{
    if cues.len() == 0 {
        seq![]
    } else {
        cue_bodies(cues.drop_last()).push(cue_body(cues.len(), cues.last()))
    }
}

/// A segment that reads back from any block `render` writes for it.
pub open spec fn reads_back(c: (Seq<char>, Seq<char>, Seq<char>, Seq<char>)) -> bool {
    forall|k: nat|
        {
            let b = #[trigger] cue_body(k, c);
            &&& b.len() > 0
            &&& no_blank_line(b)
            &&& b.last() != '\n'
            &&& block_cue(b) == Some(c)
        }
}

proof fn lemma_split_pieces(cur: Seq<char>, rest: Seq<char>)
    requires
        no_blank_line(cur),
        no_cr(cur),
        no_cr(rest),
        cur.len() > 0 && cur.last() == '\n' ==> !(rest.len() > 0 && rest[0] == '\n'),
    ensures
        forall|i: int|
            0 <= i < split_from(cur, rest, blank_sep()).len() ==> no_blank_line(
                #[trigger] split_from(cur, rest, blank_sep())[i],
            ) && no_cr(split_from(cur, rest, blank_sep())[i]),
    decreases rest.len(),
{
    let nn = blank_sep();
    let r = split_from(cur, rest, nn);
    if starts_with(rest, nn) {
        let rest2 = rest.skip(2);
        assert forall|i: int| 0 <= i < rest2.len() implies rest2[i] != '\r' by {
            assert(rest2[i] == rest[i + 2]);
        }
        lemma_split_pieces(seq![], rest2);
        let tail = split_from(seq![], rest2, nn);
        assert(r == seq![cur] + tail);
        assert forall|i: int| 0 <= i < r.len() implies no_blank_line(#[trigger] r[i]) && no_cr(r[i]) by {
            if i > 0 {
                assert(r[i] == tail[i - 1]);
            }
        }
    } else if rest.len() == 0 {
        assert(r == seq![cur]);
        assert(r[0] == cur);
    } else {
        let c2 = cur.push(rest[0]);
        let r2 = rest.drop_first();
        assert(rest.take(2) =~= seq![rest[0], rest[1]] || rest.len() < 2);
        if rest.len() >= 2 && rest[0] == '\n' {
            assert(rest[1] != '\n') by {
                if rest[1] == '\n' {
                    assert(rest.take(2) =~= nn);
                }
            }
        }
        assert forall|i: int| 0 <= i < c2.len() - 1 implies !(#[trigger] c2[i] == '\n' && c2[i + 1] == '\n') by {
            if i + 1 < cur.len() {
                assert(c2[i] == cur[i] && c2[i + 1] == cur[i + 1]);
            } else {
                assert(c2[i] == cur.last());
            }
        }
        assert forall|i: int| 0 <= i < c2.len() implies c2[i] != '\r' by {
            if i < cur.len() {
                assert(c2[i] == cur[i]);
            }
        }
        assert forall|i: int| 0 <= i < r2.len() implies r2[i] != '\r' by {
            assert(r2[i] == rest[i + 1]);
        }
        lemma_split_pieces(c2, r2);
        assert(r == split_from(c2, r2, nn));
    }
}

proof fn lemma_split_good_block(cur: Seq<char>, b: Seq<char>, w: Seq<char>)
    requires
        no_blank_line(b),
        b.len() == 0 || b.last() != '\n',
    ensures
        split_from(cur, b + blank_sep() + w, blank_sep()) == seq![cur + b] + split_from(
            seq![],
            w,
            blank_sep(),
        ),
    decreases b.len(),
{
    let nn = blank_sep();
    let rest = b + nn + w;
    if b.len() == 0 {
        assert(rest =~= nn + w);
        assert(rest.take(2) =~= nn);
        assert(rest.skip(2) =~= w);
        assert(cur + b =~= cur);
    } else {
        assert(rest[0] == b[0]);
        assert(!starts_with(rest, nn)) by {
            if starts_with(rest, nn) {
                assert(rest.take(2)[0] == '\n' && rest.take(2)[1] == '\n');
                if b.len() >= 2 {
                    assert(rest[1] == b[1]);
                } else {
                    assert(b.last() == b[0]);
                }
            }
        }
        let b2 = b.drop_first();
        assert(rest.drop_first() =~= b2 + nn + w);
        assert forall|i: int| 0 <= i < b2.len() - 1 implies !(#[trigger] b2[i] == '\n' && b2[i + 1] == '\n') by {
            assert(b2[i] == b[i + 1] && b2[i + 1] == b[i + 2]);
        }
        if b2.len() > 0 {
            assert(b2.last() == b.last());
        }
        lemma_split_good_block(cur.push(b[0]), b2, w);
        assert(cur.push(b[0]) + b2 =~= cur + b);
    }
}

proof fn lemma_join_cons(a: Seq<char>, ls: Seq<Seq<char>>, sep: Seq<char>)
    requires
        ls.len() > 0,
    ensures
        join(seq![a] + ls, sep) == a + sep + join(ls, sep),
    decreases ls.len(),
{
    let all = seq![a] + ls;
    if ls.len() == 1 {
        assert(all.drop_last() =~= seq![a]);
        assert(all.last() == ls[0]);
        assert(join(seq![a], sep) == a);
        assert(join(ls, sep) == ls[0]);
        assert(join(all, sep) == join(all.drop_last(), sep) + sep + all.last());
    } else {
        lemma_join_cons(a, ls.drop_last(), sep);
        assert(all.drop_last() =~= seq![a] + ls.drop_last());
        assert(all.last() == ls.last());
        assert(join(all, sep) == join(all.drop_last(), sep) + sep + all.last());
        assert(join(ls, sep) == join(ls.drop_last(), sep) + sep + ls.last());
        assert(a + sep + join(ls.drop_last(), sep) + sep + ls.last() =~= a + sep + (join(
            ls.drop_last(),
            sep,
        ) + sep + ls.last()));
    }
}

proof fn lemma_join_lines(cur: Seq<char>, rest: Seq<char>)
    requires
        no_cr(cur + rest),
        (cur + rest).len() > 0,
        rest.len() == 0 || rest.last() != '\n',
    ensures
        lines_from(cur, rest).len() > 0,
        join(lines_from(cur, rest), seq!['\n']) == cur + rest,
    decreases rest.len(),
{
    let all = cur + rest;
    if rest.len() == 0 {
        assert(all =~= cur);
        assert(lines_from(cur, rest) == seq![cur]);
    } else if rest[0] == '\n' {
        let r2 = rest.drop_first();
        assert(r2.len() > 0);
        assert(r2.last() == rest.last());
        assert(seq![] + r2 =~= r2);
        assert forall|i: int| 0 <= i < r2.len() implies r2[i] != '\r' by {
            assert(r2[i] == all[cur.len() + 1 + i]);
        }
        lemma_join_lines(seq![], r2);
        if cur.len() > 0 {
            assert(cur.last() == all[cur.len() - 1]);
        }
        assert(strip_cr(cur) == cur);
        lemma_join_cons(cur, lines_from(seq![], r2), seq!['\n']);
        assert(cur + seq!['\n'] + r2 =~= all);
    } else {
        let c2 = cur.push(rest[0]);
        let r2 = rest.drop_first();
        assert(c2 + r2 =~= all);
        if r2.len() > 0 {
            assert(r2.last() == rest.last());
        }
        lemma_join_lines(c2, r2);
    }
}

#[verifier::rlimit(50)]
proof fn lemma_cue_reads_back(block: Seq<char>)
    requires
        no_blank_line(block),
        no_cr(block),
        block_cue(block) is Some,
    ensures
        reads_back(block_cue(block)->0),
{
    let e = Seq::<char>::empty();
    let nl = seq!['\n'];
    let x = trim(block);
    crate::audio::utils::lemma_trim_start_suffix(block);
    let u = trim_start(block);
    crate::audio::utils::lemma_trim_end_prefix(u);
    let m = block.len() - u.len();
    assert forall|i: int| 0 <= i < x.len() implies x[i] == block[m + i] by {
        assert(x[i] == u[i]);
    }
    assert forall|i: int| 0 <= i < x.len() implies x[i] != '\r' by {
        assert(x[i] == block[m + i]);
    }
    assert forall|i: int| 0 <= i < x.len() - 1 implies !(#[trigger] x[i] == '\n' && x[i + 1] == '\n') by {
        assert(x[i] == block[m + i]);
        assert(x[i + 1] == block[m + i + 1]);
    }
    let ls = lines(x);
    assert(ls.len() >= 3);
    assert(x.len() > 0);
    crate::audio::utils::lemma_trim_ends(block);
    assert(!is_whitespace(x.last()));
    assert(e + x =~= x);
    lemma_join_lines(e, x);
    assert(join(ls, nl) == x);
    assert(ls =~= seq![ls[0]] + ls.skip(1));
    assert(ls.skip(1) =~= seq![ls[1]] + ls.skip(2));
    lemma_join_cons(ls[0], ls.skip(1), nl);
    lemma_join_cons(ls[1], ls.skip(2), nl);
    let text = join(ls.skip(2), nl);
    let t = ls[1] + nl + text;
    assert(x == ls[0] + nl + t);
    crate::audio::utils::lemma_lines_one_line(e, x);
    assert(crate::audio::utils::one_line(ls[0]));
    assert(ls[0] + nl + t =~= ls[0] + seq!['\n'] + t);
    crate::audio::utils::lemma_line_then_newline(e, ls[0], t);
    assert(e + ls[0] =~= ls[0]);
    let l0 = ls[0];
    assert(no_cr(l0)) by {
        assert forall|i: int| 0 <= i < l0.len() implies l0[i] != '\r' by {
            assert(x[i] == l0[i]);
        }
    }
    if l0.len() > 0 {
        assert(l0.last() == l0[l0.len() - 1]);
    }
    assert(strip_cr(l0) == l0);
    assert(ls == seq![l0] + lines(t));
    assert(ls.skip(1) =~= lines(t));
    let c = block_cue(block)->0;
    assert(c.0 == ls[1] && c.3 == text);
    assert(t.len() > 0);
    assert(x.last() == t.last());
    assert forall|k: nat|
        {
            let b = #[trigger] cue_body(k, c);
            &&& b.len() > 0
            &&& no_blank_line(b)
            &&& b.last() != '\n'
            &&& block_cue(b) == Some(c)
        } by {
        let d = decimal(k);
        let b = cue_body(k, c);
        crate::audio::utils::lemma_decimal_digits(k);
        assert(b =~= d + seq!['\n'] + t);
        assert(b.last() == t.last());
        assert(b[0] == d[0]);
        assert(is_digit(d[0]));
        assert(is_digit(d.last()));
        assert(crate::audio::utils::one_line(d)) by {
            assert forall|i: int| 0 <= i < d.len() implies d[i] != '\n' by {
                assert(is_digit(d[i]));
            }
        }
        assert(strip_cr(d) == d);
        crate::audio::utils::lemma_line_then_newline(e, d, t);
        assert(e + d =~= d);
        crate::audio::utils::lemma_trim_fixed(b);
        let lb = lines(b);
        assert(lb == seq![d] + lines(t));
        assert(lb[1] == ls[1]);
        assert(lb.skip(2) =~= ls.skip(2));
        assert(trim(b) == b);
        assert forall|i: int| 0 <= i < b.len() - 1 implies !(#[trigger] b[i] == '\n' && b[i + 1] == '\n') by {
            if i < d.len() {
                assert(b[i] == d[i]);
                assert(is_digit(d[i]));
            } else {
                let j = i - d.len();
                assert(b[i] == x[l0.len() + j]);
                assert(b[i + 1] == x[l0.len() + j + 1]);
            }
        }
    }
}

proof fn lemma_cues_read_back(blocks: Seq<Seq<char>>)
    requires
        forall|i: int| 0 <= i < blocks.len() ==> no_blank_line(#[trigger] blocks[i]) && no_cr(
            blocks[i],
        ),
    ensures
        forall|i: int| 0 <= i < cues_of(blocks).len() ==> reads_back(#[trigger] cues_of(blocks)[i]),
    decreases blocks.len(),
{
    if blocks.len() > 0 {
        let pre = blocks.drop_last();
        assert forall|i: int| 0 <= i < pre.len() implies no_blank_line(#[trigger] pre[i]) && no_cr(
            pre[i],
        ) by {
            assert(pre[i] == blocks[i]);
        }
        lemma_cues_read_back(pre);
        let b = blocks.last();
        assert(b == blocks[blocks.len() - 1]);
        let cs = cues_of(blocks);
        match block_cue(b) {
            Some(c) => {
                lemma_cue_reads_back(b);
                assert(cs == cues_of(pre).push(c));
                assert forall|i: int| 0 <= i < cs.len() implies reads_back(#[trigger] cs[i]) by {
                    if i < cues_of(pre).len() {
                        assert(cs[i] == cues_of(pre)[i]);
                    }
                }
            },
            None => {},
        }
    }
}

proof fn lemma_selected_read_back(
    cues: Seq<(Seq<char>, Seq<char>, Seq<char>, Seq<char>)>,
    times: Seq<(u64, u64)>,
    start: nat,
    end: nat,
)
    requires
        forall|i: int| 0 <= i < cues.len() ==> reads_back(#[trigger] cues[i]),
    ensures
        forall|i: int|
            0 <= i < selected(cues, times, start, end).len() ==> reads_back(
                #[trigger] selected(cues, times, start, end)[i],
            ),
    decreases cues.len(),
{
    if cues.len() > 0 && times.len() > 0 {
        let pre = cues.drop_last();
        assert forall|i: int| 0 <= i < pre.len() implies reads_back(#[trigger] pre[i]) by {
            assert(pre[i] == cues[i]);
        }
        lemma_selected_read_back(pre, times.drop_last(), start, end);
        let sel = selected(cues, times, start, end);
        let rest = selected(pre, times.drop_last(), start, end);
        assert(cues.last() == cues[cues.len() - 1]);
        assert forall|i: int| 0 <= i < sel.len() implies reads_back(#[trigger] sel[i]) by {
            if i < rest.len() {
                assert(sel[i] == rest[i]);
            }
        }
    }
}

proof fn lemma_split_render(cues: Seq<(Seq<char>, Seq<char>, Seq<char>, Seq<char>)>, w: Seq<char>)
    requires
        forall|i: int| 0 <= i < cues.len() ==> reads_back(#[trigger] cues[i]),
    ensures
        split_from(seq![], render(cues) + w, blank_sep()) == cue_bodies(cues) + split_from(
            seq![],
            w,
            blank_sep(),
        ),
    decreases cues.len(),
{
    let e = Seq::<char>::empty();
    if cues.len() == 0 {
        assert(render(cues) + w =~= w);
        assert(cue_bodies(cues) + split_from(e, w, blank_sep()) =~= split_from(e, w, blank_sep()));
    } else {
        let pre = cues.drop_last();
        let c = cues.last();
        let n = cues.len();
        assert(c == cues[n - 1]);
        assert(reads_back(c));
        let b = cue_body(n, c);
        assert(b.len() > 0 && no_blank_line(b) && b.last() != '\n' && block_cue(b) == Some(c));
        assert forall|i: int| 0 <= i < pre.len() implies reads_back(#[trigger] pre[i]) by {
            assert(pre[i] == cues[i]);
        }
        let w2 = b + blank_sep() + w;
        lemma_split_render(pre, w2);
        assert(render(cues) + w =~= render(pre) + w2);
        lemma_split_good_block(e, b, w);
        assert(e + b =~= b);
        assert(cue_bodies(cues) == cue_bodies(pre).push(b));
        assert(cue_bodies(pre) + (seq![b] + split_from(e, w, blank_sep())) =~= cue_bodies(pre).push(b)
            + split_from(e, w, blank_sep()));
    }
}

proof fn lemma_bodies_read_back(cues: Seq<(Seq<char>, Seq<char>, Seq<char>, Seq<char>)>)
    requires
        forall|i: int| 0 <= i < cues.len() ==> reads_back(#[trigger] cues[i]),
    ensures
        cues_of(cue_bodies(cues)) == cues,
    decreases cues.len(),
{
    if cues.len() > 0 {
        let pre = cues.drop_last();
        let c = cues.last();
        assert(c == cues[cues.len() - 1]);
        assert(reads_back(c));
        let b = cue_body(cues.len(), c);
        assert(block_cue(b) == Some(c));
        assert forall|i: int| 0 <= i < pre.len() implies reads_back(#[trigger] pre[i]) by {
            assert(pre[i] == cues[i]);
        }
        lemma_bodies_read_back(pre);
        let bs = cue_bodies(cues);
        assert(bs.drop_last() == cue_bodies(pre));
        assert(bs.last() == b);
        assert(pre.push(c) =~= cues);
    }
}

/// The segments of the document that filtering writes are the segments it
/// kept: a segment of an SRT document without carriage returns, written again
/// by `render`, reads back as it was.
pub proof fn law_filtered_segments_read_back(
    srt: Seq<char>,
    times: Seq<(u64, u64)>,
    start: nat,
    end: nat,
)
    requires
        no_cr(srt),
    ensures
        srt_cue_texts(render(selected(srt_cue_texts(srt), times, start, end))) == selected(
            srt_cue_texts(srt),
            times,
            start,
            end,
        ),
{
    let e = Seq::<char>::empty();
    let blocks = split(srt, blank_sep());
    assert(no_blank_line(e));
    assert(no_cr(e));
    lemma_split_pieces(e, srt);
    lemma_cues_read_back(blocks);
    let cues = srt_cue_texts(srt);
    lemma_selected_read_back(cues, times, start, end);
    let sel = selected(cues, times, start, end);
    lemma_split_render(sel, e);
    assert(render(sel) + e =~= render(sel));
    assert(split_from(e, e, blank_sep()) == seq![e]);
    let bs = cue_bodies(sel);
    assert(split(render(sel), seq!['\n', '\n']) == bs.push(e));
    assert(trim(e) =~= e);
    assert(lines(e) == Seq::<Seq<char>>::empty());
    assert(block_cue(e) is None);
    assert(bs.push(e).drop_last() =~= bs);
    assert(cues_of(bs.push(e)) == cues_of(bs));
    lemma_bodies_read_back(sel);
}

/// Filtering is idempotent: filtering the document that filtering wrote,
/// with the same range and with the times of the segments it kept, gives the
/// same document back (for a document without carriage returns).
pub proof fn law_filter_is_idempotent(
    srt: Seq<char>,
    start: Option<u64>,
    duration: Option<u64>,
    times: Seq<(u64, u64)>,
)
    requires
        no_cr(srt),
        times.len() == srt_cue_texts(srt).len(),
        filtered_srt(srt, start, duration, times) is Some,
    ensures
        match time_range(start, duration) {
            Some((s, e)) => filtered_srt(
                filtered_srt(srt, start, duration, times)->0,
                start,
                duration,
                kept_times(times, s, e),
            ) == filtered_srt(srt, start, duration, times),
            None => filtered_srt(srt, start, duration, times) == Some(srt),
        },
{
    match time_range(start, duration) {
        Some((s, e)) => {
            let cues = srt_cue_texts(srt);
            let sel = selected(cues, times, s, e);
            law_selection_is_idempotent(cues, times, s, e);
            law_filtered_segments_read_back(srt, times, s, e);
            assert(filtered_srt(srt, start, duration, times) == Some(render(sel)));
            assert(srt_cue_texts(render(sel)) == sel);
        },
        None => {},
    }
}

/// Each segment's times are read from its own time texts: its start from its
/// start text and the whole seconds of its start, its end from its end text
/// and the whole seconds of its end; the times are there exactly when all of
/// them fit in `u64`.
pub proof fn law_cue_times_per_segment(
    cues: Seq<(Seq<char>, Seq<char>, Seq<char>, Seq<char>)>,
    seconds: Seq<(u64, u64)>,
)
    requires
        cues.len() == seconds.len(),
    ensures
        cue_times(cues, seconds) is Some <==> forall|k: int|
            0 <= k < cues.len() ==> time_secs(#[trigger] cues[k].1, seconds[k].0 as nat) <= u64::MAX
                && time_secs(cues[k].2, seconds[k].1 as nat) <= u64::MAX,
        cue_times(cues, seconds) matches Some(ts) ==> ts.len() == cues.len() && forall|k: int|
            0 <= k < cues.len() ==> (#[trigger] ts[k]).0 as nat == time_secs(cues[k].1, seconds[k].0 as nat)
                && ts[k].1 as nat == time_secs(cues[k].2, seconds[k].1 as nat),
    decreases cues.len(),
{
    if cues.len() > 0 {
        let pc = cues.drop_last();
        let ps = seconds.drop_last();
        law_cue_times_per_segment(pc, ps);
        let n = cues.len() - 1;
        assert(cues.last() == cues[n] && seconds.last() == seconds[n]);
        assert forall|k: int| 0 <= k < pc.len() implies pc[k] == cues[k] && ps[k] == seconds[k] by {}
        match cue_times(cues, seconds) {
            Some(ts) => {
                let pts = cue_times(pc, ps)->0;
                assert(ts == pts.push((time_secs(cues[n].1, seconds[n].0 as nat) as u64, time_secs(
                    cues[n].2,
                    seconds[n].1 as nat,
                ) as u64)));
                assert forall|k: int| 0 <= k < cues.len() implies (#[trigger] ts[k]).0 as nat
                    == time_secs(cues[k].1, seconds[k].0 as nat) && ts[k].1 as nat == time_secs(
                    cues[k].2,
                    seconds[k].1 as nat,
                ) by {
                    if k < n {
                        assert(ts[k] == pts[k]);
                        assert(pc[k] == cues[k] && ps[k] == seconds[k]);
                    }
                }
                assert forall|k: int| 0 <= k < cues.len() implies time_secs(
                    #[trigger] cues[k].1,
                    seconds[k].0 as nat,
                ) <= u64::MAX && time_secs(cues[k].2, seconds[k].1 as nat) <= u64::MAX by {
                    if k < n {
                        assert(pc[k] == cues[k] && ps[k] == seconds[k]);
                        assert(time_secs(pc[k].1, ps[k].0 as nat) <= u64::MAX);
                    }
                }
            },
            None => {
                if cue_times(pc, ps) is None {
                    let k = choose|k: int|
                        0 <= k < pc.len() && !(time_secs(#[trigger] pc[k].1, ps[k].0 as nat)
                            <= u64::MAX && time_secs(pc[k].2, ps[k].1 as nat) <= u64::MAX);
                    assert(pc[k] == cues[k] && ps[k] == seconds[k]);
                    assert(!(time_secs(cues[k].1, seconds[k].0 as nat) <= u64::MAX && time_secs(
                        cues[k].2,
                        seconds[k].1 as nat,
                    ) <= u64::MAX));
                } else {
                    assert(!(time_secs(cues[n].1, seconds[n].0 as nat) <= u64::MAX && time_secs(
                        cues[n].2,
                        seconds[n].1 as nat,
                    ) <= u64::MAX));
                }
            },
        }
    }
}

} // verus!
