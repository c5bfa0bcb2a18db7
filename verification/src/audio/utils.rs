//! SRT to plain text, and the conversion of media to 16 kHz mono WAV.
use vstd::prelude::*;

use super::{
    arrow, arrow_chars, segments_in_range, srt_document, srt_from_segments, srt_segment_text,
    timestamp_text, TranscriptSegment,
};
use crate::decimal::{all_digits, decimal, fmt_int, push_decimal, zero_padded};
use crate::sources::ytdlp::{arg_views, opt_view, push_arg};
use crate::text::{
    char_lines, chars_of, contains, contains_chars, is_digit, is_whitespace, join, lines,
    lines_from, lines_of, occurs_at, push_joined, strip_cr, string_of, trim, trim_chars,
    trim_end, trim_start, str_eq, starts_with, ends_with,
};

verus! {

// ---------------------------------------------------------------------------
// Plain text from SRT
// ---------------------------------------------------------------------------

/// A trimmed SRT line that is neither empty, nor a segment number (all ASCII
/// digits), nor a time line (containing `" --> "`).
pub open spec fn is_text_line(l: Seq<char>) -> bool {
    l.len() > 0 && !all_digits(l) && !contains(l, arrow())
}

/// The trimmed text lines among `ls`, in order.
pub open spec fn text_lines(ls: Seq<Seq<char>>) -> Seq<Seq<char>>
    decreases ls.len(),
{
    if ls.len() == 0 {
        seq![]
    } else if is_text_line(trim(ls.last())) {
        text_lines(ls.drop_last()).push(trim(ls.last()))
    } else {
        text_lines(ls.drop_last())
    }
}

/// The text of an SRT document: its text lines, trimmed, joined by spaces.
pub open spec fn srt_plain_text(s: Seq<char>) -> Seq<char> {
    join(text_lines(lines(s)), seq![' '])
}

fn all_digits_chars(cs: &[char]) -> (r: bool)
    ensures
        r == all_digits(cs@),
{
    for i in 0..cs.len()
        invariant
            forall|k: int| 0 <= k < i ==> crate::text::is_digit(#[trigger] cs@[k]),
    {
        if !('0' <= cs[i] && cs[i] <= '9') {
            return false;
        }
    }
    true
}

/// Cleans SRT content down to its text: drops segment numbers, time lines and
/// blank lines, and joins the trimmed text lines with single spaces.
pub fn clean_srt(srt_content: &str) -> (s: String)
    ensures
        s@ == srt_plain_text(srt_content@),
{
    let cs = chars_of(srt_content);
    let ls = lines_of(&cs);
    let sep_line = arrow_chars();
    let mut kept: Vec<Vec<char>> = Vec::new();
    for i in 0..ls.len()
        invariant
            char_lines(&ls) == lines(srt_content@),
            sep_line@ == arrow(),
            char_lines(&kept) == text_lines(char_lines(&ls).take(i as int)),
    {
        let ghost all = char_lines(&ls);
        assert(all.take(i + 1).drop_last() == all.take(i as int));
        assert(all.take(i + 1).last() == ls[i as int]@);
        let line = trim_chars(&ls[i]);
        if line.len() > 0 && !all_digits_chars(&line) && !contains_chars(&line, &sep_line) {
            let ghost before = char_lines(&kept);
            kept.push(line);
            assert(char_lines(&kept) =~= before.push(line@));
        }
    }
    assert(char_lines(&ls).take(ls.len() as int) == char_lines(&ls));
    let mut out: Vec<char> = Vec::new();
    let mut sep: Vec<char> = Vec::new();
    sep.push(' ');
    push_joined(&mut out, &kept, &sep);
    assert(out@ =~= srt_plain_text(srt_content@));
    string_of(&out)
}

// ---------------------------------------------------------------------------
// Conversion to WAV
// ---------------------------------------------------------------------------

/// ffmpeg arguments that convert `input` to 16 kHz mono 16-bit PCM WAV in
/// `output`, from `start` (when given, a timestamp) and for `duration`
/// seconds (when given).
pub open spec fn wav_args(
    input: Seq<char>,
    output: Seq<char>,
    start: Option<Seq<char>>,
    duration: Option<u64>,
) -> Seq<Seq<char>> {
    seq!["-y"@] + match start {
        Some(s) => seq!["-ss"@, s],
        None => seq![],
    } + seq!["-i"@, input] + match duration {
        Some(d) => seq!["-t"@, decimal(d as nat)],
        None => seq![],
    } + seq!["-ar"@, "16000"@, "-ac"@, "1"@, "-c:a"@, "pcm_s16le"@, output]
}

/// The ffmpeg arguments of the conversion to WAV (see `wav_args`).
pub fn convert_to_wav_args(
    input_path: &str,
    output_path: &str,
    start: Option<&str>,
    duration: Option<u64>,
) -> (r: Vec<String>)
    ensures
        arg_views(r@) == wav_args(input_path@, output_path@, opt_view(start), duration),
{
    let mut args: Vec<String> = Vec::new();
    let ghost e = arg_views(args@);
    assert(e == Seq::<Seq<char>>::empty());
    push_arg(&mut args, "-y");
    if let Some(s) = start {
        push_arg(&mut args, "-ss");
        push_arg(&mut args, s);
    }
    push_arg(&mut args, "-i");
    push_arg(&mut args, input_path);
    if let Some(d) = duration {
        push_arg(&mut args, "-t");
        let mut digits: Vec<char> = Vec::new();
        push_decimal(&mut digits, d);
        let text = string_of(&digits);
        push_arg(&mut args, text.as_str());
    }
    push_arg(&mut args, "-ar");
    push_arg(&mut args, "16000");
    push_arg(&mut args, "-ac");
    push_arg(&mut args, "1");
    push_arg(&mut args, "-c:a");
    push_arg(&mut args, "pcm_s16le");
    push_arg(&mut args, output_path);
    assert(arg_views(args@) =~= wav_args(input_path@, output_path@, opt_view(start), duration));
    args
}

// ---------------------------------------------------------------------------
// Cleaning what transcription writes
// ---------------------------------------------------------------------------

/// A segment text that comes back whole from SRT: once trimmed, it is one
/// line that is neither blank, nor all digits, nor holds `" --> "`.
pub open spec fn plain_segment(text: Seq<char>) -> bool {
    is_text_line(trim(text)) && forall|i: int| 0 <= i < trim(text).len() ==> trim(text)[i] != '\n'
}

/// The trimmed texts of `segs`, in order.
pub open spec fn segment_texts(segs: Seq<TranscriptSegment>) -> Seq<Seq<char>>
    decreases segs.len(),
{
    if segs.len() == 0 {
        seq![]
    } else {
        segment_texts(segs.drop_last()).push(trim(segs.last().text@))
    }
}

proof fn lemma_lines_append(cur: Seq<char>, a: Seq<char>, b: Seq<char>)
    requires
        a.len() > 0,
        a.last() == '\n',
    ensures
        lines_from(cur, a + b) == lines_from(cur, a) + lines_from(seq![], b),
    decreases a.len(),
{
    let ab = a + b;
    assert(ab[0] == a[0]);
    assert(ab.drop_first() == a.drop_first() + b);
    if a.len() == 1 {
        assert(a.drop_first() + b == b);
        assert(lines_from(seq![], a.drop_first()) == Seq::<Seq<char>>::empty());
        assert(lines_from(cur, a) == seq![strip_cr(cur)]);
    } else if a[0] == '\n' {
        lemma_lines_append(seq![], a.drop_first(), b);
        assert(lines_from(cur, ab) == seq![strip_cr(cur)] + lines_from(seq![], a.drop_first() + b));
        assert(seq![strip_cr(cur)] + (lines_from(seq![], a.drop_first()) + lines_from(seq![], b))
            == (seq![strip_cr(cur)] + lines_from(seq![], a.drop_first())) + lines_from(seq![], b));
    } else {
        lemma_lines_append(cur.push(a[0]), a.drop_first(), b);
    }
}

pub(crate) proof fn lemma_line_then_newline(cur: Seq<char>, x: Seq<char>, b: Seq<char>)
    requires
        forall|i: int| 0 <= i < x.len() ==> x[i] != '\n',
    ensures
        lines_from(cur, x + seq!['\n'] + b) == seq![strip_cr(cur + x)] + lines_from(seq![], b),
    decreases x.len(),
{
    let s = x + seq!['\n'] + b;
    if x.len() == 0 {
        assert(s[0] == '\n');
        assert(s.drop_first() == b);
        assert(cur + x == cur);
    } else {
        assert(s[0] == x[0]);
        assert(s.drop_first() == x.drop_first() + seq!['\n'] + b);
        lemma_line_then_newline(cur.push(x[0]), x.drop_first(), b);
        assert(cur.push(x[0]) + x.drop_first() == cur + x);
    }
}

pub(crate) proof fn lemma_trim_fixed(s: Seq<char>)
    requires
        s.len() == 0 || (!is_whitespace(s[0]) && !is_whitespace(s.last())),
    ensures
        trim(s) == s,
{
    assert(trim_start(s) == s);
    assert(trim_end(s) == s);
}

pub(crate) proof fn lemma_trim_end_prefix(u: Seq<char>)
    ensures
        trim_end(u).len() <= u.len(),
        trim_end(u) == u.take(trim_end(u).len() as int),
        trim_end(u).len() > 0 ==> !is_whitespace(trim_end(u).last()),
    decreases u.len(),
{
    if u.len() > 0 && is_whitespace(u.last()) {
        lemma_trim_end_prefix(u.drop_last());
        assert(u.drop_last().take(trim_end(u).len() as int) == u.take(trim_end(u).len() as int));
    } else {
        assert(u.take(u.len() as int) == u);
    }
}

proof fn lemma_trim_start_ends(s: Seq<char>)
    ensures
        trim_start(s).len() > 0 ==> !is_whitespace(trim_start(s)[0]),
    decreases s.len(),
{
    if s.len() > 0 && is_whitespace(s[0]) {
        lemma_trim_start_ends(s.drop_first());
    }
}

pub(crate) proof fn lemma_trim_ends(s: Seq<char>)
    ensures
        trim(s).len() == 0 || (!is_whitespace(trim(s)[0]) && !is_whitespace(trim(s).last())),
{
    lemma_trim_start_ends(s);
    lemma_trim_end_prefix(trim_start(s));
    let u = trim_start(s);
    if trim(s).len() > 0 {
        assert(trim(s)[0] == u[0]);
    }
}

pub(crate) proof fn lemma_decimal_digits(n: nat)
    ensures
        decimal(n).len() > 0,
        all_digits(decimal(n)),
    decreases n,
{
    if n >= 10 {
        lemma_decimal_digits(n / 10);
        let d = decimal(n / 10);
        assert forall|i: int| 0 <= i < decimal(n).len() implies is_digit(#[trigger] decimal(n)[i]) by {
            if i < d.len() {
                assert(decimal(n)[i] == d[i]);
            }
        }
    }
}

/// A character that `timestamp_text` writes.
spec fn time_char(c: char) -> bool {
    is_digit(c) || c == '-' || c == ':' || c == ','
}

proof fn lemma_fmt_int_chars(v: int, w: nat)
    ensures
        fmt_int(v, w).len() > 0,
        forall|i: int| 0 <= i < fmt_int(v, w).len() ==> time_char(#[trigger] fmt_int(v, w)[i]),
        is_digit(fmt_int(v, w)[0]) || fmt_int(v, w)[0] == '-',
        is_digit(fmt_int(v, w).last()),
{
    let m: nat = if v < 0 { (-v) as nat } else { v as nat };
    lemma_decimal_digits(m);
    let w2: nat = if v < 0 { if w == 0 { 0 } else { (w - 1) as nat } } else { w };
    let z = zero_padded(decimal(m), w2);
    assert(z.len() > 0);
    assert(forall|i: int| 0 <= i < z.len() ==> is_digit(#[trigger] z[i])) by {
        if decimal(m).len() < w2 {
            let pad = Seq::new((w2 - decimal(m).len()) as nat, |i: int| '0');
            assert forall|i: int| 0 <= i < z.len() implies is_digit(#[trigger] z[i]) by {
                if i < pad.len() {
                    assert(z[i] == '0');
                } else {
                    assert(z[i] == decimal(m)[i - pad.len()]);
                }
            }
        }
    }
    if v < 0 {
        let f = seq!['-'] + z;
        assert(f == fmt_int(v, w));
        assert forall|i: int| 0 <= i < f.len() implies time_char(#[trigger] f[i]) by {
            if i > 0 {
                assert(f[i] == z[i - 1]);
            }
        }
        assert(f.last() == z.last());
    } else {
        assert(z == fmt_int(v, w));
    }
}

proof fn lemma_timestamp_chars(t: int)
    ensures
        timestamp_text(t).len() > 0,
        forall|i: int| 0 <= i < timestamp_text(t).len() ==> time_char(#[trigger] timestamp_text(t)[i]),
        is_digit(timestamp_text(t)[0]) || timestamp_text(t)[0] == '-',
        is_digit(timestamp_text(t).last()),
{
    let ms = t * 10;
    let a = fmt_int(crate::audio::tdiv(ms, 3_600_000), 2);
    let b = fmt_int(crate::audio::trem(crate::audio::tdiv(ms, 60_000), 60), 2);
    let c = fmt_int(crate::audio::trem(crate::audio::tdiv(ms, 1_000), 60), 2);
    let d = fmt_int(crate::audio::trem(ms, 1_000), 3);
    lemma_fmt_int_chars(crate::audio::tdiv(ms, 3_600_000), 2);
    lemma_fmt_int_chars(crate::audio::trem(crate::audio::tdiv(ms, 60_000), 60), 2);
    lemma_fmt_int_chars(crate::audio::trem(crate::audio::tdiv(ms, 1_000), 60), 2);
    lemma_fmt_int_chars(crate::audio::trem(ms, 1_000), 3);
    let s = a + seq![':'] + b + seq![':'] + c + seq![','] + d;
    assert(s == timestamp_text(t));
    assert forall|i: int| 0 <= i < s.len() implies time_char(#[trigger] s[i]) by {
        let i1 = a.len() as int;
        let i2 = i1 + 1 + b.len();
        let i3 = i2 + 1 + c.len();
        if i < i1 {
            assert(s[i] == a[i]);
        } else if i == i1 {
        } else if i < i2 {
            assert(s[i] == b[i - i1 - 1]);
        } else if i == i2 {
        } else if i < i3 {
            assert(s[i] == c[i - i2 - 1]);
        } else if i == i3 {
        } else {
            assert(s[i] == d[i - i3 - 1]);
        }
    }
    assert(s[0] == a[0]);
    assert(s.last() == d.last());
}

/// The time line of a segment.
spec fn time_line(t0: int, t1: int) -> Seq<char> {
    timestamp_text(t0) + arrow() + timestamp_text(t1)
}

proof fn lemma_time_line(t0: int, t1: int)
    ensures
        one_line(time_line(t0, t1)),
        time_line(t0, t1).len() > 0,
        !is_whitespace(time_line(t0, t1)[0]),
        is_digit(time_line(t0, t1).last()),
        contains(time_line(t0, t1), arrow()),
{
    let ts0 = timestamp_text(t0);
    let ts1 = timestamp_text(t1);
    let tl = time_line(t0, t1);
    lemma_timestamp_chars(t0);
    lemma_timestamp_chars(t1);
    assert forall|i: int| 0 <= i < tl.len() implies tl[i] != '\n' by {
        if i < ts0.len() {
            assert(tl[i] == ts0[i]);
            assert(time_char(ts0[i]));
        } else if i < ts0.len() + 5 {
            assert(tl[i] == arrow()[i - ts0.len()]);
        } else {
            assert(tl[i] == ts1[i - ts0.len() - 5]);
            assert(time_char(ts1[i - ts0.len() - 5]));
        }
    }
    assert(tl[0] == ts0[0]);
    assert(tl.last() == ts1.last());
    assert(occurs_at(tl, arrow(), ts0.len() as int)) by {
        assert(tl.subrange(ts0.len() as int, ts0.len() + 5int) =~= arrow());
    }
}

/// No `'\n'` in `s`.
pub open spec fn one_line(s: Seq<char>) -> bool {
    forall|i: int| 0 <= i < s.len() ==> s[i] != '\n'
}

proof fn lemma_four_lines(d: Seq<char>, tl: Seq<char>, t: Seq<char>)
    requires
        one_line(d),
        one_line(tl),
        one_line(t),
        strip_cr(d) == d,
        strip_cr(tl) == tl,
        strip_cr(t) == t,
    ensures
        lines(d + seq!['\n'] + tl + seq!['\n'] + t + seq!['\n', '\n']) == seq![
            d,
            tl,
            t,
            Seq::<char>::empty(),
        ],
{
    let e = Seq::<char>::empty();
    let rest2 = t + seq!['\n'] + seq!['\n'];
    let rest1 = tl + seq!['\n'] + rest2;
    assert(d + seq!['\n'] + tl + seq!['\n'] + t + seq!['\n', '\n'] == d + seq!['\n'] + rest1);
    lemma_line_then_newline(e, d, rest1);
    lemma_line_then_newline(e, tl, rest2);
    lemma_line_then_newline(e, t, seq!['\n']);
    assert(seq!['\n'] == e + seq!['\n'] + e);
    lemma_line_then_newline(e, e, e);
    assert(lines_from(e, e) == Seq::<Seq<char>>::empty());
    assert(e + d == d);
    assert(e + tl == tl);
    assert(e + t == t);
    assert(e + e == e);
    assert(strip_cr(e) == e);
}

proof fn lemma_four_text_lines(d: Seq<char>, tl: Seq<char>, t: Seq<char>)
    requires
        d.len() > 0,
        all_digits(d),
        trim(d) == d,
        contains(tl, arrow()),
        trim(tl) == tl,
        is_text_line(t),
        trim(t) == t,
    ensures
        text_lines(seq![d, tl, t, Seq::<char>::empty()]) == seq![t],
{
    let e = Seq::<char>::empty();
    let ls = seq![d, tl, t, e];
    assert(ls.drop_last() =~= seq![d, tl, t]);
    assert(seq![d, tl, t].drop_last() =~= seq![d, tl]);
    assert(seq![d, tl].drop_last() =~= seq![d]);
    assert(seq![d].drop_last() =~= Seq::<Seq<char>>::empty());
    assert(!is_text_line(d));
    assert(!is_text_line(tl));
    assert(seq![d].last() == d);
    assert(text_lines(Seq::<Seq<char>>::empty()) == Seq::<Seq<char>>::empty());
    assert(text_lines(seq![d]) == Seq::<Seq<char>>::empty());
    assert(seq![d, tl].last() == tl);
    assert(text_lines(seq![d, tl]) == Seq::<Seq<char>>::empty());
    assert(seq![d, tl, t].last() == t);
    assert(text_lines(seq![d, tl, t]) == seq![t]);
    assert(trim(e) == e);
    assert(ls.last() == e);
}

proof fn lemma_segment_lines(index: nat, t0: int, t1: int, text: Seq<char>)
    requires
        plain_segment(text),
    ensures
        text_lines(lines(srt_segment_text(index, t0, t1, text))) == seq![trim(text)],
{
    let d = decimal(index);
    let tl = time_line(t0, t1);
    let t = trim(text);
    lemma_decimal_digits(index);
    lemma_time_line(t0, t1);
    lemma_trim_ends(text);
    assert(one_line(d)) by {
        assert forall|i: int| 0 <= i < d.len() implies d[i] != '\n' by {
            assert(is_digit(d[i]));
        }
    }
    assert(is_digit(d.last()));
    assert(strip_cr(d) == d);
    assert(strip_cr(tl) == tl);
    if t.len() > 0 {
        assert(!is_whitespace(t.last()));
    }
    assert(strip_cr(t) == t);
    assert(srt_segment_text(index, t0, t1, text) == d + seq!['\n'] + tl + seq!['\n'] + t + seq![
        '\n',
        '\n',
    ]);
    lemma_four_lines(d, tl, t);
    assert(is_digit(d[0]));
    lemma_trim_fixed(d);
    lemma_trim_fixed(tl);
    lemma_trim_fixed(t);
    lemma_four_text_lines(d, tl, t);
}

proof fn lemma_text_lines_append(a: Seq<Seq<char>>, b: Seq<Seq<char>>)
    ensures
        text_lines(a + b) == text_lines(a) + text_lines(b),
    decreases b.len(),
{
    if b.len() == 0 {
        assert(a + b == a);
    } else {
        lemma_text_lines_append(a, b.drop_last());
        assert((a + b).drop_last() == a + b.drop_last());
        assert((a + b).last() == b.last());
    }
}

/// A segment text that SRT cleaning gives back whole, or drops: once trimmed
/// it is empty, or it is a plain line (see `plain_segment`).
pub open spec fn plain_or_blank(text: Seq<char>) -> bool {
    trim(text).len() == 0 || plain_segment(text)
}

/// The SRT blocks written for `blocks` (each a number, a start and an end in
/// ticks, and a text), one after the other.
pub open spec fn srt_blocks(blocks: Seq<(nat, int, int, Seq<char>)>) -> Seq<char>
    decreases blocks.len(),
{
    if blocks.len() == 0 {
        seq![]
    } else {
        let b = blocks.last();
        srt_blocks(blocks.drop_last()) + srt_segment_text(b.0, b.1, b.2, b.3)
    }
}

/// The trimmed texts of `blocks` that are not empty, in order.
pub open spec fn kept_texts(blocks: Seq<(nat, int, int, Seq<char>)>) -> Seq<Seq<char>>
    decreases blocks.len(),
{
    if blocks.len() == 0 {
        seq![]
    } else if trim(blocks.last().3).len() == 0 {
        kept_texts(blocks.drop_last())
    } else {
        kept_texts(blocks.drop_last()).push(trim(blocks.last().3))
    }
}

proof fn lemma_blank_segment_lines(index: nat, t0: int, t1: int, text: Seq<char>)
    requires
        trim(text).len() == 0,
    ensures
        text_lines(lines(srt_segment_text(index, t0, t1, text))) == Seq::<Seq<char>>::empty(),
{
    let d = decimal(index);
    let tl = time_line(t0, t1);
    let e = Seq::<char>::empty();
    let t = trim(text);
    assert(t =~= e);
    lemma_decimal_digits(index);
    lemma_time_line(t0, t1);
    assert(one_line(d)) by {
        assert forall|i: int| 0 <= i < d.len() implies d[i] != '\n' by {
            assert(is_digit(d[i]));
        }
    }
    assert(is_digit(d.last()));
    assert(strip_cr(d) == d);
    assert(strip_cr(tl) == tl);
    assert(strip_cr(e) == e);
    assert(srt_segment_text(index, t0, t1, text) == d + seq!['\n'] + tl + seq!['\n'] + e + seq![
        '\n',
        '\n',
    ]);
    lemma_four_lines(d, tl, e);
    assert(is_digit(d[0]));
    lemma_trim_fixed(d);
    lemma_trim_fixed(tl);
    lemma_four_text_lines_blank(d, tl);
}

proof fn lemma_four_text_lines_blank(d: Seq<char>, tl: Seq<char>)
    requires
        d.len() > 0,
        all_digits(d),
        trim(d) == d,
        contains(tl, arrow()),
        trim(tl) == tl,
    ensures
        text_lines(seq![d, tl, Seq::<char>::empty(), Seq::<char>::empty()]) == Seq::<
            Seq<char>,
        >::empty(),
{
    let e = Seq::<char>::empty();
    let ls = seq![d, tl, e, e];
    assert(ls.drop_last() =~= seq![d, tl, e]);
    assert(seq![d, tl, e].drop_last() =~= seq![d, tl]);
    assert(seq![d, tl].drop_last() =~= seq![d]);
    assert(seq![d].drop_last() =~= Seq::<Seq<char>>::empty());
    assert(!is_text_line(d));
    assert(!is_text_line(tl));
    assert(trim(e) =~= e);
    assert(!is_text_line(e));
    assert(text_lines(Seq::<Seq<char>>::empty()) == Seq::<Seq<char>>::empty());
    assert(seq![d].last() == d);
    assert(text_lines(seq![d]) == Seq::<Seq<char>>::empty());
    assert(seq![d, tl].last() == tl);
    assert(text_lines(seq![d, tl]) == Seq::<Seq<char>>::empty());
    assert(seq![d, tl, e].last() == e);
    assert(text_lines(seq![d, tl, e]) == Seq::<Seq<char>>::empty());
    assert(ls.last() == e);
}

/// Cleaning SRT blocks written by `format_srt_segment` (whatever their
/// numbers and times) gives back their texts, trimmed and joined by spaces;
/// a text that trims to nothing is dropped. Each text must come back as one
/// line: once trimmed it is empty, or it holds no line break, is not all
/// digits and holds no `" --> "`.
pub proof fn law_clean_srt_recovers_block_texts(blocks: Seq<(nat, int, int, Seq<char>)>)
    requires
        forall|k: int| 0 <= k < blocks.len() ==> plain_or_blank(#[trigger] blocks[k].3),
    ensures
        text_lines(lines(srt_blocks(blocks))) == kept_texts(blocks),
        srt_plain_text(srt_blocks(blocks)) == join(kept_texts(blocks), seq![' ']),
    decreases blocks.len(),
{
    if blocks.len() > 0 {
        let pre = blocks.drop_last();
        let b = blocks.last();
        assert forall|k: int| 0 <= k < pre.len() implies plain_or_blank(#[trigger] pre[k].3) by {
            assert(pre[k] == blocks[k]);
        }
        law_clean_srt_recovers_block_texts(pre);
        assert(plain_or_blank(blocks[blocks.len() - 1].3));
        let seg = srt_segment_text(b.0, b.1, b.2, b.3);
        if trim(b.3).len() == 0 {
            lemma_blank_segment_lines(b.0, b.1, b.2, b.3);
        } else {
            lemma_segment_lines(b.0, b.1, b.2, b.3);
        }
        let doc = srt_blocks(pre);
        assert(srt_blocks(blocks) == doc + seg);
        if pre.len() > 0 {
            let pb = pre.last();
            assert(doc.last() == srt_segment_text(pb.0, pb.1, pb.2, pb.3).last());
            lemma_lines_append(seq![], doc, seg);
        } else {
            assert(doc + seg == seg);
            assert(lines(doc) == Seq::<Seq<char>>::empty());
            assert(lines(doc) + lines(seg) == lines(seg));
        }
        lemma_text_lines_append(lines(doc), lines(seg));
        if trim(b.3).len() == 0 {
            assert(text_lines(lines(doc)) + Seq::<Seq<char>>::empty() == text_lines(lines(doc)));
        }
    }
}

/// A trimmed line that joining with other lines by spaces cannot turn into
/// part of a `" --> "`: it is not `"-->"`, does not start with `"--> "` and
/// does not end with `" -->"`.
pub open spec fn no_loose_arrow(t: Seq<char>) -> bool {
    t != "-->"@ && !starts_with(t, "--> "@) && !ends_with(t, " -->"@)
}

/// A line that cleaning keeps and that joining cannot spoil.
spec fn good_part(k: Seq<char>) -> bool {
    is_text_line(k) && trim(k) == k && one_line(k) && no_loose_arrow(k)
}

pub(crate) proof fn lemma_lines_one_line(cur: Seq<char>, rest: Seq<char>)
    requires
        one_line(cur),
    ensures
        forall|i: int|
            0 <= i < lines_from(cur, rest).len() ==> one_line(#[trigger] lines_from(cur, rest)[i]),
    decreases rest.len(),
{
    if rest.len() == 0 {
        if cur.len() > 0 {
            assert(lines_from(cur, rest) == seq![cur]);
            assert(seq![cur][0] == cur);
        }
    } else if rest[0] == '\n' {
        lemma_lines_one_line(seq![], rest.drop_first());
        let l = lines_from(cur, rest);
        let tail = lines_from(seq![], rest.drop_first());
        assert(l == seq![strip_cr(cur)] + tail);
        assert(one_line(strip_cr(cur))) by {
            assert forall|j: int| 0 <= j < strip_cr(cur).len() implies strip_cr(cur)[j] != '\n' by {
                assert(strip_cr(cur)[j] == cur[j]);
            }
        }
        assert forall|i: int| 0 <= i < l.len() implies one_line(#[trigger] l[i]) by {
            if i > 0 {
                assert(l[i] == tail[i - 1]);
            }
        }
    } else {
        assert(one_line(cur.push(rest[0]))) by {
            assert forall|j: int| 0 <= j < cur.push(rest[0]).len() implies cur.push(rest[0])[j]
                != '\n' by {
                if j < cur.len() {
                    assert(cur.push(rest[0])[j] == cur[j]);
                }
            }
        }
        lemma_lines_one_line(cur.push(rest[0]), rest.drop_first());
        assert(lines_from(cur, rest) == lines_from(cur.push(rest[0]), rest.drop_first()));
    }
}

pub(crate) proof fn lemma_trim_start_suffix(s: Seq<char>)
    ensures
        trim_start(s).len() <= s.len(),
        trim_start(s) == s.skip(s.len() - trim_start(s).len()),
    decreases s.len(),
{
    if s.len() > 0 && is_whitespace(s[0]) {
        lemma_trim_start_suffix(s.drop_first());
        assert(s.drop_first().skip(s.drop_first().len() - trim_start(s).len()) =~= s.skip(
            s.len() - trim_start(s).len(),
        ));
    } else {
        assert(s.skip(0) =~= s);
    }
}

proof fn lemma_trim_one_line(s: Seq<char>)
    requires
        one_line(s),
    ensures
        one_line(trim(s)),
        trim(trim(s)) == trim(s),
{
    lemma_trim_start_suffix(s);
    let u = trim_start(s);
    lemma_trim_end_prefix(u);
    let k = s.len() - u.len();
    assert forall|j: int| 0 <= j < trim(s).len() implies trim(s)[j] != '\n' by {
        assert(trim(s)[j] == u[j]);
        assert(u[j] == s[k + j]);
    }
    lemma_trim_ends(s);
    lemma_trim_fixed(trim(s));
}

proof fn lemma_text_lines_good(ls: Seq<Seq<char>>)
    requires
        forall|i: int| 0 <= i < ls.len() ==> one_line(#[trigger] ls[i]),
        forall|i: int| 0 <= i < ls.len() ==> no_loose_arrow(trim(#[trigger] ls[i])),
    ensures
        forall|j: int| 0 <= j < text_lines(ls).len() ==> good_part(#[trigger] text_lines(ls)[j]),
    decreases ls.len(),
{
    if ls.len() > 0 {
        let pre = ls.drop_last();
        assert forall|i: int| 0 <= i < pre.len() implies one_line(#[trigger] pre[i]) by {
            assert(pre[i] == ls[i]);
        }
        assert forall|i: int| 0 <= i < pre.len() implies no_loose_arrow(trim(#[trigger] pre[i])) by {
            assert(pre[i] == ls[i]);
        }
        lemma_text_lines_good(pre);
        let l = ls[ls.len() - 1];
        assert(ls.last() == l);
        lemma_trim_one_line(l);
        let t = text_lines(ls);
        if is_text_line(trim(l)) {
            assert(t == text_lines(pre).push(trim(l)));
            assert forall|j: int| 0 <= j < t.len() implies good_part(#[trigger] t[j]) by {
                if j < text_lines(pre).len() {
                    assert(t[j] == text_lines(pre)[j]);
                }
            }
        }
    }
}

proof fn lemma_join_good(ks: Seq<Seq<char>>)
    requires
        ks.len() > 0,
        forall|j: int| 0 <= j < ks.len() ==> good_part(#[trigger] ks[j]),
    ensures
        ({
            let j = join(ks, seq![' ']);
            &&& one_line(j)
            &&& j.len() > 0
            &&& j[0] == ks[0][0]
            &&& j.last() == ks.last().last()
            &&& !contains(j, arrow())
            &&& !ends_with(j, " -->"@)
            &&& !all_digits(j)
        }),
    decreases ks.len(),
{
    let j = join(ks, seq![' ']);
    assert(good_part(ks[0]));
    assert(good_part(ks[ks.len() - 1]));
    if ks.len() == 1 {
        assert(j == ks[0]);
    } else {
        let pre = ks.drop_last();
        let k = ks.last();
        assert forall|i: int| 0 <= i < pre.len() implies good_part(#[trigger] pre[i]) by {
            assert(pre[i] == ks[i]);
        }
        lemma_join_good(pre);
        let p = join(pre, seq![' ']);
        assert(j == p + seq![' '] + k);
        let b = p.len() as int;
        assert(pre[0] == ks[0]);
        assert(j[0] == p[0]);
        assert(j.last() == k.last());
        assert(j[b] == ' ');
        assert(!is_digit(j[b]));
        assert forall|i: int| 0 <= i < j.len() implies j[i] != '\n' by {
            if i < b {
                assert(j[i] == p[i]);
            } else if i > b {
                assert(j[i] == k[i - b - 1]);
            }
        }
        reveal_strlit(" -->");
        let tail = " -->"@;
        if ends_with(j, tail) {
            let n = j.len() as int;
            if k.len() >= 4 {
                assert(k.skip(k.len() - 4) =~= j.skip(n - 4));
                assert(ends_with(k, tail));
            } else {
                let w = 3 - k.len();
                assert(j.skip(n - 4)[w] == j[b]);
                if k.len() == 3 {
                    assert forall|i: int| 0 <= i < 3 implies k[i] == "-->"@[i] by {
                        reveal_strlit("-->");
                        assert(k[i] == j[b + 1 + i]);
                        assert(j[b + 1 + i] == j.skip(n - 4)[i + 1]);
                    }
                    reveal_strlit("-->");
                    assert(k =~= "-->"@);
                }
            }
        }
        if contains(j, arrow()) {
            let i = choose|i: int| occurs_at(j, arrow(), i);
            assert(occurs_at(j, arrow(), i));
            let occ = j.subrange(i, i + 5);
            assert(occ == arrow());
            if i + 5 <= b {
                assert(p.subrange(i, i + 5) =~= occ);
                assert(occurs_at(p, arrow(), i));
            } else if i >= b + 1 {
                assert(k.subrange(i - b - 1, i - b + 4) =~= occ);
                assert(occurs_at(k, arrow(), i - b - 1));
            } else {
                let o = b - i;
                assert(occ[o] == j[b]);
                if o == 4 {
                    assert(p.skip(p.len() - 4) =~= occ.take(4));
                    assert(arrow().take(4) =~= tail);
                    assert(ends_with(p, tail));
                } else {
                    assert(o == 0);
                    reveal_strlit("--> ");
                    assert(k.take(4) =~= occ.skip(1));
                    assert(arrow().skip(1) =~= "--> "@);
                    assert(starts_with(k, "--> "@));
                }
            }
        }
    }
}

pub(crate) proof fn lemma_lines_single(cur: Seq<char>, x: Seq<char>)
    requires
        one_line(x),
    ensures
        lines_from(cur, x) == if (cur + x).len() == 0 {
            Seq::<Seq<char>>::empty()
        } else {
            seq![cur + x]
        },
    decreases x.len(),
{
    if x.len() > 0 {
        assert(one_line(x.drop_first())) by {
            assert forall|i: int| 0 <= i < x.drop_first().len() implies x.drop_first()[i] != '\n' by {
                assert(x.drop_first()[i] == x[i + 1]);
            }
        }
        lemma_lines_single(cur.push(x[0]), x.drop_first());
        assert(cur.push(x[0]) + x.drop_first() =~= cur + x);
    } else {
        assert(cur + x =~= cur);
    }
}

/// Cleaning is idempotent: cleaned text, cleaned again, stays as it is, as
/// long as no line of the document, trimmed, is `"-->"`, starts with
/// `"--> "` or ends with `" -->"` (joining such lines by spaces would make a
/// `" --> "` that the second cleaning drops).
pub proof fn law_clean_srt_idempotent(srt: Seq<char>)
    requires
        forall|i: int| 0 <= i < lines(srt).len() ==> no_loose_arrow(trim(#[trigger] lines(srt)[i])),
    ensures
        srt_plain_text(srt_plain_text(srt)) == srt_plain_text(srt),
{
    let ls = lines(srt);
    lemma_lines_one_line(seq![], srt);
    lemma_text_lines_good(ls);
    let ks = text_lines(ls);
    let j = join(ks, seq![' ']);
    let e = Seq::<char>::empty();
    if ks.len() == 0 {
        assert(j == e);
        assert(lines(e) == Seq::<Seq<char>>::empty());
        assert(text_lines(Seq::<Seq<char>>::empty()) == Seq::<Seq<char>>::empty());
    } else {
        lemma_join_good(ks);
        lemma_lines_single(e, j);
        assert(e + j =~= j);
        assert(lines(j) == seq![j]);
        assert(good_part(ks[0]));
        assert(good_part(ks[ks.len() - 1]));
        lemma_trim_ends(ks[0]);
        lemma_trim_ends(ks[ks.len() - 1]);
        assert(ks.last() == ks[ks.len() - 1]);
        lemma_trim_fixed(j);
        assert(is_text_line(j));
        assert(seq![j].drop_last() =~= Seq::<Seq<char>>::empty());
        assert(text_lines(Seq::<Seq<char>>::empty()) == Seq::<Seq<char>>::empty());
        assert(text_lines(seq![j]) =~= seq![j]);
        assert(join(seq![j], seq![' ']) == j);
    }
}

proof fn lemma_document_ends_with_newline(segs: Seq<TranscriptSegment>)
    requires
        segs.len() > 0,
    ensures
        srt_document(segs).len() > 0,
        srt_document(segs).last() == '\n',
{
}

/// Cleaning the SRT that a transcription writes gives back the texts of its
/// segments, trimmed and joined by spaces, when each segment's text is a
/// single plain line.
pub proof fn law_clean_srt_recovers_segment_texts(segs: Seq<TranscriptSegment>)
    requires
        forall|k: int| 0 <= k < segs.len() ==> plain_segment(#[trigger] segs[k].text@),
    ensures
        text_lines(lines(srt_document(segs))) == segment_texts(segs),
        srt_plain_text(srt_document(segs)) == join(segment_texts(segs), seq![' ']),
    decreases segs.len(),
{
    if segs.len() > 0 {
        let pre = segs.drop_last();
        let s = segs.last();
        assert forall|k: int| 0 <= k < pre.len() implies plain_segment(#[trigger] pre[k].text@) by {
            assert(pre[k] == segs[k]);
        }
        law_clean_srt_recovers_segment_texts(pre);
        assert(plain_segment(segs[segs.len() - 1].text@));
        let seg = srt_segment_text(segs.len(), s.t0 as int, s.t1 as int, s.text@);
        lemma_segment_lines(segs.len(), s.t0 as int, s.t1 as int, s.text@);
        let doc = srt_document(pre);
        assert(srt_document(segs) == doc + seg);
        if pre.len() > 0 {
            lemma_document_ends_with_newline(pre);
            lemma_lines_append(seq![], doc, seg);
        } else {
            assert(doc + seg == seg);
            assert(lines(doc) == Seq::<Seq<char>>::empty());
            assert(lines(doc) + lines(seg) == lines(seg));
        }
        lemma_text_lines_append(lines(doc), lines(seg));
    }
}

/// What a transcription answers for `output_format`: the plain text of its
/// SRT document (see `srt_plain_text`) for `"text"`, and the SRT document
/// itself for any other format.
pub fn transcript_reply(segs: &Vec<TranscriptSegment>, output_format: &str) -> (s: String)
    requires
        segments_in_range(segs@),
    ensures
        output_format@ == "text"@ ==> s@ == srt_plain_text(srt_document(segs@)),
        output_format@ != "text"@ ==> s@ == srt_document(segs@),
{
    let srt = srt_from_segments(segs);
    if str_eq(output_format, "text") {
        clean_srt(srt.as_str())
    } else {
        srt
    }
}

/// The window of a conversion to WAV: a start, whenever one is given, is
/// `-ss` and that start before the input, with or without a duration; a
/// duration, whenever one is given, is `-t` and its decimal digits after the
/// input; the output comes last.
pub proof fn law_wav_window(
    input: Seq<char>,
    output: Seq<char>,
    start: Option<Seq<char>>,
    duration: Option<u64>,
)
    ensures
        ({
            let a = wav_args(input, output, start, duration);
            let k: int = if start is Some { 3 } else { 1 };
            &&& a[0] == "-y"@
            &&& start matches Some(s) ==> a[1] == "-ss"@ && a[2] == s
            &&& a[k] == "-i"@
            &&& a[k + 1] == input
            &&& duration matches Some(d) ==> a[k + 2] == "-t"@ && a[k + 3] == decimal(d as nat)
            &&& duration is None ==> a[k + 2] == "-ar"@
            &&& a.len() > 0 && a.last() == output
        }),
{
}

/// A segment whose text, once trimmed, is one non-empty line that holds a
/// character that is not an ASCII digit and no `" --> "` is kept whole by
/// cleaning, whatever its number and times, even when the text starts with a
/// digit: cleaning the block gives the trimmed text.
pub proof fn law_clean_srt_keeps_text(index: nat, t0: int, t1: int, text: Seq<char>)
    requires
        trim(text).len() > 0,
        exists|i: int| 0 <= i < trim(text).len() && !is_digit(#[trigger] trim(text)[i]),
        forall|i: int| 0 <= i < trim(text).len() ==> trim(text)[i] != '\n',
        !contains(trim(text), arrow()),
    ensures
        srt_plain_text(srt_segment_text(index, t0, t1, text)) == trim(text),
{
    let t = trim(text);
    let i = choose|i: int| 0 <= i < t.len() && !is_digit(#[trigger] t[i]);
    assert(!all_digits(t));
    assert(is_text_line(t));
    assert(plain_segment(text));
    let blocks = seq![(index, t0, t1, text)];
    assert(plain_or_blank(blocks[0].3));
    law_clean_srt_recovers_block_texts(blocks);
    assert(blocks.drop_last() =~= Seq::<(nat, int, int, Seq<char>)>::empty());
    assert(srt_blocks(blocks.drop_last()) == Seq::<char>::empty());
    assert(srt_blocks(blocks) =~= srt_segment_text(index, t0, t1, text));
    assert(kept_texts(blocks.drop_last()) == Seq::<Seq<char>>::empty());
    assert(kept_texts(blocks) =~= seq![t]);
    assert(join(seq![t], seq![' ']) == t);
}

} // verus!
