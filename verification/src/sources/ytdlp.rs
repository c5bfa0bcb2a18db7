//! Shared yt-dlp logic used by all source backends (YouTube, Vimeo, ...): the
//! arguments that ask yt-dlp for a download, and the reading of what it prints.
use vstd::prelude::*;
use vstd::utf8::{decode_utf8, valid_utf8};

use crate::decimal::{decimal, parse_u64_chars, parse_u64_or_zero, push_decimal};
use crate::paths::{join_path, join_path_str, path_exists};
use crate::text::{
    char_lines, chars_of, ends_with, ends_with_chars, lines, lines_of, split, split_chars,
    push_str, string_of, trim, trim_chars,
};

verus! {

// ---------------------------------------------------------------------------
// Argument lists
// ---------------------------------------------------------------------------

/// The texts of a list of arguments.
pub open spec fn arg_views(args: Seq<String>) -> Seq<Seq<char>> {
    args.map_values(|a: String| a@)
}

/// The text of an optional string argument.
pub open spec fn opt_view(o: Option<&str>) -> Option<Seq<char>> {
    match o {
        Some(s) => Some(s@),
        None => None,
    }
}

/// What yt-dlp is asked to do: its arguments (after the program name), and
/// whether it is asked for subtitles (whose output is read differently).
#[derive(Debug)]
pub struct YtdlpRequest {
    pub args: Vec<String>,
    pub subtitles: bool,
}

/// Appends the argument `a` to `args`.
pub fn push_arg(args: &mut Vec<String>, a: &str)
    ensures
        arg_views(final(args)@) == arg_views(old(args)@).push(a@),
{
    let ghost before = args@;
    args.push(a.to_owned());
    assert(arg_views(args@) =~= arg_views(before).push(a@));
}

/// Appends the argument made of the characters `cs` to `args`.
fn push_arg_chars(args: &mut Vec<String>, cs: &[char])
    ensures
        arg_views(final(args)@) == arg_views(old(args)@).push(cs@),
{
    let ghost before = args@;
    args.push(string_of(cs));
    assert(arg_views(args@) =~= arg_views(before).push(cs@));
}

/// The arguments that take cookies from a browser, when one is named.
pub open spec fn cookie_args(browser: Option<Seq<char>>) -> Seq<Seq<char>> {
    match browser {
        Some(b) => seq!["--cookies-from-browser"@, b],
        None => seq![],
    }
}

fn push_cookie_args(args: &mut Vec<String>, browser: Option<&str>)
    ensures
        arg_views(final(args)@) == arg_views(old(args)@) + cookie_args(opt_view(browser)),
{
    let ghost before = arg_views(args@);
    if let Some(b) = browser {
        push_arg(args, "--cookies-from-browser");
        push_arg(args, b);
    }
    assert(arg_views(args@) =~= before + cookie_args(opt_view(browser)));
}

/// Where downloaded media go: yt-dlp's output template in `/tmp`.
pub open spec fn tmp_template() -> Seq<char> {
    "/tmp/%(id)s.%(ext)s"@
}

/// The format selection for videos: the best video up to 720p (preferring
/// AVC) with the best audio, or the best single file up to 720p, or the best.
pub open spec fn video_format() -> Seq<char> {
    "bestvideo[height<=720][vcodec^=avc]+bestaudio/bestvideo[height<=720]+bestaudio/best[height<=720]/best"@
}

/// yt-dlp arguments that download the video at `url` as an mp4 file and print
/// its path.
pub open spec fn video_args(url: Seq<char>, browser: Option<Seq<char>>) -> Seq<Seq<char>> {
    seq![
        "-f"@,
        video_format(),
        "--merge-output-format"@,
        "mp4"@,
        "-o"@,
        tmp_template(),
        "--print"@,
        "after_move:filepath"@,
    ] + cookie_args(browser) + seq![url]
}

/// The request for the video at `url` (see `video_args`).
pub open spec fn video_request(url: Seq<char>, browser: Option<Seq<char>>, r: YtdlpRequest) -> bool {
    arg_views(r.args@) == video_args(url, browser) && !r.subtitles
}

// ---------------------------------------------------------------------------
// Timestamps
// ---------------------------------------------------------------------------

/// The seconds that a human-readable timestamp names: `"HH:MM:SS"`, `"MM:SS"` or
/// plain seconds; each part that is not a `u64` counts as 0, and so does the
/// whole when it has more than three parts.
pub open spec fn timestamp_secs(ts: Seq<char>) -> nat {
    let parts = split(ts, seq![':']);
    if parts.len() == 3 {
        parse_u64_or_zero(parts[0]) * 3600 + parse_u64_or_zero(parts[1]) * 60
            + parse_u64_or_zero(parts[2])
    } else if parts.len() == 2 {
        parse_u64_or_zero(parts[0]) * 60 + parse_u64_or_zero(parts[1])
    } else {
        parse_u64_or_zero(ts)
    }
}

fn u64_or_zero(cs: &[char]) -> (r: u64)
    ensures
        r as nat == parse_u64_or_zero(cs@),
{
    match parse_u64_chars(cs) {
        Some(v) => v,
        None => 0,
    }
}

/// `timestamp_secs(ts)`, or `None` when it does not fit in `u64`.
pub fn timestamp_secs_checked(ts: &str) -> (r: Option<u64>)
    ensures
        r == if timestamp_secs(ts@) <= u64::MAX {
            Some(timestamp_secs(ts@) as u64)
        } else {
            None
        },
{
    let cs = chars_of(ts);
    let mut colon: Vec<char> = Vec::new();
    colon.push(':');
    let parts = split_chars(&cs, &colon);
    assert(char_lines(&parts) == split(ts@, seq![':']));
    if parts.len() == 3 {
        assert(parts@[0]@ == split(ts@, seq![':'])[0]);
        assert(parts@[1]@ == split(ts@, seq![':'])[1]);
        assert(parts@[2]@ == split(ts@, seq![':'])[2]);
        let h = u64_or_zero(&parts[0]);
        let m = u64_or_zero(&parts[1]);
        let s = u64_or_zero(&parts[2]);
        if h > (u64::MAX - s) / 3600 || m > (u64::MAX - s - h * 3600) / 60 {
            return None;
        }
        Some(h * 3600 + m * 60 + s)
    } else if parts.len() == 2 {
        assert(parts@[0]@ == split(ts@, seq![':'])[0]);
        assert(parts@[1]@ == split(ts@, seq![':'])[1]);
        let m = u64_or_zero(&parts[0]);
        let s = u64_or_zero(&parts[1]);
        if m > (u64::MAX - s) / 60 {
            return None;
        }
        Some(m * 60 + s)
    } else {
        Some(u64_or_zero(&cs))
    }
}

/// Parses a human-readable timestamp (`"HH:MM:SS"`, `"MM:SS"` or plain
/// seconds) into seconds.
pub fn parse_timestamp_to_secs(ts: &str) -> (r: u64)
    requires
        timestamp_secs(ts@) <= u64::MAX,
    ensures
        r as nat == timestamp_secs(ts@),
{
    match timestamp_secs_checked(ts) {
        Some(v) => v,
        None => 0,
    }
}

// ---------------------------------------------------------------------------
// Audio
// ---------------------------------------------------------------------------

/// The start (in seconds) of the section asked for: the start timestamp, or 0.
pub open spec fn section_start(start: Option<Seq<char>>) -> nat {
    match start {
        Some(t) => timestamp_secs(t),
        None => 0,
    }
}

/// The section's start and end fit in `u64`.
pub open spec fn section_in_range(start: Option<Seq<char>>, duration: Option<u64>) -> bool {
    &&& section_start(start) <= u64::MAX
    &&& match duration {
        Some(d) => section_start(start) + d <= u64::MAX,
        None => true,
    }
}

/// yt-dlp's `--download-sections` value: `*START-END` in seconds, with `inf`
/// for an open end; none when neither a start nor a duration is given.
pub open spec fn audio_section(start: Option<Seq<char>>, duration: Option<u64>) -> Option<Seq<char>> {
    if start is Some || duration is Some {
        let s = section_start(start);
        Some(
            seq!['*'] + decimal(s) + seq!['-'] + match duration {
                Some(d) => decimal(s + d as nat),
                None => "inf"@,
            },
        )
    } else {
        None
    }
}

/// yt-dlp arguments that download the audio at `url` (or the section asked
/// for) as an mp3 file and print its path.
pub open spec fn audio_args(
    url: Seq<char>,
    start: Option<Seq<char>>,
    duration: Option<u64>,
    browser: Option<Seq<char>>,
) -> Seq<Seq<char>> {
    seq!["-x"@, "--audio-format"@, "mp3"@] + cookie_args(browser) + match audio_section(
        start,
        duration,
    ) {
        Some(sec) => seq!["--download-sections"@, sec, "--force-keyframes-at-cuts"@],
        None => seq![],
    } + seq!["-o"@, tmp_template(), "--print"@, "after_move:filepath"@, url]
}

/// The request for the audio at `url` (see `audio_args`).
pub open spec fn audio_request(
    url: Seq<char>,
    start: Option<Seq<char>>,
    duration: Option<u64>,
    browser: Option<Seq<char>>,
    r: YtdlpRequest,
) -> bool {
    arg_views(r.args@) == audio_args(url, start, duration, browser) && !r.subtitles
}

// ---------------------------------------------------------------------------
// Subtitles
// ---------------------------------------------------------------------------

/// yt-dlp arguments that write the (automatic) Spanish or English subtitles of
/// `url` as SRT into `temp_dir`, without the media, and print their paths.
pub open spec fn subtitle_args(url: Seq<char>, browser: Option<Seq<char>>, temp_dir: Seq<char>) -> Seq<
    Seq<char>,
> {
    seq![
        "--write-subs"@,
        "--write-auto-subs"@,
        "--skip-download"@,
        "--sub-lang"@,
        "es.*,en.*"@,
        "--convert-subs"@,
        "srt"@,
        "-o"@,
        join_path(temp_dir, "%(id)s.%(ext)s"@),
        "--print"@,
        "after_move:filepath"@,
    ] + cookie_args(browser) + seq![url]
}

/// The request for the subtitles of `url` (see `subtitle_args`).
pub open spec fn subtitle_request(
    url: Seq<char>,
    browser: Option<Seq<char>>,
    temp_dir: Seq<char>,
    r: YtdlpRequest,
) -> bool {
    arg_views(r.args@) == subtitle_args(url, browser, temp_dir) && r.subtitles
}

/// Asks yt-dlp for the best video (up to 720p) at `url`, merged into an mp4
/// file whose path it prints. With `browser_cookies` (e.g. `"chrome"`), yt-dlp
/// takes the cookies of that browser, for sources that need a login.
pub fn ytdlp_download_video(url: &str, browser_cookies: Option<&str>) -> (r: YtdlpRequest)
    ensures
        video_request(url@, opt_view(browser_cookies), r),
{
    let mut args: Vec<String> = Vec::new();
    let ghost e = arg_views(args@);
    assert(e == Seq::<Seq<char>>::empty());
    push_arg(&mut args, "-f");
    push_arg(
        &mut args,
        "bestvideo[height<=720][vcodec^=avc]+bestaudio/bestvideo[height<=720]+bestaudio/best[height<=720]/best",
    );
    push_arg(&mut args, "--merge-output-format");
    push_arg(&mut args, "mp4");
    push_arg(&mut args, "-o");
    push_arg(&mut args, "/tmp/%(id)s.%(ext)s");
    push_arg(&mut args, "--print");
    push_arg(&mut args, "after_move:filepath");
    push_cookie_args(&mut args, browser_cookies);
    push_arg(&mut args, url);
    let r = YtdlpRequest { args, subtitles: false };
    assert(arg_views(r.args@) =~= video_args(url@, opt_view(browser_cookies)));
    r
}

fn section_value(start_timestamp: Option<&str>, duration_secs: Option<u64>) -> (r: Vec<char>)
    requires
        start_timestamp is Some || duration_secs is Some,
        section_in_range(opt_view(start_timestamp), duration_secs),
    ensures
        audio_section(opt_view(start_timestamp), duration_secs) == Some(r@),
{
    let start_secs: u64 = match start_timestamp {
        Some(t) => parse_timestamp_to_secs(t),
        None => 0,
    };
    let mut out: Vec<char> = Vec::new();
    out.push('*');
    push_decimal(&mut out, start_secs);
    out.push('-');
    match duration_secs {
        Some(d) => push_decimal(&mut out, start_secs + d),
        None => crate::text::push_str(&mut out, "inf"),
    }
    proof {
        let s = section_start(opt_view(start_timestamp));
        assert(start_secs as nat == s);
        assert(out@ =~= seq!['*'] + decimal(s) + seq!['-'] + match duration_secs {
            Some(d) => decimal(s + d as nat),
            None => "inf"@,
        });
    }
    out
}

/// Asks yt-dlp for the audio at `url` as an mp3 file whose path it prints.
/// With a start timestamp or a duration, only that section is fetched
/// (`--download-sections`), which saves bandwidth; with `browser_cookies`,
/// yt-dlp takes the cookies of that browser.
pub fn ytdlp_download_audio(
    url: &str,
    start_timestamp: Option<&str>,
    duration_secs: Option<u64>,
    browser_cookies: Option<&str>,
) -> (r: YtdlpRequest)
    requires
        section_in_range(opt_view(start_timestamp), duration_secs),
    ensures
        audio_request(url@, opt_view(start_timestamp), duration_secs, opt_view(browser_cookies), r),
{
    let mut args: Vec<String> = Vec::new();
    let ghost e = arg_views(args@);
    assert(e == Seq::<Seq<char>>::empty());
    push_arg(&mut args, "-x");
    push_arg(&mut args, "--audio-format");
    push_arg(&mut args, "mp3");
    push_cookie_args(&mut args, browser_cookies);
    let ghost mid = arg_views(args@);
    if start_timestamp.is_some() || duration_secs.is_some() {
        let section = section_value(start_timestamp, duration_secs);
        push_arg(&mut args, "--download-sections");
        push_arg_chars(&mut args, &section);
        push_arg(&mut args, "--force-keyframes-at-cuts");
    }
    push_arg(&mut args, "-o");
    push_arg(&mut args, "/tmp/%(id)s.%(ext)s");
    push_arg(&mut args, "--print");
    push_arg(&mut args, "after_move:filepath");
    push_arg(&mut args, url);
    let r = YtdlpRequest { args, subtitles: false };
    assert(arg_views(r.args@) =~= audio_args(
        url@,
        opt_view(start_timestamp),
        duration_secs,
        opt_view(browser_cookies),
    ));
    r
}

/// Asks yt-dlp for the subtitles of `url` (Spanish, then English, including
/// automatic ones), converted to SRT in `temp_dir`, whose paths it prints.
/// With `browser_cookies`, yt-dlp takes the cookies of that browser.
pub fn ytdlp_download_subtitles(url: &str, browser_cookies: Option<&str>, temp_dir: &str) -> (r:
    YtdlpRequest)
    ensures
        subtitle_request(url@, opt_view(browser_cookies), temp_dir@, r),
{
    let mut args: Vec<String> = Vec::new();
    let ghost e = arg_views(args@);
    assert(e == Seq::<Seq<char>>::empty());
    push_arg(&mut args, "--write-subs");
    push_arg(&mut args, "--write-auto-subs");
    push_arg(&mut args, "--skip-download");
    push_arg(&mut args, "--sub-lang");
    push_arg(&mut args, "es.*,en.*");
    push_arg(&mut args, "--convert-subs");
    push_arg(&mut args, "srt");
    push_arg(&mut args, "-o");
    let template = join_path_str(temp_dir, "%(id)s.%(ext)s");
    push_arg(&mut args, template.as_str());
    push_arg(&mut args, "--print");
    push_arg(&mut args, "after_move:filepath");
    push_cookie_args(&mut args, browser_cookies);
    push_arg(&mut args, url);
    let r = YtdlpRequest { args, subtitles: true };
    assert(arg_views(r.args@) =~= subtitle_args(url@, opt_view(browser_cookies), temp_dir@));
    r
}

// ---------------------------------------------------------------------------
// Reading what yt-dlp printed
// ---------------------------------------------------------------------------

/// What went wrong once yt-dlp ran.
#[derive(Debug)]
pub enum YtdlpError {
    /// yt-dlp exited with a failure; `stderr` is what it printed there.
    Failed { subtitles: bool, stderr: String },
    /// yt-dlp succeeded but printed no path.
    NoFilepath,
    /// yt-dlp printed no subtitle path.
    NoSubtitles,
    /// The subtitle file that yt-dlp named is not on disk.
    SubtitleFileMissing(String),
}

/// How `Debug` writes the path `p` (`format!("{:?}", Path::new(p))`): in
/// double quotes, with quotes, backslashes and characters that are not
/// printable escaped.
pub uninterp spec fn path_debug(p: Seq<char>) -> Seq<char>;

/// `<Path as Debug>::fmt`, through `format!("{:?}", ..)`: the text is named
/// `path_debug(p)`; the escaping rules (which rest on Unicode tables) are not
/// stated.
#[verifier::external_body]
fn debug_path(p: &str) -> (s: String)
    ensures
        s@ == path_debug(p@),
{
    format!("{:?}", std::path::Path::new(p))
}

/// The message that tells what went wrong.
pub open spec fn error_message(e: YtdlpError) -> Seq<char> {
    match e {
        YtdlpError::Failed { subtitles, stderr } => if subtitles {
            "yt-dlp subtitle download failed: "@ + stderr@
        } else {
            "yt-dlp failed: "@ + stderr@
        },
        YtdlpError::NoFilepath => "yt-dlp succeeded but did not return a filepath in stdout"@,
        YtdlpError::NoSubtitles => "No subtitles found for this video or yt-dlp did not return a path."@,
        YtdlpError::SubtitleFileMissing(p) => "Subtitle file not found at expected path: "@
            + path_debug(p@),
    }
}

impl YtdlpError {
    /// The message that tells what went wrong (see `error_message`).
    pub fn message(&self) -> (s: String)
        ensures
            s@ == error_message(*self),
    {
        match self {
            YtdlpError::Failed { subtitles, stderr } => {
                let mut out: Vec<char> = Vec::new();
                if *subtitles {
                    push_str(&mut out, "yt-dlp subtitle download failed: ");
                } else {
                    push_str(&mut out, "yt-dlp failed: ");
                }
                push_str(&mut out, stderr.as_str());
                string_of(&out)
            },
            YtdlpError::NoFilepath => "yt-dlp succeeded but did not return a filepath in stdout".to_owned(),
            YtdlpError::NoSubtitles => "No subtitles found for this video or yt-dlp did not return a path.".to_owned(),
            YtdlpError::SubtitleFileMissing(p) => {
                let mut out: Vec<char> = Vec::new();
                push_str(&mut out, "Subtitle file not found at expected path: ");
                let shown = debug_path(p.as_str());
                push_str(&mut out, shown.as_str());
                string_of(&out)
            },
        }
    }
}

/// `String::from_utf8_lossy(bytes)`: the text of `bytes`, with each invalid
/// UTF-8 sequence shown as U+FFFD.
pub uninterp spec fn utf8_lossy(bytes: Seq<u8>) -> Seq<char>;

/// `String::from_utf8_lossy`: the result is named `utf8_lossy(bytes)`; the
/// claim beyond the name is the documented one that valid UTF-8 decodes as is.
#[verifier::external_body]
fn decode_utf8_lossy(bytes: &[u8]) -> (s: String)
    ensures
        s@ == utf8_lossy(bytes@),
        valid_utf8(bytes@) ==> s@ == decode_utf8(bytes@),
{
    String::from_utf8_lossy(bytes).into_owned()
}

/// The path that yt-dlp printed: the last line of the trimmed text, trimmed;
/// none when the text is blank.
pub open spec fn last_filepath(text: Seq<char>) -> Option<Seq<char>> {
    let t = trim(text);
    if t.len() == 0 {
        None
    } else {
        let ls = lines(t);
        Some(
            trim(
                if ls.len() > 0 {
                    ls.last()
                } else {
                    t
                },
            ),
        )
    }
}

/// The last line among `ls` that ends with `".srt"`.
pub open spec fn last_srt_line(ls: Seq<Seq<char>>) -> Option<Seq<char>>
    decreases ls.len(),
{
    if ls.len() == 0 {
        None
    } else if ends_with(ls.last(), ".srt"@) {
        Some(ls.last())
    } else {
        last_srt_line(ls.drop_last())
    }
}

/// The subtitle path that yt-dlp printed: the last line ending with `".srt"`,
/// or else the last line, trimmed; none when the text is blank.
pub open spec fn subtitle_path(text: Seq<char>) -> Option<Seq<char>> {
    let t = trim(text);
    if t.len() == 0 {
        None
    } else {
        let ls = lines(t);
        Some(
            trim(
                match last_srt_line(ls) {
                    Some(l) => l,
                    None => if ls.len() > 0 {
                        ls.last()
                    } else {
                        t
                    },
                },
            ),
        )
    }
}

/// The path in yt-dlp's printed text `text` (see `last_filepath`).
pub fn last_filepath_in(text: &str) -> (r: Result<String, YtdlpError>)
    ensures
        match last_filepath(text@) {
            Some(p) => (r matches Ok(s) && s@ == p),
            None => r matches Err(YtdlpError::NoFilepath),
        },
{
    let cs = chars_of(text);
    let t = trim_chars(&cs);
    if t.len() == 0 {
        return Err(YtdlpError::NoFilepath);
    }
    let ls = lines_of(&t);
    let last = if ls.len() > 0 {
        trim_chars(&ls[ls.len() - 1])
    } else {
        trim_chars(&t)
    };
    Ok(string_of(&last))
}

/// Picks the last non-empty line of yt-dlp's standard output as the path of
/// the file it wrote.
pub fn parse_last_filepath(stdout: &[u8]) -> (r: Result<String, YtdlpError>)
    ensures
        match last_filepath(utf8_lossy(stdout@)) {
            Some(p) => (r matches Ok(s) && s@ == p),
            None => r matches Err(YtdlpError::NoFilepath),
        },
{
    let text = decode_utf8_lossy(stdout);
    last_filepath_in(text.as_str())
}

/// The subtitle path in yt-dlp's printed text `text` (see `subtitle_path`).
pub fn subtitle_path_in(text: &str) -> (r: Result<String, YtdlpError>)
    ensures
        match subtitle_path(text@) {
            Some(p) => (r matches Ok(s) && s@ == p),
            None => r matches Err(YtdlpError::NoSubtitles),
        },
{
    let cs = chars_of(text);
    let t = trim_chars(&cs);
    if t.len() == 0 {
        return Err(YtdlpError::NoSubtitles);
    }
    let ls = lines_of(&t);
    let ghost all = char_lines(&ls);
    let ext = chars_of(".srt");
    let mut k = ls.len();
    assert(all.take(k as int) == all);
    while k > 0
        invariant
            k <= ls.len(),
            all == char_lines(&ls),
            all == lines(t@),
            t@ == trim(text@),
            t@.len() > 0,
            ext@ == ".srt"@,
            last_srt_line(all) == last_srt_line(all.take(k as int)),
        decreases k,
    {
        let ghost pre = all.take(k as int);
        assert(pre.last() == ls[k - 1]@);
        assert(pre.drop_last() == all.take(k - 1));
        if ends_with_chars(&ls[k - 1], &ext) {
            assert(last_srt_line(pre) == Some(ls[k - 1]@));
            assert(all == lines(t@));
            let chosen = trim_chars(&ls[k - 1]);
            return Ok(string_of(&chosen));
        }
        k -= 1;
    }
    assert(all.take(0) == Seq::<Seq<char>>::empty());
    let chosen = if ls.len() > 0 {
        trim_chars(&ls[ls.len() - 1])
    } else {
        trim_chars(&t)
    };
    Ok(string_of(&chosen))
}

/// Reads the subtitle path from yt-dlp's standard output: among the paths it
/// printed (one per language or format), the last `.srt` one.
pub fn subtitle_path_from_output(stdout: &[u8]) -> (r: Result<String, YtdlpError>)
    ensures
        match subtitle_path(utf8_lossy(stdout@)) {
            Some(p) => (r matches Ok(s) && s@ == p),
            None => r matches Err(YtdlpError::NoSubtitles),
        },
{
    let text = decode_utf8_lossy(stdout);
    subtitle_path_in(text.as_str())
}

/// The outcome of a yt-dlp run that exited (with `success` or not) after
/// printing `stdout` and `stderr`: the path it wrote, or why there is none.
pub open spec fn outcome_ok(request_subtitles: bool, stdout: Seq<u8>, path: Seq<char>) -> bool {
    if request_subtitles {
        subtitle_path(utf8_lossy(stdout)) == Some(path)
    } else {
        last_filepath(utf8_lossy(stdout)) == Some(path)
    }
}

/// What a finished yt-dlp run means: a failure carries its standard error;
/// a success names the file it wrote (see `parse_last_filepath` and
/// `subtitle_path_from_output`).
pub fn ytdlp_outcome(request: &YtdlpRequest, success: bool, stdout: &[u8], stderr: &[u8]) -> (r:
    Result<String, YtdlpError>)
    ensures
        !success ==> (r matches Err(YtdlpError::Failed { subtitles, stderr: e }) && subtitles
            == request.subtitles && e@ == utf8_lossy(stderr@)),
        success ==> match r {
            Ok(p) => outcome_ok(request.subtitles, stdout@, p@),
            Err(e) => if request.subtitles {
                e is NoSubtitles && subtitle_path(utf8_lossy(stdout@)) is None
            } else {
                e is NoFilepath && last_filepath(utf8_lossy(stdout@)) is None
            },
        },
{
    if !success {
        return Err(YtdlpError::Failed { subtitles: request.subtitles, stderr: decode_utf8_lossy(stderr) });
    }
    if request.subtitles {
        subtitle_path_from_output(stdout)
    } else {
        parse_last_filepath(stdout)
    }
}

/// The subtitle file that yt-dlp named at `path`, given whether it is on
/// disk: the path when it is, and `SubtitleFileMissing` otherwise.
pub fn subtitle_file_given(path: String, on_disk: bool) -> (r: Result<String, YtdlpError>)
    ensures
        on_disk ==> r == Ok::<String, YtdlpError>(path),
        !on_disk ==> (r matches Err(YtdlpError::SubtitleFileMissing(p)) && p@ == path@),
{
    if on_disk {
        Ok(path)
    } else {
        Err(YtdlpError::SubtitleFileMissing(path))
    }
}

/// The subtitle file that yt-dlp named at `path` (see `subtitle_file_given`);
/// whether it is on disk is asked of the file system.
pub fn subtitle_file(path: String) -> (r: Result<String, YtdlpError>)
    ensures
        r == Ok::<String, YtdlpError>(path) || (r matches Err(YtdlpError::SubtitleFileMissing(p))
            && p@ == path@),
{
    let on_disk = path_exists(path.as_str());
    subtitle_file_given(path, on_disk)
}

/// What a finished yt-dlp run wrote (see `ytdlp_outcome`), with the subtitle
/// file that a subtitle run names looked for on disk: a missing one is
/// `SubtitleFileMissing`.
pub fn ytdlp_written(request: &YtdlpRequest, success: bool, stdout: &[u8], stderr: &[u8]) -> (r:
    Result<String, YtdlpError>)
    ensures
        !success ==> (r matches Err(YtdlpError::Failed { subtitles, stderr: e }) && subtitles
            == request.subtitles && e@ == utf8_lossy(stderr@)),
        success && !request.subtitles ==> match last_filepath(utf8_lossy(stdout@)) {
            Some(p) => r matches Ok(q) && q@ == p,
            None => r matches Err(YtdlpError::NoFilepath),
        },
        success && request.subtitles ==> match subtitle_path(utf8_lossy(stdout@)) {
            Some(p) => (r matches Ok(q) && q@ == p) || (r matches Err(
                YtdlpError::SubtitleFileMissing(q),
            ) && q@ == p),
            None => r matches Err(YtdlpError::NoSubtitles),
        },
{
    let outcome = ytdlp_outcome(request, success, stdout, stderr);
    match outcome {
        Ok(p) => if request.subtitles {
            subtitle_file(p)
        } else {
            Ok(p)
        },
        Err(e) => Err(e),
    }
}

/// An audio request (the one every site's `download_*_audio` makes) hands
/// yt-dlp the URL as given, as its last argument, and asks for a browser's
/// cookies (`--cookies-from-browser` and the browser's name) exactly when one
/// is named.
pub proof fn law_audio_request_url_and_cookies(
    url: Seq<char>,
    start: Option<Seq<char>>,
    duration: Option<u64>,
    browser: Option<Seq<char>>,
    r: YtdlpRequest,
)
    requires
        audio_request(url, start, duration, browser, r),
    ensures
        arg_views(r.args@).len() > 0,
        arg_views(r.args@).last() == url,
        browser matches Some(b) ==> arg_views(r.args@)[3] == "--cookies-from-browser"@
            && arg_views(r.args@)[4] == b,
        browser is None ==> forall|i: int|
            0 <= i < arg_views(r.args@).len() - 1 ==> arg_views(r.args@)[i]
                != "--cookies-from-browser"@,
{
    let a = arg_views(r.args@);
    let flag = "--cookies-from-browser"@;
    reveal_strlit("--cookies-from-browser");
    reveal_strlit("-x");
    reveal_strlit("--audio-format");
    reveal_strlit("mp3");
    reveal_strlit("--download-sections");
    reveal_strlit("--force-keyframes-at-cuts");
    reveal_strlit("-o");
    reveal_strlit("/tmp/%(id)s.%(ext)s");
    reveal_strlit("--print");
    reveal_strlit("after_move:filepath");
    if browser is None {
        assert forall|i: int| 0 <= i < a.len() - 1 implies a[i] != flag by {
            if a[i].len() == flag.len() {
                match audio_section(start, duration) {
                    Some(sec) => {
                        if i == 4 {
                            assert(a[i] == sec);
                            assert(sec[0] == '*');
                            assert(flag[0] == '-');
                        }
                    },
                    None => {},
                }
            }
        }
    }
}

} // verus!
