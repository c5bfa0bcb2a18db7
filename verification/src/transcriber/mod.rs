//! The decisions of the `transcribe_media` tool: which source the media
//! comes from, whether official subtitles are tried first and what they
//! answer, what audio is fetched, and which window ffmpeg cuts.
use vstd::prelude::*;

pub mod steps;

use crate::audio::utils::{clean_srt, srt_plain_text};
use crate::sources::instagram::{
    download_instagram_audio, download_instagram_subtitles, instagram_url, is_instagram_url,
};
use crate::sources::reddit::{download_reddit_audio, download_reddit_subtitles, is_reddit_url, reddit_url};
use crate::sources::twitter::{
    download_twitter_audio, download_twitter_subtitles, is_twitter_url, twitter_url,
};
use crate::sources::vimeo::{download_vimeo_audio, download_vimeo_subtitles, is_vimeo_url, vimeo_url};
use crate::sources::youtube::{
    download_youtube_audio, download_youtube_subtitles, is_youtube_query_given, query_url,
    youtube_query,
};
use crate::sources::ytdlp::{
    audio_request, opt_view, section_in_range, subtitle_request, YtdlpRequest,
};
use crate::paths::path_exists;
use crate::text::{eq_ignore_ascii_case, str_eq, str_eq_ignore_ascii_case, str_starts_with, starts_with};

verus! {

/// Arguments of the `transcribe_media` tool.
#[derive(Debug)]
pub struct TranscribeTool {
    /// Local path to the media file, a YouTube URL or search query, or a Vimeo,
    /// Reddit, Twitter/X or Instagram URL.
    pub file_path: String,
    /// `"transcribe"` (the default) or `"translate"` (to English).
    pub task: Option<String>,
    /// `"text"` (the default), `"text_speakers"` or `"srt"`.
    pub output_format: Option<String>,
    /// Start of the part to transcribe (e.g. `"00:20:00"` or `"1200"`).
    pub start_timestamp: Option<String>,
    /// Seconds to transcribe from the start.
    pub duration_secs: Option<u64>,
    /// Source hint: `"youtube"`, `"vimeo"`, `"reddit"`, `"twitter"` or `"instagram"`.
    pub source: Option<String>,
    /// Browser to take cookies from (e.g. `"chrome"`), for sources that need a login.
    pub browser_cookies: Option<String>,
}

/// Where the media comes from.
#[derive(Debug, Clone, Copy, PartialEq, Eq, Structural)]
pub enum MediaSource {
    YouTube,
    Vimeo,
    Reddit,
    Twitter,
    Instagram,
    Local,
}

/// The text of an optional string.
pub open spec fn opt_string_view(o: Option<String>) -> Option<Seq<char>> {
    match o {
        Some(s) => Some(s@),
        None => None,
    }
}

/// The source of `file_path`, with the hint `hint` and `on_disk` telling
/// whether a file exists at that path: a hint (in any ASCII case) names the
/// source; otherwise Instagram, Twitter, Reddit and Vimeo URLs are recognised
/// in that order, then YouTube queries, and the rest is local.
pub open spec fn media_source(file_path: Seq<char>, hint: Option<Seq<char>>, on_disk: bool) -> MediaSource {
    if hint matches Some(h) && eq_ignore_ascii_case(h, "instagram"@) {
        MediaSource::Instagram
    } else if hint matches Some(h) && eq_ignore_ascii_case(h, "twitter"@) {
        MediaSource::Twitter
    } else if hint matches Some(h) && eq_ignore_ascii_case(h, "reddit"@) {
        MediaSource::Reddit
    } else if hint matches Some(h) && eq_ignore_ascii_case(h, "vimeo"@) {
        MediaSource::Vimeo
    } else if hint matches Some(h) && eq_ignore_ascii_case(h, "youtube"@) {
        MediaSource::YouTube
    } else if instagram_url(file_path) {
        MediaSource::Instagram
    } else if twitter_url(file_path) {
        MediaSource::Twitter
    } else if reddit_url(file_path) {
        MediaSource::Reddit
    } else if vimeo_url(file_path) {
        MediaSource::Vimeo
    } else if youtube_query(file_path, on_disk) {
        MediaSource::YouTube
    } else {
        MediaSource::Local
    }
}

fn hint_is(hint: Option<&str>, name: &str) -> (r: bool)
    ensures
        r == (hint matches Some(h) && eq_ignore_ascii_case(h@, name@)),
{
    match hint {
        Some(h) => str_eq_ignore_ascii_case(h, name),
        None => false,
    }
}

impl MediaSource {
    /// The source of `file_path` given whether a file exists at that path
    /// (see `media_source`).
    pub fn detect_given(file_path: &str, source_hint: Option<&str>, on_disk: bool) -> (r: MediaSource)
        ensures
            r == media_source(file_path@, opt_view(source_hint), on_disk),
    {
        if hint_is(source_hint, "instagram") {
            MediaSource::Instagram
        } else if hint_is(source_hint, "twitter") {
            MediaSource::Twitter
        } else if hint_is(source_hint, "reddit") {
            MediaSource::Reddit
        } else if hint_is(source_hint, "vimeo") {
            MediaSource::Vimeo
        } else if hint_is(source_hint, "youtube") {
            MediaSource::YouTube
        } else if is_instagram_url(file_path) {
            MediaSource::Instagram
        } else if is_twitter_url(file_path) {
            MediaSource::Twitter
        } else if is_reddit_url(file_path) {
            MediaSource::Reddit
        } else if is_vimeo_url(file_path) {
            MediaSource::Vimeo
        } else if is_youtube_query_given(file_path, on_disk) {
            MediaSource::YouTube
        } else {
            MediaSource::Local
        }
    }

    /// The source of `file_path` (see `media_source`); whether a file exists
    /// at that path is asked of the file system, when it matters.
    pub fn detect(file_path: &str, source_hint: Option<&str>) -> (r: MediaSource)
        ensures
            exists|on_disk: bool| r == media_source(file_path@, opt_view(source_hint), on_disk),
    {
        let on_disk = if str_starts_with(file_path, "http") {
            false
        } else {
            path_exists(file_path)
        };
        MediaSource::detect_given(file_path, source_hint, on_disk)
    }
}

/// The settings of a transcription.
#[derive(Debug)]
pub struct TranscribePlan {
    /// `"transcribe"` or `"translate"` (or what was asked).
    pub task: String,
    /// `"text"`, `"text_speakers"` or `"srt"` (or what was asked).
    pub output_format: String,
    /// Where the media comes from.
    pub source: MediaSource,
    /// Official subtitles are tried first: the task is `"transcribe"` and
    /// the media is remote.
    pub try_subtitles: bool,
    /// Whisper translates to English: the task is `"translate"`.
    pub translate: bool,
}

fn string_or(o: &Option<String>, default: &str) -> (r: String)
    ensures
        r@ == match opt_string_view(*o) {
            Some(s) => s,
            None => default@,
        },
{
    match o {
        Some(s) => s.clone(),
        None => default.to_owned(),
    }
}

fn opt_str(o: &Option<String>) -> (r: Option<&str>)
    ensures
        opt_view(r) == opt_string_view(*o),
{
    match o {
        Some(s) => Some(s.as_str()),
        None => None,
    }
}

/// The settings of a transcription asked for with `args`: the task (default
/// `"transcribe"`), the output format (default `"text"`), the source, and
/// whether subtitles are tried first.
pub fn plan_transcription(args: &TranscribeTool) -> (r: TranscribePlan)
    ensures
        r.task@ == match opt_string_view(args.task) {
            Some(t) => t,
            None => "transcribe"@,
        },
        r.output_format@ == match opt_string_view(args.output_format) {
            Some(f) => f,
            None => "text"@,
        },
        exists|on_disk: bool|
            r.source == media_source(args.file_path@, opt_string_view(args.source), on_disk),
        r.try_subtitles == (r.task@ == "transcribe"@ && r.source != MediaSource::Local),
        r.translate == (r.task@ == "translate"@),
{
    let task = string_or(&args.task, "transcribe");
    let output_format = string_or(&args.output_format, "text");
    let source = MediaSource::detect(args.file_path.as_str(), opt_str(&args.source));
    let try_subtitles = str_eq(task.as_str(), "transcribe") && source != MediaSource::Local;
    let translate = str_eq(task.as_str(), "translate");
    TranscribePlan { task, output_format, source, try_subtitles, translate }
}

/// The request for the subtitles of a remote source, written into `temp_dir`;
/// none for local media.
pub fn subtitle_request_for(source: MediaSource, args: &TranscribeTool, temp_dir: &str) -> (r:
    Option<YtdlpRequest>)
    ensures
        source == MediaSource::Local ==> r is None,
        source == MediaSource::YouTube ==> (r matches Some(q) && subtitle_request(
            query_url(args.file_path@),
            opt_string_view(args.browser_cookies),
            temp_dir@,
            q,
        )),
        (source != MediaSource::Local && source != MediaSource::YouTube) ==> (r matches Some(q)
            && subtitle_request(
            args.file_path@,
            opt_string_view(args.browser_cookies),
            temp_dir@,
            q,
        )),
{
    let url = args.file_path.as_str();
    let cookies = opt_str(&args.browser_cookies);
    match source {
        MediaSource::YouTube => Some(download_youtube_subtitles(url, cookies, temp_dir)),
        MediaSource::Vimeo => Some(download_vimeo_subtitles(url, cookies, temp_dir)),
        MediaSource::Reddit => Some(download_reddit_subtitles(url, cookies, temp_dir)),
        MediaSource::Twitter => Some(download_twitter_subtitles(url, cookies, temp_dir)),
        MediaSource::Instagram => Some(download_instagram_subtitles(url, cookies, temp_dir)),
        MediaSource::Local => None,
    }
}

/// What the subtitles answer, once filtered to the window asked for: their
/// plain text for `"text"`, the SRT itself for `"srt"`, and nothing for any
/// other format (speaker turns need Whisper).
pub fn subtitle_reply(filtered_srt: &str, output_format: &str) -> (r: Option<String>)
    ensures
        output_format@ == "text"@ ==> (r matches Some(t) && t@ == srt_plain_text(filtered_srt@)),
        output_format@ == "srt"@ ==> (r matches Some(t) && t@ == filtered_srt@),
        output_format@ != "text"@ && output_format@ != "srt"@ ==> r is None,
{
    proof {
        reveal_strlit("text");
        reveal_strlit("srt");
        assert("text"@.len() != "srt"@.len());
    }
    if str_eq(output_format, "text") {
        Some(clean_srt(filtered_srt))
    } else if str_eq(output_format, "srt") {
        Some(filtered_srt.to_owned())
    } else {
        None
    }
}

/// The request for the audio of a remote source (only the window asked for
/// is fetched); none for local media.
pub fn audio_request_for(source: MediaSource, args: &TranscribeTool) -> (r: Option<YtdlpRequest>)
    requires
        source != MediaSource::Local ==> section_in_range(
            opt_string_view(args.start_timestamp),
            args.duration_secs,
        ),
    ensures
        source == MediaSource::Local ==> r is None,
        source == MediaSource::YouTube ==> (r matches Some(q) && audio_request(
            query_url(args.file_path@),
            opt_string_view(args.start_timestamp),
            args.duration_secs,
            opt_string_view(args.browser_cookies),
            q,
        )),
        (source != MediaSource::Local && source != MediaSource::YouTube) ==> (r matches Some(q)
            && audio_request(
            args.file_path@,
            opt_string_view(args.start_timestamp),
            args.duration_secs,
            opt_string_view(args.browser_cookies),
            q,
        )),
{
    let url = args.file_path.as_str();
    let start = opt_str(&args.start_timestamp);
    let cookies = opt_str(&args.browser_cookies);
    let d = args.duration_secs;
    match source {
        MediaSource::YouTube => Some(download_youtube_audio(url, start, d, cookies)),
        MediaSource::Vimeo => Some(download_vimeo_audio(url, start, d, cookies)),
        MediaSource::Reddit => Some(download_reddit_audio(url, start, d, cookies)),
        MediaSource::Twitter => Some(download_twitter_audio(url, start, d, cookies)),
        MediaSource::Instagram => Some(download_instagram_audio(url, start, d, cookies)),
        MediaSource::Local => None,
    }
}

/// The window that ffmpeg cuts when converting to WAV: the one asked for,
/// for local media; none for remote media, which yt-dlp already cut.
pub fn ffmpeg_window(source: MediaSource, args: &TranscribeTool) -> (r: (Option<String>, Option<u64>))
    ensures
        source == MediaSource::Local ==> opt_string_view(r.0) == opt_string_view(args.start_timestamp)
            && r.1 == args.duration_secs,
        source != MediaSource::Local ==> r.0 is None && r.1 is None,
{
    match source {
        MediaSource::Local => {
            let start = match &args.start_timestamp {
                Some(s) => Some(s.clone()),
                None => None,
            };
            (start, args.duration_secs)
        },
        _ => (None, None),
    }
}

/// A source hint names the source, whatever the path looks like.
pub proof fn law_hint_wins(file_path: Seq<char>, hint: Seq<char>, on_disk: bool)
    requires
        eq_ignore_ascii_case(hint, "vimeo"@) || eq_ignore_ascii_case(hint, "reddit"@)
            || eq_ignore_ascii_case(hint, "twitter"@) || eq_ignore_ascii_case(hint, "instagram"@)
            || eq_ignore_ascii_case(hint, "youtube"@),
    ensures
        media_source(file_path, Some(hint), on_disk) != MediaSource::Local,
        eq_ignore_ascii_case(hint, "vimeo"@) && !eq_ignore_ascii_case(hint, "instagram"@)
            && !eq_ignore_ascii_case(hint, "twitter"@) && !eq_ignore_ascii_case(hint, "reddit"@)
            ==> media_source(file_path, Some(hint), on_disk) == MediaSource::Vimeo,
{
}

/// Without a hint, an existing file that is no URL is local media, and the
/// platforms' URLs are recognised as theirs.
pub proof fn law_detection_without_hint(file_path: Seq<char>, on_disk: bool)
    ensures
        !starts_with(file_path, "http"@) && on_disk ==> media_source(file_path, None, on_disk)
            == MediaSource::Local,
        instagram_url(file_path) ==> media_source(file_path, None, on_disk)
            == MediaSource::Instagram,
        !instagram_url(file_path) && twitter_url(file_path) ==> media_source(file_path, None, on_disk)
            == MediaSource::Twitter,
        !starts_with(file_path, "http"@) ==> media_source(file_path, None, on_disk) == if youtube_query(
            file_path,
            on_disk,
        ) {
            MediaSource::YouTube
        } else {
            MediaSource::Local
        },
{
    crate::sources::twitter::lemma_twitter_url_is_http(file_path);
}

} // verus!
