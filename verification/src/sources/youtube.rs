use vstd::prelude::*;

use crate::paths::{extension, extension_of, path_exists};
use crate::text::{chars_of, contains, push_str, starts_with, str_contains, str_starts_with, string_of};
use super::ytdlp::{
    audio_request, opt_view, section_in_range, subtitle_request, video_request,
    ytdlp_download_audio, ytdlp_download_subtitles, ytdlp_download_video, YtdlpRequest,
};

verus! {

/// `c.to_lowercase()` is the single ASCII character `t` (a lowercase letter or
/// a digit): `c` is `t`, its uppercase letter, or the Kelvin sign for `'k'`.
/// No other character lowercases to one ASCII character.
pub open spec fn lowercases_to(c: char, t: char) -> bool {
    ||| c == t
    ||| ('A' <= c && c <= 'Z' && c as u32 + 32 == t as u32)
    ||| (c == '\u{212A}' && t == 'k')
}

/// `e.to_lowercase() == target`, for a target of lowercase ASCII letters and digits.
pub open spec fn lowercase_is(e: Seq<char>, target: Seq<char>) -> bool {
    e.len() == target.len() && forall|i: int| 0 <= i < e.len() ==> lowercases_to(e[i], target[i])
}

/// The extension of a media file, in any case.
pub open spec fn is_media_extension(e: Seq<char>) -> bool {
    ||| lowercase_is(e, "mp4"@)
    ||| lowercase_is(e, "mkv"@)
    ||| lowercase_is(e, "avi"@)
    ||| lowercase_is(e, "mov"@)
    ||| lowercase_is(e, "mp3"@)
    ||| lowercase_is(e, "wav"@)
    ||| lowercase_is(e, "flac"@)
    ||| lowercase_is(e, "ogg"@)
    ||| lowercase_is(e, "m4a"@)
}

/// The path `q` ends in a media file name.
pub open spec fn has_media_extension(q: Seq<char>) -> bool {
    match extension(q) {
        Some(e) => is_media_extension(e),
        None => false,
    }
}

/// Whether `query` is a YouTube query, when `on_disk` tells whether a file
/// exists at the path `query`: a URL (starting with `"http"`) is one when it
/// names youtube.com or youtu.be; other text is one unless it is an existing
/// path or ends in a media file name (a broken local path).
pub open spec fn youtube_query(query: Seq<char>, on_disk: bool) -> bool {
    if starts_with(query, "http"@) {
        contains(query, "youtube.com"@) || contains(query, "youtu.be"@)
    } else if on_disk {
        false
    } else {
        !has_media_extension(query)
    }
}

fn lowercase_is_exec(e: &[char], target: &[char]) -> (r: bool)
    ensures
        r == lowercase_is(e@, target@),
{
    if e.len() != target.len() {
        return false;
    }
    for i in 0..e.len()
        invariant
            e.len() == target.len(),
            forall|k: int| 0 <= k < i ==> lowercases_to(e@[k], target@[k]),
    {
        let c = e[i];
        let t = target[i];
        if !(c == t || ('A' <= c && c <= 'Z' && (c as u32) + 32 == (t as u32)) || (c == '\u{212A}'
            && t == 'k')) {
            return false;
        }
    }
    true
}

fn is_lowercase(e: &[char], target: &str) -> (r: bool)
    ensures
        r == lowercase_is(e@, target@),
{
    let t = chars_of(target);
    lowercase_is_exec(e, &t)
}

/// Whether `e` is a media extension (see `is_media_extension`).
pub fn media_extension(e: &[char]) -> (r: bool)
    ensures
        r == is_media_extension(e@),
{
    is_lowercase(e, "mp4") || is_lowercase(e, "mkv") || is_lowercase(e, "avi") || is_lowercase(
        e,
        "mov",
    ) || is_lowercase(e, "mp3") || is_lowercase(e, "wav") || is_lowercase(e, "flac")
        || is_lowercase(e, "ogg") || is_lowercase(e, "m4a")
}

/// Decides whether `query` is a YouTube query, given whether a file exists
/// at that path (see `youtube_query`).
pub fn is_youtube_query_given(query: &str, on_disk: bool) -> (r: bool)
    ensures
        r == youtube_query(query@, on_disk),
{
    if str_starts_with(query, "http") {
        return str_contains(query, "youtube.com") || str_contains(query, "youtu.be");
    }
    if on_disk {
        return false;
    }
    let cs = chars_of(query);
    match extension_of(&cs) {
        Some(e) => !media_extension(&e),
        None => true,
    }
}

/// Returns `true` when `query` is a YouTube URL or a free-text search query
/// (not a local file path, nor a Vimeo or other platform URL). Whether a
/// file exists at that path is asked of the file system.
pub fn is_youtube_query(query: &str) -> (r: bool)
    ensures
        exists|on_disk: bool| r == youtube_query(query@, on_disk),
{
    if str_starts_with(query, "http") {
        return is_youtube_query_given(query, false);
    }
    let on_disk = path_exists(query);
    is_youtube_query_given(query, on_disk)
}

/// The URL that yt-dlp gets for a YouTube query: an explicit URL as is, or
/// a search for the first result.
pub open spec fn query_url(query: Seq<char>) -> Seq<char> {
    if starts_with(query, "http"@) {
        query
    } else {
        "ytsearch1:"@ + query
    }
}

/// Converts a free-text query to a `ytsearch1:` URL; leaves explicit URLs untouched.
pub fn youtube_query_to_url(query: &str) -> (s: String)
    ensures
        s@ == query_url(query@),
{
    if str_starts_with(query, "http") {
        query.to_owned()
    } else {
        let mut out = chars_of("ytsearch1:");
        push_str(&mut out, query);
        string_of(&out)
    }
}

/// The yt-dlp request for the video that the YouTube query names.
pub fn download_youtube_video(query: &str, browser_cookies: Option<&str>) -> (r: YtdlpRequest)
    ensures
        video_request(query_url(query@), opt_view(browser_cookies), r),
{
    let url = youtube_query_to_url(query);
    ytdlp_download_video(url.as_str(), browser_cookies)
}

/// The yt-dlp request for the audio (or the section asked for) of the video
/// that the YouTube query names.
pub fn download_youtube_audio(
    query: &str,
    start_timestamp: Option<&str>,
    duration_secs: Option<u64>,
    browser_cookies: Option<&str>,
) -> (r: YtdlpRequest)
    requires
        section_in_range(opt_view(start_timestamp), duration_secs),
    ensures
        audio_request(
            query_url(query@),
            opt_view(start_timestamp),
            duration_secs,
            opt_view(browser_cookies),
            r,
        ),
{
    let url = youtube_query_to_url(query);
    ytdlp_download_audio(url.as_str(), start_timestamp, duration_secs, browser_cookies)
}

/// The yt-dlp request for the subtitles of the video that the YouTube query
/// names, written into `temp_dir`.
pub fn download_youtube_subtitles(query: &str, browser_cookies: Option<&str>, temp_dir: &str) -> (r:
    YtdlpRequest)
    ensures
        subtitle_request(query_url(query@), opt_view(browser_cookies), temp_dir@, r),
{
    let url = youtube_query_to_url(query);
    ytdlp_download_subtitles(url.as_str(), browser_cookies, temp_dir)
}

/// A Vimeo URL is not a YouTube query, unless it names youtube.com or
/// youtu.be somewhere in it.
pub proof fn law_vimeo_url_is_not_youtube(query: Seq<char>, on_disk: bool)
    requires
        super::vimeo::vimeo_url(query),
        !contains(query, "youtube.com"@),
        !contains(query, "youtu.be"@),
    ensures
        !youtube_query(query, on_disk),
{
}

/// Free text that names no file and does not end in a media file name is a
/// YouTube search, and its URL asks yt-dlp for the first search result.
pub proof fn law_free_text_is_a_search(query: Seq<char>)
    requires
        !starts_with(query, "http"@),
        !has_media_extension(query),
    ensures
        youtube_query(query, false),
        query_url(query) == "ytsearch1:"@ + query,
{
}

/// An explicit URL (one that starts with `"http"`) is a YouTube query exactly
/// when it names youtube.com or youtu.be, whatever its path (`/watch`,
/// `/shorts/`, `/live/`, ...) and whether or not a file exists at it.
pub proof fn law_youtube_urls(query: Seq<char>, on_disk: bool)
    requires
        starts_with(query, "http"@),
    ensures
        youtube_query(query, on_disk) <==> (contains(query, "youtube.com"@) || contains(
            query,
            "youtu.be"@,
        )),
{
}

} // verus!
