use vstd::prelude::*;

use crate::text::{contains, starts_with};
use super::ytdlp::{
    audio_request, opt_view, section_in_range, subtitle_request, video_request,
    ytdlp_download_audio, ytdlp_download_subtitles, ytdlp_download_video, YtdlpRequest,
};

verus! {

/// An explicit URL (it starts with `"http"`) of a Reddit video.
pub open spec fn reddit_url(url: Seq<char>) -> bool {
    starts_with(url, "http"@) && (contains(url, "reddit.com/"@) || contains(url, "v.redd.it/"@))
}

/// Returns `true` when `url` points to a Reddit video.
///
/// Recognised patterns:
/// - `https://www.reddit.com/r/…`
/// - `https://reddit.com/r/…`
/// - `https://old.reddit.com/r/…`
/// - `https://v.redd.it/…`
///
/// Reddit has no free-text search like YouTube, so only explicit URLs are
/// accepted.
pub fn is_reddit_url(url: &str) -> (r: bool)
    ensures
        r == reddit_url(url@),
{
    crate::text::str_starts_with(url, "http") && (crate::text::str_contains(url, "reddit.com/") || crate::text::str_contains(url, "v.redd.it/"))
}

/// The yt-dlp request for the Reddit video at `url`.
pub fn download_reddit_video(url: &str, browser_cookies: Option<&str>) -> (r: YtdlpRequest)
    ensures
        video_request(url@, opt_view(browser_cookies), r),
{
    ytdlp_download_video(url, browser_cookies)
}

/// The yt-dlp request for the audio (or the section asked for) of the Reddit
/// video at `url`.
pub fn download_reddit_audio(
    url: &str,
    start_timestamp: Option<&str>,
    duration_secs: Option<u64>,
    browser_cookies: Option<&str>,
) -> (r: YtdlpRequest)
    requires
        section_in_range(opt_view(start_timestamp), duration_secs),
    ensures
        audio_request(url@, opt_view(start_timestamp), duration_secs, opt_view(browser_cookies), r),
{
    ytdlp_download_audio(url, start_timestamp, duration_secs, browser_cookies)
}

/// The yt-dlp request for the subtitles of the Reddit video at `url`, written
/// into `temp_dir`.
pub fn download_reddit_subtitles(url: &str, browser_cookies: Option<&str>, temp_dir: &str) -> (r:
    YtdlpRequest)
    ensures
        subtitle_request(url@, opt_view(browser_cookies), temp_dir@, r),
{
    ytdlp_download_subtitles(url, browser_cookies, temp_dir)
}

} // verus!
