use vstd::prelude::*;

use crate::text::{contains, starts_with};
use super::ytdlp::{
    audio_request, opt_view, section_in_range, subtitle_request, video_request,
    ytdlp_download_audio, ytdlp_download_subtitles, ytdlp_download_video, YtdlpRequest,
};

verus! {

/// An explicit URL (it starts with `"http"`) of an Instagram video (Reels, Posts, IGTV).
pub open spec fn instagram_url(url: Seq<char>) -> bool {
    starts_with(url, "http"@) && (contains(url, "instagram.com/"@))
}

/// Returns `true` when `url` points to an Instagram video (Reels, Posts, IGTV).
///
/// Recognised patterns:
/// - `https://www.instagram.com/reel/<id>`
/// - `https://www.instagram.com/p/<id>`
/// - `https://instagram.com/reel/<id>`
/// - `https://instagram.com/p/<id>`
///
/// Instagram has no free-text search like YouTube, so only explicit URLs are
/// accepted.
///
/// Instagram requires a login for almost all media: pass `browser_cookies`
/// (e.g. `"chrome"`) so that yt-dlp can use the session of that browser.
pub fn is_instagram_url(url: &str) -> (r: bool)
    ensures
        r == instagram_url(url@),
{
    crate::text::str_starts_with(url, "http") && (crate::text::str_contains(url, "instagram.com/"))
}

/// The yt-dlp request for the Instagram video at `url`.
pub fn download_instagram_video(url: &str, browser_cookies: Option<&str>) -> (r: YtdlpRequest)
    ensures
        video_request(url@, opt_view(browser_cookies), r),
{
    ytdlp_download_video(url, browser_cookies)
}

/// The yt-dlp request for the audio (or the section asked for) of the Instagram
/// video at `url`.
pub fn download_instagram_audio(
    url: &str,
    start_timestamp: Option<&str>,
    duration_secs: Option<u64>,
    browser_cookies: Option<&str>,
) -> (r: YtdlpRequest)
    requires
        section_in_range(opt_view(start_timestamp), duration_secs),
    ensures
        audio_request(url@, opt_view(start_timestamp), duration_secs, opt_view(browser_cookies), r),
{
    ytdlp_download_audio(url, start_timestamp, duration_secs, browser_cookies)
}

/// The yt-dlp request for the subtitles of the Instagram video at `url`, written
/// into `temp_dir`.
pub fn download_instagram_subtitles(url: &str, browser_cookies: Option<&str>, temp_dir: &str) -> (r:
    YtdlpRequest)
    ensures
        subtitle_request(url@, opt_view(browser_cookies), temp_dir@, r),
{
    ytdlp_download_subtitles(url, browser_cookies, temp_dir)
}

} // verus!
