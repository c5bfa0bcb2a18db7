use vstd::prelude::*;

use crate::text::{contains, starts_with};
use super::ytdlp::{
    audio_request, opt_view, section_in_range, subtitle_request, video_request,
    ytdlp_download_audio, ytdlp_download_subtitles, ytdlp_download_video, YtdlpRequest,
};

verus! {

/// An explicit URL (it starts with `"http"`) of a TikTok video.
pub open spec fn tiktok_url(url: Seq<char>) -> bool {
    starts_with(url, "http"@) && (contains(url, "tiktok.com/"@))
}

/// Returns `true` when `url` points to a TikTok video.
///
/// Recognised patterns:
/// - `https://www.tiktok.com/@<user>/video/<id>`
/// - `https://tiktok.com/@<user>/video/<id>`
/// - `https://vm.tiktok.com/<shortcode>`
/// - `https://vt.tiktok.com/<shortcode>`
///
/// TikTok has no free-text search like YouTube, so only explicit URLs are
/// accepted.
///
/// Some TikTok videos are blocked by region: `browser_cookies` (e.g.
/// `"chrome"`) lets yt-dlp use a logged-in session.
pub fn is_tiktok_url(url: &str) -> (r: bool)
    ensures
        r == tiktok_url(url@),
{
    crate::text::str_starts_with(url, "http") && (crate::text::str_contains(url, "tiktok.com/"))
}

/// The yt-dlp request for the TikTok video at `url`.
pub fn download_tiktok_video(url: &str, browser_cookies: Option<&str>) -> (r: YtdlpRequest)
    ensures
        video_request(url@, opt_view(browser_cookies), r),
{
    ytdlp_download_video(url, browser_cookies)
}

/// The yt-dlp request for the audio (or the section asked for) of the TikTok
/// video at `url`.
pub fn download_tiktok_audio(
    url: &str,
    start_timestamp: Option<&str>,
    duration_secs: Option<u64>,
    browser_cookies: Option<&str>,
) -> (r: YtdlpRequest)
    requires
        section_in_range(opt_view(start_timestamp), duration_secs),
    ensures
        audio_request(url@, opt_view(start_timestamp), duration_secs, opt_view(browser_cookies), r),
{
    ytdlp_download_audio(url, start_timestamp, duration_secs, browser_cookies)
}

/// The yt-dlp request for the subtitles of the TikTok video at `url`, written
/// into `temp_dir`.
pub fn download_tiktok_subtitles(url: &str, browser_cookies: Option<&str>, temp_dir: &str) -> (r:
    YtdlpRequest)
    ensures
        subtitle_request(url@, opt_view(browser_cookies), temp_dir@, r),
{
    ytdlp_download_subtitles(url, browser_cookies, temp_dir)
}

} // verus!
