use vstd::prelude::*;

use crate::text::{contains, starts_with};
use super::ytdlp::{
    audio_request, opt_view, section_in_range, subtitle_request, video_request,
    ytdlp_download_audio, ytdlp_download_subtitles, ytdlp_download_video, YtdlpRequest,
};

verus! {

/// An explicit URL (it starts with `"http"`) of a Vimeo video.
pub open spec fn vimeo_url(url: Seq<char>) -> bool {
    starts_with(url, "http"@) && (contains(url, "vimeo.com"@) || contains(url, "player.vimeo.com"@))
}

/// Returns `true` when `url` points to a Vimeo video.
///
/// Recognised patterns:
/// - `https://vimeo.com/<id>`
/// - `https://player.vimeo.com/video/<id>`
///
/// Vimeo has no free-text search like YouTube, so only explicit URLs are
/// accepted.
pub fn is_vimeo_url(url: &str) -> (r: bool)
    ensures
        r == vimeo_url(url@),
{
    crate::text::str_starts_with(url, "http") && (crate::text::str_contains(url, "vimeo.com") || crate::text::str_contains(url, "player.vimeo.com"))
}

/// The yt-dlp request for the Vimeo video at `url`.
pub fn download_vimeo_video(url: &str, browser_cookies: Option<&str>) -> (r: YtdlpRequest)
    ensures
        video_request(url@, opt_view(browser_cookies), r),
{
    ytdlp_download_video(url, browser_cookies)
}

/// The yt-dlp request for the audio (or the section asked for) of the Vimeo
/// video at `url`.
pub fn download_vimeo_audio(
    url: &str,
    start_timestamp: Option<&str>,
    duration_secs: Option<u64>,
    browser_cookies: Option<&str>,
) -> (r: YtdlpRequest)
    requires
        section_in_range(opt_view(start_timestamp), duration_secs),
    ensures
        audio_request(url@, opt_view(start_timestamp), duration_secs, opt_view(browser_cookies), r),
{
    ytdlp_download_audio(url, start_timestamp, duration_secs, browser_cookies)
}

/// The yt-dlp request for the subtitles of the Vimeo video at `url`, written
/// into `temp_dir`.
pub fn download_vimeo_subtitles(url: &str, browser_cookies: Option<&str>, temp_dir: &str) -> (r:
    YtdlpRequest)
    ensures
        subtitle_request(url@, opt_view(browser_cookies), temp_dir@, r),
{
    ytdlp_download_subtitles(url, browser_cookies, temp_dir)
}

} // verus!
