use vstd::prelude::*;

use crate::text::{chars_of, occurs_at_exec, starts_with};
use super::ytdlp::{
    audio_request, opt_view, section_in_range, subtitle_request, video_request,
    ytdlp_download_audio, ytdlp_download_subtitles, ytdlp_download_video, YtdlpRequest,
};

verus! {

/// `rest` starts with a Twitter / X host and the `/` after it: `twitter.com`,
/// `x.com` or `t.co`.
pub open spec fn twitter_host(rest: Seq<char>) -> bool {
    starts_with(rest, "twitter.com/"@) || starts_with(rest, "x.com/"@) || starts_with(rest, "t.co/"@)
}

/// An explicit URL of a Twitter / X video: `http://` or `https://`, an
/// optional `www.`, then the host `twitter.com`, `x.com` or `t.co` and a `/`.
pub open spec fn twitter_url(url: Seq<char>) -> bool {
    let rest = if starts_with(url, "https://"@) {
        Some(url.skip(8))
    } else if starts_with(url, "http://"@) {
        Some(url.skip(7))
    } else {
        None
    };
    match rest {
        Some(r) => twitter_host(r) || (starts_with(r, "www."@) && twitter_host(r.skip(4))),
        None => false,
    }
}

/// Whether `cs[i..]` starts with `pat`.
fn starts_with_at(cs: &[char], pat: &str, i: usize) -> (r: bool)
    requires
        i <= cs.len(),
    ensures
        r == starts_with(cs@.skip(i as int), pat@),
{
    let p = chars_of(pat);
    let r = occurs_at_exec(cs, &p, i);
    assert(r == starts_with(cs@.skip(i as int), pat@)) by {
        if i + p@.len() <= cs@.len() {
            assert(cs@.skip(i as int).take(p@.len() as int) =~= cs@.subrange(
                i as int,
                i + p@.len(),
            ));
        }
    }
    r
}

fn twitter_host_at(cs: &[char], i: usize) -> (r: bool)
    requires
        i <= cs.len(),
    ensures
        r == twitter_host(cs@.skip(i as int)),
{
    starts_with_at(cs, "twitter.com/", i) || starts_with_at(cs, "x.com/", i) || starts_with_at(
        cs,
        "t.co/",
        i,
    )
}

/// Returns `true` when `url` points to a Twitter / X video (see `twitter_url`).
///
/// Recognised patterns:
/// - `https://twitter.com/<user>/status/<id>`
/// - `https://www.twitter.com/<user>/status/<id>`
/// - `https://x.com/<user>/status/<id>`
/// - `https://www.x.com/<user>/status/<id>`
/// - `https://t.co/<shortcode>`
///
/// Twitter has no free-text search like YouTube, so only explicit URLs are
/// accepted.
pub fn is_twitter_url(url: &str) -> (r: bool)
    ensures
        r == twitter_url(url@),
{
    let cs = chars_of(url);
    assert(cs@.skip(0) == cs@);
    proof {
        reveal_strlit("https://");
        reveal_strlit("http://");
        reveal_strlit("www.");
    }
    let start: usize = if starts_with_at(&cs, "https://", 0) {
        8
    } else if starts_with_at(&cs, "http://", 0) {
        7
    } else {
        return false;
    };
    if twitter_host_at(&cs, start) {
        return true;
    }
    if starts_with_at(&cs, "www.", start) {
        assert(start + 4 <= cs.len());
        assert(cs@.skip(start as int).skip(4) =~= cs@.skip(start + 4));
        twitter_host_at(&cs, start + 4)
    } else {
        false
    }
}

/// The yt-dlp request for the Twitter video at `url`.
pub fn download_twitter_video(url: &str, browser_cookies: Option<&str>) -> (r: YtdlpRequest)
    ensures
        video_request(url@, opt_view(browser_cookies), r),
{
    ytdlp_download_video(url, browser_cookies)
}

/// The yt-dlp request for the audio (or the section asked for) of the Twitter
/// video at `url`.
pub fn download_twitter_audio(
    url: &str,
    start_timestamp: Option<&str>,
    duration_secs: Option<u64>,
    browser_cookies: Option<&str>,
) -> (r: YtdlpRequest)
    requires
        section_in_range(opt_view(start_timestamp), duration_secs),
    ensures
        audio_request(url@, opt_view(start_timestamp), duration_secs, opt_view(browser_cookies), r),
{
    ytdlp_download_audio(url, start_timestamp, duration_secs, browser_cookies)
}

/// The yt-dlp request for the subtitles of the Twitter video at `url`, written
/// into `temp_dir`.
pub fn download_twitter_subtitles(url: &str, browser_cookies: Option<&str>, temp_dir: &str) -> (r:
    YtdlpRequest)
    ensures
        subtitle_request(url@, opt_view(browser_cookies), temp_dir@, r),
{
    ytdlp_download_subtitles(url, browser_cookies, temp_dir)
}

/// A Twitter / X URL is an explicit URL: it starts with `"http"`.
pub proof fn lemma_twitter_url_is_http(url: Seq<char>)
    ensures
        twitter_url(url) ==> starts_with(url, "http"@),
{
    reveal_strlit("https://");
    reveal_strlit("http://");
    reveal_strlit("http");
    if starts_with(url, "https://"@) {
        assert(url.take(4) =~= url.take(8).take(4));
        assert("https://"@.take(4) =~= "http"@);
    } else if starts_with(url, "http://"@) {
        assert(url.take(4) =~= url.take(7).take(4));
        assert("http://"@.take(4) =~= "http"@);
    }
}

} // verus!
