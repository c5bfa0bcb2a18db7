use media_transcriber_mcp::audio::utils::clean_srt;
use media_transcriber_mcp::audio::{format_srt_segment, format_timestamp};
use media_transcriber_mcp::sources::instagram::is_instagram_url;
use media_transcriber_mcp::sources::reddit::is_reddit_url;
use media_transcriber_mcp::sources::tiktok::is_tiktok_url;
use media_transcriber_mcp::sources::twitter::is_twitter_url;
use media_transcriber_mcp::sources::vimeo::is_vimeo_url;
use media_transcriber_mcp::sources::youtube::is_youtube_query;
use media_transcriber_mcp::sources::ytdlp::parse_timestamp_to_secs;
use media_transcriber_mcp::srt::{srt_cues, srt_seconds_field};
use media_transcriber_mcp::transcriber::MediaSource;

/// The whole seconds of an SRT time's seconds part, read as the application
/// reads it: as a float, truncated.
fn whole_seconds(ts: &str) -> u64 {
    match srt_seconds_field(ts) {
        Some(field) => field.parse::<f64>().unwrap_or(0.0) as u64,
        None => 0,
    }
}

/// Filters an SRT document to a time range, with the seconds parts of its
/// times read by `whole_seconds`.
fn filter_srt_by_range(srt: &str, start: Option<u64>, duration: Option<u64>) -> String {
    let seconds: Vec<(u64, u64)> = srt_cues(srt)
        .iter()
        .map(|c| (whole_seconds(&c.start_ts), whole_seconds(&c.end_ts)))
        .collect();
    media_transcriber_mcp::srt::filter_srt_by_range(srt, start, duration, &seconds)
        .expect("range overflows")
}

#[test]
fn test_format_timestamp() {
    assert_eq!(format_timestamp(0), "00:00:00,000");
    assert_eq!(format_timestamp(1), "00:00:00,010"); // 1 tick = 10 ms
    assert_eq!(format_timestamp(150), "00:00:01,500"); // 1500 ms = 1.5s
    assert_eq!(format_timestamp(360000), "01:00:00,000"); // 1 hour
}

#[test]
fn test_format_srt_segment() {
    let expected = "1\n00:00:01,500 --> 00:00:02,500\nHello world\n\n";
    let segment = format_srt_segment(1, 150, 250, " Hello world ");
    assert_eq!(segment, expected);
}

#[test]
fn test_clean_srt() {
    let srt = "1\n00:00:01,500 --> 00:00:02,500\nHello world\n\n2\n00:00:02,500 --> 00:00:03,500\n[Speaker 1] This is a test\n";
    let cleaned = clean_srt(srt);
    assert_eq!(cleaned, "Hello world [Speaker 1] This is a test");
}

#[test]
fn test_is_instagram_url() {
    assert!(is_instagram_url("https://www.instagram.com/reel/C72x942o0oG/"));
    assert!(is_instagram_url("https://instagram.com/reel/C72x942o0oG/"));
    assert!(is_instagram_url("https://www.instagram.com/p/C72x942o0oG/"));
    assert!(is_instagram_url("https://instagram.com/p/C72x942o0oG/"));
}

#[test]
fn test_is_instagram_url_rejects_non_instagram() {
    assert!(!is_instagram_url("https://www.youtube.com/watch?v=abc123"));
    assert!(!is_instagram_url("https://youtu.be/abc123"));
    assert!(!is_instagram_url("https://vimeo.com/76979871"));
    assert!(!is_instagram_url(
        "https://www.reddit.com/r/videos/comments/abc123/some_video/"
    ));
    assert!(!is_instagram_url(
        "https://x.com/SpaceX/status/2039670491066011747"
    ));
    assert!(!is_instagram_url("/home/user/video.mp4"));
    assert!(!is_instagram_url("Rick Roll")); // plain search query
}

#[test]
fn test_is_reddit_url() {
    assert!(is_reddit_url(
        "https://www.reddit.com/r/videos/comments/abc123/some_video/"
    ));
    assert!(is_reddit_url(
        "https://reddit.com/r/funny/comments/xyz/my_clip/"
    ));
    assert!(is_reddit_url(
        "https://old.reddit.com/r/videos/comments/abc123/some_video/"
    ));
    assert!(is_reddit_url("https://v.redd.it/abc123xyz"));
}

#[test]
fn test_is_reddit_url_rejects_non_reddit() {
    assert!(!is_reddit_url("https://www.youtube.com/watch?v=abc123"));
    assert!(!is_reddit_url("https://youtu.be/abc123"));
    assert!(!is_reddit_url("https://vimeo.com/76979871"));
    assert!(!is_reddit_url("/home/user/video.mp4"));
    assert!(!is_reddit_url("Rick Roll")); // plain search query
}

#[test]
fn test_is_tiktok_url() {
    assert!(is_tiktok_url(
        "https://www.tiktok.com/@mrbeast/video/7266155702008433953"
    ));
    assert!(is_tiktok_url(
        "https://tiktok.com/@mrbeast/video/7266155702008433953"
    ));
    assert!(is_tiktok_url("https://vm.tiktok.com/ZMhABC123/"));
    assert!(is_tiktok_url("https://vt.tiktok.com/ZSYaBC123/"));
}

#[test]
fn test_is_tiktok_url_rejects_non_tiktok() {
    assert!(!is_tiktok_url("https://www.youtube.com/watch?v=abc123"));
    assert!(!is_tiktok_url("https://youtu.be/abc123"));
    assert!(!is_tiktok_url("https://vimeo.com/76979871"));
    assert!(!is_tiktok_url(
        "https://www.reddit.com/r/videos/comments/abc123/some_video/"
    ));
    assert!(!is_tiktok_url(
        "https://x.com/SpaceX/status/2039670491066011747"
    ));
    assert!(!is_tiktok_url(
        "https://www.instagram.com/reel/C72x942o0oG/"
    ));
    assert!(!is_tiktok_url("/home/user/video.mp4"));
    assert!(!is_tiktok_url("Rick Roll")); // plain search query
}

#[test]
fn test_is_twitter_url() {
    assert!(is_twitter_url(
        "https://twitter.com/SpaceX/status/1768270591238479901"
    ));
    assert!(is_twitter_url(
        "https://www.twitter.com/SpaceX/status/1768270591238479901"
    ));
    assert!(is_twitter_url(
        "https://x.com/SpaceX/status/2039670491066011747"
    ));
    assert!(is_twitter_url(
        "https://www.x.com/SpaceX/status/2039670491066011747"
    ));
    assert!(is_twitter_url("https://t.co/abc123xyz"));
}

#[test]
fn test_is_twitter_url_rejects_non_twitter() {
    assert!(!is_twitter_url("https://www.youtube.com/watch?v=abc123"));
    assert!(!is_twitter_url("https://youtu.be/abc123"));
    assert!(!is_twitter_url("https://vimeo.com/76979871"));
    assert!(!is_twitter_url(
        "https://www.reddit.com/r/videos/comments/abc123/some_video/"
    ));
    assert!(!is_twitter_url("/home/user/video.mp4"));
    assert!(!is_twitter_url("Rick Roll")); // plain search query
}

#[test]
fn test_is_vimeo_url() {
    assert!(is_vimeo_url("https://vimeo.com/76979871"));
    assert!(is_vimeo_url("https://www.vimeo.com/76979871"));
    assert!(is_vimeo_url("https://player.vimeo.com/video/76979871"));
}

#[test]
fn test_is_vimeo_url_rejects_non_vimeo() {
    assert!(!is_vimeo_url("https://www.youtube.com/watch?v=abc123"));
    assert!(!is_vimeo_url("https://youtu.be/abc123"));
    assert!(!is_vimeo_url("/home/user/video.mp4"));
    assert!(!is_vimeo_url("Rick Roll")); // plain search query
}

#[test]
fn test_is_youtube_query_does_not_match_vimeo() {
    assert!(!is_youtube_query("https://vimeo.com/76979871"));
    assert!(!is_youtube_query("https://player.vimeo.com/video/76979871"));
}

#[test]
fn test_filter_srt_by_range_no_range() {
    let srt = "1\n00:00:01,000 --> 00:00:02,000\nHello world\n\n\
               2\n00:00:02,000 --> 00:00:03,000\nFoo bar\n\n";
    let result = filter_srt_by_range(srt, None, None);
    assert_eq!(result, srt);
}

#[test]
fn test_filter_srt_by_range_start_and_duration() {
    let srt = "1\n00:00:01,000 --> 00:00:02,000\nBefore range\n\n\
               2\n00:00:05,000 --> 00:00:07,000\nInside range\n\n\
               3\n00:00:15,000 --> 00:00:16,000\nAfter range\n\n";
    let result = filter_srt_by_range(srt, Some(4), Some(8));
    assert!(
        result.contains("Inside range"),
        "Should include segment inside range"
    );
    assert!(
        !result.contains("Before range"),
        "Should exclude segment before range"
    );
    assert!(
        !result.contains("After range"),
        "Should exclude segment after range"
    );
    assert!(result.starts_with("1\n"));
}

#[test]
fn test_filter_srt_by_range_start_only() {
    let srt = "1\n00:00:01,000 --> 00:00:02,000\nEarly\n\n\
               2\n00:00:10,000 --> 00:00:12,000\nLate\n\n";
    let result = filter_srt_by_range(srt, Some(5), None);
    assert!(result.contains("Late"));
    assert!(!result.contains("Early"));
}

#[test]
fn test_parse_timestamp_to_secs() {
    assert_eq!(parse_timestamp_to_secs("0"), 0);
    assert_eq!(parse_timestamp_to_secs("90"), 90);
    assert_eq!(parse_timestamp_to_secs("01:30"), 90);
    assert_eq!(parse_timestamp_to_secs("00:01:30"), 90);
    assert_eq!(parse_timestamp_to_secs("01:00:00"), 3600);
    assert_eq!(parse_timestamp_to_secs("01:30:00"), 5400);
}

#[test]
fn test_media_source_detection() {
    // Auto-detect YouTube URL
    assert!(matches!(
        MediaSource::detect("https://www.youtube.com/watch?v=abc", None),
        MediaSource::YouTube
    ));
    // Auto-detect Instagram URL
    assert!(matches!(
        MediaSource::detect("https://www.instagram.com/reel/C72x942o0oG/", None),
        MediaSource::Instagram
    ));
    // Auto-detect Twitter URL (twitter.com)
    assert!(matches!(
        MediaSource::detect(
            "https://twitter.com/SpaceX/status/1768270591238479901",
            None
        ),
        MediaSource::Twitter
    ));
    // Auto-detect Twitter URL (x.com)
    assert!(matches!(
        MediaSource::detect("https://x.com/SpaceX/status/2039670491066011747", None),
        MediaSource::Twitter
    ));
    // Auto-detect Vimeo URL
    assert!(matches!(
        MediaSource::detect("https://vimeo.com/76979871", None),
        MediaSource::Vimeo
    ));
    // Auto-detect Reddit URL
    assert!(matches!(
        MediaSource::detect(
            "https://www.reddit.com/r/videos/comments/abc123/some_video/",
            None
        ),
        MediaSource::Reddit
    ));
    // Auto-detect v.redd.it URL
    assert!(matches!(
        MediaSource::detect("https://v.redd.it/abc123xyz", None),
        MediaSource::Reddit
    ));
    // Explicit instagram hint (case-insensitive)
    assert!(matches!(
        MediaSource::detect(
            "https://www.instagram.com/reel/C72x942o0oG/",
            Some("Instagram")
        ),
        MediaSource::Instagram
    ));
    // Explicit twitter hint (case-insensitive)
    assert!(matches!(
        MediaSource::detect(
            "https://x.com/SpaceX/status/2039670491066011747",
            Some("Twitter")
        ),
        MediaSource::Twitter
    ));
    // Explicit reddit hint (case-insensitive)
    assert!(matches!(
        MediaSource::detect(
            "https://www.reddit.com/r/videos/comments/abc123/some_video/",
            Some("Reddit")
        ),
        MediaSource::Reddit
    ));
    // Explicit vimeo hint (case-insensitive)
    assert!(matches!(
        MediaSource::detect("https://vimeo.com/76979871", Some("Vimeo")),
        MediaSource::Vimeo
    ));
    // Explicit youtube hint
    assert!(matches!(
        MediaSource::detect("Rick Roll", Some("youtube")),
        MediaSource::YouTube
    ));
    // Local file: an existing `Cargo.toml`, made in a temporary directory so
    // that the test does not depend on the working directory.
    let dir = tempfile::tempdir().unwrap();
    let manifest = tempfile::Builder::new()
        .prefix("Cargo")
        .suffix(".toml")
        .rand_bytes(0)
        .tempfile_in(dir.path())
        .unwrap();
    assert!(matches!(
        MediaSource::detect(manifest.path().to_str().unwrap(), None),
        MediaSource::Local
    ));
}
