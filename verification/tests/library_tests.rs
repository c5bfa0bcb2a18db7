use media_transcriber_mcp::audio::utils::{clean_srt, convert_to_wav_args, transcript_reply};
use media_transcriber_mcp::audio::whisper::{model_lookup_next, model_lookup_start, ModelAction, ModelLookup};
use media_transcriber_mcp::audio::{
    format_srt_segment, format_timestamp, srt_from_segments, TranscriptSegment,
};
use media_transcriber_mcp::screenshot::{
    extract_screenshot_args, frame_limit, sample_scenes_args, scenes_reply, screenshot_payload,
    select_frame_files, video_download, video_request_for, ScenesReply,
};
use media_transcriber_mcp::sources::instagram::download_instagram_video;
use media_transcriber_mcp::sources::twitter::is_twitter_url;
use media_transcriber_mcp::sources::tiktok::{
    download_tiktok_audio, download_tiktok_subtitles, download_tiktok_video,
};
use media_transcriber_mcp::sources::vimeo::{download_vimeo_audio, download_vimeo_subtitles};
use media_transcriber_mcp::sources::youtube::{
    download_youtube_video, is_youtube_query, is_youtube_query_given, youtube_query_to_url,
};
use media_transcriber_mcp::sources::ytdlp::{
    subtitle_file_given, ytdlp_written,
    last_filepath_in, parse_last_filepath, parse_timestamp_to_secs, subtitle_path_from_output,
    timestamp_secs_checked, ytdlp_download_audio, ytdlp_outcome, YtdlpError,
};
use media_transcriber_mcp::srt::{
    filter_srt_by_range, filter_srt_with_times, srt_cues, srt_seconds_field, srt_timestamp_secs,
};
use media_transcriber_mcp::transcriber::steps::{
    start_transcription, transcription_next, AbortReason, TranscribeAction, TranscribeEvent,
    TranscribeStage,
};
use media_transcriber_mcp::transcriber::{
    audio_request_for, ffmpeg_window, plan_transcription, subtitle_reply, subtitle_request_for,
    MediaSource, TranscribeTool,
};

fn tool(file_path: &str) -> TranscribeTool {
    TranscribeTool {
        file_path: file_path.to_string(),
        task: None,
        output_format: None,
        start_timestamp: None,
        duration_secs: None,
        source: None,
        browser_cookies: None,
    }
}

// ---- timestamps and segments ----

#[test]
fn format_timestamp_parts() {
    assert_eq!(format_timestamp(12345), "00:02:03,450");
    assert_eq!(format_timestamp(36_000_000), "100:00:00,000");
    // Negative times keep Rust's signed formatting of each part.
    assert_eq!(format_timestamp(-150), "00:00:-1,-500");
    assert_eq!(format_timestamp(-360_001), "-1:00:00,-10");
}

#[test]
fn format_srt_segment_trims_text() {
    assert_eq!(
        format_srt_segment(12, 0, 99, "\t text \r\n"),
        "12\n00:00:00,000 --> 00:00:00,990\ntext\n\n"
    );
}

#[test]
fn srt_from_segments_numbers_from_one() {
    let segs = vec![
        TranscriptSegment { t0: 0, t1: 150, text: " Hello".to_string() },
        TranscriptSegment { t0: 150, t1: 300, text: "world ".to_string() },
    ];
    let srt = srt_from_segments(&segs);
    assert_eq!(
        srt,
        "1\n00:00:00,000 --> 00:00:01,500\nHello\n\n2\n00:00:01,500 --> 00:00:03,000\nworld\n\n"
    );
    // What cleaning gives back of a transcription: its texts.
    assert_eq!(clean_srt(&srt), "Hello world");
}

#[test]
fn clean_srt_handles_crlf_and_blank_lines() {
    let srt = "1\r\n00:00:01,000 --> 00:00:02,000\r\n  First line \r\nsecond\r\n\r\n\r\n2\r\n";
    assert_eq!(clean_srt(srt), "First line second");
    assert_eq!(clean_srt(""), "");
    assert_eq!(clean_srt("123\n456\n"), "");
}

// ---- times in SRT ----

#[test]
fn written_times_read_back() {
    let ts = format_timestamp(12345);
    assert_eq!(srt_seconds_field(&ts).as_deref(), Some("03.450"));
    assert_eq!(srt_timestamp_secs(&ts, 3), Some(123));
}

#[test]
fn srt_time_edge_cases() {
    assert_eq!(srt_seconds_field(" 1:2:3,5:9 ").as_deref(), Some("3.5:9"));
    assert_eq!(srt_seconds_field("02:03"), None);
    assert_eq!(srt_timestamp_secs("02:03", 7), Some(0));
    assert_eq!(srt_timestamp_secs("x:2:00", 1), Some(121));
    assert_eq!(srt_timestamp_secs("18446744073709551615:00:00", 0), None);
}

#[test]
fn filter_with_times_cases() {
    let srt = "1\n00:00:01,000 --> 00:00:02,000\nA\n\n2\n00:00:05,000 --> 00:00:07,000\nB\nB2\n\nnot a cue\n\n";
    let cues = srt_cues(srt);
    assert_eq!(cues.len(), 2);
    assert_eq!(cues[1].ts_line, "00:00:05,000 --> 00:00:07,000");
    assert_eq!(cues[1].start_ts, "00:00:05,000");
    assert_eq!(cues[1].end_ts, "00:00:07,000");
    assert_eq!(cues[1].text, "B\nB2");
    let times = vec![(1, 2), (5, 7)];
    assert_eq!(filter_srt_with_times(srt, None, None, &vec![]).as_deref(), Some(srt));
    assert_eq!(
        filter_srt_with_times(srt, Some(4), None, &times).as_deref(),
        Some("1\n00:00:05,000 --> 00:00:07,000\nB\nB2\n\n")
    );
    assert_eq!(
        filter_srt_with_times(srt, Some(0), None, &times).as_deref(),
        Some("1\n00:00:01,000 --> 00:00:02,000\nA\n\n2\n00:00:05,000 --> 00:00:07,000\nB\nB2\n\n")
    );
    assert_eq!(filter_srt_with_times(srt, None, Some(1), &times).as_deref(), Some(""));
    assert_eq!(filter_srt_with_times(srt, Some(u64::MAX), Some(1), &times), None);
}

// ---- timestamps for yt-dlp ----

#[test]
fn timestamp_parsing_edge_cases() {
    assert_eq!(parse_timestamp_to_secs("+5"), 5);
    assert_eq!(parse_timestamp_to_secs("-5"), 0);
    assert_eq!(parse_timestamp_to_secs("1:2:3:4"), 0);
    assert_eq!(parse_timestamp_to_secs("abc:10"), 10);
    assert_eq!(parse_timestamp_to_secs(""), 0);
    assert_eq!(timestamp_secs_checked("18446744073709551615:00:00"), None);
    assert_eq!(timestamp_secs_checked("99999999999999999999:00:00"), Some(0));
    assert_eq!(timestamp_secs_checked("00:20:00"), Some(1200));
}

// ---- yt-dlp requests ----

#[test]
fn video_request_arguments() {
    let r = download_instagram_video("https://instagram.com/p/x/", Some("chrome"));
    assert!(!r.subtitles);
    assert_eq!(
        r.args,
        vec![
            "-f",
            "bestvideo[height<=720][vcodec^=avc]+bestaudio/bestvideo[height<=720]+bestaudio/best[height<=720]/best",
            "--merge-output-format",
            "mp4",
            "-o",
            "/tmp/%(id)s.%(ext)s",
            "--print",
            "after_move:filepath",
            "--cookies-from-browser",
            "chrome",
            "https://instagram.com/p/x/",
        ]
    );
    let y = download_youtube_video("Rick Roll", None);
    assert_eq!(y.args.last().unwrap(), "ytsearch1:Rick Roll");
}

#[test]
fn audio_request_sections() {
    let full = ytdlp_download_audio("u", None, None, None);
    assert_eq!(
        full.args,
        vec!["-x", "--audio-format", "mp3", "-o", "/tmp/%(id)s.%(ext)s", "--print", "after_move:filepath", "u"]
    );
    let window = download_vimeo_audio("u", Some("00:01:30"), Some(60), Some("firefox"));
    assert_eq!(
        window.args,
        vec![
            "-x",
            "--audio-format",
            "mp3",
            "--cookies-from-browser",
            "firefox",
            "--download-sections",
            "*90-150",
            "--force-keyframes-at-cuts",
            "-o",
            "/tmp/%(id)s.%(ext)s",
            "--print",
            "after_move:filepath",
            "u",
        ]
    );
    let open_end = ytdlp_download_audio("u", Some("1200"), None, None);
    assert_eq!(open_end.args[4], "*1200-inf");
    let from_zero = ytdlp_download_audio("u", None, Some(60), None);
    assert_eq!(from_zero.args[4], "*0-60");
}

#[test]
fn subtitle_request_output_template() {
    let r = download_vimeo_subtitles("https://vimeo.com/1", None, "/tmp");
    assert!(r.subtitles);
    assert_eq!(
        r.args,
        vec![
            "--write-subs",
            "--write-auto-subs",
            "--skip-download",
            "--sub-lang",
            "es.*,en.*",
            "--convert-subs",
            "srt",
            "-o",
            "/tmp/%(id)s.%(ext)s",
            "--print",
            "after_move:filepath",
            "https://vimeo.com/1",
        ]
    );
    assert_eq!(download_vimeo_subtitles("v", None, "/var/tmp/").args[8], "/var/tmp/%(id)s.%(ext)s");
    assert_eq!(download_vimeo_subtitles("v", None, "").args[8], "%(id)s.%(ext)s");
}

#[test]
fn youtube_urls() {
    assert_eq!(youtube_query_to_url("https://youtu.be/x"), "https://youtu.be/x");
    assert_eq!(youtube_query_to_url("lofi beats"), "ytsearch1:lofi beats");
    assert!(!is_youtube_query_given("notes", true));
    assert!(is_youtube_query_given("notes", false));
    assert!(!is_youtube_query_given("clip.m\u{212A}v", false)); // Kelvin sign lowercases to 'k'
    assert!(!is_youtube_query_given("dir/Clip.FLAC/", false));
    assert!(is_youtube_query_given("dir/clip.mp4/..", false));
    assert!(!is_youtube_query("/definitely/not/here/video.mov"));
}

// ---- reading yt-dlp's output ----

#[test]
fn last_filepath_from_stdout() {
    assert_eq!(parse_last_filepath(b"/tmp/a.mp4\n/tmp/b.mp4\n").unwrap(), "/tmp/b.mp4");
    assert!(matches!(parse_last_filepath(b"  \n\t"), Err(YtdlpError::NoFilepath)));
    // Invalid UTF-8 is replaced, as String::from_utf8_lossy does.
    assert_eq!(parse_last_filepath(b"/tmp/x\xff.mp3").unwrap(), "/tmp/x\u{FFFD}.mp3");
    assert_eq!(last_filepath_in("  one\n two  \n").unwrap(), "two");
}

#[test]
fn subtitle_path_prefers_srt() {
    assert_eq!(
        subtitle_path_from_output(b"/t/a.es.vtt\n/t/a.es.srt\n/t/a.en.vtt\n").unwrap(),
        "/t/a.es.srt"
    );
    assert_eq!(subtitle_path_from_output(b"/t/a.vtt\n/t/b.vtt").unwrap(), "/t/b.vtt");
    assert!(matches!(subtitle_path_from_output(b"\n"), Err(YtdlpError::NoSubtitles)));
}

#[test]
fn ytdlp_outcomes() {
    let video = ytdlp_download_audio("u", None, None, None);
    match ytdlp_outcome(&video, false, b"", b"ERROR: boom") {
        Err(YtdlpError::Failed { subtitles, stderr }) => {
            assert!(!subtitles);
            assert_eq!(stderr, "ERROR: boom");
        }
        _ => panic!("a failed run is an error"),
    }
    assert_eq!(ytdlp_outcome(&video, true, b"/tmp/id.mp3\n", b"").unwrap(), "/tmp/id.mp3");
    let subs = download_vimeo_subtitles("u", None, "/tmp");
    assert!(matches!(ytdlp_outcome(&subs, true, b"", b""), Err(YtdlpError::NoSubtitles)));
}

// ---- ffmpeg ----

#[test]
fn ffmpeg_argument_lists() {
    assert_eq!(
        convert_to_wav_args("in.mp4", "out.wav", None, None),
        vec!["-y", "-i", "in.mp4", "-ar", "16000", "-ac", "1", "-c:a", "pcm_s16le", "out.wav"]
    );
    assert_eq!(
        convert_to_wav_args("in.mp4", "out.wav", Some("00:20:00"), Some(1200)),
        vec!["-y", "-ss", "00:20:00", "-i", "in.mp4", "-t", "1200", "-ar", "16000", "-ac", "1", "-c:a", "pcm_s16le", "out.wav"]
    );
    assert_eq!(
        extract_screenshot_args("v.mp4", "00:00:01", "/tmp/s.jpg"),
        vec!["-y", "-ss", "00:00:01", "-i", "v.mp4", "-vframes", "1", "-q:v", "2", "-f", "image2", "/tmp/s.jpg"]
    );
    assert_eq!(
        sample_scenes_args("v.mp4", -5, "/tmp/d"),
        vec![
            "-y",
            "-i",
            "v.mp4",
            "-vf",
            "select='gt(scene,0.4)',scale='min(800,iw)':-1",
            "-fps_mode",
            "vfr",
            "-q:v",
            "2",
            "-frames:v",
            "-5",
            "/tmp/d/frame_%03d.jpg",
        ]
    );
    assert_eq!(frame_limit(None), 10);
    assert_eq!(frame_limit(Some(3)), 3);
}

#[test]
fn frame_files_are_jpegs_in_order() {
    let names: Vec<Vec<u8>> = vec![
        b"frame_010.jpg".to_vec(),
        b"frame_002.jpg".to_vec(),
        b"notes.txt".to_vec(),
        b".jpg".to_vec(),
        b"frame_002.jpg.tmp".to_vec(),
        b"a.JPG".to_vec(),
        b"frame_001.jpg".to_vec(),
        b"frame_01.jpg".to_vec(),
    ];
    let selected = select_frame_files(&names);
    assert_eq!(
        selected,
        vec![
            b"frame_001.jpg".to_vec(),
            b"frame_002.jpg".to_vec(),
            b"frame_01.jpg".to_vec(),
            b"frame_010.jpg".to_vec(),
        ]
    );
}

#[test]
fn base64_payloads() {
    assert_eq!(screenshot_payload(b"hello"), "aGVsbG8=");
    assert_eq!(screenshot_payload(b"hell"), "aGVsbA==");
    assert_eq!(screenshot_payload(b""), "");
    assert!(matches!(scenes_reply(&vec![]), ScenesReply::NoScenes));
    match scenes_reply(&vec![b"hel".to_vec(), vec![0xff, 0xfe]]) {
        ScenesReply::Images(v) => assert_eq!(v, vec!["aGVs", "//4="]),
        ScenesReply::NoScenes => panic!("frames were given"),
    }
}

// ---- the Whisper model ----

#[test]
fn model_lookup_steps() {
    let (state, action) = model_lookup_start(Some("/models/m.bin"));
    assert!(matches!(&action, ModelAction::CheckExists(p) if p == "/models/m.bin"));
    let (_, action) = model_lookup_next(state, false, Some("/home/u"));
    assert!(matches!(&action, ModelAction::Missing(p) if p == "/models/m.bin"));

    let (state, action) = model_lookup_start(None);
    assert!(matches!(&action, ModelAction::CheckExists(p) if p == "ggml-base.bin"));
    let (state, action) = model_lookup_next(state, false, Some("/home/u"));
    assert!(matches!(&action, ModelAction::CheckExists(p) if p == "/home/u/.cache/media-transcriber-mcp/ggml-base.bin"));
    let (state, action) = model_lookup_next(state, false, Some("/home/u"));
    match &action {
        ModelAction::Download { dir, path, url } => {
            assert_eq!(dir, "/home/u/.cache/media-transcriber-mcp");
            assert_eq!(path, "/home/u/.cache/media-transcriber-mcp/ggml-base.bin");
            assert_eq!(url, "https://huggingface.co/ggerganov/whisper.cpp/resolve/main/ggml-base.bin");
        }
        _ => panic!("the model is downloaded last"),
    }
    assert!(matches!(&state, ModelLookup::Downloading(_)));
    let (_, action) = model_lookup_next(state, true, None);
    assert!(matches!(&action, ModelAction::Found(p) if p == "/home/u/.cache/media-transcriber-mcp/ggml-base.bin"));

    let (state, _) = model_lookup_start(None);
    let (_, action) = model_lookup_next(state, false, None);
    assert!(matches!(&action, ModelAction::CheckExists(p) if p == "./.cache/media-transcriber-mcp/ggml-base.bin"));
}

// ---- transcription decisions ----

#[test]
fn transcription_plans() {
    let plan = plan_transcription(&tool("https://vimeo.com/1"));
    assert_eq!(plan.task, "transcribe");
    assert_eq!(plan.output_format, "text");
    assert_eq!(plan.source, MediaSource::Vimeo);
    assert!(plan.try_subtitles);

    let mut args = tool("https://youtu.be/x");
    args.task = Some("translate".to_string());
    args.output_format = Some("srt".to_string());
    let plan = plan_transcription(&args);
    assert_eq!(plan.source, MediaSource::YouTube);
    assert!(!plan.try_subtitles);
    assert!(plan.translate);
    assert!(!plan_transcription(&tool("https://youtu.be/x")).translate);

    let mut args = tool("/no/such/file.wav");
    args.source = Some("REDDIT".to_string());
    assert_eq!(plan_transcription(&args).source, MediaSource::Reddit);
    assert_eq!(plan_transcription(&tool("/no/such/file.wav")).source, MediaSource::Local);
    assert!(!plan_transcription(&tool("/no/such/file.wav")).try_subtitles);
}

#[test]
fn subtitle_replies() {
    let srt = "1\n00:00:01,000 --> 00:00:02,000\nHi there\n\n";
    assert_eq!(subtitle_reply(srt, "text").as_deref(), Some("Hi there"));
    assert_eq!(subtitle_reply(srt, "srt").as_deref(), Some(srt));
    assert_eq!(subtitle_reply(srt, "text_speakers"), None);
}

#[test]
fn requests_per_source() {
    let mut args = tool("Rick Roll");
    args.start_timestamp = Some("00:00:10".to_string());
    args.duration_secs = Some(5);
    args.browser_cookies = Some("edge".to_string());
    let audio = audio_request_for(MediaSource::YouTube, &args).unwrap();
    assert!(audio.args.contains(&"*10-15".to_string()));
    assert_eq!(audio.args.last().unwrap(), "ytsearch1:Rick Roll");
    assert!(audio_request_for(MediaSource::Local, &args).is_none());
    let subs = subtitle_request_for(MediaSource::Twitter, &args, "/tmp").unwrap();
    assert_eq!(subs.args.last().unwrap(), "Rick Roll");
    assert!(subtitle_request_for(MediaSource::Local, &args, "/tmp").is_none());
    assert_eq!(ffmpeg_window(MediaSource::Local, &args), (Some("00:00:10".to_string()), Some(5)));
    assert_eq!(ffmpeg_window(MediaSource::Reddit, &args), (None, None));
}

#[test]
fn transcript_replies_per_format() {
    let segs = vec![
        TranscriptSegment { t0: 0, t1: 150, text: " Hello ".to_string() },
        TranscriptSegment { t0: 150, t1: 300, text: "world".to_string() },
    ];
    let srt = "1\n00:00:00,000 --> 00:00:01,500\nHello\n\n2\n00:00:01,500 --> 00:00:03,000\nworld\n\n";
    assert_eq!(transcript_reply(&segs, "text"), "Hello world");
    assert_eq!(transcript_reply(&segs, "srt"), srt);
    assert_eq!(transcript_reply(&segs, "text_speakers"), srt);
    assert_eq!(transcript_reply(&vec![], "text"), "");
}

#[test]
fn video_requests_per_source() {
    let yt = video_request_for(MediaSource::YouTube, "Rick Roll", Some("chrome")).unwrap();
    assert_eq!(yt.args.last().unwrap(), "ytsearch1:Rick Roll");
    assert!(yt.args.contains(&"--cookies-from-browser".to_string()));
    let vimeo = video_request_for(MediaSource::Vimeo, "https://vimeo.com/1", None).unwrap();
    assert_eq!(vimeo.args.last().unwrap(), "https://vimeo.com/1");
    assert!(!vimeo.args.contains(&"--cookies-from-browser".to_string()));
    assert!(video_request_for(MediaSource::Local, "/v.mp4", None).is_none());

    let ig = video_download("https://www.instagram.com/reel/abc/", None, Some("firefox")).unwrap();
    assert_eq!(ig.args.last().unwrap(), "https://www.instagram.com/reel/abc/");
    assert!(ig.args.contains(&"firefox".to_string()));
    let hinted = video_download("/no/such/clip.mp4", Some("reddit"), None).unwrap();
    assert_eq!(hinted.args.last().unwrap(), "/no/such/clip.mp4");
    assert!(video_download("/no/such/clip.mp4", None, None).is_none());
    let search = video_download("Rick Roll", None, None).unwrap();
    assert_eq!(search.args.last().unwrap(), "ytsearch1:Rick Roll");
}

#[test]
fn test_is_youtube_query() {
    assert!(is_youtube_query(
        "https://www.youtube.com/watch?v=Ux2acdla414"
    ));
    assert!(is_youtube_query("https://youtu.be/Ux2acdla414"));
    assert!(is_youtube_query("Rick Roll"));

    // An existing file is local: a `Cargo.toml`, made in a temporary
    // directory so that the test does not depend on the working directory.
    let dir = tempfile::tempdir().unwrap();
    let manifest = tempfile::Builder::new()
        .prefix("Cargo")
        .suffix(".toml")
        .rand_bytes(0)
        .tempfile_in(dir.path())
        .unwrap();
    assert!(!is_youtube_query(manifest.path().to_str().unwrap()));

    let file = tempfile::Builder::new()
        .prefix("test_file")
        .suffix(".mp4")
        .rand_bytes(0)
        .tempfile_in(dir.path())
        .unwrap();
    assert!(!is_youtube_query(file.path().to_str().unwrap()));

    // A media file name that does not exist is a broken local path.
    assert!(!is_youtube_query("/nonexistent/dir/clip.MKV"));
    assert!(!is_youtube_query("/nonexistent/dir/song.m4a"));
    // Other names that do not exist are searches.
    assert!(is_youtube_query("/nonexistent/dir/notes.txt"));
    assert!(is_youtube_query("/nonexistent/dir/.mp4"));
}

// ---- the course of a transcription ----

fn args_for(file_path: &str, output_format: &str) -> TranscribeTool {
    let mut args = tool(file_path);
    args.output_format = Some(output_format.to_string());
    args
}

#[test]
fn transcription_answers_from_subtitles() {
    let (t, action) = start_transcription(args_for("https://youtu.be/x", "text"), "/tmp");
    assert_eq!(t.stage, TranscribeStage::Subtitles);
    match &action {
        TranscribeAction::Download(q) => {
            assert!(q.subtitles);
            assert_eq!(q.args.last().unwrap(), "https://youtu.be/x");
        }
        _ => panic!("subtitles are fetched first"),
    }
    let (t, action) =
        transcription_next(t, TranscribeEvent::Downloaded(Ok("/tmp/x.es.srt".to_string())));
    assert!(matches!(&action, TranscribeAction::ReadSubtitles(p) if p == "/tmp/x.es.srt"));
    let srt = "1\n00:00:01,000 --> 00:00:02,000\nHi there\n\n";
    let (t, action) = transcription_next(t, TranscribeEvent::Read(Ok(srt.to_string())));
    match &action {
        TranscribeAction::FilterSubtitles {
            srt: s,
            start_secs,
            duration_secs,
        } => {
            assert_eq!(s, srt);
            assert_eq!(*start_secs, None);
            assert_eq!(*duration_secs, None);
        }
        _ => panic!("the subtitles are filtered"),
    }
    let (t, action) = transcription_next(t, TranscribeEvent::Filtered(srt.to_string()));
    assert!(matches!(&action, TranscribeAction::Reply(x) if x == "Hi there"));
    assert_eq!(t.stage, TranscribeStage::Finished);
    let (t, action) = transcription_next(t, TranscribeEvent::Filtered(srt.to_string()));
    assert!(matches!(
        action,
        TranscribeAction::Abort(AbortReason::UnexpectedEvent)
    ));
    assert_eq!(t.stage, TranscribeStage::Finished);
}

#[test]
fn transcription_falls_back_to_whisper() {
    let mut args = args_for("https://vimeo.com/7", "srt");
    args.start_timestamp = Some("01:00".to_string());
    args.duration_secs = Some(30);
    let (t, _) = start_transcription(args, "/tmp");
    let (t, action) =
        transcription_next(t, TranscribeEvent::Downloaded(Err("no subtitles".to_string())));
    match &action {
        TranscribeAction::Download(q) => {
            assert!(!q.subtitles);
            assert!(q.args.contains(&"*60-90".to_string()));
        }
        _ => panic!("the audio is fetched"),
    }
    let (t, action) =
        transcription_next(t, TranscribeEvent::Downloaded(Ok("/tmp/7.mp3".to_string())));
    assert!(matches!(action, TranscribeAction::LocateModel));
    let (t, action) =
        transcription_next(t, TranscribeEvent::ModelLocated(Ok("/m/ggml-base.bin".to_string())));
    match &action {
        TranscribeAction::ConvertToWav {
            input,
            start,
            duration,
        } => {
            assert_eq!(input, "/tmp/7.mp3");
            assert_eq!(*start, None);
            assert_eq!(*duration, None);
        }
        _ => panic!("the audio is converted"),
    }
    let (t, action) = transcription_next(t, TranscribeEvent::Converted(Ok("/tmp/a.wav".to_string())));
    match &action {
        TranscribeAction::Transcribe {
            wav,
            model,
            translate,
            output_format,
        } => {
            assert_eq!(wav, "/tmp/a.wav");
            assert_eq!(model, "/m/ggml-base.bin");
            assert!(!translate);
            assert_eq!(output_format, "srt");
        }
        _ => panic!("Whisper runs"),
    }
    let (_, action) = transcription_next(t, TranscribeEvent::Transcribed(Err("boom".to_string())));
    assert!(matches!(&action, TranscribeAction::Fail(m) if m == "Transcription error: boom"));
}

#[test]
fn transcription_of_local_media() {
    let mut args = args_for("/no/such/talk.mp4", "text");
    args.task = Some("translate".to_string());
    args.start_timestamp = Some("00:20:00".to_string());
    args.duration_secs = Some(1200);
    let (t, action) = start_transcription(args, "/tmp");
    assert!(matches!(action, TranscribeAction::LocateModel));
    assert_eq!(t.media, "/no/such/talk.mp4");
    let (t, action) =
        transcription_next(t, TranscribeEvent::ModelLocated(Err("no model".to_string())));
    assert!(matches!(&action, TranscribeAction::Fail(m) if m == "no model"));
    assert_eq!(t.stage, TranscribeStage::Finished);

    let mut args = args_for("/no/such/talk.mp4", "text");
    args.start_timestamp = Some("00:20:00".to_string());
    args.duration_secs = Some(1200);
    let (t, _) = start_transcription(args, "/tmp");
    let (t, action) = transcription_next(t, TranscribeEvent::ModelLocated(Ok("m.bin".to_string())));
    match &action {
        TranscribeAction::ConvertToWav {
            input,
            start,
            duration,
        } => {
            assert_eq!(input, "/no/such/talk.mp4");
            assert_eq!(start.as_deref(), Some("00:20:00"));
            assert_eq!(*duration, Some(1200));
        }
        _ => panic!("the window is cut by ffmpeg"),
    }
    let (_, action) = transcription_next(t, TranscribeEvent::Converted(Err("bad".to_string())));
    assert!(matches!(&action, TranscribeAction::Fail(m) if m == "Error converting to WAV: bad"));
}

#[test]
fn transcription_overflows_stop_it() {
    let mut args = args_for("https://youtu.be/x", "text");
    args.start_timestamp = Some("99999999999999999999".to_string());
    let (t, _) = start_transcription(args, "/tmp");
    let (t, action) = transcription_next(t, TranscribeEvent::Downloaded(Ok("s.srt".to_string())));
    assert!(matches!(action, TranscribeAction::ReadSubtitles(_)));
    let (t, action) = transcription_next(t, TranscribeEvent::Read(Ok(String::new())));
    // The timestamp is not a u64: it counts as 0 seconds.
    assert!(matches!(
        action,
        TranscribeAction::FilterSubtitles {
            start_secs: Some(0),
            ..
        }
    ));
    let (_, action) = transcription_next(t, TranscribeEvent::Filtered(String::new()));
    assert!(matches!(&action, TranscribeAction::Reply(x) if x.is_empty()));

    let mut args = args_for("https://youtu.be/x", "text");
    args.start_timestamp = Some("5124095576030432:00:00".to_string());
    let (t, _) = start_transcription(args, "/tmp");
    let (t, _) = transcription_next(t, TranscribeEvent::Downloaded(Ok("s.srt".to_string())));
    let (_, action) = transcription_next(t, TranscribeEvent::Read(Ok(String::new())));
    assert!(matches!(
        action,
        TranscribeAction::Abort(AbortReason::TimestampOverflow)
    ));

    let mut args = args_for("https://youtu.be/x", "text_speakers");
    args.start_timestamp = Some("10".to_string());
    args.duration_secs = Some(u64::MAX);
    let (t, _) = start_transcription(args, "/tmp");
    let (_, action) =
        transcription_next(t, TranscribeEvent::Downloaded(Err("none".to_string())));
    assert!(matches!(
        action,
        TranscribeAction::Abort(AbortReason::SectionOverflow)
    ));
}

#[test]
fn transcription_speaker_format_uses_whisper() {
    let (t, _) = start_transcription(args_for("https://youtu.be/x", "text_speakers"), "/tmp");
    let (t, _) = transcription_next(t, TranscribeEvent::Downloaded(Ok("s.srt".to_string())));
    let (t, _) = transcription_next(t, TranscribeEvent::Read(Ok("1\n".to_string())));
    let (t, action) = transcription_next(t, TranscribeEvent::Filtered("1\n".to_string()));
    assert!(matches!(&action, TranscribeAction::Download(q) if !q.subtitles));
    assert_eq!(t.stage, TranscribeStage::Audio);
}

#[test]
fn consecutive_windows_cover_the_segments() {
    let srt = "1\n00:00:01,000 --> 00:00:02,000\nA\n\n2\n00:00:04,000 --> 00:00:06,000\nB\n\n3\n00:00:08,000 --> 00:00:09,000\nC\n\n";
    let times = vec![(1, 2), (4, 6), (8, 9)];
    // The whole of [0, 10) and its halves [0, 5) and [5, 10): the segment
    // across the boundary is kept by both halves.
    assert_eq!(
        filter_srt_with_times(srt, Some(0), Some(10), &times).as_deref(),
        Some(srt)
    );
    assert_eq!(
        filter_srt_with_times(srt, Some(0), Some(5), &times).as_deref(),
        Some("1\n00:00:01,000 --> 00:00:02,000\nA\n\n2\n00:00:04,000 --> 00:00:06,000\nB\n\n")
    );
    assert_eq!(
        filter_srt_with_times(srt, Some(5), Some(5), &times).as_deref(),
        Some("1\n00:00:04,000 --> 00:00:06,000\nB\n\n2\n00:00:08,000 --> 00:00:09,000\nC\n\n")
    );
}

#[test]
fn tiktok_requests() {
    let url = "https://www.tiktok.com/@a/video/1";
    let video = download_tiktok_video(url, Some("chrome"));
    assert!(!video.subtitles);
    assert_eq!(video.args.last().unwrap(), url);
    assert!(video.args.contains(&"chrome".to_string()));
    let audio = download_tiktok_audio(url, None, Some(30), None);
    assert!(audio.args.contains(&"*0-30".to_string()));
    assert_eq!(audio.args.last().unwrap(), url);
    let subs = download_tiktok_subtitles(url, None, "/tmp");
    assert!(subs.subtitles);
    assert!(subs.args.contains(&"/tmp/%(id)s.%(ext)s".to_string()));
}

#[test]
fn ytdlp_error_messages() {
    let failed = YtdlpError::Failed {
        subtitles: false,
        stderr: "ERROR: boom".to_string(),
    };
    assert_eq!(failed.message(), "yt-dlp failed: ERROR: boom");
    let failed_subs = YtdlpError::Failed {
        subtitles: true,
        stderr: "x".to_string(),
    };
    assert_eq!(failed_subs.message(), "yt-dlp subtitle download failed: x");
    assert_eq!(
        YtdlpError::NoFilepath.message(),
        "yt-dlp succeeded but did not return a filepath in stdout"
    );
    assert_eq!(
        YtdlpError::NoSubtitles.message(),
        "No subtitles found for this video or yt-dlp did not return a path."
    );
}

#[test]
fn twitter_urls_need_a_twitter_host() {
    assert!(!is_twitter_url("https://www.dropbox.com/s/abc123/talk.mp4"));
    assert!(!is_twitter_url("https://example.com/?next=https://x.com/a"));
    assert!(!is_twitter_url("httpx://x.com/a"));
    assert!(is_twitter_url("http://www.t.co/abc"));
    assert!(is_twitter_url("https://www.x.com/SpaceX/status/1"));
    assert!(!is_twitter_url("https://mobile.twitter.com/SpaceX/status/1"));
}

#[test]
fn subtitle_files_are_looked_for() {
    assert_eq!(subtitle_file_given("/tmp/a.srt".to_string(), true).unwrap(), "/tmp/a.srt");
    let missing = subtitle_file_given("/tmp/a.srt".to_string(), false).unwrap_err();
    assert!(matches!(&missing, YtdlpError::SubtitleFileMissing(p) if p == "/tmp/a.srt"));
    assert_eq!(
        missing.message(),
        "Subtitle file not found at expected path: \"/tmp/a.srt\""
    );
    let odd = subtitle_file_given("/tmp/a\"b\\c\n.srt".to_string(), false).unwrap_err();
    assert_eq!(
        odd.message(),
        "Subtitle file not found at expected path: \"/tmp/a\\\"b\\\\c\\n.srt\""
    );
    let subs = download_vimeo_subtitles("u", None, "/tmp");
    let written = ytdlp_written(&subs, true, b"/no/such/dir/x.en.srt\n", b"");
    assert!(matches!(written, Err(YtdlpError::SubtitleFileMissing(_))));
    let audio = ytdlp_download_audio("u", None, None, None);
    assert_eq!(
        ytdlp_written(&audio, true, b"/no/such/dir/x.mp3\n", b"").unwrap(),
        "/no/such/dir/x.mp3"
    );
}

#[test]
fn cleaning_any_written_blocks() {
    let blocks = [
        (7usize, 0i64, 150i64, " Hello "),
        (3, 150, 300, "   "),
        (42, 300, 450, "world"),
        (0, 450, 600, ""),
    ];
    let srt: String = blocks
        .iter()
        .map(|(i, t0, t1, x)| format_srt_segment(*i, *t0, *t1, x))
        .collect();
    assert_eq!(clean_srt(&srt), "Hello world");
    assert_eq!(clean_srt(&clean_srt(&srt)), clean_srt(&srt));
}

#[test]
fn timestamp_text_sorts_by_time() {
    let ticks = [0i64, 1, 99, 100, 5_999, 6_000, 359_999, 360_000, 35_999_999];
    for w in ticks.windows(2) {
        let a = format_timestamp(w[0]);
        let b = format_timestamp(w[1]);
        assert_eq!(a.len(), 12);
        assert_eq!(b.len(), 12);
        assert!(a <= b);
    }
}

#[test]
fn filtering_twice_changes_nothing() {
    let srt = "1\n00:00:01,000 --> 00:00:02,000\nA\n\n2\n00:00:04,000 --> 00:00:06,000\nB\n  b2\n\n3\n00:00:08,000 --> 00:00:09,000\nC\n\n";
    let times = vec![(1, 2), (4, 6), (8, 9)];
    let once = filter_srt_with_times(srt, Some(3), Some(10), &times).unwrap();
    assert_eq!(
        once,
        "1\n00:00:04,000 --> 00:00:06,000\nB\n  b2\n\n2\n00:00:08,000 --> 00:00:09,000\nC\n\n"
    );
    let cues = srt_cues(&once);
    assert_eq!(cues.len(), 2);
    assert_eq!(cues[0].text, "B\n  b2");
    let kept = vec![(4, 6), (8, 9)];
    let twice = filter_srt_with_times(&once, Some(3), Some(10), &kept).unwrap();
    assert_eq!(twice, once);
}

#[test]
fn site_audio_requests_pass_url_and_cookies() {
    let url = "not an http url";
    let vimeo = download_vimeo_audio(url, None, None, None);
    assert_eq!(vimeo.args.last().unwrap(), url);
    assert!(!vimeo.args.contains(&"--cookies-from-browser".to_string()));
    let ig = media_transcriber_mcp::sources::instagram::download_instagram_audio(
        "https://www.instagram.com/reel/x/",
        None,
        None,
        Some("firefox"),
    );
    assert_eq!(ig.args[3], "--cookies-from-browser");
    assert_eq!(ig.args[4], "firefox");
}

#[test]
fn filter_by_range_completes_the_times() {
    let srt = "1\n00:00:01,000 --> 00:00:02,000\nA\n\n2\n01:00:04,000 --> 01:00:06,000\nB\n\n";
    // Whole seconds of the seconds parts only: the hours and minutes come
    // from the time lines.
    let seconds = vec![(1, 2), (4, 6)];
    assert_eq!(
        filter_srt_by_range(srt, Some(3600), Some(10), &seconds).as_deref(),
        Some("1\n01:00:04,000 --> 01:00:06,000\nB\n\n")
    );
    assert_eq!(
        filter_srt_by_range(srt, None, Some(3), &seconds).as_deref(),
        Some("1\n00:00:01,000 --> 00:00:02,000\nA\n\n")
    );
    assert_eq!(filter_srt_by_range(srt, None, None, &vec![]).as_deref(), Some(srt));
    let huge = "1\n5124095576030431:00:00,000 --> 5124095576030431:00:00,000\nX\n\n";
    assert_eq!(filter_srt_by_range(huge, Some(0), None, &vec![(16, 16)]), None);
    // The time fits, but a segment starting at u64::MAX is outside [0, u64::MAX).
    assert_eq!(
        filter_srt_by_range(huge, Some(0), None, &vec![(15, 15)]).as_deref(),
        Some("")
    );
}
