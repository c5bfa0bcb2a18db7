//! Screenshots and scene sampling with ffmpeg: the arguments it is run with,
//! which of the frames it wrote are returned and in what order, and the
//! Base64 text that carries each image.
use vstd::prelude::*;
use vstd::seq_lib::group_to_multiset_ensures;

use crate::decimal::{fmt_int, push_fmt_int};
use crate::paths::{join_path, join_path_str};
use crate::sources::instagram::download_instagram_video;
use crate::sources::reddit::download_reddit_video;
use crate::sources::twitter::download_twitter_video;
use crate::sources::vimeo::download_vimeo_video;
use crate::sources::youtube::{download_youtube_video, query_url};
use crate::sources::ytdlp::{arg_views, opt_view, push_arg, video_request, YtdlpRequest};
use crate::transcriber::{media_source, MediaSource};
use crate::text::string_of;

verus! {

broadcast use group_to_multiset_ensures;

/// Arguments of the `capture_screenshot` tool.
#[derive(Debug)]
pub struct CaptureScreenshotTool {
    /// Local path to the video file, or a YouTube URL / search query, or a
    /// Vimeo, Reddit, Twitter/X or Instagram URL.
    pub video_path: String,
    /// Timestamp to capture the screenshot at, e.g. `"00:01:23"` or `"123"` (seconds).
    pub timestamp: String,
    /// Source hint (`"youtube"`, `"vimeo"`, `"reddit"`, `"twitter"`,
    /// `"instagram"`); detected from the path when absent.
    pub source: Option<String>,
    /// Browser whose cookies yt-dlp uses (e.g. `"chrome"`).
    pub browser_cookies: Option<String>,
}

/// Arguments of the `sample_video_scenes` tool.
#[derive(Debug)]
pub struct SampleVideoScenesTool {
    /// Local path to the video file, or a YouTube URL / search query, or a
    /// Vimeo, Reddit, Twitter/X or Instagram URL.
    pub video_path: String,
    /// Maximum number of frames to extract (10 when absent).
    pub max_frames: Option<i32>,
    /// Source hint, as for `capture_screenshot`.
    pub source: Option<String>,
    /// Browser whose cookies yt-dlp uses (e.g. `"chrome"`).
    pub browser_cookies: Option<String>,
}

// ---------------------------------------------------------------------------
// ffmpeg arguments
// ---------------------------------------------------------------------------

/// ffmpeg arguments that write the frame of `video` at `timestamp` as a
/// high-quality JPEG image to `output`.
pub open spec fn screenshot_args(video: Seq<char>, timestamp: Seq<char>, output: Seq<char>) -> Seq<
    Seq<char>,
> {
    seq![
        "-y"@,
        "-ss"@,
        timestamp,
        "-i"@,
        video,
        "-vframes"@,
        "1"@,
        "-q:v"@,
        "2"@,
        "-f"@,
        "image2"@,
        output,
    ]
}

/// The ffmpeg arguments of a screenshot (see `screenshot_args`).
pub fn extract_screenshot_args(video_path: &str, timestamp: &str, output_path: &str) -> (r: Vec<
    String,
>)
    ensures
        arg_views(r@) == screenshot_args(video_path@, timestamp@, output_path@),
{
    let mut args: Vec<String> = Vec::new();
    let ghost e = arg_views(args@);
    assert(e == Seq::<Seq<char>>::empty());
    push_arg(&mut args, "-y");
    push_arg(&mut args, "-ss");
    push_arg(&mut args, timestamp);
    push_arg(&mut args, "-i");
    push_arg(&mut args, video_path);
    push_arg(&mut args, "-vframes");
    push_arg(&mut args, "1");
    push_arg(&mut args, "-q:v");
    push_arg(&mut args, "2");
    push_arg(&mut args, "-f");
    push_arg(&mut args, "image2");
    push_arg(&mut args, output_path);
    assert(arg_views(args@) =~= screenshot_args(video_path@, timestamp@, output_path@));
    args
}

/// The ffmpeg filter that keeps frames where the scene changes, scaled down
/// to at most 800 pixels wide.
pub open spec fn scene_filter() -> Seq<char> {
    "select='gt(scene,0.4)',scale='min(800,iw)':-1"@
}

/// The file name pattern of the sampled frames.
pub open spec fn frame_pattern() -> Seq<char> {
    "frame_%03d.jpg"@
}

/// ffmpeg arguments that write up to `max_frames` frames of `video` where the
/// scene changes, as JPEG images named by `frame_pattern` in `dir`.
pub open spec fn scenes_args(video: Seq<char>, max_frames: i32, dir: Seq<char>) -> Seq<Seq<char>> {
    seq![
        "-y"@,
        "-i"@,
        video,
        "-vf"@,
        scene_filter(),
        "-fps_mode"@,
        "vfr"@,
        "-q:v"@,
        "2"@,
        "-frames:v"@,
        fmt_int(max_frames as int, 0),
        join_path(dir, frame_pattern()),
    ]
}

/// The ffmpeg arguments of scene sampling (see `scenes_args`).
pub fn sample_scenes_args(video_path: &str, max_frames: i32, dir: &str) -> (r: Vec<String>)
    ensures
        arg_views(r@) == scenes_args(video_path@, max_frames, dir@),
{
    let mut args: Vec<String> = Vec::new();
    let ghost e = arg_views(args@);
    assert(e == Seq::<Seq<char>>::empty());
    push_arg(&mut args, "-y");
    push_arg(&mut args, "-i");
    push_arg(&mut args, video_path);
    push_arg(&mut args, "-vf");
    push_arg(&mut args, "select='gt(scene,0.4)',scale='min(800,iw)':-1");
    push_arg(&mut args, "-fps_mode");
    push_arg(&mut args, "vfr");
    push_arg(&mut args, "-q:v");
    push_arg(&mut args, "2");
    push_arg(&mut args, "-frames:v");
    let mut count: Vec<char> = Vec::new();
    let negative = max_frames < 0;
    let mag: u64 = if negative {
        (0 - (max_frames as i64)) as u64
    } else {
        max_frames as u64
    };
    push_fmt_int(&mut count, negative, mag, 0);
    assert(count@ == fmt_int(max_frames as int, 0));
    let count_text = string_of(&count);
    push_arg(&mut args, count_text.as_str());
    let pattern = join_path_str(dir, "frame_%03d.jpg");
    push_arg(&mut args, pattern.as_str());
    assert(arg_views(args@) =~= scenes_args(video_path@, max_frames, dir@));
    args
}

/// The number of frames to sample: the one asked for, or 10.
pub fn frame_limit(max_frames: Option<i32>) -> (r: i32)
    ensures
        r == match max_frames {
            Some(n) => n,
            None => 10,
        },
{
    match max_frames {
        Some(n) => n,
        None => 10,
    }
}

/// The request for the video of a remote source; none for local media.
pub fn video_request_for(source: MediaSource, video_path: &str, browser_cookies: Option<&str>) -> (r:
    Option<YtdlpRequest>)
    ensures
        source == MediaSource::Local ==> r is None,
        source == MediaSource::YouTube ==> (r matches Some(q) && video_request(
            query_url(video_path@),
            opt_view(browser_cookies),
            q,
        )),
        (source != MediaSource::Local && source != MediaSource::YouTube) ==> (r matches Some(q)
            && video_request(video_path@, opt_view(browser_cookies), q)),
{
    match source {
        MediaSource::YouTube => Some(download_youtube_video(video_path, browser_cookies)),
        MediaSource::Vimeo => Some(download_vimeo_video(video_path, browser_cookies)),
        MediaSource::Reddit => Some(download_reddit_video(video_path, browser_cookies)),
        MediaSource::Twitter => Some(download_twitter_video(video_path, browser_cookies)),
        MediaSource::Instagram => Some(download_instagram_video(video_path, browser_cookies)),
        MediaSource::Local => None,
    }
}

/// What a video path needs before ffmpeg can read it: remote media (see
/// `media_source`) is downloaded first, with this request; a local path is
/// read as is (`None`).
pub fn video_download(video_path: &str, source: Option<&str>, browser_cookies: Option<&str>) -> (r:
    Option<YtdlpRequest>)
    ensures
        exists|on_disk: bool|
            {
                let s = #[trigger] media_source(video_path@, opt_view(source), on_disk);
                &&& s == MediaSource::Local ==> r is None
                &&& s == MediaSource::YouTube ==> (r matches Some(q) && video_request(
                    query_url(video_path@),
                    opt_view(browser_cookies),
                    q,
                ))
                &&& (s != MediaSource::Local && s != MediaSource::YouTube) ==> (r matches Some(q)
                    && video_request(video_path@, opt_view(browser_cookies), q))
            },
{
    let s = MediaSource::detect(video_path, source);
    video_request_for(s, video_path, browser_cookies)
}

// ---------------------------------------------------------------------------
// The frames written
// ---------------------------------------------------------------------------

/// The texts (as bytes) of a list of names.
pub open spec fn byte_views(v: Seq<Vec<u8>>) -> Seq<Seq<u8>> {
    v.map_values(|x: Vec<u8>| x@)
}

/// A file name whose extension (`Path::extension`) is `jpg`: it ends with
/// `".jpg"` after at least one other byte.
pub open spec fn jpg_name(name: Seq<u8>) -> bool {
    name.len() > 4 && name.skip(name.len() - 4) == seq![46u8, 106u8, 112u8, 103u8]
}

/// The names among `names` that `jpg_name` accepts, in order.
pub open spec fn jpg_names(names: Seq<Seq<u8>>) -> Seq<Seq<u8>>
    decreases names.len(),
{
    if names.len() == 0 {
        seq![]
    } else if jpg_name(names.last()) {
        jpg_names(names.drop_last()).push(names.last())
    } else {
        jpg_names(names.drop_last())
    }
}

/// `a <= b` in the byte-wise lexicographic order (the order of `Path`s in one
/// directory): a prefix comes first.
pub open spec fn bytes_le(a: Seq<u8>, b: Seq<u8>) -> bool
    decreases a.len(),
{
    if a.len() == 0 {
        true
    } else if b.len() == 0 {
        false
    } else if a[0] != b[0] {
        a[0] < b[0]
    } else {
        bytes_le(a.drop_first(), b.drop_first())
    }
}

/// `s` is in ascending order.
pub open spec fn sorted_bytes(s: Seq<Seq<u8>>) -> bool {
    forall|i: int, j: int| 0 <= i < j < s.len() ==> bytes_le(#[trigger] s[i], #[trigger] s[j])
}

/// Any two names are ordered one way or the other.
pub proof fn lemma_bytes_le_total(a: Seq<u8>, b: Seq<u8>)
    ensures
        bytes_le(a, b) || bytes_le(b, a),
    decreases a.len(),
{
    if a.len() > 0 && b.len() > 0 && a[0] == b[0] {
        lemma_bytes_le_total(a.drop_first(), b.drop_first());
    }
}

/// The order is transitive.
pub proof fn lemma_bytes_le_trans(a: Seq<u8>, b: Seq<u8>, c: Seq<u8>)
    requires
        bytes_le(a, b),
        bytes_le(b, c),
    ensures
        bytes_le(a, c),
    decreases a.len(),
{
    if a.len() > 0 && b.len() > 0 && c.len() > 0 && a[0] == b[0] && b[0] == c[0] {
        lemma_bytes_le_trans(a.drop_first(), b.drop_first(), c.drop_first());
    }
}

/// The order is antisymmetric.
pub proof fn lemma_bytes_le_antisym(a: Seq<u8>, b: Seq<u8>)
    requires
        bytes_le(a, b),
        bytes_le(b, a),
    ensures
        a == b,
    decreases a.len(),
{
    if a.len() > 0 {
        lemma_bytes_le_antisym(a.drop_first(), b.drop_first());
        assert(a == seq![a[0]] + a.drop_first());
        assert(b == seq![b[0]] + b.drop_first());
    } else {
        assert(b.len() == 0);
        assert(a =~= b);
    }
}

fn bytes_le_exec(a: &[u8], b: &[u8]) -> (r: bool)
    ensures
        r == bytes_le(a@, b@),
{
    let mut i: usize = 0;
    assert(a@.skip(0) == a@);
    assert(b@.skip(0) == b@);
    while i < a.len() && i < b.len() && a[i] == b[i]
        invariant
            i <= a.len(),
            i <= b.len(),
            bytes_le(a@, b@) == bytes_le(a@.skip(i as int), b@.skip(i as int)),
        decreases a.len() - i,
    {
        assert(a@.skip(i as int).drop_first() == a@.skip(i + 1));
        assert(b@.skip(i as int).drop_first() == b@.skip(i + 1));
        i += 1;
    }
    if i == a.len() {
        true
    } else if i == b.len() {
        false
    } else {
        a[i] < b[i]
    }
}

fn copy_bytes(v: &[u8]) -> (r: Vec<u8>)
    ensures
        r@ == v@,
{
    let mut r: Vec<u8> = Vec::new();
    for i in 0..v.len()
        invariant
            r@ == v@.take(i as int),
    {
        r.push(v[i]);
        assert(r@ =~= v@.take(i + 1));
    }
    assert(v@.take(v@.len() as int) == v@);
    r
}

fn insert_sorted(out: &mut Vec<Vec<u8>>, x: Vec<u8>)
    requires
        sorted_bytes(byte_views(old(out)@)),
    ensures
        sorted_bytes(byte_views(final(out)@)),
        byte_views(final(out)@).to_multiset() == byte_views(old(out)@).to_multiset().insert(x@),
{
    let ghost s = byte_views(out@);
    let mut p: usize = 0;
    while p < out.len() && bytes_le_exec(&out[p], &x)
        invariant
            p <= out.len(),
            s == byte_views(out@),
            forall|k: int| 0 <= k < p ==> bytes_le(#[trigger] s[k], x@),
        decreases out.len() - p,
    {
        assert(s[p as int] == out@[p as int]@);
        p += 1;
    }
    proof {
        if p < out.len() {
            assert(s[p as int] == out@[p as int]@);
            lemma_bytes_le_total(x@, s[p as int]);
        }
    }
    let ghost xv = x@;
    out.insert(p, x);
    let ghost t = byte_views(out@);
    assert(t =~= s.insert(p as int, xv));
    assert forall|i: int, j: int| 0 <= i < j < t.len() implies bytes_le(
        #[trigger] t[i],
        #[trigger] t[j],
    ) by {
        if i < p && j < p {
            assert(t[i] == s[i] && t[j] == s[j]);
        } else if i < p && j == p {
        } else if i < p {
            assert(t[i] == s[i] && t[j] == s[j - 1]);
            lemma_bytes_le_trans(s[i], xv, s[p as int]);
            if j - 1 > p {
                lemma_bytes_le_trans(s[i], s[p as int], s[j - 1]);
            }
        } else if i == p {
            assert(t[j] == s[j - 1]);
            if j - 1 > p {
                lemma_bytes_le_trans(xv, s[p as int], s[j - 1]);
            }
        } else {
            assert(t[i] == s[i - 1] && t[j] == s[j - 1]);
        }
    }
}

/// The frames to return from the names of the files ffmpeg wrote into its
/// output directory: the JPEG ones, in ascending order of name.
pub fn select_frame_files(names: &Vec<Vec<u8>>) -> (r: Vec<Vec<u8>>)
    ensures
        sorted_bytes(byte_views(r@)),
        byte_views(r@).to_multiset() == jpg_names(byte_views(names@)).to_multiset(),
{
    let ghost all = byte_views(names@);
    let mut out: Vec<Vec<u8>> = Vec::new();
    assert(byte_views(out@) =~= Seq::<Seq<u8>>::empty());
    for i in 0..names.len()
        invariant
            all == byte_views(names@),
            sorted_bytes(byte_views(out@)),
            byte_views(out@).to_multiset() == jpg_names(all.take(i as int)).to_multiset(),
    {
        assert(all.take(i + 1).drop_last() == all.take(i as int));
        assert(all.take(i + 1).last() == names@[i as int]@);
        let name = &names[i];
        let n = name.len();
        if n > 4 && name[n - 4] == 46u8 && name[n - 3] == 106u8 && name[n - 2] == 112u8 && name[n
            - 1] == 103u8 {
            assert(name@.skip(n - 4) =~= seq![46u8, 106u8, 112u8, 103u8]);
            let x = copy_bytes(name);
            insert_sorted(&mut out, x);
            let ghost pre = jpg_names(all.take(i as int));
            assert(jpg_names(all.take(i + 1)) == pre.push(name@));
            assert(pre.push(name@) == pre.insert(pre.len() as int, name@));
        } else {
            assert(!jpg_name(name@)) by {
                if jpg_name(name@) {
                    assert(name@.skip(n - 4)[0] == name@[n - 4]);
                    assert(name@.skip(n - 4)[1] == name@[n - 3]);
                    assert(name@.skip(n - 4)[2] == name@[n - 2]);
                    assert(name@.skip(n - 4)[3] == name@[n - 1]);
                }
            }
        }
    }
    assert(all.take(names.len() as int) == all);
    out
}

// ---------------------------------------------------------------------------
// Base64
// ---------------------------------------------------------------------------

/// The character of the 6-bit value `v` in the standard Base64 alphabet.
pub open spec fn b64_char(v: int) -> char {
    if v < 26 {
        (65 + v) as char
    } else if v < 52 {
        (97 + v - 26) as char
    } else if v < 62 {
        (48 + v - 52) as char
    } else if v == 62 {
        '+'
    } else {
        '/'
    }
}

/// Standard Base64 (RFC 4648, with `=` padding) of `data`: each group of
/// three bytes becomes four characters of six bits each, and a last group
/// of one or two bytes is padded.
pub open spec fn base64(data: Seq<u8>) -> Seq<char>
    decreases data.len(),
{
    let b0 = if data.len() > 0 { data[0] as int } else { 0 };
    let b1 = if data.len() > 1 { data[1] as int } else { 0 };
    let b2 = if data.len() > 2 { data[2] as int } else { 0 };
    if data.len() == 0 {
        seq![]
    } else if data.len() == 1 {
        seq![b64_char(b0 / 4), b64_char((b0 % 4) * 16), '=', '=']
    } else if data.len() == 2 {
        seq![b64_char(b0 / 4), b64_char((b0 % 4) * 16 + b1 / 16), b64_char((b1 % 16) * 4), '=']
    } else {
        seq![
            b64_char(b0 / 4),
            b64_char((b0 % 4) * 16 + b1 / 16),
            b64_char((b1 % 16) * 4 + b2 / 64),
            b64_char(b2 % 64),
        ] + base64(data.skip(3))
    }
}

/// `base64::engine::general_purpose::STANDARD.encode`: the standard Base64
/// text of `data` (the crate panics only when the text's length overflows
/// `usize`, which the bound on `data` rules out).
#[verifier::external_body]
fn encode_base64(data: &[u8]) -> (s: String)
    requires
        data@.len() <= usize::MAX / 2,
    ensures
        s@ == base64(data@),
{
    base64::Engine::encode(&base64::engine::general_purpose::STANDARD, data)
}

/// The Base64 text that carries a JPEG screenshot.
pub fn screenshot_payload(image: &[u8]) -> (s: String)
    requires
        image@.len() <= usize::MAX / 2,
    ensures
        s@ == base64(image@),
{
    encode_base64(image)
}

/// What sampling scenes answers: that no scene change was found, or the
/// frames, each as Base64 text.
#[derive(Debug)]
pub enum ScenesReply {
    NoScenes,
    Images(Vec<String>),
}

/// The answer for the sampled frames `images`: `NoScenes` when there are
/// none, otherwise the Base64 text of each, in order.
pub fn scenes_reply(images: &Vec<Vec<u8>>) -> (r: ScenesReply)
    requires
        forall|i: int| 0 <= i < images@.len() ==> (#[trigger] images@[i])@.len() <= usize::MAX / 2,
    ensures
        images@.len() == 0 ==> r is NoScenes,
        images@.len() > 0 ==> (r matches ScenesReply::Images(v) && v@.len() == images@.len() && forall|
            i: int,
        |
            0 <= i < v@.len() ==> (#[trigger] v@[i])@ == base64(images@[i]@)),
{
    if images.len() == 0 {
        return ScenesReply::NoScenes;
    }
    let mut out: Vec<String> = Vec::new();
    for i in 0..images.len()
        invariant
            forall|i: int| 0 <= i < images@.len() ==> (#[trigger] images@[i])@.len() <= usize::MAX / 2,
            out@.len() == i,
            forall|k: int| 0 <= k < i ==> (#[trigger] out@[k])@ == base64(images@[k]@),
    {
        let ghost before = out@;
        out.push(encode_base64(&images[i]));
        assert(forall|k: int| 0 <= k < i ==> out@[k] == before[k]);
    }
    ScenesReply::Images(out)
}

} // verus!
