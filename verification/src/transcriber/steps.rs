//! The course of a `transcribe_media` call as steps: from where it stands
//! and what the last piece of outside work gave, the next stage and the next
//! thing to do (download, read, filter, locate the model, convert, run
//! Whisper, answer).
use vstd::prelude::*;

use super::{
    audio_request_for, ffmpeg_window, opt_string_view, plan_transcription, subtitle_reply,
    subtitle_request_for, MediaSource, TranscribePlan, TranscribeTool,
};
use crate::audio::utils::srt_plain_text;
use crate::sources::youtube::query_url;
use crate::sources::ytdlp::{
    audio_request, section_in_range, subtitle_request, timestamp_secs, timestamp_secs_checked,
    YtdlpRequest,
};
use crate::text::{push_str, string_of};

verus! {

/// What a transcription is waiting for.
#[derive(Debug, Clone, Copy, PartialEq, Eq, Structural)]
pub enum TranscribeStage {
    /// The download of the official subtitles.
    Subtitles,
    /// The text of the subtitle file.
    SubtitleText,
    /// The subtitles, filtered to the window asked for.
    Filtering,
    /// The download of the audio.
    Audio,
    /// The path of the Whisper model.
    Model,
    /// The conversion of the media to WAV.
    Wav,
    /// Whisper's transcription.
    Whisper,
    /// Nothing: the call is answered.
    Finished,
}

/// A transcription under way: its arguments and settings, the media and
/// model paths once known, and what it waits for.
#[derive(Debug)]
pub struct Transcription {
    pub args: TranscribeTool,
    pub plan: TranscribePlan,
    /// The local path of the media (empty until known).
    pub media: String,
    /// The path of the Whisper model (empty until known).
    pub model: String,
    pub stage: TranscribeStage,
}

/// What a piece of outside work gave.
#[derive(Debug)]
pub enum TranscribeEvent {
    /// yt-dlp finished: the path of the file it wrote, or why it failed.
    Downloaded(Result<String, String>),
    /// The subtitle file was read: its text, or why it could not be.
    Read(Result<String, String>),
    /// The subtitles, filtered to the window asked for.
    Filtered(String),
    /// The model was located: its path, or why not.
    ModelLocated(Result<String, String>),
    /// The media was converted: the WAV file's path, or why not.
    Converted(Result<String, String>),
    /// Whisper ran: its answer, or why it failed.
    Transcribed(Result<String, String>),
}

/// Why a transcription stops where the computation it needs cannot be done.
#[derive(Debug, Clone, Copy, PartialEq, Eq, Structural)]
pub enum AbortReason {
    /// The start timestamp's seconds do not fit in `u64`.
    TimestampOverflow,
    /// The end of the section asked for does not fit in `u64` seconds.
    SectionOverflow,
    /// The event does not answer what the transcription waits for.
    UnexpectedEvent,
}

/// What to do next.
#[derive(Debug)]
pub enum TranscribeAction {
    /// Run yt-dlp as asked; answer with `Downloaded`.
    Download(YtdlpRequest),
    /// Read the subtitle file at this path; answer with `Read`.
    ReadSubtitles(String),
    /// Keep the segments of `srt` in the window (see `filter_srt_with_times`);
    /// answer with `Filtered`.
    FilterSubtitles { srt: String, start_secs: Option<u64>, duration_secs: Option<u64> },
    /// Locate the Whisper model; answer with `ModelLocated`.
    LocateModel,
    /// Convert `input` (or the window asked for) to WAV; answer with `Converted`.
    ConvertToWav { input: String, start: Option<String>, duration: Option<u64> },
    /// Run Whisper on `wav` with `model`; answer with `Transcribed`.
    Transcribe { wav: String, model: String, translate: bool, output_format: String },
    /// Answer the call with this text.
    Reply(String),
    /// Answer the call with this error.
    Fail(String),
    /// Stop: the computation asked for cannot be done.
    Abort(AbortReason),
}

/// The URL that yt-dlp is given for remote media at `path`.
pub open spec fn remote_url(source: MediaSource, path: Seq<char>) -> Seq<char> {
    if source == MediaSource::YouTube {
        query_url(path)
    } else {
        path
    }
}

/// `n` keeps the arguments and the settings of `t`.
pub open spec fn keeps(t: Transcription, n: Transcription) -> bool {
    n.args == t.args && n.plan == t.plan
}

/// The step that follows when subtitles give no answer (or are not tried):
/// remote media has its audio (or the section asked for) fetched; local media
/// goes straight to the model.
pub open spec fn audio_step(
    args: TranscribeTool,
    plan: TranscribePlan,
    r: (Transcription, TranscribeAction),
) -> bool {
    let start = opt_string_view(args.start_timestamp);
    &&& r.0.args == args
    &&& r.0.plan == plan
    &&& if plan.source == MediaSource::Local {
        &&& r.0.stage == TranscribeStage::Model
        &&& r.0.media@ == args.file_path@
        &&& r.1 is LocateModel
    } else if section_in_range(start, args.duration_secs) {
        &&& r.0.stage == TranscribeStage::Audio
        &&& r.1 matches TranscribeAction::Download(q) && audio_request(
            remote_url(plan.source, args.file_path@),
            start,
            args.duration_secs,
            opt_string_view(args.browser_cookies),
            q,
        )
    } else {
        &&& r.0.stage == TranscribeStage::Finished
        &&& r.1 == TranscribeAction::Abort(AbortReason::SectionOverflow)
    }
}

/// The step that filters the subtitle text `srt` to the window asked for.
pub open spec fn filter_step(t: Transcription, srt: Seq<char>, r: (Transcription, TranscribeAction)) -> bool {
    &&& keeps(t, r.0)
    &&& match opt_string_view(t.args.start_timestamp) {
        Some(s) => if timestamp_secs(s) <= u64::MAX {
            &&& r.0.stage == TranscribeStage::Filtering
            &&& r.1 matches TranscribeAction::FilterSubtitles { srt: x, start_secs, duration_secs }
                && x@ == srt && start_secs == Some(timestamp_secs(s) as u64) && duration_secs
                == t.args.duration_secs
        } else {
            &&& r.0.stage == TranscribeStage::Finished
            &&& r.1 == TranscribeAction::Abort(AbortReason::TimestampOverflow)
        },
        None => {
            &&& r.0.stage == TranscribeStage::Filtering
            &&& r.1 matches TranscribeAction::FilterSubtitles { srt: x, start_secs, duration_secs }
                && x@ == srt && start_secs is None && duration_secs == t.args.duration_secs
        },
    }
}

/// What the filtered subtitles `f` answer in the format asked for (see
/// `subtitle_reply`).
pub open spec fn subtitle_answer(f: Seq<char>, output_format: Seq<char>) -> Option<Seq<char>> {
    if output_format == "text"@ {
        Some(srt_plain_text(f))
    } else if output_format == "srt"@ {
        Some(f)
    } else {
        None
    }
}

/// The call ends: the arguments and settings are kept and nothing more is
/// awaited.
pub open spec fn ends(t: Transcription, r: (Transcription, TranscribeAction)) -> bool {
    keeps(t, r.0) && r.0.stage == TranscribeStage::Finished
}

/// The step that follows event `e` in transcription `t`.
pub open spec fn next_step(t: Transcription, e: TranscribeEvent, r: (Transcription, TranscribeAction)) -> bool {
    match (t.stage, e) {
        (TranscribeStage::Subtitles, TranscribeEvent::Downloaded(Ok(p))) => {
            &&& keeps(t, r.0)
            &&& r.0.stage == TranscribeStage::SubtitleText
            &&& r.1 matches TranscribeAction::ReadSubtitles(q) && q@ == p@
        },
        (TranscribeStage::Subtitles, TranscribeEvent::Downloaded(Err(_))) => audio_step(t.args, t.plan, r),
        (TranscribeStage::SubtitleText, TranscribeEvent::Read(Ok(text))) => filter_step(t, text@, r),
        (TranscribeStage::SubtitleText, TranscribeEvent::Read(Err(_))) => audio_step(t.args, t.plan, r),
        (TranscribeStage::Filtering, TranscribeEvent::Filtered(f)) => match subtitle_answer(
            f@,
            t.plan.output_format@,
        ) {
            Some(a) => {
                &&& ends(t, r)
                &&& r.1 matches TranscribeAction::Reply(x) && x@ == a
            },
            None => audio_step(t.args, t.plan, r),
        },
        (TranscribeStage::Audio, TranscribeEvent::Downloaded(Ok(p))) => {
            &&& keeps(t, r.0)
            &&& r.0.stage == TranscribeStage::Model
            &&& r.0.media@ == p@
            &&& r.1 is LocateModel
        },
        (TranscribeStage::Audio, TranscribeEvent::Downloaded(Err(m))) => {
            &&& ends(t, r)
            &&& r.1 matches TranscribeAction::Fail(x) && x@ == m@
        },
        (TranscribeStage::Model, TranscribeEvent::ModelLocated(Ok(p))) => {
            &&& keeps(t, r.0)
            &&& r.0.stage == TranscribeStage::Wav
            &&& r.0.model@ == p@
            &&& r.1 matches TranscribeAction::ConvertToWav { input, start, duration } && input@
                == t.media@ && opt_string_view(start) == (if t.plan.source == MediaSource::Local {
                opt_string_view(t.args.start_timestamp)
            } else {
                None
            }) && duration == (if t.plan.source == MediaSource::Local {
                t.args.duration_secs
            } else {
                None
            })
        },
        (TranscribeStage::Model, TranscribeEvent::ModelLocated(Err(m))) => {
            &&& ends(t, r)
            &&& r.1 matches TranscribeAction::Fail(x) && x@ == m@
        },
        (TranscribeStage::Wav, TranscribeEvent::Converted(Ok(w))) => {
            &&& keeps(t, r.0)
            &&& r.0.stage == TranscribeStage::Whisper
            &&& r.1 matches TranscribeAction::Transcribe { wav, model, translate, output_format }
                && wav@ == w@ && model@ == t.model@ && translate == t.plan.translate
                && output_format@ == t.plan.output_format@
        },
        (TranscribeStage::Wav, TranscribeEvent::Converted(Err(m))) => {
            &&& ends(t, r)
            &&& r.1 matches TranscribeAction::Fail(x) && x@ == "Error converting to WAV: "@ + m@
        },
        (TranscribeStage::Whisper, TranscribeEvent::Transcribed(Ok(text))) => {
            &&& ends(t, r)
            &&& r.1 matches TranscribeAction::Reply(x) && x@ == text@
        },
        (TranscribeStage::Whisper, TranscribeEvent::Transcribed(Err(m))) => {
            &&& ends(t, r)
            &&& r.1 matches TranscribeAction::Fail(x) && x@ == "Transcription error: "@ + m@
        },
        _ => {
            &&& keeps(t, r.0)
            &&& r.0.stage == t.stage
            &&& r.1 == TranscribeAction::Abort(AbortReason::UnexpectedEvent)
        },
    }
}

fn audio_or_model(t: Transcription) -> (r: (Transcription, TranscribeAction))
    ensures
        audio_step(t.args, t.plan, r),
{
    let Transcription { args, plan, media, model, stage } = t;
    if plan.source == MediaSource::Local {
        let media = args.file_path.clone();
        return (
            Transcription { args, plan, media, model, stage: TranscribeStage::Model },
            TranscribeAction::LocateModel,
        );
    }
    let in_range = match &args.start_timestamp {
        Some(s) => match timestamp_secs_checked(s.as_str()) {
            Some(v) => match args.duration_secs {
                Some(d) => v <= u64::MAX - d,
                None => true,
            },
            None => false,
        },
        None => true,
    };
    if !in_range {
        return (
            Transcription { args, plan, media, model, stage: TranscribeStage::Finished },
            TranscribeAction::Abort(AbortReason::SectionOverflow),
        );
    }
    let request = audio_request_for(plan.source, &args);
    match request {
        Some(q) => (
            Transcription { args, plan, media, model, stage: TranscribeStage::Audio },
            TranscribeAction::Download(q),
        ),
        None => (
            Transcription { args, plan, media, model, stage: TranscribeStage::Finished },
            TranscribeAction::Abort(AbortReason::UnexpectedEvent),
        ),
    }
}

fn prefixed(prefix: &str, message: &str) -> (s: String)
    ensures
        s@ == prefix@ + message@,
{
    let mut out: Vec<char> = Vec::new();
    push_str(&mut out, prefix);
    push_str(&mut out, message);
    string_of(&out)
}

/// Starts a transcription asked for with `args`: official subtitles (written
/// into `temp_dir`) are fetched first when the plan tries them (see
/// `plan_transcription`); otherwise it goes on as `audio_step` says.
pub fn start_transcription(args: TranscribeTool, temp_dir: &str) -> (r: (Transcription, TranscribeAction))
    ensures
        r.0.args == args,
        r.0.plan.task@ == match opt_string_view(args.task) {
            Some(t) => t,
            None => "transcribe"@,
        },
        r.0.plan.output_format@ == match opt_string_view(args.output_format) {
            Some(f) => f,
            None => "text"@,
        },
        exists|on_disk: bool|
            r.0.plan.source == super::media_source(
                args.file_path@,
                opt_string_view(args.source),
                on_disk,
            ),
        r.0.plan.try_subtitles == (r.0.plan.task@ == "transcribe"@ && r.0.plan.source
            != MediaSource::Local),
        r.0.plan.translate == (r.0.plan.task@ == "translate"@),
        r.0.plan.try_subtitles ==> {
            &&& r.0.stage == TranscribeStage::Subtitles
            &&& r.1 matches TranscribeAction::Download(q) && subtitle_request(
                remote_url(r.0.plan.source, args.file_path@),
                opt_string_view(args.browser_cookies),
                temp_dir@,
                q,
            )
        },
        !r.0.plan.try_subtitles ==> audio_step(args, r.0.plan, r),
{
    let plan = plan_transcription(&args);
    let media = String::new();
    let model = String::new();
    if plan.try_subtitles {
        let request = subtitle_request_for(plan.source, &args, temp_dir);
        match request {
            Some(q) => (
                Transcription { args, plan, media, model, stage: TranscribeStage::Subtitles },
                TranscribeAction::Download(q),
            ),
            None => (
                Transcription { args, plan, media, model, stage: TranscribeStage::Finished },
                TranscribeAction::Abort(AbortReason::UnexpectedEvent),
            ),
        }
    } else {
        audio_or_model(Transcription { args, plan, media, model, stage: TranscribeStage::Subtitles })
    }
}

/// The step that follows event `e` in transcription `t` (see `next_step`).
pub fn transcription_next(t: Transcription, e: TranscribeEvent) -> (r: (Transcription, TranscribeAction))
    ensures
        next_step(t, e, r),
{
    let stage = t.stage;
    match e {
        TranscribeEvent::Downloaded(Ok(p)) => {
            if stage == TranscribeStage::Subtitles {
                let Transcription { args, plan, media, model, stage } = t;
                (
                    Transcription { args, plan, media, model, stage: TranscribeStage::SubtitleText },
                    TranscribeAction::ReadSubtitles(p),
                )
            } else if stage == TranscribeStage::Audio {
                let Transcription { args, plan, media, model, stage } = t;
                (
                    Transcription { args, plan, media: p, model, stage: TranscribeStage::Model },
                    TranscribeAction::LocateModel,
                )
            } else {
                unexpected(t)
            }
        },
        TranscribeEvent::Downloaded(Err(m)) => {
            if stage == TranscribeStage::Subtitles {
                audio_or_model(t)
            } else if stage == TranscribeStage::Audio {
                finish(t, TranscribeAction::Fail(m))
            } else {
                unexpected(t)
            }
        },
        TranscribeEvent::Read(Ok(text)) => {
            if stage == TranscribeStage::SubtitleText {
                filter_subtitles(t, text)
            } else {
                unexpected(t)
            }
        },
        TranscribeEvent::Read(Err(_)) => {
            if stage == TranscribeStage::SubtitleText {
                audio_or_model(t)
            } else {
                unexpected(t)
            }
        },
        TranscribeEvent::Filtered(f) => {
            if stage == TranscribeStage::Filtering {
                match subtitle_reply(f.as_str(), t.plan.output_format.as_str()) {
                    Some(a) => finish(t, TranscribeAction::Reply(a)),
                    None => audio_or_model(t),
                }
            } else {
                unexpected(t)
            }
        },
        TranscribeEvent::ModelLocated(Ok(p)) => {
            if stage == TranscribeStage::Model {
                let (start, duration) = ffmpeg_window(t.plan.source, &t.args);
                let input = t.media.clone();
                let Transcription { args, plan, media, model, stage } = t;
                (
                    Transcription { args, plan, media, model: p, stage: TranscribeStage::Wav },
                    TranscribeAction::ConvertToWav { input, start, duration },
                )
            } else {
                unexpected(t)
            }
        },
        TranscribeEvent::ModelLocated(Err(m)) => {
            if stage == TranscribeStage::Model {
                finish(t, TranscribeAction::Fail(m))
            } else {
                unexpected(t)
            }
        },
        TranscribeEvent::Converted(Ok(w)) => {
            if stage == TranscribeStage::Wav {
                let action = TranscribeAction::Transcribe {
                    wav: w,
                    model: t.model.clone(),
                    translate: t.plan.translate,
                    output_format: t.plan.output_format.clone(),
                };
                let Transcription { args, plan, media, model, stage } = t;
                (Transcription { args, plan, media, model, stage: TranscribeStage::Whisper }, action)
            } else {
                unexpected(t)
            }
        },
        TranscribeEvent::Converted(Err(m)) => {
            if stage == TranscribeStage::Wav {
                let message = prefixed("Error converting to WAV: ", m.as_str());
                finish(t, TranscribeAction::Fail(message))
            } else {
                unexpected(t)
            }
        },
        TranscribeEvent::Transcribed(Ok(text)) => {
            if stage == TranscribeStage::Whisper {
                finish(t, TranscribeAction::Reply(text))
            } else {
                unexpected(t)
            }
        },
        TranscribeEvent::Transcribed(Err(m)) => {
            if stage == TranscribeStage::Whisper {
                let message = prefixed("Transcription error: ", m.as_str());
                finish(t, TranscribeAction::Fail(message))
            } else {
                unexpected(t)
            }
        },
    }
}

fn finish(t: Transcription, action: TranscribeAction) -> (r: (Transcription, TranscribeAction))
    ensures
        keeps(t, r.0),
        r.0.stage == TranscribeStage::Finished,
        r.1 == action,
{
    let Transcription { args, plan, media, model, stage } = t;
    (Transcription { args, plan, media, model, stage: TranscribeStage::Finished }, action)
}

fn unexpected(t: Transcription) -> (r: (Transcription, TranscribeAction))
    ensures
        keeps(t, r.0),
        r.0.stage == t.stage,
        r.1 == TranscribeAction::Abort(AbortReason::UnexpectedEvent),
{
    let stage = t.stage;
    let Transcription { args, plan, media, model, stage: _ } = t;
    (Transcription { args, plan, media, model, stage }, TranscribeAction::Abort(AbortReason::UnexpectedEvent))
}

fn filter_subtitles(t: Transcription, text: String) -> (r: (Transcription, TranscribeAction))
    ensures
        filter_step(t, text@, r),
{
    let start_secs: Option<u64> = match &t.args.start_timestamp {
        Some(s) => match timestamp_secs_checked(s.as_str()) {
            Some(v) => Some(v),
            None => {
                return finish(t, TranscribeAction::Abort(AbortReason::TimestampOverflow));
            },
        },
        None => None,
    };
    let duration_secs = t.args.duration_secs;
    let Transcription { args, plan, media, model, stage } = t;
    (
        Transcription { args, plan, media, model, stage: TranscribeStage::Filtering },
        TranscribeAction::FilterSubtitles { srt: text, start_secs, duration_secs },
    )
}

/// Every answer to the call (a reply or an error) ends it, and a call that
/// has ended takes no further event.
pub proof fn law_answer_ends_call(
    t: Transcription,
    e: TranscribeEvent,
    r: (Transcription, TranscribeAction),
)
    requires
        next_step(t, e, r),
    ensures
        (r.1 is Reply || r.1 is Fail) ==> r.0.stage == TranscribeStage::Finished,
        t.stage == TranscribeStage::Finished ==> r.0.stage == TranscribeStage::Finished && r.1
            == TranscribeAction::Abort(AbortReason::UnexpectedEvent),
{
}

/// Official subtitles are cut to exactly the window asked for: once their text
/// is read, they are filtered with the duration as asked, whether or not a
/// start is given (a duration without a start selects from the beginning),
/// and with the start's seconds when a start is given and none otherwise; the
/// only other step stops on a start whose seconds overflow.
pub proof fn law_subtitles_filtered_to_window(
    t: Transcription,
    text: String,
    r: (Transcription, TranscribeAction),
)
    requires
        t.stage == TranscribeStage::SubtitleText,
        next_step(t, TranscribeEvent::Read(Ok::<String, String>(text)), r),
    ensures
        r.1 == TranscribeAction::Abort(AbortReason::TimestampOverflow) || (r.1 matches TranscribeAction::FilterSubtitles {
            srt,
            start_secs,
            duration_secs,
        } && srt@ == text@ && duration_secs == t.args.duration_secs && (start_secs is None
            <==> t.args.start_timestamp is None)),
        r.1 == TranscribeAction::Abort(AbortReason::TimestampOverflow) ==> t.args.start_timestamp is Some,
{
}

} // verus!
