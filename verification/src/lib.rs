//! A media transcription server's logic, verified: recognising where media
//! comes from (local files, YouTube, Vimeo, Reddit, Twitter/X, Instagram,
//! TikTok), the yt-dlp and ffmpeg commands that fetch and convert it, the
//! course of a transcription, SRT writing, reading, filtering and cleaning,
//! the lookup of the Whisper model, and the frames and images returned by
//! the screenshot tools.
pub mod audio;
pub mod decimal;
pub mod paths;
pub mod screenshot;
pub mod sources;
pub mod srt;
pub mod text;
pub mod transcriber;
