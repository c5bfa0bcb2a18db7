pub mod instagram;
pub mod reddit;
pub mod tiktok;
pub mod twitter;
pub mod vimeo;
pub mod youtube;
pub mod ytdlp;
