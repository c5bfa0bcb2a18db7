//! Where the Whisper model is found, as a sequence of decisions: the caller
//! performs each action (a look at the disk, a download) and reports whether
//! it succeeded, and `model_lookup_next` decides what comes next.
//!
//! The places, in order: the path the user gave (and no other); else
//! `ggml-base.bin` in the working directory; else the cache
//! `$HOME/.cache/media-transcriber-mcp/ggml-base.bin` (with `.` for an unset
//! `HOME`); else a download into that cache.
use vstd::prelude::*;

use crate::paths::{join_path, join_path_str};

verus! {

/// The model's file name.
pub open spec fn model_file() -> Seq<char> {
    "ggml-base.bin"@
}

/// Where the model is downloaded from.
pub open spec fn model_url() -> Seq<char> {
    "https://huggingface.co/ggerganov/whisper.cpp/resolve/main/ggml-base.bin"@
}

/// The home directory, or `.` when `HOME` is not set.
pub open spec fn home_dir(home: Option<Seq<char>>) -> Seq<char> {
    match home {
        Some(h) => h,
        None => "."@,
    }
}

/// The cache directory of the model.
pub open spec fn cache_dir(home: Option<Seq<char>>) -> Seq<char> {
    join_path(join_path(home_dir(home), ".cache"@), "media-transcriber-mcp"@)
}

/// The model's path in the cache.
pub open spec fn cache_path(home: Option<Seq<char>>) -> Seq<char> {
    join_path(cache_dir(home), model_file())
}

/// Where the lookup stands.
#[derive(Debug)]
pub enum ModelLookup {
    /// Checking the path the user gave.
    Provided(String),
    /// Checking the working directory.
    ProjectRoot,
    /// Checking the cache (`dir`, `path`).
    Cache { dir: String, path: String },
    /// Downloading into the cache path.
    Downloading(String),
}

/// What to do next.
#[derive(Debug)]
pub enum ModelAction {
    /// Look whether this path exists.
    CheckExists(String),
    /// Create `dir`, then download `url` to `path`.
    Download { dir: String, path: String, url: String },
    /// The model is at this path.
    Found(String),
    /// The path the user gave does not exist.
    Missing(String),
    /// The download to this path failed.
    DownloadFailed(String),
}

/// `ModelLookup` as text.
pub enum LookupView {
    Provided(Seq<char>),
    ProjectRoot,
    Cache(Seq<char>, Seq<char>),
    Downloading(Seq<char>),
}

/// `ModelAction` as text.
pub enum ActionView {
    CheckExists(Seq<char>),
    Download(Seq<char>, Seq<char>, Seq<char>),
    Found(Seq<char>),
    Missing(Seq<char>),
    DownloadFailed(Seq<char>),
}

impl View for ModelLookup {
    type V = LookupView;

    open spec fn view(&self) -> LookupView {
        match self {
            ModelLookup::Provided(p) => LookupView::Provided(p@),
            ModelLookup::ProjectRoot => LookupView::ProjectRoot,
            ModelLookup::Cache { dir, path } => LookupView::Cache(dir@, path@),
            ModelLookup::Downloading(p) => LookupView::Downloading(p@),
        }
    }
}

impl View for ModelAction {
    type V = ActionView;

    open spec fn view(&self) -> ActionView {
        match self {
            ModelAction::CheckExists(p) => ActionView::CheckExists(p@),
            ModelAction::Download { dir, path, url } => ActionView::Download(dir@, path@, url@),
            ModelAction::Found(p) => ActionView::Found(p@),
            ModelAction::Missing(p) => ActionView::Missing(p@),
            ModelAction::DownloadFailed(p) => ActionView::DownloadFailed(p@),
        }
    }
}

/// The first step: the path the user gave, if any, else the working directory.
pub open spec fn lookup_start(provided: Option<Seq<char>>) -> (LookupView, ActionView) {
    match provided {
        Some(p) => (LookupView::Provided(p), ActionView::CheckExists(p)),
        None => (LookupView::ProjectRoot, ActionView::CheckExists(model_file())),
    }
}

/// The step after an action in state `state` succeeded (`ok`) or not;
/// `home` is the value of `HOME`, read when the cache comes into play.
pub open spec fn lookup_next(state: LookupView, ok: bool, home: Option<Seq<char>>) -> (
    LookupView,
    ActionView,
) {
    match state {
        LookupView::Provided(p) => if ok {
            (state, ActionView::Found(p))
        } else {
            (state, ActionView::Missing(p))
        },
        LookupView::ProjectRoot => if ok {
            (state, ActionView::Found(model_file()))
        } else {
            (
                LookupView::Cache(cache_dir(home), cache_path(home)),
                ActionView::CheckExists(cache_path(home)),
            )
        },
        LookupView::Cache(dir, path) => if ok {
            (state, ActionView::Found(path))
        } else {
            (LookupView::Downloading(path), ActionView::Download(dir, path, model_url()))
        },
        LookupView::Downloading(path) => if ok {
            (state, ActionView::Found(path))
        } else {
            (state, ActionView::DownloadFailed(path))
        },
    }
}

/// Starts the lookup of the Whisper model (see `lookup_start`).
pub fn model_lookup_start(provided: Option<&str>) -> (r: (ModelLookup, ModelAction))
    ensures
        (r.0@, r.1@) == lookup_start(crate::sources::ytdlp::opt_view(provided)),
{
    match provided {
        Some(p) => (ModelLookup::Provided(p.to_owned()), ModelAction::CheckExists(p.to_owned())),
        None => (ModelLookup::ProjectRoot, ModelAction::CheckExists("ggml-base.bin".to_owned())),
    }
}

/// The next step of the lookup, once the last action succeeded (`ok`) or not
/// (see `lookup_next`).
pub fn model_lookup_next(state: ModelLookup, ok: bool, home: Option<&str>) -> (r: (
    ModelLookup,
    ModelAction,
))
    ensures
        (r.0@, r.1@) == lookup_next(state@, ok, crate::sources::ytdlp::opt_view(home)),
{
    match state {
        ModelLookup::Provided(p) => {
            let a = if ok {
                ModelAction::Found(p.clone())
            } else {
                ModelAction::Missing(p.clone())
            };
            (ModelLookup::Provided(p), a)
        },
        ModelLookup::ProjectRoot => {
            if ok {
                (ModelLookup::ProjectRoot, ModelAction::Found("ggml-base.bin".to_owned()))
            } else {
                let h: &str = match home {
                    Some(h) => h,
                    None => ".",
                };
                let d1 = join_path_str(h, ".cache");
                let dir = join_path_str(d1.as_str(), "media-transcriber-mcp");
                let path = join_path_str(dir.as_str(), "ggml-base.bin");
                (
                    ModelLookup::Cache { dir, path: path.clone() },
                    ModelAction::CheckExists(path),
                )
            }
        },
        ModelLookup::Cache { dir, path } => {
            if ok {
                let found = path.clone();
                (ModelLookup::Cache { dir, path }, ModelAction::Found(found))
            } else {
                (
                    ModelLookup::Downloading(path.clone()),
                    ModelAction::Download {
                        dir,
                        path,
                        url: "https://huggingface.co/ggerganov/whisper.cpp/resolve/main/ggml-base.bin".to_owned(),
                    },
                )
            }
        },
        ModelLookup::Downloading(path) => {
            let a = if ok {
                ModelAction::Found(path.clone())
            } else {
                ModelAction::DownloadFailed(path.clone())
            };
            (ModelLookup::Downloading(path), a)
        },
    }
}

/// A path the user gives is the only place looked at: the lookup ends at
/// the next step, with that path when it exists and an error otherwise.
pub proof fn law_provided_path_only(p: Seq<char>, on_disk: bool, home: Option<Seq<char>>)
    ensures
        lookup_start(Some(p)).1 == ActionView::CheckExists(p),
        lookup_next(lookup_start(Some(p)).0, on_disk, home).1 == (if on_disk {
            ActionView::Found(p)
        } else {
            ActionView::Missing(p)
        }),
{
}

/// Without a path from the user, the working directory comes first, then the
/// cache, and a download goes to the cache path, which is then the answer.
pub proof fn law_lookup_order(home: Option<Seq<char>>, downloaded: bool)
    ensures
        lookup_start(None).1 == ActionView::CheckExists(model_file()),
        lookup_next(lookup_start(None).0, true, home).1 == ActionView::Found(model_file()),
        lookup_next(lookup_start(None).0, false, home).1 == ActionView::CheckExists(
            cache_path(home),
        ),
        lookup_next(lookup_next(lookup_start(None).0, false, home).0, true, home).1
            == ActionView::Found(cache_path(home)),
        lookup_next(lookup_next(lookup_start(None).0, false, home).0, false, home).1
            == ActionView::Download(cache_dir(home), cache_path(home), model_url()),
        lookup_next(
            lookup_next(lookup_next(lookup_start(None).0, false, home).0, false, home).0,
            downloaded,
            home,
        ).1 == (if downloaded {
            ActionView::Found(cache_path(home))
        } else {
            ActionView::DownloadFailed(cache_path(home))
        }),
{
}

} // verus!
