//! The records that pass between the scanner, the resolver, the catalog and
//! their callers.

use crate::text::{chars_of, same_chars};
use vstd::prelude::*;

verus! {

/// What a mod changes in the game.
#[derive(Debug, Clone, Copy, PartialEq, Eq, Structural)]
pub enum ModType {
    Idle,
    Cutscene,
    Date,
    Battle,
    Ui,
    Other,
}

/// The mod type that a canonical name stands for. Names that the store does
/// not know, "history", "minigame" and "swap" among them, stand for
/// `ModType::Other`.
pub open spec fn kind_of(s: Seq<char>) -> ModType {
    if s == "idle"@ {
        ModType::Idle
    } else if s == "cutscene"@ {
        ModType::Cutscene
    } else if s == "date"@ {
        ModType::Date
    } else if s == "battle"@ {
        ModType::Battle
    } else if s == "ui"@ {
        ModType::Ui
    } else {
        ModType::Other
    }
}

impl ModType {
    /// The name under which the store keeps this type.
    pub open spec fn name(self) -> Seq<char> {
        match self {
            ModType::Idle => "idle"@,
            ModType::Cutscene => "cutscene"@,
            ModType::Date => "date"@,
            ModType::Battle => "battle"@,
            ModType::Ui => "ui"@,
            ModType::Other => "other"@,
        }
    }

    /// The name under which the store keeps this type.
    pub fn to_string(&self) -> (out: String)
        ensures
            out@ == self.name(),
    {
        let s: &str = match self {
            ModType::Idle => "idle",
            ModType::Cutscene => "cutscene",
            ModType::Date => "date",
            ModType::Battle => "battle",
            ModType::Ui => "ui",
            ModType::Other => "other",
        };
        s.to_owned()
    }

    /// The type that a canonical name stands for; `Other` for every name
    /// that the store does not know.
    pub fn from_str(s: &str) -> (out: ModType)
        ensures
            out == kind_of(s@),
    {
        let v = chars_of(s);
        if same_chars(&v, &chars_of("idle")) {
            ModType::Idle
        } else if same_chars(&v, &chars_of("cutscene")) {
            ModType::Cutscene
        } else if same_chars(&v, &chars_of("date")) {
            ModType::Date
        } else if same_chars(&v, &chars_of("battle")) {
            ModType::Battle
        } else if same_chars(&v, &chars_of("ui")) {
            ModType::Ui
        } else {
            ModType::Other
        }
    }
}

/// Reading back the name of a type gives the type.
pub proof fn lemma_name_round_trip(t: ModType)
    ensures
        kind_of(t.name()) == t,
{
    reveal_strlit("idle");
    reveal_strlit("cutscene");
    reveal_strlit("date");
    reveal_strlit("battle");
    reveal_strlit("ui");
    reveal_strlit("other");
    assert("idle"@.len() == 4 && "date"@.len() == 4 && "cutscene"@.len() == 8);
    assert("battle"@.len() == 6 && "ui"@.len() == 2 && "other"@.len() == 5);
    assert("idle"@[0] == 'i' && "date"@[0] == 'd');
}

/// How strongly a folder name matches the catalog, in two-hundredths: 0 is
/// no match and 200 is certainty.
#[derive(Debug, Clone, Copy, PartialEq, Eq, Structural)]
pub struct Confidence {
    pub two_hundredths: u8,
}

impl Confidence {
    /// The score lies between 0 and 1.
    pub open spec fn wf(self) -> bool {
        self.two_hundredths <= 200
    }
}

/// A mod entered by hand.
#[derive(Debug, Clone, PartialEq, Eq)]
pub struct NewMod {
    pub display_name: String,
    pub folder_path: String,
    pub author: Option<String>,
    pub download_url: Option<String>,
    pub character_id: Option<i64>,
    pub costume_id: Option<i64>,
    pub mod_type: ModType,
}

/// A mod as the store holds it.
#[derive(Debug, Clone, PartialEq, Eq)]
pub struct ModRow {
    pub id: i64,
    pub display_name: String,
    pub folder_path: String,
    pub author: Option<String>,
    pub download_url: Option<String>,
    pub character_id: Option<i64>,
    pub costume_id: Option<i64>,
    pub mod_type: ModType,
    pub installed: bool,
    pub installed_at: Option<String>,
    pub target_path: Option<String>,
    pub created_at: String,
    pub updated_at: String,
}

/// What a listing of mods is narrowed by.
#[derive(Debug, Clone, PartialEq, Eq)]
pub struct ModFilter {
    pub character_id: Option<i64>,
    pub costume_id: Option<i64>,
    pub author: Option<String>,
    pub q: Option<String>,
}

/// The user's settings.
#[derive(Debug, Clone, PartialEq, Eq)]
pub struct AppSettings {
    pub library_dirs: Vec<String>,
    pub game_mods_dir: Option<String>,
    pub install_strategy: Option<String>,
}

impl Default for AppSettings {
    fn default() -> (out: Self)
        ensures
            out.library_dirs@.len() == 0,
            out.game_mods_dir is None,
            out.install_strategy matches Some(s) && s@ == "copy"@,
    {
        AppSettings {
            library_dirs: Vec::new(),
            game_mods_dir: None,
            install_strategy: Some("copy".to_owned()),
        }
    }
}

/// The counts of one rescan of the library roots.
#[derive(Debug, Clone, Copy, PartialEq, Eq, Structural)]
pub struct ScanSummary {
    pub scanned_dirs: usize,
    pub discovered_mods: usize,
    pub upserts: usize,
    pub errors: usize,
}

/// A candidate record that the scan proposes for review; nothing of it is
/// stored until it is committed.
#[derive(Debug, Clone, PartialEq, Eq)]
pub struct DraftMod {
    pub display_name: String,
    pub folder_path: String,
    pub author: Option<String>,
    pub download_url: Option<String>,
    pub mod_type: ModType,
    pub character_id: Option<i64>,
    pub costume_id: Option<i64>,
    pub infer_confidence: Confidence,
}

/// A costume of the canonical catalog.
#[derive(Debug, Clone, PartialEq, Eq)]
pub struct CatalogCostume {
    pub slug: String,
    pub display_name: String,
    pub aliases: Vec<String>,
}

/// A character of the canonical catalog, with its costumes.
#[derive(Debug, Clone, PartialEq, Eq)]
pub struct CatalogCharacter {
    pub slug: String,
    pub display_name: String,
    pub aliases: Vec<String>,
    pub costumes: Vec<CatalogCostume>,
}

/// How many characters and costumes one synchronisation went through.
#[derive(Debug, Clone, Copy, PartialEq, Eq, Structural)]
pub struct CatalogReport {
    pub characters: usize,
    pub costumes: usize,
}

/// A folder directly under a library root, with the author read from its
/// name.
#[derive(Debug, Clone, PartialEq, Eq)]
pub struct AuthorFolder {
    pub folder_path: String,
    pub inferred_author: String,
}

/// The counts of one run of the preview generator.
#[derive(Debug, Clone, Copy, PartialEq, Eq, Structural)]
pub struct PreviewGenerationSummary {
    pub generated: usize,
    pub skipped: usize,
    pub errors: usize,
}

/// Which previews a mod folder holds.
#[derive(Debug, Clone, PartialEq, Eq)]
pub struct PreviewInfo {
    pub has_image: bool,
    pub has_video: bool,
    pub image_path: Option<String>,
    pub video_path: Option<String>,
}

/// The two kinds of preview.
#[derive(Debug, Clone, Copy, PartialEq, Eq, Structural)]
pub enum PreviewKind {
    Image,
    Video,
}

impl PreviewKind {
    /// The file name of a preview of this kind inside a mod folder.
    pub fn target_name(self) -> (out: &'static str)
        ensures
            out@ == (match self {
                PreviewKind::Image => "preview.png"@,
                PreviewKind::Video => "preview.mp4"@,
            }),
    {
        match self {
            PreviewKind::Image => "preview.png",
            PreviewKind::Video => "preview.mp4",
        }
    }

    /// The word under which progress of this kind is reported.
    pub fn label(self) -> (out: &'static str)
        ensures
            out@ == (match self {
                PreviewKind::Image => "image"@,
                PreviewKind::Video => "video"@,
            }),
    {
        match self {
            PreviewKind::Image => "image",
            PreviewKind::Video => "video",
        }
    }
}

/// How the making of one preview ended.
#[derive(Debug, Clone, Copy, PartialEq, Eq, Structural)]
pub enum PreviewOutcome {
    /// The mod's folder is not on disk.
    FolderMissing,
    /// The preview was there already.
    AlreadyExists,
    /// The tool made the preview.
    Generated,
    /// The tool failed.
    Failed,
    /// The tool reported success and left no preview.
    ReportedButMissing,
}

/// The counts after one more preview: a preview that was made counts as
/// generated, one that was there as skipped, everything else as an error.
pub open spec fn tallied(s: PreviewGenerationSummary, outcome: PreviewOutcome) -> (
    int,
    int,
    int,
) {
    match outcome {
        PreviewOutcome::Generated => (s.generated + 1, s.skipped as int, s.errors as int),
        PreviewOutcome::AlreadyExists => (s.generated as int, s.skipped + 1, s.errors as int),
        _ => (s.generated as int, s.skipped as int, s.errors + 1),
    }
}

/// Counts one more preview.
pub fn tally_preview(summary: PreviewGenerationSummary, outcome: PreviewOutcome) -> (out:
    PreviewGenerationSummary)
    requires
        summary.generated + summary.skipped + summary.errors < usize::MAX,
    ensures
        (out.generated as int, out.skipped as int, out.errors as int) == tallied(summary, outcome),
        out.generated + out.skipped + out.errors == summary.generated + summary.skipped
            + summary.errors + 1,
{
    match outcome {
        PreviewOutcome::Generated => PreviewGenerationSummary {
            generated: summary.generated + 1,
            ..summary
        },
        PreviewOutcome::AlreadyExists => PreviewGenerationSummary {
            skipped: summary.skipped + 1,
            ..summary
        },
        _ => PreviewGenerationSummary { errors: summary.errors + 1, ..summary },
    }
}

/// What is known of the previews of a mod folder: each path is given only
/// where the preview is there.
pub fn preview_info_for_path(
    has_image: bool,
    image_path: String,
    has_video: bool,
    video_path: String,
) -> (out: PreviewInfo)
    ensures
        out.has_image == has_image,
        out.has_video == has_video,
        out.image_path == (if has_image {
            Some(image_path)
        } else {
            None
        }),
        out.video_path == (if has_video {
            Some(video_path)
        } else {
            None
        }),
{
    PreviewInfo {
        has_image,
        has_video,
        image_path: if has_image {
            Some(image_path)
        } else {
            None
        },
        video_path: if has_video {
            Some(video_path)
        } else {
            None
        },
    }
}

} // verus!
