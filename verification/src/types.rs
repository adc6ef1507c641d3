//! Shared data model: translation variants, show/manga listings, stream
//! options and pages handed over by the provider layer.

use vstd::prelude::*;

verus! {

/// Which translation of a show or manga is wanted.
#[derive(Debug, Clone, Copy, PartialEq, Eq, Structural)]
pub enum Translation {
    Sub,
    Dub,
    Raw,
}

/// Lower-case form of a translation variant, as it appears in provider
/// queries and cache paths.
pub open spec fn translation_str(t: Translation) -> Seq<char> {
    match t {
        Translation::Sub => "sub"@,
        Translation::Dub => "dub"@,
        Translation::Raw => "raw"@,
    }
}

impl Translation {
    /// Lower-case form used in provider queries and cache paths.
    pub fn as_str(self) -> (r: &'static str)
        ensures
            r@ == translation_str(self),
    {
        match self {
            Translation::Sub => "sub",
            Translation::Dub => "dub",
            Translation::Raw => "raw",
        }
    }

    /// Capitalised form shown to the user.
    pub fn label(self) -> (r: &'static str)
        ensures
            self is Sub ==> r@ == "Sub"@,
            self is Dub ==> r@ == "Dub"@,
            self is Raw ==> r@ == "Raw"@,
    {
        match self {
            Translation::Sub => "Sub",
            Translation::Dub => "Dub",
            Translation::Raw => "Raw",
        }
    }
}

/// A show found by an anime provider.
#[derive(Debug, Clone)]
pub struct ShowInfo {
    pub id: String,
    pub title: String,
    pub available_eps: EpisodeCounts,
}

#[derive(Debug, Clone)]
pub struct EpisodeCounts {
    pub sub: usize,
    pub dub: usize,
}

/// A manga found by a manga provider.
#[derive(Debug, Clone)]
pub struct MangaInfo {
    pub id: String,
    pub title: String,
    pub available_chapters: ChapterCounts,
}

#[derive(Debug, Clone)]
pub struct ChapterCounts {
    pub sub: usize,
    pub raw: usize,
}

/// A manga chapter with a human-readable display label (e.g. `"271.5"`) and a
/// provider-specific identifier used to fetch pages (may differ from the
/// label, e.g. a UUID or a URL slug).
#[derive(Debug, Clone)]
pub struct Chapter {
    pub id: String,
    pub label: String,
}

/// One playable stream for an episode, with the headers the player must
/// replay. Headers are an ordered key/value list.
#[derive(Debug, Clone)]
pub struct StreamOption {
    pub provider: String,
    pub url: String,
    pub quality_label: String,
    pub quality_rank: i32,
    pub is_hls: bool,
    pub headers: Vec<(String, String)>,
    pub subtitle: Option<String>,
}

/// What `StreamOption::label` shows for a stream.
pub open spec fn stream_label_spec(o: &StreamOption) -> Seq<char> {
    o.provider@ + " "@ + o.quality_label@ + " ("@ + (if o.is_hls {
        "HLS"@
    } else {
        "MP4"@
    }) + ")"@
}

impl StreamOption {
    /// Human-readable stream description: provider, quality and kind.
    pub fn label(&self) -> (r: String)
        ensures
            r@ == stream_label_spec(self),
    {
        let mut s = String::new();
        s.append(self.provider.as_str());
        s.append(" ");
        s.append(self.quality_label.as_str());
        s.append(" (");
        if self.is_hls {
            s.append("HLS");
        } else {
            s.append("MP4");
        }
        s.append(")");
        proof {
            assert(s@ =~= stream_label_spec(self));
        }
        s
    }
}

/// One fetchable unit: a page image or a stream file, with the headers every
/// fetch attempt must replay. Headers are an ordered key/value list.
#[derive(Debug, Clone)]
pub struct Page {
    pub url: String,
    pub headers: Vec<(String, String)>,
}

} // verus!
