//! Verified core of a terminal client that streams episodes and reads
//! chapters.
//!
//! The host process around this library does the outside work — network
//! requests, files, sockets, the external player — and feeds every outcome
//! back in. The decisions live here, verified: cache-path derivation, the
//! page-cache populator, the remote fetcher's redirect/fallback plan, the
//! local delivery proxy's request handling and wire formats, and the
//! delivery-strategy selector.

pub mod cache;
pub mod fetch;
pub mod history;
pub mod labels;
pub mod populate;
pub mod providers;
pub mod proxy;
pub mod select;
pub mod streams;
pub mod strnum;
pub mod types;

pub use types::{
    Chapter, ChapterCounts, EpisodeCounts, MangaInfo, Page, ShowInfo, StreamOption, Translation,
};
