//! The provider interface: what any content source must answer. The clients
//! that implement these traits live with the host process; the library only
//! fixes the shapes they exchange.

use vstd::prelude::*;

use crate::streams::ProviderError;
use crate::types::{Chapter, MangaInfo, Page, ShowInfo, StreamOption, Translation};

verus! {

pub const USER_AGENT: &'static str =
    "Mozilla/5.0 (X11; Linux x86_64) AppleWebKit/537.36 (KHTML, like Gecko) Chrome/121.0 Safari/537.36";

/// A source of watchable shows.
pub trait AnimeProvider {
    fn search_shows(&self, query: &str, translation: Translation) -> Result<
        Vec<ShowInfo>,
        ProviderError,
    >;

    fn fetch_episodes(&self, show_id: &str, translation: Translation) -> Result<
        Vec<String>,
        ProviderError,
    >;

    fn fetch_streams(&self, show_id: &str, translation: Translation, episode: &str) -> Result<
        Vec<StreamOption>,
        ProviderError,
    >;
}

/// A source of readable manga.
pub trait MangaProvider {
    fn search_mangas(&self, query: &str, translation: Translation) -> Result<
        Vec<MangaInfo>,
        ProviderError,
    >;

    fn fetch_chapters(&self, manga_id: &str, translation: Translation) -> Result<
        Vec<Chapter>,
        ProviderError,
    >;

    fn fetch_pages(&self, manga_id: &str, translation: Translation, chapter_id: &str) -> Result<
        Vec<Page>,
        ProviderError,
    >;
}

} // verus!
