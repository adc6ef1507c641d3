//! The watch-history journal's data model and update rules.
//!
//! A history holds one entry per (show, translation, kind) key, most recent
//! first. Reading and writing the journal file is the host process's work;
//! the update and lookup rules live here.

use vstd::prelude::*;
use vstd::string::{StrSliceExecFns, StringExecFns};

use crate::strnum::str_eq;
use crate::types::Translation;

verus! {

/// One watched episode or read chapter.
#[derive(Debug, Clone)]
pub struct HistoryEntry {
    pub show_id: String,
    pub show_title: String,
    pub episode: String,
    pub translation: Translation,
    pub is_manga: bool,
    /// Seconds since the Unix epoch.
    pub watched_at: i64,
}

/// Whether an entry belongs to the given (show, translation, kind) key.
pub open spec fn entry_matches(
    e: HistoryEntry,
    show_id: Seq<char>,
    translation: Translation,
    is_manga: bool,
) -> bool {
    e.show_id@ == show_id && e.translation == translation && e.is_manga == is_manga
}

/// Index of the first entry with the given key; `s.len()` when none has it.
pub open spec fn first_match_index(
    s: Seq<HistoryEntry>,
    show_id: Seq<char>,
    translation: Translation,
    is_manga: bool,
) -> int
    decreases s.len(),
{
    if s.len() == 0 {
        0
    } else if entry_matches(s[0], show_id, translation, is_manga) {
        0
    } else {
        1 + first_match_index(s.drop_first(), show_id, translation, is_manga)
    }
}

/// What `upsert` leaves behind: the new entry at the front, and the first
/// old entry with the same key, if any, removed.
pub open spec fn upsert_spec(s: Seq<HistoryEntry>, entry: HistoryEntry) -> Seq<HistoryEntry> {
    let p = first_match_index(s, entry.show_id@, entry.translation, entry.is_manga);
    seq![entry] + (if p < s.len() {
        s.subrange(0, p) + s.subrange(p + 1, s.len() as int)
    } else {
        s
    })
}

proof fn lemma_first_match_index_props(
    s: Seq<HistoryEntry>,
    show_id: Seq<char>,
    translation: Translation,
    is_manga: bool,
)
    ensures
        0 <= first_match_index(s, show_id, translation, is_manga) <= s.len(),
        first_match_index(s, show_id, translation, is_manga) < s.len() ==> entry_matches(
            s[first_match_index(s, show_id, translation, is_manga)],
            show_id,
            translation,
            is_manga,
        ),
        forall|j: int|
            0 <= j < first_match_index(s, show_id, translation, is_manga) ==> !entry_matches(
                #[trigger] s[j],
                show_id,
                translation,
                is_manga,
            ),
    decreases s.len(),
{
    if s.len() > 0 && !entry_matches(s[0], show_id, translation, is_manga) {
        lemma_first_match_index_props(s.drop_first(), show_id, translation, is_manga);
        assert forall|j: int|
            0 <= j < first_match_index(s, show_id, translation, is_manga) implies !entry_matches(
            s[j],
            show_id,
            translation,
            is_manga,
        ) by {
            if j > 0 {
                assert(s.drop_first()[j - 1] == s[j]);
            }
        }
    }
}

/// A scan that found the first matching position (or none) agrees with
/// `first_match_index`.
proof fn lemma_first_match_index_from_scan(
    s: Seq<HistoryEntry>,
    show_id: Seq<char>,
    translation: Translation,
    is_manga: bool,
    p: int,
)
    requires
        0 <= p <= s.len(),
        forall|j: int| 0 <= j < p ==> !entry_matches(#[trigger] s[j], show_id, translation, is_manga),
        p < s.len() ==> entry_matches(s[p], show_id, translation, is_manga),
    ensures
        first_match_index(s, show_id, translation, is_manga) == p,
    decreases s.len(),
{
    if s.len() > 0 {
        if p == 0 {
        } else {
            assert(!entry_matches(s[0], show_id, translation, is_manga));
            assert forall|j: int| 0 <= j < p - 1 implies !entry_matches(
                #[trigger] s.drop_first()[j],
                show_id,
                translation,
                is_manga,
            ) by {
                assert(s.drop_first()[j] == s[j + 1]);
            }
            assert(p - 1 < s.drop_first().len() ==> entry_matches(
                s.drop_first()[p - 1],
                show_id,
                translation,
                is_manga,
            ));
            lemma_first_match_index_from_scan(s.drop_first(), show_id, translation, is_manga, p - 1);
        }
    }
}

/// The watch-history journal, most recent entry first.
#[derive(Debug)]
pub struct History {
    pub entries: Vec<HistoryEntry>,
}

impl History {
    /// An empty history.
    pub fn new() -> (h: History)
        ensures
            h.entries@.len() == 0,
    {
        History { entries: Vec::new() }
    }

    fn entry_key_eq(e: &HistoryEntry, show_id: &str, translation: Translation, is_manga: bool) -> (r:
        bool)
        ensures
            r == entry_matches(*e, show_id@, translation, is_manga),
    {
        str_eq(e.show_id.as_str(), show_id) && e.translation == translation && e.is_manga
            == is_manga
    }

    /// Index of the first entry with the given key, or the entry count.
    fn find_key_pos(&self, show_id: &str, translation: Translation, is_manga: bool) -> (p: usize)
        ensures
            p == first_match_index(self.entries@, show_id@, translation, is_manga),
    {
        let n = self.entries.len();
        let mut p: usize = 0;
        while p < n
            invariant
                0 <= p <= n,
                n == self.entries@.len(),
                forall|j: int|
                    0 <= j < p ==> !entry_matches(
                        #[trigger] self.entries@[j],
                        show_id@,
                        translation,
                        is_manga,
                    ),
            decreases n - p,
        {
            if Self::entry_key_eq(&self.entries[p], show_id, translation, is_manga) {
                proof {
                    lemma_first_match_index_from_scan(
                        self.entries@,
                        show_id@,
                        translation,
                        is_manga,
                        p as int,
                    );
                }
                return p;
            }
            p = p + 1;
        }
        proof {
            lemma_first_match_index_from_scan(
                self.entries@,
                show_id@,
                translation,
                is_manga,
                n as int,
            );
        }
        n
    }

    /// Replaces the entry with this entry's key, if any, and puts the new
    /// entry at the front.
    pub fn upsert(&mut self, entry: HistoryEntry)
        ensures
            final(self).entries@ == upsert_spec(old(self).entries@, entry),
    {
        let ghost s0 = self.entries@;
        let p = self.find_key_pos(entry.show_id.as_str(), entry.translation, entry.is_manga);
        proof {
            lemma_first_match_index_props(s0, entry.show_id@, entry.translation, entry.is_manga);
        }
        if p < self.entries.len() {
            self.entries.remove(p);
        }
        self.entries.insert(0, entry);
        proof {
            assert(self.entries@ =~= upsert_spec(s0, entry));
        }
    }

    /// The most recently watched episode of a show, if any.
    pub fn last_episode(&self, show_id: &str, translation: Translation) -> (r: Option<String>)
        ensures
            ({
                let p = first_match_index(self.entries@, show_id@, translation, false);
                match r {
                    Some(ep) => p < self.entries@.len() && ep == self.entries@[p].episode,
                    None => p == self.entries@.len(),
                }
            }),
    {
        self.find_episode(show_id, translation, false)
    }

    /// The most recently read chapter of a manga, if any.
    pub fn last_chapter(&self, show_id: &str, translation: Translation) -> (r: Option<String>)
        ensures
            ({
                let p = first_match_index(self.entries@, show_id@, translation, true);
                match r {
                    Some(ch) => p < self.entries@.len() && ch == self.entries@[p].episode,
                    None => p == self.entries@.len(),
                }
            }),
    {
        self.find_episode(show_id, translation, true)
    }

    fn find_episode(&self, show_id: &str, translation: Translation, is_manga: bool) -> (r: Option<
        String,
    >)
        ensures
            ({
                let p = first_match_index(self.entries@, show_id@, translation, is_manga);
                match r {
                    Some(ep) => p < self.entries@.len() && ep == self.entries@[p].episode,
                    None => p == self.entries@.len(),
                }
            }),
    {
        let n = self.entries.len();
        let mut p: usize = 0;
        while p < n
            invariant
                0 <= p <= n,
                n == self.entries@.len(),
                forall|j: int|
                    0 <= j < p ==> !entry_matches(
                        #[trigger] self.entries@[j],
                        show_id@,
                        translation,
                        is_manga,
                    ),
            decreases n - p,
        {
            if Self::entry_key_eq(&self.entries[p], show_id, translation, is_manga) {
                proof {
                    lemma_first_match_index_from_scan(
                        self.entries@,
                        show_id@,
                        translation,
                        is_manga,
                        p as int,
                    );
                }
                return Some(self.entries[p].episode.clone());
            }
            p = p + 1;
        }
        proof {
            lemma_first_match_index_from_scan(
                self.entries@,
                show_id@,
                translation,
                is_manga,
                n as int,
            );
        }
        None
    }
}

/// Relies on dirs_next::data_dir: the platform data directory, if the
/// environment defines one; converted to a UTF-8 string.
#[verifier::external_body]
fn os_data_root() -> (r: Option<String>)
{
    dirs_next::data_dir().and_then(|p| p.into_os_string().into_string().ok())
}

/// The journal file's path under the platform data directory; `None` when
/// the environment defines none.
pub fn history_path() -> (r: Option<String>)
    ensures
        r matches Some(p) ==> exists|base: Seq<char>| p@ == base + "/anv/history.json"@,
{
    match os_data_root() {
        Some(root) => {
            let ghost base = root@;
            let mut s = root;
            s.append("/anv/history.json");
            proof {
                assert(s@ == base + "/anv/history.json"@);
            }
            Some(s)
        },
        None => None,
    }
}

} // verus!
