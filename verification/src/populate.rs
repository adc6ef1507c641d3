//! The cache populator's decision core.
//!
//! A cache session materialises an ordered list of remote pages into local
//! files: the first `preload` items synchronously, in index order, stopping
//! at the first failure; the rest on a detached background worker. An HTTP
//! 403 during the synchronous pass marks the whole session as blocked, and a
//! blocked session never schedules background work.
//!
//! The host process checks files and performs downloads; every decision —
//! which index is next, when to stop, what to hand to the background worker
//! — is taken here.

use vstd::prelude::*;
use vstd::string::{StrSliceExecFns, StringExecFns};

use crate::cache::{
    infer_ext_spec, infer_page_extension, lemma_page_file_names_injective, page_file_name,
    page_file_name_spec,
};
use crate::types::Page;

verus! {

/// The destination file of the page at index `idx` under a chapter
/// directory.
pub open spec fn cache_file_spec(dir: Seq<char>, idx: nat, url: Seq<char>) -> Seq<char> {
    dir + "/"@ + page_file_name_spec(idx, infer_ext_spec(url))
}

/// Equal sequences with the same prefix have equal remainders.
proof fn lemma_concat_cancel_left(p: Seq<char>, a: Seq<char>, b: Seq<char>)
    requires
        p + a == p + b,
    ensures
        a == b,
{
    assert((p + a).len() == p.len() + a.len());
    assert((p + b).len() == p.len() + b.len());
    assert(a.len() == b.len());
    assert forall|k: int| 0 <= k < a.len() implies a[k] == b[k] by {
        assert((p + a)[p.len() + k] == a[k]);
        assert((p + b)[p.len() + k] == b[k]);
    }
    assert(a =~= b);
}

/// Derives the destination file of every page: deterministic, and distinct
/// across the session by construction.
pub fn build_cache_files(dir: &str, pages: &Vec<Page>) -> (r: Vec<String>)
    ensures
        r@.len() == pages@.len(),
        forall|i: int|
            0 <= i < r@.len() ==> #[trigger] r@[i]@ == cache_file_spec(
                dir@,
                i as nat,
                pages@[i].url@,
            ),
        forall|i: int, j: int| 0 <= i < j < r@.len() ==> r@[i]@ != r@[j]@,
{
    let n = pages.len();
    let mut r: Vec<String> = Vec::new();
    let mut i: usize = 0;
    while i < n
        invariant
            0 <= i <= n,
            n == pages@.len(),
            r@.len() == i,
            forall|k: int|
                0 <= k < i ==> #[trigger] r@[k]@ == cache_file_spec(dir@, k as nat, pages@[k].url@),
        decreases n - i,
    {
        let ext = infer_page_extension(pages[i].url.as_str());
        let name = page_file_name(i, ext.as_str());
        let mut path = String::from_str(dir);
        path.append("/");
        path.append(name.as_str());
        proof {
            assert(path@ =~= cache_file_spec(dir@, i as nat, pages@[i as int].url@));
        }
        r.push(path);
        i = i + 1;
    }
    proof {
        assert forall|a: int, b: int| 0 <= a < b < r@.len() implies r@[a]@ != r@[b]@ by {
            if r@[a]@ == r@[b]@ {
                let pre = dir@ + "/"@;
                let n1 = page_file_name_spec(a as nat, infer_ext_spec(pages@[a].url@));
                let n2 = page_file_name_spec(b as nat, infer_ext_spec(pages@[b].url@));
                assert(pre + n1 =~= r@[a]@);
                assert(pre + n2 =~= r@[b]@);
                lemma_concat_cancel_left(pre, n1, n2);
                lemma_page_file_names_injective(
                    a as nat,
                    b as nat,
                    infer_ext_spec(pages@[a].url@),
                    infer_ext_spec(pages@[b].url@),
                );
            }
        }
    }
    r
}

/// Ghost model of a cache session.
pub struct SessionView {
    pub total: nat,
    pub preload: nat,
    pub next: nat,
    pub cached: Seq<bool>,
    pub cdn_blocked: bool,
    pub stopped: bool,
}

impl SessionView {
    /// Shape every session keeps: the clamp on `preload`, the cursor inside
    /// the preload range, and one cache mark per target.
    pub open spec fn well_formed(self) -> bool {
        &&& self.preload <= self.total
        &&& self.next <= self.preload
        &&& self.cached.len() == self.total
        &&& self.cdn_blocked ==> self.stopped
    }

    /// A fresh session over `total` targets with the requested preload
    /// clamped to the target count.
    pub open spec fn initial(total: nat, requested_preload: nat) -> SessionView {
        SessionView {
            total,
            preload: if requested_preload <= total {
                requested_preload
            } else {
                total
            },
            next: 0,
            cached: Seq::new(total, |i: int| false),
            cdn_blocked: false,
            stopped: false,
        }
    }

    /// Some target in the synchronous range was cached.
    pub open spec fn any_sync_cached(self) -> bool {
        exists|i: int| 0 <= i < self.preload && self.cached[i]
    }
}

/// What the host process reports for the current synchronous index.
pub enum SyncOutcome {
    /// The file already existed.
    Hit,
    /// The fetch succeeded and the file was written.
    Fetched,
    /// The fetch failed; `forbidden` marks an HTTP 403 classification.
    Failed { forbidden: bool },
}

/// One step of the synchronous pass: a hit or a fetched file marks the
/// current index cached and advances; a failure stops the pass, and a
/// forbidden failure additionally blocks the whole session.
pub open spec fn sync_step(v: SessionView, out: SyncOutcome) -> SessionView {
    match out {
        SyncOutcome::Hit | SyncOutcome::Fetched => SessionView {
            cached: v.cached.update(v.next as int, true),
            next: v.next + 1,
            ..v
        },
        SyncOutcome::Failed { forbidden } => SessionView {
            stopped: true,
            cdn_blocked: forbidden,
            ..v
        },
    }
}

/// The synchronous pass driven over a list of outcomes: steps are consumed
/// in order until the outcomes run out, the pass stops, or the preload range
/// is exhausted.
pub open spec fn run_sync(v: SessionView, outs: Seq<SyncOutcome>) -> SessionView
    decreases outs.len(),
{
    if outs.len() == 0 || v.stopped || v.next >= v.preload {
        v
    } else {
        run_sync(sync_step(v, outs[0]), outs.drop_first())
    }
}

/// The synchronous pass state of one chapter's cache fill.
pub struct CacheSession {
    total: usize,
    preload: usize,
    next: usize,
    cached: Vec<bool>,
    cdn_blocked: bool,
    stopped: bool,
}

impl View for CacheSession {
    type V = SessionView;

    closed spec fn view(&self) -> SessionView {
        SessionView {
            total: self.total as nat,
            preload: self.preload as nat,
            next: self.next as nat,
            cached: self.cached@,
            cdn_blocked: self.cdn_blocked,
            stopped: self.stopped,
        }
    }
}

impl CacheSession {
    /// Opens a session over `total` targets, clamping the configured preload
    /// count to the target count.
    pub fn new(total: usize, requested_preload: usize) -> (s: CacheSession)
        ensures
            s@ == SessionView::initial(total as nat, requested_preload as nat),
            s@.well_formed(),
    {
        let preload = if requested_preload <= total {
            requested_preload
        } else {
            total
        };
        let mut cached: Vec<bool> = Vec::new();
        while cached.len() < total
            invariant
                cached@ == Seq::new(cached@.len(), |i: int| false),
                cached@.len() <= total,
            decreases total - cached@.len(),
        {
            cached.push(false);
            proof {
                assert(cached@ =~= Seq::new(cached@.len(), |i: int| false));
            }
        }
        proof {
            assert(cached@ =~= Seq::new(total as nat, |i: int| false));
        }
        CacheSession { total, preload, next: 0, cached, cdn_blocked: false, stopped: false }
    }

    /// The next index the synchronous pass owes, if any.
    pub fn sync_next(&self) -> (r: Option<usize>)
        ensures
            match r {
                Some(i) => !self@.stopped && self@.next < self@.preload && i == self@.next,
                None => self@.stopped || self@.next >= self@.preload,
            },
    {
        if !self.stopped && self.next < self.preload {
            Some(self.next)
        } else {
            None
        }
    }

    /// The current index turned out cached (it already existed, or its fetch
    /// succeeded): mark it and advance.
    pub fn record_cached(&mut self)
        requires
            !old(self)@.stopped,
            old(self)@.next < old(self)@.preload,
            old(self)@.well_formed(),
        ensures
            final(self)@ == sync_step(old(self)@, SyncOutcome::Fetched),
            final(self)@.well_formed(),
    {
        self.cached.set(self.next, true);
        self.next = self.next + 1;
    }

    /// The current index failed to fetch: the synchronous pass stops, and a
    /// forbidden (HTTP 403) classification blocks the whole session.
    pub fn record_failure(&mut self, forbidden: bool)
        requires
            !old(self)@.stopped,
            old(self)@.next < old(self)@.preload,
            old(self)@.well_formed(),
        ensures
            final(self)@ == sync_step(old(self)@, SyncOutcome::Failed { forbidden }),
            final(self)@.well_formed(),
    {
        self.stopped = true;
        self.cdn_blocked = forbidden;
    }

    /// A file beyond the preload range already exists: mark it cached.
    pub fn mark_existing(&mut self, idx: usize)
        requires
            old(self)@.well_formed(),
            old(self)@.preload <= idx < old(self)@.total,
        ensures
            final(self)@ == (SessionView { cached: old(self)@.cached.update(idx as int, true), ..old(self)@ }),
            final(self)@.well_formed(),
    {
        self.cached.set(idx, true);
    }

    pub fn cdn_blocked(&self) -> (r: bool)
        ensures
            r == self@.cdn_blocked,
    {
        self.cdn_blocked
    }

    /// The clamped preload count: where the synchronous range ends.
    pub fn preload(&self) -> (r: usize)
        ensures
            r == self@.preload,
    {
        self.preload
    }

    /// The number of targets in the session.
    pub fn total(&self) -> (r: usize)
        ensures
            r == self@.total,
    {
        self.total
    }

    pub fn is_cached(&self, idx: usize) -> (r: bool)
        requires
            idx < self@.total,
            self@.well_formed(),
        ensures
            r == self@.cached[idx as int],
    {
        self.cached[idx]
    }

    /// Whether the synchronous range holds at least one cached file.
    pub fn any_sync_cached(&self) -> (r: bool)
        requires
            self@.well_formed(),
        ensures
            r == self@.any_sync_cached(),
    {
        let mut i: usize = 0;
        while i < self.preload
            invariant
                0 <= i <= self@.preload,
                self@.well_formed(),
                forall|j: int| 0 <= j < i ==> !self@.cached[j],
            decreases self@.preload - i,
        {
            if self.cached[i] {
                return true;
            }
            i = i + 1;
        }
        false
    }

    /// Whether the session goes on past the synchronous pass at all. A
    /// blocked session, or one whose synchronous pass produced no cached
    /// file, is returned to the caller as it stands: its tail is neither
    /// scanned nor scheduled — there is no point working against a dead
    /// path.
    pub fn wants_tail_fill(&self) -> (r: bool)
        requires
            self@.well_formed(),
        ensures
            r == (!self@.cdn_blocked && self@.any_sync_cached()),
    {
        !self.cdn_blocked && self.any_sync_cached()
    }

    /// The indices the detached background worker shall fill, in increasing
    /// order: everything beyond the preload range that is still missing.
    ///
    /// A blocked session schedules nothing, and neither does a session whose
    /// synchronous pass produced no cached file at all (there is no point
    /// scheduling work against a dead path).
    pub fn background_jobs(&self) -> (r: Vec<usize>)
        requires
            self@.well_formed(),
        ensures
            self@.cdn_blocked ==> r@.len() == 0,
            !self@.any_sync_cached() ==> r@.len() == 0,
            forall|k: int|
                0 <= k < r@.len() ==> self@.preload <= #[trigger] r@[k] < self@.total
                    && !self@.cached[r@[k] as int],
            self@.cdn_blocked == false && self@.any_sync_cached() ==> forall|i: int|
                self@.preload <= i < self@.total && !self@.cached[i] ==> exists|k: int|
                    0 <= k < r@.len() && #[trigger] r@[k] == i,
            forall|k1: int, k2: int| 0 <= k1 < k2 < r@.len() ==> r@[k1] < r@[k2],
    {
        let mut jobs: Vec<usize> = Vec::new();
        if self.cdn_blocked || !self.any_sync_cached() {
            return jobs;
        }
        let mut i: usize = self.preload;
        while i < self.total
            invariant
                self@.preload <= i <= self@.total,
                self@.well_formed(),
                forall|k: int|
                    0 <= k < jobs@.len() ==> self@.preload <= #[trigger] jobs@[k] < i
                        && !self@.cached[jobs@[k] as int],
                forall|j: int|
                    self@.preload <= j < i && !self@.cached[j] ==> exists|k: int|
                        0 <= k < jobs@.len() && #[trigger] jobs@[k] == j,
                forall|k1: int, k2: int| 0 <= k1 < k2 < jobs@.len() ==> jobs@[k1] < jobs@[k2],
            decreases self@.total - i,
        {
            let ghost prev = jobs@;
            if !self.cached[i] {
                jobs.push(i);
            }
            proof {
                assert forall|j: int|
                    self@.preload <= j < i + 1 && !self@.cached[j] implies exists|k: int|
                        0 <= k < jobs@.len() && #[trigger] jobs@[k] == j by {
                    if j < i {
                        let k = choose|k: int| 0 <= k < prev.len() && #[trigger] prev[k] == j;
                        assert(jobs@[k] == j);
                    } else {
                        assert(jobs@[jobs@.len() - 1] == j);
                    }
                }
            }
            i = i + 1;
        }
        jobs
    }
}

/// The block flag is terminal: a well-formed session keeps its shape through
/// any run of the synchronous pass, and a blocked session never changes
/// again — the flag transitions to `true` at most once and is never reset.
pub proof fn lemma_cdn_block_is_terminal(v: SessionView, outs: Seq<SyncOutcome>)
    requires
        v.well_formed(),
    ensures
        run_sync(v, outs).well_formed(),
        run_sync(v, outs).cdn_blocked ==> run_sync(v, outs).stopped,
        v.cdn_blocked ==> run_sync(v, outs) == v,
    decreases outs.len(),
{
    if !(outs.len() == 0 || v.stopped || v.next >= v.preload) {
        lemma_cdn_block_is_terminal(sync_step(v, outs[0]), outs.drop_first());
    }
}

/// Once the synchronous pass ran to completion without a failure, every
/// index of the preload range is cached; with a preload count at least the
/// target count, that is the whole list.
pub proof fn lemma_sync_pass_populates(v: SessionView, outs: Seq<SyncOutcome>)
    requires
        v.well_formed(),
        !v.stopped,
        forall|i: int| 0 <= i < v.next ==> v.cached[i],
        outs.len() == v.preload - v.next,
        forall|k: int| 0 <= k < outs.len() ==> !(#[trigger] outs[k] is Failed),
    ensures
        run_sync(v, outs).well_formed(),
        run_sync(v, outs).next == v.preload,
        run_sync(v, outs).cdn_blocked == v.cdn_blocked,
        forall|i: int| 0 <= i < v.preload ==> run_sync(v, outs).cached[i],
        v.preload == v.total ==> forall|i: int| 0 <= i < v.total ==> run_sync(v, outs).cached[i],
    decreases outs.len(),
{
    if outs.len() == 0 || v.stopped || v.next >= v.preload {
    } else {
        let stepped = sync_step(v, outs[0]);
        assert(!(outs[0] is Failed));
        lemma_sync_pass_populates(stepped, outs.drop_first());
    }
}

/// Final outcome of one chapter's cache fill, as handed back to the caller.
pub struct MangaCacheState {
    /// For each page, its local file path if it is known to be cached.
    pub cached_pages: Vec<Option<String>>,
    /// The deterministic destination file of every page.
    pub cache_files: Vec<String>,
    /// Whether the CDN answered with a block during the synchronous pass.
    pub cdn_blocked: bool,
}

/// Builds the caller-facing state from a finished session and the file list.
pub fn into_cache_state(session: &CacheSession, files: Vec<String>) -> (r: MangaCacheState)
    requires
        session@.well_formed(),
        files@.len() == session@.total,
    ensures
        r.cache_files == files,
        r.cdn_blocked == session@.cdn_blocked,
        r.cached_pages@.len() == session@.total,
        forall|i: int|
            0 <= i < session@.total ==> #[trigger] r.cached_pages@[i] == (if session@.cached[i] {
                Some(files@[i])
            } else {
                None::<String>
            }),
{
    let mut cached_pages: Vec<Option<String>> = Vec::new();
    let n = files.len();
    let mut i: usize = 0;
    while i < n
        invariant
            0 <= i <= n,
            n == files@.len(),
            n == session@.total,
            session@.well_formed(),
            cached_pages@.len() == i,
            forall|j: int|
                0 <= j < i ==> #[trigger] cached_pages@[j] == (if session@.cached[j] {
                    Some(files@[j])
                } else {
                    None::<String>
                }),
        decreases n - i,
    {
        if session.is_cached(i) {
            cached_pages.push(Some(files[i].clone()));
        } else {
            cached_pages.push(None);
        }
        i = i + 1;
    }
    MangaCacheState { cached_pages, cache_files: files, cdn_blocked: session.cdn_blocked() }
}

} // verus!
