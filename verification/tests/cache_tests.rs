use anv::cache::{
    chapter_dir_under, infer_page_extension, manga_cache_chapter_dir, page_file_name,
    sanitize_cache_segment,
};
use anv::populate::{build_cache_files, into_cache_state, CacheSession};
use anv::types::{Page, Translation};

fn page(url: &str) -> Page {
    Page { url: String::from(url), headers: Vec::new() }
}

#[test]
fn sanitize_replaces_unsafe_characters() {
    assert_eq!(sanitize_cache_segment("abc/def"), "abc_def");
    assert_eq!(sanitize_cache_segment("Show: Part 2!"), "Show__Part_2_");
    assert_eq!(sanitize_cache_segment("a-b_c.d9"), "a-b_c.d9");
}

#[test]
fn sanitize_empty_becomes_unknown() {
    assert_eq!(sanitize_cache_segment(""), "unknown");
}

#[test]
fn sanitize_is_idempotent_on_samples() {
    for input in ["", "abc/def", "???", "clean-name", "a b c"] {
        let once = sanitize_cache_segment(input);
        let twice = sanitize_cache_segment(&once);
        assert_eq!(once, twice);
        assert!(!once.is_empty());
    }
}

#[test]
fn extension_inference_keeps_known_kinds() {
    assert_eq!(infer_page_extension("http://x/y.png"), "png");
    assert_eq!(infer_page_extension("http://x/y.webp?sig=1"), "webp");
    assert_eq!(infer_page_extension("http://x/y.avif"), "avif");
    assert_eq!(infer_page_extension("http://x/y.gif"), "gif");
}

#[test]
fn extension_inference_canonicalises_and_falls_back() {
    assert_eq!(infer_page_extension("http://x/y.jpeg"), "jpg");
    assert_eq!(infer_page_extension("http://x/y.JPEG?t=1"), "jpg");
    assert_eq!(infer_page_extension("http://x/y.PNG"), "png");
    assert_eq!(infer_page_extension("http://x/no-extension"), "jpg");
    assert_eq!(infer_page_extension("http://x/archive.tar.zst"), "jpg");
    assert_eq!(infer_page_extension(""), "jpg");
}

#[test]
fn page_file_names_are_padded_and_one_based() {
    assert_eq!(page_file_name(0, "jpg"), "0001.jpg");
    assert_eq!(page_file_name(9, "png"), "0010.png");
    assert_eq!(page_file_name(9998, "jpg"), "9999.jpg");
    assert_eq!(page_file_name(9999, "jpg"), "10000.jpg");
}

#[test]
fn chapter_dir_layout_is_deterministic() {
    let dir = chapter_dir_under("/tmp/cache", "show 1", Translation::Sub, "12.5");
    assert_eq!(dir, "/tmp/cache/anv/manga-pages/show_1/sub/12.5");
    let dir = manga_cache_chapter_dir("a/b", Translation::Raw, "c d", Some("/base")).unwrap();
    assert_eq!(dir, "/base/anv/manga-pages/a_b/raw/c_d");
}

#[test]
fn cache_files_are_distinct_for_every_page() {
    let pages: Vec<Page> = (0..12).map(|i| page(&format!("http://h/p{i}.png"))).collect();
    let files = build_cache_files("/tmp/c", &pages);
    assert_eq!(files.len(), 12);
    assert_eq!(files[0], "/tmp/c/0001.png");
    assert_eq!(files[11], "/tmp/c/0012.png");
    for i in 0..files.len() {
        for j in 0..files.len() {
            if i != j {
                assert_ne!(files[i], files[j]);
            }
        }
    }
}

#[test]
fn preload_count_is_clamped_to_the_target_count() {
    let session = CacheSession::new(3, 10);
    let mut served = Vec::new();
    let mut s = session;
    while let Some(i) = s.sync_next() {
        served.push(i);
        s.record_cached();
    }
    assert_eq!(served, vec![0, 1, 2]);
    assert!(!s.cdn_blocked());
}

#[test]
fn full_preload_populates_synchronously() {
    // Seven pages, preload five, every fetch succeeds.
    let mut s = CacheSession::new(7, 5);
    while let Some(_i) = s.sync_next() {
        s.record_cached();
    }
    for i in 0..5 {
        assert!(s.is_cached(i));
    }
    assert!(!s.is_cached(5));
    assert!(!s.is_cached(6));
    let jobs = s.background_jobs();
    assert_eq!(jobs, vec![5, 6]);
    assert!(!s.cdn_blocked());
}

#[test]
fn forbidden_fetch_blocks_the_session() {
    // The very first page comes back with HTTP 403.
    let mut s = CacheSession::new(7, 5);
    assert_eq!(s.sync_next(), Some(0));
    s.record_failure(true);
    assert!(s.cdn_blocked());
    assert_eq!(s.sync_next(), None);
    for i in 0..7 {
        assert!(!s.is_cached(i));
    }
    assert_eq!(s.background_jobs(), Vec::<usize>::new());
}

#[test]
fn plain_failure_stops_without_blocking() {
    let mut s = CacheSession::new(4, 4);
    assert_eq!(s.sync_next(), Some(0));
    s.record_cached();
    assert_eq!(s.sync_next(), Some(1));
    s.record_failure(false);
    assert!(!s.cdn_blocked());
    assert_eq!(s.sync_next(), None);
    assert!(s.is_cached(0));
    assert!(!s.is_cached(1));
}

#[test]
fn zero_successes_schedule_no_background_work() {
    let mut s = CacheSession::new(5, 2);
    assert_eq!(s.sync_next(), Some(0));
    s.record_failure(false);
    assert_eq!(s.background_jobs(), Vec::<usize>::new());
    // ... and the session is returned as it stands, tail untouched.
    assert!(!s.wants_tail_fill());
}

#[test]
fn only_a_live_session_fills_its_tail() {
    // A session with a synchronous success goes on to the tail.
    let mut s = CacheSession::new(5, 2);
    assert_eq!(s.sync_next(), Some(0));
    s.record_cached();
    assert_eq!(s.sync_next(), Some(1));
    s.record_failure(false);
    assert!(s.wants_tail_fill());
    // A blocked session does not, even with earlier successes.
    let mut b = CacheSession::new(5, 2);
    assert_eq!(b.sync_next(), Some(0));
    b.record_cached();
    assert_eq!(b.sync_next(), Some(1));
    b.record_failure(true);
    assert!(!b.wants_tail_fill());
}

#[test]
fn existing_tail_files_are_not_rescheduled() {
    let mut s = CacheSession::new(5, 2);
    while let Some(_i) = s.sync_next() {
        s.record_cached();
    }
    s.mark_existing(3);
    let jobs = s.background_jobs();
    assert_eq!(jobs, vec![2, 4]);
}

#[test]
fn cache_state_pairs_paths_with_outcomes() {
    let mut s = CacheSession::new(3, 2);
    while let Some(_i) = s.sync_next() {
        s.record_cached();
    }
    let files = vec![String::from("/c/0001.jpg"), String::from("/c/0002.jpg"), String::from(
        "/c/0003.jpg",
    )];
    let state = into_cache_state(&s, files.clone());
    assert_eq!(state.cache_files, files);
    assert!(!state.cdn_blocked);
    assert_eq!(state.cached_pages[0].as_deref(), Some("/c/0001.jpg"));
    assert_eq!(state.cached_pages[1].as_deref(), Some("/c/0002.jpg"));
    assert_eq!(state.cached_pages[2], None);
}
