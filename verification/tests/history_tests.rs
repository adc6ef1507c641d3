use anv::history::{history_path, History, HistoryEntry};
use anv::labels::{
    compare_episode_labels, default_selection_index, latest_label, next_episode_label,
    sorted_episode_labels,
};
use anv::strnum::{format_decimal, parse_decimal, zero_padded_decimal};
use anv::types::Translation;
use std::cmp::Ordering;

fn entry(show: &str, episode: &str, translation: Translation, is_manga: bool) -> HistoryEntry {
    HistoryEntry {
        show_id: String::from(show),
        show_title: String::from(show),
        episode: String::from(episode),
        translation,
        is_manga,
        watched_at: 1_700_000_000,
    }
}

#[test]
fn upsert_keeps_one_entry_per_key() {
    let mut h = History::new();
    h.upsert(entry("show-a", "1", Translation::Sub, false));
    h.upsert(entry("show-b", "3", Translation::Sub, false));
    h.upsert(entry("show-a", "2", Translation::Sub, false));
    assert_eq!(h.entries.len(), 2);
    assert_eq!(h.entries[0].episode, "2");
    assert_eq!(h.entries[1].show_id, "show-b");
}

#[test]
fn keys_distinguish_translation_and_kind() {
    let mut h = History::new();
    h.upsert(entry("show-a", "1", Translation::Sub, false));
    h.upsert(entry("show-a", "2", Translation::Dub, false));
    h.upsert(entry("show-a", "3", Translation::Sub, true));
    assert_eq!(h.entries.len(), 3);
    assert_eq!(h.last_episode("show-a", Translation::Sub).as_deref(), Some("1"));
    assert_eq!(h.last_episode("show-a", Translation::Dub).as_deref(), Some("2"));
    assert_eq!(h.last_chapter("show-a", Translation::Sub).as_deref(), Some("3"));
    assert_eq!(h.last_chapter("show-a", Translation::Dub), None);
    assert_eq!(h.last_episode("other", Translation::Sub), None);
}

#[test]
fn the_most_recent_entry_wins_lookups() {
    let mut h = History::new();
    h.upsert(entry("show-a", "1", Translation::Sub, false));
    h.upsert(entry("show-a", "5", Translation::Sub, false));
    assert_eq!(h.last_episode("show-a", Translation::Sub).as_deref(), Some("5"));
}

#[test]
fn history_file_lives_under_the_data_directory() {
    if let Some(p) = history_path() {
        assert!(p.ends_with("/anv/history.json"));
    }
}

#[test]
fn labels_compare_numerically() {
    assert_eq!(compare_episode_labels("9.5", "10"), Ordering::Less);
    assert_eq!(compare_episode_labels("271.5", "271"), Ordering::Greater);
    assert_eq!(compare_episode_labels("1.50", "1.5"), Ordering::Equal);
    assert_eq!(compare_episode_labels("01", "1"), Ordering::Equal);
    assert_eq!(compare_episode_labels("2", "2.5"), Ordering::Less);
    assert_eq!(compare_episode_labels("abc", "0"), Ordering::Equal);
    assert_eq!(compare_episode_labels("", "0"), Ordering::Equal);
    assert_eq!(compare_episode_labels("12", "111"), Ordering::Less);
}

#[test]
fn label_lists_sort_and_deduplicate() {
    let labels: Vec<String> =
        ["10", "2", "2", "9.5", "1"].iter().map(|s| String::from(*s)).collect();
    let sorted = sorted_episode_labels(&labels);
    assert_eq!(sorted, vec![
        String::from("1"),
        String::from("2"),
        String::from("9.5"),
        String::from("10"),
    ]);
}

#[test]
fn the_next_label_follows_the_sorted_order() {
    let labels: Vec<String> = ["10", "2", "9.5"].iter().map(|s| String::from(*s)).collect();
    assert_eq!(next_episode_label("2", &labels).as_deref(), Some("9.5"));
    assert_eq!(next_episode_label("9.5", &labels).as_deref(), Some("10"));
    assert_eq!(next_episode_label("10", &labels), None);
    assert_eq!(next_episode_label("7", &labels), None);
}

#[test]
fn the_latest_label_is_the_numeric_maximum() {
    let labels: Vec<String> = ["10", "2", "9.5"].iter().map(|s| String::from(*s)).collect();
    assert_eq!(latest_label(&labels).as_deref(), Some("10"));
    assert_eq!(latest_label(&Vec::new()), None);
    let ties: Vec<String> = ["3", "3.0"].iter().map(|s| String::from(*s)).collect();
    assert_eq!(latest_label(&ties).as_deref(), Some("3.0"));
}

#[test]
fn the_picker_highlights_current_then_latest() {
    let labels: Vec<String> = ["1", "2", "3"].iter().map(|s| String::from(*s)).collect();
    assert_eq!(default_selection_index(&labels, "2", "3"), 1);
    assert_eq!(default_selection_index(&labels, "7", "3"), 2);
    assert_eq!(default_selection_index(&labels, "7", "8"), 0);
}

#[test]
fn decimal_rendering_and_parsing_round_trip() {
    assert_eq!(format_decimal(0), "0");
    assert_eq!(format_decimal(10007), "10007");
    assert_eq!(zero_padded_decimal(42, 4), "0042");
    assert_eq!(zero_padded_decimal(123456, 4), "123456");
    assert_eq!(parse_decimal("0042"), Some(42));
    assert_eq!(parse_decimal("0"), Some(0));
    assert_eq!(parse_decimal(""), None);
    assert_eq!(parse_decimal("4x2"), None);
    assert_eq!(parse_decimal("99999999999999999999999999"), None);
    for n in [0usize, 1, 9, 10, 4096, 65535] {
        assert_eq!(parse_decimal(&format_decimal(n)), Some(n));
    }
}
