use anv::streams::{
    build_stream_option, decode_pair, decode_provider_path, extract_data, find_source,
    preferred_sources_order, quality_rank, resolve_url, sort_stream_options, ClockLink,
    ClockSubtitle, ProviderError, SourceDescriptor, ALLANIME_REFERER,
};
use anv::types::{StreamOption, Translation};

fn link(url: &str, resolution: Option<&str>, hls: bool) -> ClockLink {
    ClockLink {
        link: String::from(url),
        resolution: resolution.map(String::from),
        hls,
        subtitles: Vec::new(),
        headers: Vec::new(),
    }
}

#[test]
fn pairs_decode_through_the_table() {
    assert_eq!(decode_pair("17"), Some('/'));
    assert_eq!(decode_pair("5b"), Some('c'));
    assert_eq!(decode_pair("54"), Some('l'));
    assert_eq!(decode_pair("57"), Some('o'));
    assert_eq!(decode_pair("53"), Some('k'));
    assert_eq!(decode_pair("79"), Some('A'));
    assert_eq!(decode_pair("zz"), None);
    assert_eq!(decode_pair("1"), None);
    assert_eq!(decode_pair("175"), None);
}

#[test]
fn provider_paths_decode_and_point_at_json() {
    // "--" then one pair per character of "/clock?id=x"
    let encoded = "--175b54575b5307515c0540";
    let decoded = decode_provider_path(encoded).unwrap();
    assert_eq!(decoded, "/clock.json?id=x");
    // the same pairs in upper case decode identically
    let decoded_upper = decode_provider_path("--175B54575B5307515C0540").unwrap();
    assert_eq!(decoded, decoded_upper);
}

#[test]
fn provider_paths_reject_malformed_input() {
    assert_eq!(decode_provider_path("plain"), None);
    assert_eq!(decode_provider_path("--175"), None); // odd length
    assert_eq!(decode_provider_path("--zz"), None); // not in the table
    assert_eq!(decode_provider_path(""), None);
}

#[test]
fn decoded_json_paths_are_left_alone() {
    // pairs for "/a"
    let decoded = decode_provider_path("--1759").unwrap();
    assert_eq!(decoded, "/a");
}

#[test]
fn quality_ranks_follow_the_resolution() {
    assert_eq!(quality_rank("1080p"), 1080);
    assert_eq!(quality_rank("720p"), 720);
    assert_eq!(quality_rank("720"), 720);
    assert_eq!(quality_rank("auto"), 10000);
    assert_eq!(quality_rank("AUTO"), 10000);
    assert_eq!(quality_rank("junk"), 0);
    assert_eq!(quality_rank(""), 0);
    assert_eq!(quality_rank("99999999999999999999p"), 0);
}

#[test]
fn stream_options_carry_quality_and_default_referer() {
    let o = build_stream_option("Default", link("http://cdn/v.m3u8", Some("1080p"), true));
    assert_eq!(o.provider, "Default");
    assert_eq!(o.url, "http://cdn/v.m3u8");
    assert_eq!(o.quality_label, "1080p");
    assert_eq!(o.quality_rank, 1080);
    assert!(o.is_hls);
    assert_eq!(o.subtitle, None);
    assert_eq!(o.headers, vec![(String::from("Referer"), String::from(ALLANIME_REFERER))]);

    let mut with_ref = link("http://cdn/v.mp4", None, false);
    with_ref.headers.push((String::from("referer"), String::from("https://own")));
    let o = build_stream_option("S-mp4", with_ref);
    assert_eq!(o.quality_label, "auto");
    assert_eq!(o.quality_rank, 10000);
    assert_eq!(o.headers, vec![(String::from("referer"), String::from("https://own"))]);
}

#[test]
fn the_first_english_subtitle_wins() {
    let mut l = link("http://cdn/v", None, true);
    l.subtitles.push(ClockSubtitle {
        src: String::from("http://cdn/fr.vtt"),
        lang: Some(String::from("fr")),
        label: None,
    });
    l.subtitles.push(ClockSubtitle {
        src: String::from("http://cdn/en1.vtt"),
        lang: None,
        label: Some(String::from("English")),
    });
    l.subtitles.push(ClockSubtitle {
        src: String::from("http://cdn/en2.vtt"),
        lang: Some(String::from("en")),
        label: None,
    });
    let o = build_stream_option("Default", l);
    assert_eq!(o.subtitle.as_deref(), Some("http://cdn/en1.vtt"));
}

#[test]
fn stream_sorting_is_best_first_and_stable() {
    let mk = |label: &str, url: &str| StreamOption {
        provider: String::from("Default"),
        url: String::from(url),
        quality_label: String::from(label),
        quality_rank: quality_rank(label),
        is_hls: false,
        headers: Vec::new(),
        subtitle: None,
    };
    let sorted = sort_stream_options(vec![
        mk("720p", "a"),
        mk("1080p", "b"),
        mk("720p", "c"),
        mk("auto", "d"),
    ]);
    let urls: Vec<&str> = sorted.iter().map(|o| o.url.as_str()).collect();
    assert_eq!(urls, vec!["d", "b", "a", "c"]);
}

#[test]
fn provider_preference_orders_the_sources() {
    let src = |name: &str| SourceDescriptor {
        source_url: String::from("--00"),
        source_name: String::from(name),
    };
    let sources = vec![src("Yt-mp4"), src("Other"), src("Default"), src("S-mp4"), src("Default")];
    assert_eq!(find_source(&sources, "Default"), Some(2));
    assert_eq!(find_source(&sources, "Missing"), None);
    assert_eq!(preferred_sources_order(&sources), vec![2, 3, 0]);
}

#[test]
fn relative_urls_resolve_against_the_base() {
    assert_eq!(resolve_url("https://base", "/clock.json"), "https://base/clock.json");
    assert_eq!(resolve_url("https://base", "https://cdn/x"), "https://cdn/x");
    assert_eq!(resolve_url("https://base", "http://cdn/x"), "http://cdn/x");
}

#[test]
fn envelopes_unwrap_data_or_report_errors() {
    let r: Result<u32, ProviderError> = extract_data(Some(7), None);
    assert!(matches!(r, Ok(7)));
    let r: Result<u32, ProviderError> = extract_data(None, None);
    assert!(matches!(r, Err(ProviderError::EmptyResponse)));
    let r: Result<u32, ProviderError> = extract_data(
        Some(7),
        Some(vec![String::from("bad query"), String::from("rate limited")]),
    );
    match r {
        Err(ProviderError::Api(m)) => assert_eq!(m, "bad query; rate limited"),
        _ => panic!("reported errors win over data"),
    }
}

#[test]
fn translations_have_fixed_spellings() {
    assert_eq!(Translation::Sub.as_str(), "sub");
    assert_eq!(Translation::Dub.as_str(), "dub");
    assert_eq!(Translation::Raw.as_str(), "raw");
    assert_eq!(Translation::Sub.label(), "Sub");
    assert_eq!(Translation::Dub.label(), "Dub");
    assert_eq!(Translation::Raw.label(), "Raw");
}

#[test]
fn stream_labels_name_provider_quality_and_kind() {
    let o = StreamOption {
        provider: String::from("Default"),
        url: String::new(),
        quality_label: String::from("1080p"),
        quality_rank: 1080,
        is_hls: true,
        headers: Vec::new(),
        subtitle: None,
    };
    assert_eq!(o.label(), "Default 1080p (HLS)");
    let o = StreamOption { is_hls: false, ..o };
    assert_eq!(o.label(), "Default 1080p (MP4)");
}
