use anv::fetch::{curl_args, is_forbidden, FetchError, FetchState};
use anv::proxy::{
    http_error_response, http_ok_header, is_benign_disconnect, is_benign_proxy_error,
    mime_type_for_path, page_status, parse_request_line, proxy_base_url, route_request, IoKind,
    LocalPageProxy, ProxyMethod, ProxyRoute, ProxyState,
};
use anv::select::{
    choose_strategy, direct_url_args, local_path_args, player_args, proxy_url_args,
    resolve_delivery, viewer_base_args, DeliveryMode, StrategyChoice,
};
use anv::types::{Page, StreamOption};

#[test]
fn primary_success_needs_no_fallback() {
    let s = FetchState::start(String::from("http://host/img.png"));
    let s = s.on_response(200, None);
    assert!(matches!(s, FetchState::AwaitBody));
    let s = s.on_body_written();
    match s {
        FetchState::Finished { result } => assert!(result.is_ok()),
        _ => panic!("fetch should be finished"),
    }
}

#[test]
fn redirect_is_reissued_once_with_the_same_request() {
    let s = FetchState::start(String::from("http://host/a"));
    let s = s.on_response(302, Some(String::from("http://cdn/b")));
    match &s {
        FetchState::AwaitPrimary { url, redirected } => {
            assert_eq!(url, "http://cdn/b");
            assert!(*redirected);
        },
        _ => panic!("redirect should re-issue the request"),
    }
    // A second redirect is not followed: it fails the primary path.
    let s = s.on_response(301, Some(String::from("http://cdn/c")));
    assert!(matches!(s, FetchState::AwaitFallback { primary: FetchError::Http(301) }));
}

#[test]
fn redirect_without_location_fails_the_primary_path() {
    let s = FetchState::start(String::from("http://host/a"));
    let s = s.on_response(302, None);
    assert!(matches!(s, FetchState::AwaitFallback { primary: FetchError::Protocol }));
}

#[test]
fn primary_failure_runs_the_fallback_exactly_once() {
    let s = FetchState::start(String::from("http://host/a"));
    let s = s.on_response(500, None);
    match &s {
        FetchState::AwaitFallback { primary } => {
            assert!(matches!(primary, FetchError::Http(500)));
        },
        _ => panic!("a server error should fail over"),
    }
    let s = s.on_fallback_result(Err(FetchError::Network));
    match s {
        FetchState::Finished { result } => {
            let failure = result.unwrap_err();
            assert!(matches!(failure.primary, FetchError::Http(500)));
            assert!(matches!(failure.fallback, FetchError::Network));
        },
        _ => panic!("the fallback outcome ends the fetch"),
    }
}

#[test]
fn forbidden_is_exactly_http_403() {
    assert!(is_forbidden(&FetchError::Http(403)));
    assert!(!is_forbidden(&FetchError::Http(404)));
    assert!(!is_forbidden(&FetchError::Network));
}

#[test]
fn curl_arguments_replay_the_header_set() {
    let headers = vec![
        (String::from("Referer"), String::from("https://site")),
        (String::from("X-Token"), String::from("t1")),
    ];
    let args = curl_args("http://host/p.png", &headers, "/tmp/p.png");
    assert_eq!(args[0], "--fail");
    assert_eq!(args[1], "--location");
    assert_eq!(args[5], "--user-agent");
    assert_eq!(args[7], "--header");
    assert_eq!(args[8], "Accept: image/avif,image/webp,image/*,*/*;q=0.8");
    assert_eq!(args[9], "--header");
    assert_eq!(args[10], "Referer: https://site");
    assert_eq!(args[11], "--header");
    assert_eq!(args[12], "X-Token: t1");
    assert_eq!(args[13], "--output");
    assert_eq!(args[14], "/tmp/p.png");
    assert_eq!(args[15], "http://host/p.png");
}

#[test]
fn request_lines_parse_into_method_and_path() {
    let r = parse_request_line("GET /3 HTTP/1.1\r\n");
    assert!(matches!(r.method, ProxyMethod::Get));
    assert_eq!(r.path, "/3");
    let r = parse_request_line("HEAD /0 HTTP/1.1\r\n");
    assert!(matches!(r.method, ProxyMethod::Head));
    let r = parse_request_line("POST / HTTP/1.1\r\n");
    assert!(matches!(r.method, ProxyMethod::Unsupported));
    let r = parse_request_line("");
    assert!(matches!(r.method, ProxyMethod::Unsupported));
    assert_eq!(r.path, "");
}

#[test]
fn routing_respects_the_target_range() {
    assert!(matches!(
        route_request(ProxyMethod::Get, "/3", 7),
        ProxyRoute::Page { index: 3, head_only: false }
    ));
    assert!(matches!(
        route_request(ProxyMethod::Head, "/0", 7),
        ProxyRoute::Page { index: 0, head_only: true }
    ));
    assert!(matches!(route_request(ProxyMethod::Get, "/99", 7), ProxyRoute::NotFound));
    assert!(matches!(route_request(ProxyMethod::Get, "/x", 7), ProxyRoute::NotFound));
    assert!(matches!(route_request(ProxyMethod::Get, "/", 7), ProxyRoute::NotFound));
    assert!(matches!(route_request(ProxyMethod::Get, "/2?x=1", 7), ProxyRoute::Page {
        index: 2,
        head_only: false,
    }));
    assert!(matches!(
        route_request(ProxyMethod::Unsupported, "/1", 7),
        ProxyRoute::MethodNotAllowed
    ));
}

#[test]
fn served_pages_never_answer_not_found() {
    assert_eq!(page_status(true, false), 200);
    assert_eq!(page_status(true, true), 200);
    assert_eq!(page_status(false, true), 200);
    assert_eq!(page_status(false, false), 502);
}

#[test]
fn response_headers_follow_the_wire_contract() {
    assert_eq!(
        http_ok_header(12345, "image/png"),
        "HTTP/1.1 200 OK\r\nContent-Length: 12345\r\nContent-Type: image/png\r\nConnection: close\r\n\r\n"
    );
    assert_eq!(
        http_error_response(404, "not found"),
        "HTTP/1.1 404 Not Found\r\nContent-Length: 9\r\nContent-Type: text/plain; charset=utf-8\r\nConnection: close\r\n\r\nnot found"
    );
    assert_eq!(
        http_error_response(405, ""),
        "HTTP/1.1 405 Method Not Allowed\r\nContent-Length: 0\r\nContent-Type: text/plain; charset=utf-8\r\nConnection: close\r\n\r\n"
    );
    assert!(http_error_response(502, "cache fetch failed").starts_with("HTTP/1.1 502 Bad Gateway\r\n"));
    assert!(http_error_response(500, "proxy error").starts_with("HTTP/1.1 500 Internal Server Error\r\n"));
}

#[test]
fn error_content_length_counts_bytes_not_characters() {
    // "caf\u{e9}" is four characters but five UTF-8 bytes.
    let message = "caf\u{e9}";
    assert_eq!(message.chars().count(), 4);
    assert_eq!(message.len(), 5);
    let response = http_error_response(502, message);
    assert!(response.contains("\r\nContent-Length: 5\r\n"));
    assert!(response.ends_with(message));
}

#[test]
fn mime_types_come_from_the_file_extension() {
    assert_eq!(mime_type_for_path("/c/0001.jpg"), "image/jpeg");
    assert_eq!(mime_type_for_path("/c/0001.jpeg"), "image/jpeg");
    assert_eq!(mime_type_for_path("/c/0001.png"), "image/png");
    assert_eq!(mime_type_for_path("/c/0001.webp"), "image/webp");
    assert_eq!(mime_type_for_path("/c/0001.avif"), "image/avif");
    assert_eq!(mime_type_for_path("/c/0001.gif"), "image/gif");
    assert_eq!(mime_type_for_path("/c/0001.bin"), "application/octet-stream");
    assert_eq!(mime_type_for_path("/c/noext"), "application/octet-stream");
    assert_eq!(mime_type_for_path("/c/.hidden"), "application/octet-stream");
}

#[test]
fn benign_disconnects_are_swallowed() {
    assert!(is_benign_disconnect(IoKind::BrokenPipe));
    assert!(is_benign_disconnect(IoKind::ConnectionReset));
    assert!(is_benign_disconnect(IoKind::ConnectionAborted));
    assert!(is_benign_disconnect(IoKind::UnexpectedEof));
    assert!(!is_benign_disconnect(IoKind::WouldBlock));
    assert!(!is_benign_disconnect(IoKind::Other));
    assert!(is_benign_proxy_error(&vec![IoKind::Other, IoKind::BrokenPipe]));
    assert!(!is_benign_proxy_error(&vec![IoKind::Other, IoKind::NotFound]));
    assert!(!is_benign_proxy_error(&Vec::new()));
}

#[test]
fn proxy_lifecycle_shutdown_is_idempotent() {
    let mut p = LocalPageProxy::starting(proxy_base_url(4321));
    assert_eq!(p.base_url, "http://127.0.0.1:4321");
    assert!(matches!(p.state, ProxyState::Starting));
    p.mark_serving();
    assert!(matches!(p.state, ProxyState::Serving));
    assert_eq!(p.page_url(6), "http://127.0.0.1:4321/6");
    p.shutdown();
    assert!(matches!(p.state, ProxyState::Stopped));
    assert!(p.stop_requested);
    p.shutdown();
    assert!(matches!(p.state, ProxyState::Stopped));
}

#[test]
fn fully_cached_chapters_play_from_local_files() {
    // Seven pages, all cached: the player gets seven local paths and the
    // proxy is never started.
    let cached = vec![true; 7];
    let choice = choose_strategy(&cached, false);
    assert!(matches!(choice, StrategyChoice::FullyCached));
    assert!(matches!(resolve_delivery(choice, false), DeliveryMode::FullyCached));
    let cached_pages: Vec<Option<String>> =
        (1..=7).map(|i| Some(format!("/c/{i:04}.jpg"))).collect();
    let paths = local_path_args(&cached_pages);
    assert_eq!(paths.len(), 7);
    assert_eq!(paths[0], "/c/0001.jpg");
    assert_eq!(paths[6], "/c/0007.jpg");
}

#[test]
fn partially_cached_chapters_go_through_the_proxy() {
    // Pages 1-5 cached, 6-7 absent; the proxy starts.
    let cached = vec![true, true, true, true, true, false, false];
    let choice = choose_strategy(&cached, false);
    assert!(matches!(choice, StrategyChoice::TryProxy));
    assert!(matches!(resolve_delivery(choice, true), DeliveryMode::ProxyBacked));
    let urls = proxy_url_args("http://127.0.0.1:5000", 7);
    assert_eq!(urls.len(), 7);
    assert_eq!(urls[5], "http://127.0.0.1:5000/5");
    // Requesting the missing index 5 (page 6) triggers a lazy fetch before
    // the bytes are returned ...
    assert!(matches!(route_request(ProxyMethod::Get, "/5", 7), ProxyRoute::Page {
        index: 5,
        head_only: false,
    }));
    assert_eq!(page_status(false, true), 200);
    // ... and an out-of-range index is answered with 404.
    assert!(matches!(route_request(ProxyMethod::Get, "/99", 7), ProxyRoute::NotFound));
}

#[test]
fn degraded_sessions_fall_back_or_skip() {
    let none_cached = vec![false, false];
    assert!(matches!(choose_strategy(&none_cached, false), StrategyChoice::DirectRemote));
    let partial = vec![true, false];
    assert!(matches!(resolve_delivery(choose_strategy(&partial, false), false),
        DeliveryMode::DirectRemote));
    assert!(matches!(choose_strategy(&vec![true, true], true), StrategyChoice::SkipBlocked));
    assert!(matches!(resolve_delivery(StrategyChoice::SkipBlocked, true),
        DeliveryMode::SkipBlocked));
}

#[test]
fn player_arguments_translate_headers() {
    let stream = StreamOption {
        provider: String::from("Default"),
        url: String::from("http://cdn/video.m3u8"),
        quality_label: String::from("1080p"),
        quality_rank: 1080,
        is_hls: true,
        headers: vec![
            (String::from("User-Agent"), String::from("agent/1")),
            (String::from("Referer"), String::from("https://site")),
            (String::from("X-Extra"), String::from("v")),
        ],
        subtitle: Some(String::from("http://cdn/sub.vtt")),
    };
    let args = player_args(&stream, "Show", "4", "https://fallback");
    assert_eq!(args[0], "--quiet");
    assert_eq!(args[1], "--terminal=no");
    assert_eq!(args[2], "--force-media-title=Show - Episode 4");
    assert_eq!(args[3], "--sub-file=http://cdn/sub.vtt");
    assert_eq!(args[4], "--user-agent=agent/1");
    assert_eq!(args[5], "--referrer=https://site");
    assert_eq!(args[6], "--http-header-fields=Referer: https://site");
    assert_eq!(args[7], "--http-header-fields=X-Extra: v");
    assert_eq!(args.last().unwrap(), "http://cdn/video.m3u8");
    // No referer flag is duplicated when the stream already carries one.
    assert!(!args.iter().any(|a| a.contains("https://fallback")));
}

#[test]
fn player_arguments_add_a_default_referer() {
    let stream = StreamOption {
        provider: String::from("S-mp4"),
        url: String::from("http://cdn/video.mp4"),
        quality_label: String::from("auto"),
        quality_rank: 10000,
        is_hls: false,
        headers: Vec::new(),
        subtitle: None,
    };
    let args = player_args(&stream, "Show", "1", "https://fallback");
    assert_eq!(args[3], "--referrer=https://fallback");
    assert_eq!(args[4], "--http-header-fields=Referer: https://fallback");
    assert_eq!(args[5], "http://cdn/video.mp4");
}

#[test]
fn viewer_arguments_for_direct_delivery() {
    let base = viewer_base_args("Title", "12.5");
    assert_eq!(base, vec![
        String::from("--quiet"),
        String::from("--terminal=no"),
        String::from("--force-media-title=Title - Chapter 12.5"),
        String::from("--image-display-duration=inf"),
    ]);
    let pages = vec![
        Page {
            url: String::from("http://cdn/1.png"),
            headers: vec![(String::from("Referer"), String::from("https://site"))],
        },
        Page { url: String::from("http://cdn/2.png"), headers: Vec::new() },
    ];
    let args = direct_url_args(&pages);
    assert_eq!(args, vec![
        String::from("--referrer=https://site"),
        String::from("--http-header-fields=Referer: https://site"),
        String::from("http://cdn/1.png"),
        String::from("http://cdn/2.png"),
    ]);
}
