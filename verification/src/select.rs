//! The delivery-strategy selector and the player argument translation.
//!
//! Before the external player is launched, exactly one delivery mode is
//! chosen from the cache outcome: fully-cached local files, the local proxy
//! with lazy fill, or the original remote URLs; a blocked CDN skips playback
//! altogether. Provider headers are translated into the player's header
//! flags, since the player cannot attach headers per URL.

use vstd::prelude::*;
use vstd::string::{StrSliceExecFns, StringExecFns};

use crate::strnum::{ascii_lower, decimal_rep, format_decimal, str_eq_ignore_ascii_case};
use crate::types::{Page, StreamOption};

verus! {

/// What the cache outcome alone determines.
#[derive(Debug, Clone, Copy, PartialEq, Eq, Structural)]
pub enum StrategyChoice {
    /// The CDN blocked this session: skip playback and advance.
    SkipBlocked,
    /// Every page has a local file: hand the player local paths.
    FullyCached,
    /// Some pages are cached: try the local proxy.
    TryProxy,
    /// Nothing is cached: hand the player the remote URLs.
    DirectRemote,
}

/// The delivery mode the player is finally driven with.
#[derive(Debug, Clone, Copy, PartialEq, Eq, Structural)]
pub enum DeliveryMode {
    SkipBlocked,
    FullyCached,
    ProxyBacked,
    DirectRemote,
}

/// The strategy the cache outcome asks for: a blocked session is skipped, an
/// untouched cache goes direct, a complete cache is served locally, and
/// anything in between tries the proxy.
pub open spec fn strategy_spec(cached: Seq<bool>, cdn_blocked: bool) -> StrategyChoice {
    if cdn_blocked {
        StrategyChoice::SkipBlocked
    } else if !(exists|i: int| 0 <= i < cached.len() && cached[i]) {
        StrategyChoice::DirectRemote
    } else if forall|i: int| 0 <= i < cached.len() ==> cached[i] {
        StrategyChoice::FullyCached
    } else {
        StrategyChoice::TryProxy
    }
}

/// Chooses the strategy for a session whose page `i` is cached iff
/// `cached[i]`.
pub fn choose_strategy(cached: &Vec<bool>, cdn_blocked: bool) -> (r: StrategyChoice)
    ensures
        r == strategy_spec(cached@, cdn_blocked),
{
    if cdn_blocked {
        return StrategyChoice::SkipBlocked;
    }
    let n = cached.len();
    let mut any: bool = false;
    let mut all: bool = true;
    let mut i: usize = 0;
    while i < n
        invariant
            0 <= i <= n,
            n == cached@.len(),
            any == exists|j: int| 0 <= j < i && cached@[j],
            all == forall|j: int| 0 <= j < i ==> cached@[j],
        decreases n - i,
    {
        if cached[i] {
            any = true;
        } else {
            all = false;
        }
        i = i + 1;
    }
    if !any {
        StrategyChoice::DirectRemote
    } else if all {
        StrategyChoice::FullyCached
    } else {
        StrategyChoice::TryProxy
    }
}

/// The delivery mode once the proxy's fate is known: a proxy that failed to
/// start degrades to direct remote URLs; everything else stands.
pub open spec fn delivery_spec(choice: StrategyChoice, proxy_started: bool) -> DeliveryMode {
    match choice {
        StrategyChoice::SkipBlocked => DeliveryMode::SkipBlocked,
        StrategyChoice::FullyCached => DeliveryMode::FullyCached,
        StrategyChoice::DirectRemote => DeliveryMode::DirectRemote,
        StrategyChoice::TryProxy => if proxy_started {
            DeliveryMode::ProxyBacked
        } else {
            DeliveryMode::DirectRemote
        },
    }
}

pub fn resolve_delivery(choice: StrategyChoice, proxy_started: bool) -> (r: DeliveryMode)
    ensures
        r == delivery_spec(choice, proxy_started),
{
    match choice {
        StrategyChoice::SkipBlocked => DeliveryMode::SkipBlocked,
        StrategyChoice::FullyCached => DeliveryMode::FullyCached,
        StrategyChoice::DirectRemote => DeliveryMode::DirectRemote,
        StrategyChoice::TryProxy => {
            if proxy_started {
                DeliveryMode::ProxyBacked
            } else {
                DeliveryMode::DirectRemote
            }
        },
    }
}

/// The player flags one header turns into: `User-Agent` and `Referer` have
/// dedicated flags, anything else rides on a generic header field.
pub open spec fn mpv_header_group(k: Seq<char>, v: Seq<char>) -> Seq<Seq<char>> {
    if ascii_lower(k) == "user-agent"@ {
        seq!["--user-agent="@ + v]
    } else if ascii_lower(k) == "referer"@ {
        seq!["--referrer="@ + v, "--http-header-fields=Referer: "@ + v]
    } else {
        seq!["--http-header-fields="@ + k + ": "@ + v]
    }
}

/// The player flags for the headers from index `i` on.
pub open spec fn mpv_header_args_from(h: Seq<(Seq<char>, Seq<char>)>, i: int) -> Seq<Seq<char>>
    decreases h.len() - i,
{
    if i < 0 || i >= h.len() {
        Seq::empty()
    } else {
        mpv_header_group(h[i].0, h[i].1) + mpv_header_args_from(h, i + 1)
    }
}

/// A referer header is present, whatever its spelling's case.
pub open spec fn has_referer_spec(h: Seq<(Seq<char>, Seq<char>)>) -> bool {
    exists|i: int| 0 <= i < h.len() && ascii_lower(#[trigger] h[i].0) == "referer"@
}

/// The header names with dedicated player flags are already lower case.
proof fn lemma_known_header_names_lower()
    ensures
        ascii_lower("user-agent"@) == "user-agent"@,
        ascii_lower("referer"@) == "referer"@,
{
    reveal_strlit("user-agent");
    reveal_strlit("referer");
    assert(ascii_lower("user-agent"@) =~= "user-agent"@);
    assert(ascii_lower("referer"@) =~= "referer"@);
}

fn flag_with_value(flag: &str, v: &str) -> (r: String)
    ensures
        r@ == flag@ + v@,
{
    let mut s = String::from_str(flag);
    s.append(v);
    s
}

/// Appends the player flags for every header, in header order.
fn append_mpv_header_args(args: &mut Vec<String>, headers: &Vec<(String, String)>)
    ensures
        final(args).deep_view() == old(args).deep_view() + mpv_header_args_from(
            headers.deep_view(),
            0,
        ),
{
    proof {
        lemma_known_header_names_lower();
    }
    let ghost base = args.deep_view();
    let ghost h = headers.deep_view();
    let n = headers.len();
    let mut i: usize = 0;
    proof {
        assert(base + mpv_header_args_from(h, 0) =~~= base + mpv_header_args_from(h, 0));
        assert(h.len() == headers@.len());
    }
    while i < n
        invariant
            0 <= i <= n,
            n == headers@.len(),
            h == headers.deep_view(),
            h.len() == n,
            ascii_lower("user-agent"@) == "user-agent"@,
            ascii_lower("referer"@) == "referer"@,
            args.deep_view() + mpv_header_args_from(h, i as int) == base + mpv_header_args_from(
                h,
                0,
            ),
        decreases n - i,
    {
        let ghost before = args.deep_view();
        let pair = &headers[i];
        let k = pair.0.as_str();
        let v = pair.1.as_str();
        proof {
            assert(h[i as int] == (pair.0@, pair.1@));
        }
        if str_eq_ignore_ascii_case(k, "user-agent") {
            args.push(flag_with_value("--user-agent=", v));
        } else if str_eq_ignore_ascii_case(k, "referer") {
            args.push(flag_with_value("--referrer=", v));
            args.push(flag_with_value("--http-header-fields=Referer: ", v));
        } else {
            let mut generic = String::from_str("--http-header-fields=");
            generic.append(k);
            generic.append(": ");
            generic.append(v);
            proof {
                assert(generic@ =~= "--http-header-fields="@ + pair.0@ + ": "@ + pair.1@);
            }
            args.push(generic);
        }
        proof {
            assert(args.deep_view() =~~= before + mpv_header_group(h[i as int].0, h[i as int].1));
            assert(args.deep_view() + mpv_header_args_from(h, i + 1) =~~= base
                + mpv_header_args_from(h, 0));
        }
        i = i + 1;
    }
    proof {
        assert(mpv_header_args_from(h, n as int) =~~= Seq::<Seq<char>>::empty());
        assert(args.deep_view() =~~= base + mpv_header_args_from(h, 0));
    }
}

/// Whether any header names a referer.
pub fn headers_have_referer(headers: &Vec<(String, String)>) -> (r: bool)
    ensures
        r == has_referer_spec(headers.deep_view()),
{
    proof {
        lemma_known_header_names_lower();
    }
    let n = headers.len();
    let mut i: usize = 0;
    while i < n
        invariant
            0 <= i <= n,
            n == headers@.len(),
            forall|j: int|
                0 <= j < i ==> ascii_lower(#[trigger] headers.deep_view()[j].0) != "referer"@,
            ascii_lower("referer"@) == "referer"@,
        decreases n - i,
    {
        let pair = &headers[i];
        proof {
            assert(headers.deep_view()[i as int] == (pair.0@, pair.1@));
        }
        if str_eq_ignore_ascii_case(pair.0.as_str(), "referer") {
            proof {
                assert(ascii_lower(headers.deep_view()[i as int].0) == "referer"@);
            }
            return true;
        }
        i = i + 1;
    }
    false
}

/// The full player argument list for one episode stream: quiet flags, the
/// media title, an optional subtitle file, the translated headers, a default
/// referer when the stream carries none, and the stream URL last.
pub open spec fn player_args_spec(
    stream: &StreamOption,
    title: Seq<char>,
    episode: Seq<char>,
    default_referer: Seq<char>,
) -> Seq<Seq<char>> {
    seq!["--quiet"@, "--terminal=no"@, "--force-media-title="@ + title + " - Episode "@ + episode]
        + (match stream.subtitle {
        Some(sub) => seq!["--sub-file="@ + sub@],
        None => Seq::<Seq<char>>::empty(),
    }) + mpv_header_args_from(stream.headers.deep_view(), 0) + (if has_referer_spec(
        stream.headers.deep_view(),
    ) {
        Seq::<Seq<char>>::empty()
    } else {
        seq![
            "--referrer="@ + default_referer,
            "--http-header-fields=Referer: "@ + default_referer,
        ]
    }) + seq![stream.url@]
}

/// Builds the player argument list for one episode stream.
pub fn player_args(stream: &StreamOption, title: &str, episode: &str, default_referer: &str) -> (r:
    Vec<String>)
    ensures
        r.deep_view() == player_args_spec(stream, title@, episode@, default_referer@),
{
    let mut args: Vec<String> = Vec::new();
    args.push(String::from_str("--quiet"));
    args.push(String::from_str("--terminal=no"));
    let mut mt = String::from_str("--force-media-title=");
    mt.append(title);
    mt.append(" - Episode ");
    mt.append(episode);
    proof {
        assert(mt@ =~= "--force-media-title="@ + title@ + " - Episode "@ + episode@);
    }
    args.push(mt);
    let ghost lead = seq![
        "--quiet"@,
        "--terminal=no"@,
        "--force-media-title="@ + title@ + " - Episode "@ + episode@,
    ];
    proof {
        assert(args.deep_view() =~~= lead);
    }
    match &stream.subtitle {
        Some(sub) => {
            args.push(flag_with_value("--sub-file=", sub.as_str()));
        },
        None => {},
    }
    let ghost subt: Seq<Seq<char>> = if stream.subtitle is Some {
        seq!["--sub-file="@ + stream.subtitle->0@]
    } else {
        Seq::<Seq<char>>::empty()
    };
    proof {
        assert(args.deep_view() =~~= lead + subt);
    }
    append_mpv_header_args(&mut args, &stream.headers);
    let ghost with_hdrs = lead + subt + mpv_header_args_from(stream.headers.deep_view(), 0);
    proof {
        assert(args.deep_view() == with_hdrs);
    }
    if !headers_have_referer(&stream.headers) {
        args.push(flag_with_value("--referrer=", default_referer));
        args.push(flag_with_value("--http-header-fields=Referer: ", default_referer));
    }
    let ghost refs: Seq<Seq<char>> = if has_referer_spec(stream.headers.deep_view()) {
        Seq::<Seq<char>>::empty()
    } else {
        seq![
            "--referrer="@ + default_referer@,
            "--http-header-fields=Referer: "@ + default_referer@,
        ]
    };
    proof {
        assert(args.deep_view() =~~= with_hdrs + refs);
    }
    args.push(String::from_str(stream.url.as_str()));
    proof {
        assert(args.deep_view() =~~= with_hdrs + refs + seq![stream.url@]);
        assert(args.deep_view() =~~= player_args_spec(stream, title@, episode@, default_referer@));
    }
    args
}

/// The base flags every viewer launch for a chapter carries.
pub open spec fn viewer_base_args_spec(title: Seq<char>, chapter: Seq<char>) -> Seq<Seq<char>> {
    seq![
        "--quiet"@,
        "--terminal=no"@,
        "--force-media-title="@ + title + " - Chapter "@ + chapter,
        "--image-display-duration=inf"@,
    ]
}

/// Builds the base viewer flags for one chapter.
pub fn viewer_base_args(title: &str, chapter: &str) -> (r: Vec<String>)
    ensures
        r.deep_view() == viewer_base_args_spec(title@, chapter@),
{
    let mut args: Vec<String> = Vec::new();
    args.push(String::from_str("--quiet"));
    args.push(String::from_str("--terminal=no"));
    let mut mt = String::from_str("--force-media-title=");
    mt.append(title);
    mt.append(" - Chapter ");
    mt.append(chapter);
    proof {
        assert(mt@ =~= "--force-media-title="@ + title@ + " - Chapter "@ + chapter@);
    }
    args.push(mt);
    args.push(String::from_str("--image-display-duration=inf"));
    proof {
        assert(args.deep_view() =~~= viewer_base_args_spec(title@, chapter@));
    }
    args
}

/// The header flags one direct-URL page header turns into: a referer gets
/// the dedicated flags, anything else a generic header field.
pub open spec fn direct_header_group(k: Seq<char>, v: Seq<char>) -> Seq<Seq<char>> {
    if ascii_lower(k) == "referer"@ {
        seq!["--referrer="@ + v, "--http-header-fields=Referer: "@ + v]
    } else {
        seq!["--http-header-fields="@ + k + ": "@ + v]
    }
}

pub open spec fn direct_header_args_from(h: Seq<(Seq<char>, Seq<char>)>, i: int) -> Seq<Seq<char>>
    decreases h.len() - i,
{
    if i < 0 || i >= h.len() {
        Seq::empty()
    } else {
        direct_header_group(h[i].0, h[i].1) + direct_header_args_from(h, i + 1)
    }
}

/// The page URLs, in page order.
pub open spec fn page_urls_from(pages: Seq<Page>, i: int) -> Seq<Seq<char>>
    decreases pages.len() - i,
{
    if i < 0 || i >= pages.len() {
        Seq::empty()
    } else {
        seq![pages[i].url@] + page_urls_from(pages, i + 1)
    }
}

/// The viewer arguments for direct remote delivery: the first page's headers
/// translated (most players cannot attach headers per URL), then every page
/// URL.
pub open spec fn direct_url_args_spec(pages: Seq<Page>) -> Seq<Seq<char>> {
    (if pages.len() > 0 {
        direct_header_args_from(pages[0].headers.deep_view(), 0)
    } else {
        Seq::<Seq<char>>::empty()
    }) + page_urls_from(pages, 0)
}

/// Builds the direct-delivery viewer arguments.
pub fn direct_url_args(pages: &Vec<Page>) -> (r: Vec<String>)
    ensures
        r.deep_view() == direct_url_args_spec(pages@),
{
    proof {
        lemma_known_header_names_lower();
    }
    let mut args: Vec<String> = Vec::new();
    if pages.len() > 0 {
        let headers = &pages[0].headers;
        let ghost h = headers.deep_view();
        let n = headers.len();
        let mut i: usize = 0;
        while i < n
            invariant
                0 <= i <= n,
                n == headers@.len(),
                h == headers.deep_view(),
                h.len() == n,
                ascii_lower("referer"@) == "referer"@,
                args.deep_view() + direct_header_args_from(h, i as int) == direct_header_args_from(
                    h,
                    0,
                ),
            decreases n - i,
        {
            let ghost before = args.deep_view();
            let pair = &headers[i];
            proof {
                assert(h[i as int] == (pair.0@, pair.1@));
            }
            if str_eq_ignore_ascii_case(pair.0.as_str(), "referer") {
                args.push(flag_with_value("--referrer=", pair.1.as_str()));
                args.push(flag_with_value("--http-header-fields=Referer: ", pair.1.as_str()));
            } else {
                let mut generic = String::from_str("--http-header-fields=");
                generic.append(pair.0.as_str());
                generic.append(": ");
                generic.append(pair.1.as_str());
                proof {
                    assert(generic@ =~= "--http-header-fields="@ + pair.0@ + ": "@ + pair.1@);
                }
                args.push(generic);
            }
            proof {
                assert(args.deep_view() =~~= before + direct_header_group(
                    h[i as int].0,
                    h[i as int].1,
                ));
                assert(args.deep_view() + direct_header_args_from(h, i + 1)
                    =~~= direct_header_args_from(h, 0));
            }
            i = i + 1;
        }
        proof {
            assert(direct_header_args_from(h, n as int) =~~= Seq::<Seq<char>>::empty());
            assert(args.deep_view() =~~= direct_header_args_from(h, 0));
        }
    }
    let ghost mid = args.deep_view();
    let total = pages.len();
    let mut j: usize = 0;
    while j < total
        invariant
            0 <= j <= total,
            total == pages@.len(),
            args.deep_view() + page_urls_from(pages@, j as int) == mid + page_urls_from(pages@, 0),
        decreases total - j,
    {
        let ghost before = args.deep_view();
        args.push(String::from_str(pages[j].url.as_str()));
        proof {
            assert(args.deep_view() =~~= before + seq![pages@[j as int].url@]);
            assert(args.deep_view() + page_urls_from(pages@, j + 1) =~~= mid + page_urls_from(
                pages@,
                0,
            ));
        }
        j = j + 1;
    }
    proof {
        assert(page_urls_from(pages@, total as int) =~~= Seq::<Seq<char>>::empty());
        assert(args.deep_view() =~~= direct_url_args_spec(pages@));
    }
    args
}

/// The local file paths for a fully cached chapter, in page order.
pub fn local_path_args(cached_pages: &Vec<Option<String>>) -> (r: Vec<String>)
    requires
        forall|i: int| 0 <= i < cached_pages@.len() ==> (#[trigger] cached_pages@[i]) is Some,
    ensures
        r@.len() == cached_pages@.len(),
        forall|i: int| 0 <= i < r@.len() ==> #[trigger] r@[i] == cached_pages@[i]->0,
{
    let mut args: Vec<String> = Vec::new();
    let n = cached_pages.len();
    let mut i: usize = 0;
    while i < n
        invariant
            0 <= i <= n,
            n == cached_pages@.len(),
            forall|k: int| 0 <= k < n ==> (#[trigger] cached_pages@[k]) is Some,
            args@.len() == i,
            forall|k: int| 0 <= k < i ==> #[trigger] args@[k] == cached_pages@[k]->0,
        decreases n - i,
    {
        match &cached_pages[i] {
            Some(p) => {
                args.push(p.clone());
            },
            None => {
                proof {
                    assert(false);
                }
            },
        }
        i = i + 1;
    }
    args
}

/// The proxy URLs `base/<index>` for every page, in page order.
pub fn proxy_url_args(base_url: &str, total: usize) -> (r: Vec<String>)
    ensures
        r@.len() == total,
        forall|i: int|
            0 <= i < total ==> #[trigger] r@[i]@ == base_url@ + "/"@ + decimal_rep(i as nat),
{
    let mut args: Vec<String> = Vec::new();
    let mut i: usize = 0;
    while i < total
        invariant
            0 <= i <= total,
            args@.len() == i,
            forall|k: int|
                0 <= k < i ==> #[trigger] args@[k]@ == base_url@ + "/"@ + decimal_rep(k as nat),
        decreases total - i,
    {
        let mut s = String::from_str(base_url);
        s.append("/");
        s.append(format_decimal(i).as_str());
        proof {
            assert(s@ =~= base_url@ + "/"@ + decimal_rep(i as nat));
        }
        args.push(s);
        i = i + 1;
    }
    args
}

} // verus!
