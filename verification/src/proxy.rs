//! The local delivery proxy's decision core and wire formats.
//!
//! The proxy serves previously cached pages to the external player over a
//! loopback listener: `GET /<index>` and `HEAD /<index>` only, one response
//! per connection, no keep-alive. The host process owns the socket; parsing
//! the request line, routing the index, and rendering the exact response
//! bytes all happen here.
//!
//! An in-range index is never answered with `404`, and an out-of-range index
//! is never served a page.

use vstd::prelude::*;
use vstd::string::{StrSliceExecFns, StringExecFns};
use vstd::utf8::encode_utf8;

use crate::strnum::{
    all_digits, decimal_rep, decimal_val, find_char, format_decimal, lemma_rfind_char_props,
    parse_decimal, rfind_char_below, rscan_for_char, scan_for_char, str_eq,
};
use crate::types::Page;

verus! {

/// The I/O error kinds the proxy distinguishes; the host process maps the
/// platform error kind onto this.
#[derive(Debug, Clone, Copy, PartialEq, Eq, Structural)]
pub enum IoKind {
    BrokenPipe,
    ConnectionReset,
    ConnectionAborted,
    UnexpectedEof,
    WouldBlock,
    NotFound,
    Other,
}

/// The disconnect kinds that mean the player went away: harmless, and
/// swallowed rather than reported.
pub open spec fn is_benign_disconnect_spec(kind: IoKind) -> bool {
    kind is BrokenPipe || kind is ConnectionReset || kind is ConnectionAborted
        || kind is UnexpectedEof
}

pub fn is_benign_disconnect(kind: IoKind) -> (r: bool)
    ensures
        r == is_benign_disconnect_spec(kind),
{
    match kind {
        IoKind::BrokenPipe => true,
        IoKind::ConnectionReset => true,
        IoKind::ConnectionAborted => true,
        IoKind::UnexpectedEof => true,
        _ => false,
    }
}

/// An error whose cause chain contains a benign disconnect is itself benign;
/// `kinds` holds the I/O error kinds found in the chain.
pub fn is_benign_proxy_error(kinds: &Vec<IoKind>) -> (r: bool)
    ensures
        r == exists|i: int| 0 <= i < kinds@.len() && is_benign_disconnect_spec(#[trigger] kinds@[i]),
{
    let mut i: usize = 0;
    while i < kinds.len()
        invariant
            0 <= i <= kinds@.len(),
            forall|j: int| 0 <= j < i ==> !is_benign_disconnect_spec(#[trigger] kinds@[j]),
        decreases kinds@.len() - i,
    {
        if is_benign_disconnect(kinds[i]) {
            return true;
        }
        i = i + 1;
    }
    false
}

/// The whitespace that separates request-line tokens.
pub open spec fn is_request_ws(c: char) -> bool {
    c == ' ' || c == '\t' || c == '\r' || c == '\n'
}

/// First index at or after `from` that does not hold request whitespace.
pub open spec fn skip_ws(s: Seq<char>, from: int) -> int
    decreases s.len() - from,
{
    if from < 0 || from >= s.len() {
        s.len() as int
    } else if is_request_ws(s[from]) {
        skip_ws(s, from + 1)
    } else {
        from
    }
}

/// First index at or after `from` that holds request whitespace.
pub open spec fn ws_end(s: Seq<char>, from: int) -> int
    decreases s.len() - from,
{
    if from < 0 || from >= s.len() {
        s.len() as int
    } else if is_request_ws(s[from]) {
        from
    } else {
        ws_end(s, from + 1)
    }
}

fn request_ws(c: char) -> (r: bool)
    ensures
        r == is_request_ws(c),
{
    c == ' ' || c == '\t' || c == '\r' || c == '\n'
}

fn scan_skip_ws(s: &str, from: usize) -> (r: usize)
    requires
        from <= s@.len(),
    ensures
        r == skip_ws(s@, from as int),
        from <= r <= s@.len(),
    decreases s@.len() - from,
{
    let n = s.unicode_len();
    if from >= n {
        return n;
    }
    if request_ws(s.get_char(from)) {
        scan_skip_ws(s, from + 1)
    } else {
        from
    }
}

fn scan_ws_end(s: &str, from: usize) -> (r: usize)
    requires
        from <= s@.len(),
    ensures
        r == ws_end(s@, from as int),
        from <= r <= s@.len(),
    decreases s@.len() - from,
{
    let n = s.unicode_len();
    if from >= n {
        return n;
    }
    if request_ws(s.get_char(from)) {
        from
    } else {
        scan_ws_end(s, from + 1)
    }
}

/// The first whitespace-separated token of the request line (the method).
pub open spec fn first_token(s: Seq<char>) -> Seq<char> {
    s.subrange(skip_ws(s, 0), ws_end(s, skip_ws(s, 0)))
}

/// The second whitespace-separated token of the request line (the path).
pub open spec fn second_token(s: Seq<char>) -> Seq<char> {
    let a = ws_end(s, skip_ws(s, 0));
    let b = skip_ws(s, a);
    s.subrange(b, ws_end(s, b))
}

/// The only request shapes the proxy distinguishes.
#[derive(Debug, Clone, Copy, PartialEq, Eq, Structural)]
pub enum ProxyMethod {
    Get,
    Head,
    Unsupported,
}

pub open spec fn method_of(token: Seq<char>) -> ProxyMethod {
    if token == "GET"@ {
        ProxyMethod::Get
    } else if token == "HEAD"@ {
        ProxyMethod::Head
    } else {
        ProxyMethod::Unsupported
    }
}

/// A parsed request line: the method tag and the raw path token.
pub struct RequestLine {
    pub method: ProxyMethod,
    pub path: String,
}

/// Parses the minimal request line: method and path tokens only.
pub fn parse_request_line(line: &str) -> (r: RequestLine)
    ensures
        r.method == method_of(first_token(line@)),
        r.path@ == second_token(line@),
{
    let a0 = scan_skip_ws(line, 0);
    let a1 = scan_ws_end(line, a0);
    let method_tok = line.substring_char(a0, a1);
    let b0 = scan_skip_ws(line, a1);
    let b1 = scan_ws_end(line, b0);
    let path_tok = line.substring_char(b0, b1);
    let method = if str_eq(method_tok, "GET") {
        ProxyMethod::Get
    } else if str_eq(method_tok, "HEAD") {
        ProxyMethod::Head
    } else {
        ProxyMethod::Unsupported
    };
    RequestLine { method, path: String::from_str(path_tok) }
}

/// First index at or after `from` that is not a `'/'`.
pub open spec fn skip_slashes(s: Seq<char>, from: int) -> int
    decreases s.len() - from,
{
    if from < 0 || from >= s.len() {
        s.len() as int
    } else if s[from] == '/' {
        skip_slashes(s, from + 1)
    } else {
        from
    }
}

fn scan_skip_slashes(s: &str, from: usize) -> (r: usize)
    requires
        from <= s@.len(),
    ensures
        r == skip_slashes(s@, from as int),
        from <= r <= s@.len(),
    decreases s@.len() - from,
{
    let n = s.unicode_len();
    if from >= n {
        return n;
    }
    if s.get_char(from) == '/' {
        scan_skip_slashes(s, from + 1)
    } else {
        from
    }
}

/// The digit run a path token must hold to address a page: everything after
/// the leading slashes and before any `'?'`.
pub open spec fn path_digits(path: Seq<char>) -> Seq<char> {
    let a = skip_slashes(path, 0);
    let b = find_char(path, '?', a);
    path.subrange(a, b)
}

/// The page index a path token addresses, if any: its digit run parsed as a
/// decimal number.
pub open spec fn path_index(path: Seq<char>) -> Option<int> {
    let d = path_digits(path);
    if d.len() > 0 && all_digits(d) && decimal_val(d) <= usize::MAX {
        Some(decimal_val(d))
    } else {
        None
    }
}

/// Parses a path token as a page index.
pub fn parse_path_index(path: &str) -> (r: Option<usize>)
    ensures
        match r {
            Some(i) => path_index(path@) == Some(i as int),
            None => path_index(path@) is None,
        },
{
    let a = scan_skip_slashes(path, 0);
    let b = scan_for_char(path, '?', a);
    let digits = path.substring_char(a, b);
    parse_decimal(digits)
}

/// Where a request is routed.
#[derive(Debug, Clone, Copy, PartialEq, Eq, Structural)]
pub enum ProxyRoute {
    /// Anything but `GET` or `HEAD`: `405`.
    MethodNotAllowed,
    /// An unparsable or out-of-range index: `404`.
    NotFound,
    /// A well-formed in-range request; `head_only` for `HEAD`.
    Page { index: usize, head_only: bool },
}

/// The complete routing rule of the proxy.
pub open spec fn route_spec(method: ProxyMethod, path: Seq<char>, total: nat) -> ProxyRoute {
    if method is Unsupported {
        ProxyRoute::MethodNotAllowed
    } else {
        match path_index(path) {
            Some(i) => if i < total {
                ProxyRoute::Page { index: i as usize, head_only: method is Head }
            } else {
                ProxyRoute::NotFound
            },
            None => ProxyRoute::NotFound,
        }
    }
}

/// Routes a parsed request against a target list of `total` pages.
pub fn route_request(method: ProxyMethod, path: &str, total: usize) -> (r: ProxyRoute)
    ensures
        r == route_spec(method, path@, total as nat),
{
    match method {
        ProxyMethod::Unsupported => ProxyRoute::MethodNotAllowed,
        _ => {
            match parse_path_index(path) {
                Some(i) => {
                    if i < total {
                        ProxyRoute::Page {
                            index: i,
                            head_only: match method {
                                ProxyMethod::Head => true,
                                _ => false,
                            },
                        }
                    } else {
                        ProxyRoute::NotFound
                    }
                },
                None => ProxyRoute::NotFound,
            }
        },
    }
}

/// The proxy's range discipline: a `GET`/`HEAD` request whose path addresses
/// an in-range index is always routed to its page — never to `404` — and a
/// page route never addresses an out-of-range index.
pub proof fn lemma_proxy_range_discipline(method: ProxyMethod, path: Seq<char>, total: nat)
    ensures
        !(method is Unsupported) && path_index(path) is Some && path_index(path)->0 < total
            ==> route_spec(method, path, total) == (ProxyRoute::Page {
            index: path_index(path)->0 as usize,
            head_only: method is Head,
        }),
        route_spec(method, path, total) matches ProxyRoute::Page { index, head_only } ==> index
            < total && path_index(path) == Some(index as int),
{
    if path_index(path) is Some {
        crate::strnum::lemma_decimal_val_nonneg(path_digits(path));
    }
}

/// The status the proxy answers for a routed page: a missing file is
/// fetched first, and only a failed fetch turns into `502`; an existing or
/// freshly fetched file is served with `200`.
pub open spec fn page_status_spec(file_exists: bool, fetch_ok: bool) -> u16 {
    if !file_exists && !fetch_ok {
        502
    } else {
        200
    }
}

pub fn page_status(file_exists: bool, fetch_ok: bool) -> (r: u16)
    ensures
        r == page_status_spec(file_exists, fetch_ok),
        r != 404,
{
    if !file_exists && !fetch_ok {
        502
    } else {
        200
    }
}

/// The header block of a success response, shared by `GET` (followed by the
/// body) and `HEAD` (followed by nothing).
pub open spec fn ok_header_spec(content_length: nat, content_type: Seq<char>) -> Seq<char> {
    "HTTP/1.1 200 OK\r\nContent-Length: "@ + decimal_rep(content_length) + "\r\nContent-Type: "@
        + content_type + "\r\nConnection: close\r\n\r\n"@
}

/// Renders the success header block for a body of `content_length` bytes.
pub fn http_ok_header(content_length: usize, content_type: &str) -> (r: String)
    ensures
        r@ == ok_header_spec(content_length as nat, content_type@),
{
    let mut s = String::from_str("HTTP/1.1 200 OK\r\nContent-Length: ");
    s.append(format_decimal(content_length).as_str());
    s.append("\r\nContent-Type: ");
    s.append(content_type);
    s.append("\r\nConnection: close\r\n\r\n");
    proof {
        assert(s@ =~= ok_header_spec(content_length as nat, content_type@));
    }
    s
}

/// The reason phrase for the statuses the proxy can answer with.
pub open spec fn reason_phrase_spec(status: u16) -> Seq<char> {
    if status == 404 {
        "Not Found"@
    } else if status == 405 {
        "Method Not Allowed"@
    } else if status == 502 {
        "Bad Gateway"@
    } else {
        "Internal Server Error"@
    }
}

/// A complete error response: status line, plain-text headers, message
/// body. `Content-Length` counts the message's UTF-8 bytes, as it goes onto
/// the wire.
pub open spec fn error_response_spec(status: u16, message: Seq<char>) -> Seq<char> {
    "HTTP/1.1 "@ + decimal_rep(status as nat) + " "@ + reason_phrase_spec(status)
        + "\r\nContent-Length: "@ + decimal_rep(encode_utf8(message).len())
        + "\r\nContent-Type: text/plain; charset=utf-8\r\nConnection: close\r\n\r\n"@ + message
}

/// Renders a complete error response for `status` with a short plain-text
/// message.
pub fn http_error_response(status: u16, message: &str) -> (r: String)
    ensures
        r@ == error_response_spec(status, message@),
{
    let mut s = String::from_str("HTTP/1.1 ");
    s.append(format_decimal(status as usize).as_str());
    s.append(" ");
    if status == 404 {
        s.append("Not Found");
    } else if status == 405 {
        s.append("Method Not Allowed");
    } else if status == 502 {
        s.append("Bad Gateway");
    } else {
        s.append("Internal Server Error");
    }
    s.append("\r\nContent-Length: ");
    let byte_len = message.as_bytes().len();
    proof {
        assert(byte_len == encode_utf8(message@).len());
    }
    s.append(format_decimal(byte_len).as_str());
    s.append("\r\nContent-Type: text/plain; charset=utf-8\r\nConnection: close\r\n\r\n");
    s.append(message);
    proof {
        assert(s@ =~= error_response_spec(status, message@));
    }
    s
}

/// The extension of the file a path names, as the platform path library
/// reads it: the part of the file name after its last dot, unless that dot
/// is missing or leads the file name.
pub open spec fn path_ext_spec(path: Seq<char>) -> Option<Seq<char>> {
    let fname_start = rfind_char_below(path, '/', path.len() as int) + 1;
    let d = rfind_char_below(path, '.', path.len() as int);
    if d <= fname_start {
        None
    } else {
        Some(path.subrange(d + 1, path.len() as int))
    }
}

/// The MIME type served for a cached file, from its extension.
pub open spec fn mime_spec(path: Seq<char>) -> Seq<char> {
    match path_ext_spec(path) {
        Some(e) => {
            if e == "jpg"@ || e == "jpeg"@ {
                "image/jpeg"@
            } else if e == "png"@ {
                "image/png"@
            } else if e == "webp"@ {
                "image/webp"@
            } else if e == "avif"@ {
                "image/avif"@
            } else if e == "gif"@ {
                "image/gif"@
            } else {
                "application/octet-stream"@
            }
        },
        None => "application/octet-stream"@,
    }
}

/// Infers the `Content-Type` for a cached page file.
pub fn mime_type_for_path(path: &str) -> (r: &'static str)
    ensures
        r@ == mime_spec(path@),
{
    let n = path.unicode_len();
    proof {
        lemma_rfind_char_props(path@, '/', n as int);
        lemma_rfind_char_props(path@, '.', n as int);
    }
    let slash = rscan_for_char(path, '/', n);
    let fname_start = match slash {
        Some(i) => i + 1,
        None => 0,
    };
    let d = match rscan_for_char(path, '.', n) {
        Some(d) => d,
        None => {
            return "application/octet-stream";
        },
    };
    if d < fname_start || d == fname_start {
        return "application/octet-stream";
    }
    let ext = path.substring_char(d + 1, n);
    if str_eq(ext, "jpg") || str_eq(ext, "jpeg") {
        "image/jpeg"
    } else if str_eq(ext, "png") {
        "image/png"
    } else if str_eq(ext, "webp") {
        "image/webp"
    } else if str_eq(ext, "avif") {
        "image/avif"
    } else if str_eq(ext, "gif") {
        "image/gif"
    } else {
        "application/octet-stream"
    }
}

/// One page the proxy may serve: the remote item and its cache file.
#[derive(Debug, Clone)]
pub struct CachedPageTarget {
    pub page: Page,
    pub path: String,
}

/// The lifecycle of the proxy worker.
#[derive(Debug, Clone, Copy, PartialEq, Eq, Structural)]
pub enum ProxyState {
    Starting,
    Serving,
    Stopped,
}

/// The handle the playback orchestrator holds on a running proxy. The host
/// process owns the listener and worker; this models the lifecycle and
/// derives the page URLs.
pub struct LocalPageProxy {
    pub base_url: String,
    pub state: ProxyState,
    pub stop_requested: bool,
}

/// The proxy's base URL once the loopback listener is bound to `port`.
pub fn proxy_base_url(port: u16) -> (r: String)
    ensures
        r@ == "http://127.0.0.1:"@ + decimal_rep(port as nat),
{
    let mut s = String::from_str("http://127.0.0.1:");
    s.append(format_decimal(port as usize).as_str());
    s
}

impl LocalPageProxy {
    /// The listener is bound: the proxy is starting at `base_url`.
    pub fn starting(base_url: String) -> (p: LocalPageProxy)
        ensures
            p.base_url == base_url,
            p.state is Starting,
            !p.stop_requested,
    {
        LocalPageProxy { base_url, state: ProxyState::Starting, stop_requested: false }
    }

    /// The serving worker is running.
    pub fn mark_serving(&mut self)
        requires
            old(self).state is Starting,
        ensures
            final(self).state is Serving,
            final(self).base_url == old(self).base_url,
            final(self).stop_requested == old(self).stop_requested,
    {
        self.state = ProxyState::Serving;
    }

    /// The URL under which page `idx` is served.
    pub fn page_url(&self, idx: usize) -> (r: String)
        ensures
            r@ == self.base_url@ + "/"@ + decimal_rep(idx as nat),
    {
        let mut s = self.base_url.clone();
        s.append("/");
        s.append(format_decimal(idx).as_str());
        proof {
            assert(s@ =~= self.base_url@ + "/"@ + decimal_rep(idx as nat));
        }
        s
    }

    /// Requests the stop flag and marks the worker joined: safe to call in
    /// any state, and idempotent.
    pub fn shutdown(&mut self)
        ensures
            final(self).state is Stopped,
            final(self).stop_requested,
            final(self).base_url == old(self).base_url,
    {
        self.stop_requested = true;
        self.state = ProxyState::Stopped;
    }
}

} // verus!
