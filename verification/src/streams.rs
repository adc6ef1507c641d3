//! Stream selection helpers for the episode provider: decoding the obfuscated
//! provider path, ranking stream qualities, building stream options, and the
//! preferred-provider order.

use vstd::prelude::*;
use vstd::string::{StrSliceExecFns, StringExecFns};

use crate::select::has_referer_spec;
use crate::strnum::{
    all_digits, ascii_lower, ascii_lower_char, contains_sub, contains_sub_str, decimal_val,
    lemma_decimal_val_nonneg, parse_decimal, replace_first, replace_first_str, str_eq,
    str_eq_ignore_ascii_case, to_ascii_lower_char,
};
use crate::types::StreamOption;

verus! {

pub const ALLANIME_API_URL: &'static str = "https://api.allanime.day/api";

pub const ALLANIME_BASE_URL: &'static str = "https://allanime.day";

pub const ALLANIME_REFERER: &'static str = "https://allmanga.to";

pub const ALLANIME_ORIGIN: &'static str = "https://allanime.day";

/// The substitution table of the provider's obfuscated source paths: each
/// lower-case hex pair stands for one URL character.
pub open spec fn decode_pair_spec(a: char, b: char) -> Option<char> {
    match (a, b) {
        ('7', '9') => Some('A'),
        ('7', 'a') => Some('B'),
        ('7', 'b') => Some('C'),
        ('7', 'c') => Some('D'),
        ('7', 'd') => Some('E'),
        ('7', 'e') => Some('F'),
        ('7', 'f') => Some('G'),
        ('7', '0') => Some('H'),
        ('7', '1') => Some('I'),
        ('7', '2') => Some('J'),
        ('7', '3') => Some('K'),
        ('7', '4') => Some('L'),
        ('7', '5') => Some('M'),
        ('7', '6') => Some('N'),
        ('7', '7') => Some('O'),
        ('6', '8') => Some('P'),
        ('6', '9') => Some('Q'),
        ('6', 'a') => Some('R'),
        ('6', 'b') => Some('S'),
        ('6', 'c') => Some('T'),
        ('6', 'd') => Some('U'),
        ('6', 'e') => Some('V'),
        ('6', 'f') => Some('W'),
        ('6', '0') => Some('X'),
        ('6', '1') => Some('Y'),
        ('6', '2') => Some('Z'),
        ('5', '9') => Some('a'),
        ('5', 'a') => Some('b'),
        ('5', 'b') => Some('c'),
        ('5', 'c') => Some('d'),
        ('5', 'd') => Some('e'),
        ('5', 'e') => Some('f'),
        ('5', 'f') => Some('g'),
        ('5', '0') => Some('h'),
        ('5', '1') => Some('i'),
        ('5', '2') => Some('j'),
        ('5', '3') => Some('k'),
        ('5', '4') => Some('l'),
        ('5', '5') => Some('m'),
        ('5', '6') => Some('n'),
        ('5', '7') => Some('o'),
        ('4', '8') => Some('p'),
        ('4', '9') => Some('q'),
        ('4', 'a') => Some('r'),
        ('4', 'b') => Some('s'),
        ('4', 'c') => Some('t'),
        ('4', 'd') => Some('u'),
        ('4', 'e') => Some('v'),
        ('4', 'f') => Some('w'),
        ('4', '0') => Some('x'),
        ('4', '1') => Some('y'),
        ('4', '2') => Some('z'),
        ('0', '8') => Some('0'),
        ('0', '9') => Some('1'),
        ('0', 'a') => Some('2'),
        ('0', 'b') => Some('3'),
        ('0', 'c') => Some('4'),
        ('0', 'd') => Some('5'),
        ('0', 'e') => Some('6'),
        ('0', 'f') => Some('7'),
        ('0', '0') => Some('8'),
        ('0', '1') => Some('9'),
        ('1', '5') => Some('-'),
        ('1', '6') => Some('.'),
        ('6', '7') => Some('_'),
        ('4', '6') => Some('~'),
        ('0', '2') => Some(':'),
        ('1', '7') => Some('/'),
        ('0', '7') => Some('?'),
        ('1', 'b') => Some('#'),
        ('6', '3') => Some('['),
        ('6', '5') => Some(']'),
        ('7', '8') => Some('@'),
        ('1', '9') => Some('!'),
        ('1', 'c') => Some('$'),
        ('1', 'e') => Some('&'),
        ('1', '0') => Some('('),
        ('1', '1') => Some(')'),
        ('1', '2') => Some('*'),
        ('1', '3') => Some('+'),
        ('1', '4') => Some(','),
        ('0', '3') => Some(';'),
        ('0', '5') => Some('='),
        ('1', 'd') => Some('%'),
        _ => None,
    }
}

fn decode_pair_chars(a: char, b: char) -> (r: Option<char>)
    ensures
        r == decode_pair_spec(a, b),
{
    match (a, b) {
        ('7', '9') => Some('A'),
        ('7', 'a') => Some('B'),
        ('7', 'b') => Some('C'),
        ('7', 'c') => Some('D'),
        ('7', 'd') => Some('E'),
        ('7', 'e') => Some('F'),
        ('7', 'f') => Some('G'),
        ('7', '0') => Some('H'),
        ('7', '1') => Some('I'),
        ('7', '2') => Some('J'),
        ('7', '3') => Some('K'),
        ('7', '4') => Some('L'),
        ('7', '5') => Some('M'),
        ('7', '6') => Some('N'),
        ('7', '7') => Some('O'),
        ('6', '8') => Some('P'),
        ('6', '9') => Some('Q'),
        ('6', 'a') => Some('R'),
        ('6', 'b') => Some('S'),
        ('6', 'c') => Some('T'),
        ('6', 'd') => Some('U'),
        ('6', 'e') => Some('V'),
        ('6', 'f') => Some('W'),
        ('6', '0') => Some('X'),
        ('6', '1') => Some('Y'),
        ('6', '2') => Some('Z'),
        ('5', '9') => Some('a'),
        ('5', 'a') => Some('b'),
        ('5', 'b') => Some('c'),
        ('5', 'c') => Some('d'),
        ('5', 'd') => Some('e'),
        ('5', 'e') => Some('f'),
        ('5', 'f') => Some('g'),
        ('5', '0') => Some('h'),
        ('5', '1') => Some('i'),
        ('5', '2') => Some('j'),
        ('5', '3') => Some('k'),
        ('5', '4') => Some('l'),
        ('5', '5') => Some('m'),
        ('5', '6') => Some('n'),
        ('5', '7') => Some('o'),
        ('4', '8') => Some('p'),
        ('4', '9') => Some('q'),
        ('4', 'a') => Some('r'),
        ('4', 'b') => Some('s'),
        ('4', 'c') => Some('t'),
        ('4', 'd') => Some('u'),
        ('4', 'e') => Some('v'),
        ('4', 'f') => Some('w'),
        ('4', '0') => Some('x'),
        ('4', '1') => Some('y'),
        ('4', '2') => Some('z'),
        ('0', '8') => Some('0'),
        ('0', '9') => Some('1'),
        ('0', 'a') => Some('2'),
        ('0', 'b') => Some('3'),
        ('0', 'c') => Some('4'),
        ('0', 'd') => Some('5'),
        ('0', 'e') => Some('6'),
        ('0', 'f') => Some('7'),
        ('0', '0') => Some('8'),
        ('0', '1') => Some('9'),
        ('1', '5') => Some('-'),
        ('1', '6') => Some('.'),
        ('6', '7') => Some('_'),
        ('4', '6') => Some('~'),
        ('0', '2') => Some(':'),
        ('1', '7') => Some('/'),
        ('0', '7') => Some('?'),
        ('1', 'b') => Some('#'),
        ('6', '3') => Some('['),
        ('6', '5') => Some(']'),
        ('7', '8') => Some('@'),
        ('1', '9') => Some('!'),
        ('1', 'c') => Some('$'),
        ('1', 'e') => Some('&'),
        ('1', '0') => Some('('),
        ('1', '1') => Some(')'),
        ('1', '2') => Some('*'),
        ('1', '3') => Some('+'),
        ('1', '4') => Some(','),
        ('0', '3') => Some(';'),
        ('0', '5') => Some('='),
        ('1', 'd') => Some('%'),
        _ => None,
    }
}

/// Decodes one already lower-cased hex pair.
pub fn decode_pair(pair: &str) -> (r: Option<char>)
    ensures
        pair@.len() == 2 ==> r == decode_pair_spec(pair@[0], pair@[1]),
        pair@.len() != 2 ==> r is None,
{
    if pair.unicode_len() != 2 {
        return None;
    }
    decode_pair_chars(pair.get_char(0), pair.get_char(1))
}

/// `s` with every leading `"--"` removed.
pub open spec fn strip_double_dashes(s: Seq<char>) -> Seq<char>
    decreases s.len(),
{
    if s.len() >= 2 && s[0] == '-' && s[1] == '-' {
        strip_double_dashes(s.skip(2))
    } else {
        s
    }
}

/// Every pair of the body decodes through the table, case-folded.
pub open spec fn pairs_ok(s: Seq<char>) -> bool {
    forall|k: int|
        0 <= k < s.len() / 2 ==> (#[trigger] decode_pair_spec(
            ascii_lower_char(s[2 * k]),
            ascii_lower_char(s[2 * k + 1]),
        )) is Some
}

/// The decoded body, one character per pair.
pub open spec fn decoded_of(s: Seq<char>) -> Seq<char> {
    Seq::new((s.len() / 2) as nat, |k: int| decode_pair_spec(
        ascii_lower_char(s[2 * k]),
        ascii_lower_char(s[2 * k + 1]),
    )->0)
}

/// What decoding an obfuscated source path yields: `None` unless the path
/// starts with `--` and its remainder is an even run of decodable pairs; a
/// decoded clock path is pointed at its JSON form.
pub open spec fn decode_provider_path_spec(raw: Seq<char>) -> Option<Seq<char>> {
    if !(raw.len() >= 2 && raw[0] == '-' && raw[1] == '-') {
        None
    } else {
        let body = strip_double_dashes(raw);
        if body.len() % 2 != 0 {
            None
        } else if !pairs_ok(body) {
            None
        } else {
            let d = decoded_of(body);
            if contains_sub(d, "/clock"@) && !contains_sub(d, ".json"@) {
                Some(replace_first(d, "/clock"@, "/clock.json"@))
            } else {
                Some(d)
            }
        }
    }
}

/// Where stripping the leading `"--"` runs ends, scanning forward.
fn scan_strip_dashes(s: &str, from: usize) -> (r: usize)
    requires
        from <= s@.len(),
    ensures
        from <= r <= s@.len(),
        strip_double_dashes(s@.skip(from as int)) == strip_double_dashes(s@.skip(r as int)),
        strip_double_dashes(s@.skip(r as int)) == s@.skip(r as int),
    decreases s@.len() - from,
{
    let n = s.unicode_len();
    if from < n && from + 1 < n && s.get_char(from) == '-' && s.get_char(from + 1) == '-' {
        proof {
            assert(s@.skip(from as int)[0] == s@[from as int]);
            assert(s@.skip(from as int)[1] == s@[from as int + 1]);
            assert(s@.skip(from as int).skip(2) =~= s@.skip(from as int + 2));
        }
        scan_strip_dashes(s, from + 2)
    } else {
        proof {
            let t = s@.skip(from as int);
            if t.len() >= 2 {
                assert(t[0] == s@[from as int]);
                assert(t[1] == s@[from as int + 1]);
            }
        }
        from
    }
}

/// Decodes an obfuscated provider source path into a fetchable URL path.
pub fn decode_provider_path(raw: &str) -> (r: Option<String>)
    ensures
        match r {
            Some(d) => decode_provider_path_spec(raw@) == Some(d@),
            None => decode_provider_path_spec(raw@) is None,
        },
{
    let n = raw.unicode_len();
    if n < 2 || raw.get_char(0) != '-' || raw.get_char(1) != '-' {
        return None;
    }
    let start = scan_strip_dashes(raw, 0);
    proof {
        assert(raw@.skip(0) =~= raw@);
    }
    let ghost body = raw@.skip(start as int);
    if (n - start) % 2 != 0 {
        return None;
    }
    let mut out = String::new();
    let mut i: usize = start;
    while i < n
        invariant
            start <= i <= n,
            n == raw@.len(),
            body == raw@.skip(start as int),
            body == strip_double_dashes(raw@),
            raw@.len() >= 2 && raw@[0] == '-' && raw@[1] == '-',
            (i - start) % 2 == 0,
            (n - start) % 2 == 0,
            forall|k: int|
                0 <= k < (i - start) / 2 ==> (#[trigger] decode_pair_spec(
                    ascii_lower_char(body[2 * k]),
                    ascii_lower_char(body[2 * k + 1]),
                )) is Some,
            out@ == Seq::new(((i - start) / 2) as nat, |k: int| decode_pair_spec(
                ascii_lower_char(body[2 * k]),
                ascii_lower_char(body[2 * k + 1]),
            )->0),
        decreases n - i,
    {
        let a = to_ascii_lower_char(raw.get_char(i));
        let b = to_ascii_lower_char(raw.get_char(i + 1));
        proof {
            assert(body[i - start] == raw@[i as int]);
            assert(body[i - start + 1] == raw@[i as int + 1]);
        }
        match decode_pair_chars(a, b) {
            Some(c) => {
                out.push(c);
                proof {
                    let m = (i - start) / 2;
                    assert(2 * (m + 1) <= body.len());
                    assert(2 * m == i - start);
                    assert(out@ =~= Seq::new((m + 1) as nat, |k: int| decode_pair_spec(
                        ascii_lower_char(body[2 * k]),
                        ascii_lower_char(body[2 * k + 1]),
                    )->0));
                }
            },
            None => {
                proof {
                    let m = (i - start) / 2;
                    assert(decode_pair_spec(
                        ascii_lower_char(body[2 * m]),
                        ascii_lower_char(body[2 * m + 1]),
                    ) is None);
                    assert(!pairs_ok(body));
                }
                return None;
            },
        }
        i = i + 2;
    }
    proof {
        assert(out@ =~= decoded_of(body));
        assert(pairs_ok(body));
    }
    if contains_sub_str(out.as_str(), "/clock") && !contains_sub_str(out.as_str(), ".json") {
        Some(replace_first_str(out.as_str(), "/clock", "/clock.json"))
    } else {
        Some(out)
    }
}

/// Trailing `'p'` suffixes carry no value in a quality label.
pub open spec fn trim_trailing_p(s: Seq<char>) -> Seq<char>
    decreases s.len(),
{
    if s.len() > 0 && s.last() == 'p' {
        trim_trailing_p(s.drop_last())
    } else {
        s
    }
}

/// The numeric value of an optionally signed decimal string, when it is one
/// and fits a 32-bit signed integer; zero otherwise.
pub open spec fn signed_val_spec(t: Seq<char>) -> int {
    let neg = t.len() > 0 && t[0] == '-';
    let d = if t.len() > 0 && (t[0] == '-' || t[0] == '+') {
        t.drop_first()
    } else {
        t
    };
    if d.len() > 0 && all_digits(d) && (decimal_val(d) <= 0x7fff_ffff || (neg && decimal_val(d)
        <= 0x8000_0000)) {
        if neg {
            -decimal_val(d)
        } else {
            decimal_val(d)
        }
    } else {
        0
    }
}

/// The rank of a quality label: `auto` (in any case) ranks above every
/// numbered resolution, `"<n>p"` ranks as `n`, anything else as zero.
pub open spec fn quality_rank_spec(label: Seq<char>) -> int {
    if ascii_lower(label) == "auto"@ {
        10000
    } else {
        signed_val_spec(trim_trailing_p(label))
    }
}

/// The `"auto"` literal is already lower case.
proof fn lemma_auto_lower()
    ensures
        ascii_lower("auto"@) == "auto"@,
{
    reveal_strlit("auto");
    assert(ascii_lower("auto"@) =~= "auto"@);
}

/// A scan that skipped the trailing `'p'`s agrees with `trim_trailing_p`.
proof fn lemma_trim_p_from_scan(s: Seq<char>, k: int)
    requires
        0 <= k <= s.len(),
        forall|j: int| k <= j < s.len() ==> s[j] == 'p',
        k > 0 ==> s[k - 1] != 'p',
    ensures
        trim_trailing_p(s) == s.subrange(0, k),
    decreases s.len(),
{
    if s.len() > 0 && s.last() == 'p' {
        assert(k < s.len());
        lemma_trim_p_from_scan(s.drop_last(), k);
        assert(s.drop_last().subrange(0, k) =~= s.subrange(0, k));
    } else {
        assert(k == s.len());
        assert(s.subrange(0, s.len() as int) =~= s);
    }
}

/// Ranks a quality label.
pub fn quality_rank(label: &str) -> (r: i32)
    ensures
        r as int == quality_rank_spec(label@),
{
    proof {
        lemma_auto_lower();
    }
    if str_eq_ignore_ascii_case(label, "auto") {
        return 10000;
    }
    let n = label.unicode_len();
    let mut m: usize = n;
    while m > 0 && label.get_char(m - 1) == 'p'
        invariant
            0 <= m <= n,
            n == label@.len(),
            forall|j: int| m <= j < n ==> label@[j] == 'p',
        decreases m,
    {
        m = m - 1;
    }
    proof {
        lemma_trim_p_from_scan(label@, m as int);
    }
    let t = label.substring_char(0, m);
    let ghost tv = trim_trailing_p(label@);
    let (neg, lo): (bool, usize) = if m > 0 && (label.get_char(0) == '-' || label.get_char(0)
        == '+') {
        (label.get_char(0) == '-', 1)
    } else {
        (false, 0)
    };
    proof {
        if m > 0 {
            assert(tv[0] == label@[0]);
        }
        assert(label@.subrange(lo as int, m as int) =~= (if lo == 1 {
            tv.drop_first()
        } else {
            tv
        }));
    }
    let digits = label.substring_char(lo, m);
    match parse_decimal(digits) {
        Some(v) => {
            proof {
                lemma_decimal_val_nonneg(digits@);
            }
            if neg {
                if v <= 0x8000_0000 {
                    if v == 0x8000_0000 {
                        i32::MIN
                    } else {
                        -(v as i32)
                    }
                } else {
                    0
                }
            } else {
                if v <= 0x7fff_ffff {
                    v as i32
                } else {
                    0
                }
            }
        },
        None => 0,
    }
}

/// One subtitle track offered with a stream.
#[derive(Debug, Clone)]
pub struct ClockSubtitle {
    pub src: String,
    pub lang: Option<String>,
    pub label: Option<String>,
}

/// One stream link as the provider's stream endpoint reports it.
#[derive(Debug, Clone)]
pub struct ClockLink {
    pub link: String,
    pub resolution: Option<String>,
    pub hls: bool,
    pub subtitles: Vec<ClockSubtitle>,
    pub headers: Vec<(String, String)>,
}

/// An English subtitle: tagged `en`, or labelled `English`.
pub open spec fn is_english_subtitle(sub: ClockSubtitle) -> bool {
    (sub.lang matches Some(l) && l@ == "en"@) || (sub.label matches Some(b) && b@ == "English"@)
}

/// Index of the first English subtitle; the length when there is none.
pub open spec fn first_english_subtitle(subs: Seq<ClockSubtitle>) -> int
    decreases subs.len(),
{
    if subs.len() == 0 {
        0
    } else if is_english_subtitle(subs[0]) {
        0
    } else {
        1 + first_english_subtitle(subs.drop_first())
    }
}

proof fn lemma_first_english_from_scan(subs: Seq<ClockSubtitle>, p: int)
    requires
        0 <= p <= subs.len(),
        forall|j: int| 0 <= j < p ==> !is_english_subtitle(#[trigger] subs[j]),
        p < subs.len() ==> is_english_subtitle(subs[p]),
    ensures
        first_english_subtitle(subs) == p,
    decreases subs.len(),
{
    if subs.len() > 0 && p > 0 {
        let t = subs.drop_first();
        assert forall|j: int| 0 <= j < p - 1 implies !is_english_subtitle(#[trigger] t[j]) by {
            assert(t[j] == subs[j + 1]);
        }
        assert(p - 1 < t.len() ==> is_english_subtitle(t[p - 1]));
        lemma_first_english_from_scan(t, p - 1);
    }
}

fn english_subtitle_check(sub: &ClockSubtitle) -> (r: bool)
    ensures
        r == is_english_subtitle(*sub),
{
    let lang_en = match &sub.lang {
        Some(l) => str_eq(l.as_str(), "en"),
        None => false,
    };
    let label_en = match &sub.label {
        Some(b) => str_eq(b.as_str(), "English"),
        None => false,
    };
    lang_en || label_en
}

/// The first English subtitle of a link, if any.
fn find_english_subtitle(subs: &Vec<ClockSubtitle>) -> (r: Option<usize>)
    ensures
        match r {
            Some(i) => i == first_english_subtitle(subs@) && i < subs@.len(),
            None => first_english_subtitle(subs@) == subs@.len(),
        },
{
    let n = subs.len();
    let mut p: usize = 0;
    while p < n
        invariant
            0 <= p <= n,
            n == subs@.len(),
            forall|j: int| 0 <= j < p ==> !is_english_subtitle(#[trigger] subs@[j]),
        decreases n - p,
    {
        if english_subtitle_check(&subs[p]) {
            proof {
                lemma_first_english_from_scan(subs@, p as int);
            }
            return Some(p);
        }
        p = p + 1;
    }
    proof {
        lemma_first_english_from_scan(subs@, n as int);
    }
    None
}

/// Builds the stream option for one provider link: the resolution (or
/// `auto`) as the quality label, its rank, the first English subtitle, and
/// the provider's headers with a default referer added when none is present.
pub fn build_stream_option(provider: &str, link: ClockLink) -> (r: StreamOption)
    ensures
        r.provider@ == provider@,
        r.url == link.link,
        r.quality_label@ == (match link.resolution {
            Some(res) => res@,
            None => "auto"@,
        }),
        r.quality_rank as int == quality_rank_spec(
            match link.resolution {
                Some(res) => res@,
                None => "auto"@,
            },
        ),
        r.is_hls == link.hls,
        ({
            let p = first_english_subtitle(link.subtitles@);
            match r.subtitle {
                Some(src) => p < link.subtitles@.len() && src == link.subtitles@[p].src,
                None => p == link.subtitles@.len(),
            }
        }),
        r.headers.deep_view() == (if has_referer_spec(link.headers.deep_view()) {
            link.headers.deep_view()
        } else {
            link.headers.deep_view().push(("Referer"@, ALLANIME_REFERER@))
        }),
{
    let quality_label: String = match &link.resolution {
        Some(res) => res.clone(),
        None => String::from_str("auto"),
    };
    let rank = quality_rank(quality_label.as_str());
    let subtitle: Option<String> = match find_english_subtitle(&link.subtitles) {
        Some(i) => Some(link.subtitles[i].src.clone()),
        None => None,
    };
    let ghost h0 = link.headers.deep_view();
    let mut headers = link.headers;
    if !crate::select::headers_have_referer(&headers) {
        headers.push((String::from_str("Referer"), String::from_str(ALLANIME_REFERER)));
        proof {
            assert(headers.deep_view() =~~= h0.push(("Referer"@, ALLANIME_REFERER@)));
        }
    }
    StreamOption {
        provider: String::from_str(provider),
        url: link.link,
        quality_label,
        quality_rank: rank,
        is_hls: link.hls,
        headers,
        subtitle,
    }
}

/// One source offered for an episode: an obfuscated URL and the hosting
/// provider's name.
#[derive(Debug, Clone)]
pub struct SourceDescriptor {
    pub source_url: String,
    pub source_name: String,
}

/// Index of the first source with the given provider name; the length when
/// there is none.
pub open spec fn first_source_with_name(s: Seq<SourceDescriptor>, name: Seq<char>) -> int
    decreases s.len(),
{
    if s.len() == 0 {
        0
    } else if s[0].source_name@ == name {
        0
    } else {
        1 + first_source_with_name(s.drop_first(), name)
    }
}

proof fn lemma_first_source_from_scan(s: Seq<SourceDescriptor>, name: Seq<char>, p: int)
    requires
        0 <= p <= s.len(),
        forall|j: int| 0 <= j < p ==> (#[trigger] s[j]).source_name@ != name,
        p < s.len() ==> s[p].source_name@ == name,
    ensures
        first_source_with_name(s, name) == p,
    decreases s.len(),
{
    if s.len() > 0 && p > 0 {
        let t = s.drop_first();
        assert forall|j: int| 0 <= j < p - 1 implies (#[trigger] t[j]).source_name@ != name by {
            assert(t[j] == s[j + 1]);
        }
        assert(p - 1 < t.len() ==> t[p - 1].source_name@ == name);
        lemma_first_source_from_scan(t, name, p - 1);
    }
}

/// The first source with the given provider name, if any.
pub fn find_source(sources: &Vec<SourceDescriptor>, name: &str) -> (r: Option<usize>)
    ensures
        match r {
            Some(i) => i == first_source_with_name(sources@, name@) && i < sources@.len(),
            None => first_source_with_name(sources@, name@) == sources@.len(),
        },
{
    let n = sources.len();
    let mut p: usize = 0;
    while p < n
        invariant
            0 <= p <= n,
            n == sources@.len(),
            forall|j: int| 0 <= j < p ==> (#[trigger] sources@[j]).source_name@ != name@,
        decreases n - p,
    {
        if str_eq(sources[p].source_name.as_str(), name) {
            proof {
                lemma_first_source_from_scan(sources@, name@, p as int);
            }
            return Some(p);
        }
        p = p + 1;
    }
    proof {
        lemma_first_source_from_scan(sources@, name@, n as int);
    }
    None
}

/// The sole optional entry for one preferred provider name.
pub open spec fn preferred_part(s: Seq<SourceDescriptor>, name: Seq<char>) -> Seq<usize> {
    let f = first_source_with_name(s, name);
    if f < s.len() {
        seq![f as usize]
    } else {
        Seq::<usize>::empty()
    }
}

/// The source indices to try, in the fixed provider preference order; a
/// provider that offers no source is skipped.
pub open spec fn preferred_order_spec(s: Seq<SourceDescriptor>) -> Seq<usize> {
    preferred_part(s, "Default"@) + preferred_part(s, "S-mp4"@) + preferred_part(s, "Luf-Mp4"@)
        + preferred_part(s, "Yt-mp4"@)
}

/// Orders the sources worth trying by provider preference.
pub fn preferred_sources_order(sources: &Vec<SourceDescriptor>) -> (r: Vec<usize>)
    ensures
        r@ == preferred_order_spec(sources@),
{
    let mut r: Vec<usize> = Vec::new();
    match find_source(sources, "Default") {
        Some(i) => r.push(i),
        None => {},
    }
    match find_source(sources, "S-mp4") {
        Some(i) => r.push(i),
        None => {},
    }
    match find_source(sources, "Luf-Mp4") {
        Some(i) => r.push(i),
        None => {},
    }
    match find_source(sources, "Yt-mp4") {
        Some(i) => r.push(i),
        None => {},
    }
    proof {
        assert(r@ =~= preferred_order_spec(sources@));
    }
    r
}

/// Resolves a possibly relative URL against a base: anything that starts
/// with `http` stands on its own.
pub open spec fn resolve_url_spec(base: Seq<char>, path: Seq<char>) -> Seq<char> {
    if path.len() >= 4 && path.subrange(0, 4) == "http"@ {
        path
    } else {
        base + path
    }
}

/// Resolves a provider-relative URL or page path against its base.
pub fn resolve_url(base: &str, path: &str) -> (r: String)
    ensures
        r@ == resolve_url_spec(base@, path@),
{
    let n = path.unicode_len();
    let absolute = if n >= 4 {
        let head = path.substring_char(0, 4);
        str_eq(head, "http")
    } else {
        false
    };
    if absolute {
        String::from_str(path)
    } else {
        let mut s = String::from_str(base);
        s.append(path);
        s
    }
}

/// Why a provider response yields no data.
#[derive(Debug)]
pub enum ProviderError {
    /// The provider reported errors; the joined messages.
    Api(String),
    /// The provider reported neither data nor errors.
    EmptyResponse,
}

/// The provider's error messages joined with `"; "`.
pub open spec fn join_messages(msgs: Seq<String>) -> Seq<char>
    decreases msgs.len(),
{
    if msgs.len() == 0 {
        Seq::<char>::empty()
    } else if msgs.len() == 1 {
        msgs[0]@
    } else {
        join_messages(msgs.drop_last()) + "; "@ + msgs.last()@
    }
}

/// Unwraps a provider response envelope: reported errors win, then missing
/// data, then the data itself.
pub fn extract_data<T>(data: Option<T>, errors: Option<Vec<String>>) -> (r: Result<
    T,
    ProviderError,
>)
    ensures
        errors matches Some(msgs) ==> r matches Err(ProviderError::Api(m)) && m@ == join_messages(
            msgs@,
        ),
        (errors is None && data is Some) ==> r == Ok::<T, ProviderError>(data->0),
        (errors is None && data is None) ==> (r matches Err(e) && e is EmptyResponse),
{
    match errors {
        Some(msgs) => {
            let n = msgs.len();
            let mut joined = String::new();
            let mut i: usize = 0;
            while i < n
                invariant
                    0 <= i <= n,
                    n == msgs@.len(),
                    joined@ == join_messages(msgs@.subrange(0, i as int)),
                decreases n - i,
            {
                if i > 0 {
                    joined.append("; ");
                }
                joined.append(msgs[i].as_str());
                proof {
                    let t = msgs@.subrange(0, i + 1);
                    assert(t.drop_last() =~= msgs@.subrange(0, i as int));
                    assert(t.last() == msgs@[i as int]);
                    assert(joined@ =~= join_messages(t));
                }
                i = i + 1;
            }
            proof {
                assert(msgs@.subrange(0, n as int) =~= msgs@);
            }
            Err(ProviderError::Api(joined))
        },
        None => match data {
            Some(d) => Ok(d),
            None => Err(ProviderError::EmptyResponse),
        },
    }
}

/// Where a stream lands in a descending run: after every stream that ranks
/// at least as high, so equally ranked streams keep their arrival order.
pub open spec fn insert_option_desc(x: StreamOption, s: Seq<StreamOption>) -> Seq<StreamOption>
    decreases s.len(),
{
    if s.len() == 0 {
        seq![x]
    } else if s.last().quality_rank < x.quality_rank {
        insert_option_desc(x, s.drop_last()).push(s.last())
    } else {
        s.push(x)
    }
}

/// Stable insertion sort of stream options by descending quality rank.
pub open spec fn sort_options_desc(s: Seq<StreamOption>) -> Seq<StreamOption>
    decreases s.len(),
{
    if s.len() == 0 {
        s
    } else {
        insert_option_desc(s.last(), sort_options_desc(s.drop_last()))
    }
}

proof fn lemma_insert_option_at(s: Seq<StreamOption>, x: StreamOption, j: int)
    requires
        0 <= j <= s.len(),
        forall|k: int| j <= k < s.len() ==> (#[trigger] s[k]).quality_rank < x.quality_rank,
        j > 0 ==> !(s[j - 1].quality_rank < x.quality_rank),
    ensures
        insert_option_desc(x, s) == s.subrange(0, j) + seq![x] + s.subrange(j, s.len() as int),
    decreases s.len(),
{
    if s.len() == 0 {
        assert(insert_option_desc(x, s) =~= s.subrange(0, j) + seq![x] + s.subrange(
            j,
            s.len() as int,
        ));
    } else if s.last().quality_rank < x.quality_rank {
        assert(j < s.len());
        let t = s.drop_last();
        lemma_insert_option_at(t, x, j);
        assert(t.subrange(0, j) =~= s.subrange(0, j));
        assert(t.subrange(j, t.len() as int) =~= s.subrange(j, s.len() - 1));
        assert(insert_option_desc(x, s) =~= s.subrange(0, j) + seq![x] + s.subrange(
            j,
            s.len() as int,
        ));
    } else {
        assert(j == s.len());
        assert(insert_option_desc(x, s) =~= s.subrange(0, j) + seq![x] + s.subrange(
            j,
            s.len() as int,
        ));
    }
}

/// Sorts stream options by quality rank, best first; equal ranks keep their
/// arrival order.
pub fn sort_stream_options(options: Vec<StreamOption>) -> (r: Vec<StreamOption>)
    ensures
        r@ == sort_options_desc(options@),
{
    let ghost input = options@;
    let mut rest = options;
    let mut sorted: Vec<StreamOption> = Vec::new();
    let ghost mut taken: int = 0;
    while rest.len() > 0
        invariant
            0 <= taken <= input.len(),
            rest@ == input.skip(taken),
            sorted@ == sort_options_desc(input.subrange(0, taken)),
        decreases rest@.len(),
    {
        let x = rest.remove(0);
        proof {
            assert(input.skip(taken).drop_first() =~= input.skip(taken + 1));
            assert(x == input[taken]);
        }
        let mut j: usize = sorted.len();
        while j > 0 && sorted[j - 1].quality_rank < x.quality_rank
            invariant
                0 <= j <= sorted@.len(),
                forall|k: int|
                    j <= k < sorted@.len() ==> (#[trigger] sorted@[k]).quality_rank
                        < x.quality_rank,
            decreases j,
        {
            j = j - 1;
        }
        let ghost prev = sorted@;
        sorted.insert(j, x);
        proof {
            lemma_insert_option_at(prev, x, j as int);
            assert(sorted@ =~= prev.subrange(0, j as int) + seq![x] + prev.subrange(
                j as int,
                prev.len() as int,
            ));
            let t = input.subrange(0, taken + 1);
            assert(t.drop_last() =~= input.subrange(0, taken));
            assert(t.last() == input[taken]);
            assert(sorted@ == sort_options_desc(t));
            taken = taken + 1;
        }
    }
    proof {
        assert(input.subrange(0, taken) =~= input);
    }
    sorted
}

} // verus!
