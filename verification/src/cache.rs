//! Cache path derivation: segment sanitization, page extension inference,
//! zero-padded page file names, and the chapter directory layout.
//!
//! File names are injective in the page index, so no two pages of a chapter
//! can ever collide on disk.

use vstd::prelude::*;
use vstd::string::{StrSliceExecFns, StringExecFns};

use crate::strnum::{
    all_digits, ascii_lower, decimal_rep, find_char, lemma_decimal_rep_digits,
    lemma_rfind_char_props, lemma_zero_pad_decimal_injective, rfind_char_below, rscan_for_char,
    scan_for_char, str_eq_ignore_ascii_case, zero_pad, zero_padded_decimal,
};
use crate::types::{translation_str, Translation};

verus! {

/// Characters that pass through sanitization unchanged.
pub open spec fn is_safe_segment_char(c: char) -> bool {
    ('a' <= c && c <= 'z') || ('A' <= c && c <= 'Z') || ('0' <= c && c <= '9') || c == '-'
        || c == '_' || c == '.'
}

pub open spec fn sanitize_char(c: char) -> char {
    if is_safe_segment_char(c) {
        c
    } else {
        '_'
    }
}

pub open spec fn sanitized_chars(s: Seq<char>) -> Seq<char> {
    s.map_values(|c: char| sanitize_char(c))
}

/// What `sanitize_cache_segment` returns: every unsafe character replaced by
/// `'_'`, and the empty string replaced by `"unknown"`.
pub open spec fn sanitize_spec(s: Seq<char>) -> Seq<char> {
    if s.len() == 0 {
        "unknown"@
    } else {
        sanitized_chars(s)
    }
}

fn safe_segment_char(c: char) -> (r: bool)
    ensures
        r == is_safe_segment_char(c),
{
    let v = c as u32;
    (97 <= v && v <= 122) || (65 <= v && v <= 90) || (48 <= v && v <= 57) || c == '-' || c == '_'
        || c == '.'
}

/// Maps any character outside `[A-Za-z0-9._-]` to `'_'`; an empty input
/// becomes the literal `"unknown"`.
pub fn sanitize_cache_segment(value: &str) -> (r: String)
    ensures
        r@ == sanitize_spec(value@),
{
    let n = value.unicode_len();
    let mut out = String::new();
    let mut i: usize = 0;
    while i < n
        invariant
            0 <= i <= n,
            n == value@.len(),
            out@ == sanitized_chars(value@.subrange(0, i as int)),
        decreases n - i,
    {
        let c = value.get_char(i);
        if safe_segment_char(c) {
            out.push(c);
        } else {
            out.push('_');
        }
        proof {
            assert(out@ =~= sanitized_chars(value@.subrange(0, i + 1)));
        }
        i = i + 1;
    }
    proof {
        assert(value@.subrange(0, n as int) =~= value@);
    }
    if n == 0 {
        String::from_str("unknown")
    } else {
        out
    }
}

/// Sanitization is idempotent and never yields an empty segment.
pub proof fn lemma_sanitize_idempotent(s: Seq<char>)
    ensures
        sanitize_spec(sanitize_spec(s)) == sanitize_spec(s),
        sanitize_spec(s).len() > 0,
{
    reveal_strlit("unknown");
    if s.len() == 0 {
        assert(sanitized_chars("unknown"@) =~= "unknown"@);
    } else {
        assert(sanitized_chars(sanitized_chars(s)) =~= sanitized_chars(s));
    }
}

/// What `infer_page_extension` returns for a page URL: the segment after the
/// last `'.'` of the part before any `'?'`, lowered; only the known image
/// extensions are kept (with `jpeg` canonicalised to `jpg`), anything else
/// falls back to `jpg`.
pub open spec fn infer_ext_spec(url: Seq<char>) -> Seq<char> {
    let q = find_char(url, '?', 0);
    let d = rfind_char_below(url, '.', q);
    let ext = if d >= 0 {
        url.subrange(d + 1, q)
    } else {
        url.subrange(0, q)
    };
    let l = ascii_lower(ext);
    if l == "jpeg"@ || l == "jpg"@ {
        "jpg"@
    } else if l == "png"@ {
        "png"@
    } else if l == "webp"@ {
        "webp"@
    } else if l == "avif"@ {
        "avif"@
    } else if l == "gif"@ {
        "gif"@
    } else {
        "jpg"@
    }
}

/// The known image extensions are already lower case, so lowering them is
/// the identity.
proof fn lemma_known_exts_lower()
    ensures
        ascii_lower("jpeg"@) == "jpeg"@,
        ascii_lower("jpg"@) == "jpg"@,
        ascii_lower("png"@) == "png"@,
        ascii_lower("webp"@) == "webp"@,
        ascii_lower("avif"@) == "avif"@,
        ascii_lower("gif"@) == "gif"@,
{
    reveal_strlit("jpeg");
    reveal_strlit("jpg");
    reveal_strlit("png");
    reveal_strlit("webp");
    reveal_strlit("avif");
    reveal_strlit("gif");
    assert(ascii_lower("jpeg"@) =~= "jpeg"@);
    assert(ascii_lower("jpg"@) =~= "jpg"@);
    assert(ascii_lower("png"@) =~= "png"@);
    assert(ascii_lower("webp"@) =~= "webp"@);
    assert(ascii_lower("avif"@) =~= "avif"@);
    assert(ascii_lower("gif"@) =~= "gif"@);
}

/// Picks the cache file extension for a page URL.
pub fn infer_page_extension(url: &str) -> (r: String)
    ensures
        r@ == infer_ext_spec(url@),
{
    proof {
        lemma_known_exts_lower();
    }
    let q = scan_for_char(url, '?', 0);
    let d = rscan_for_char(url, '.', q);
    let ext = match d {
        Some(i) => {
            proof {
                lemma_rfind_char_props(url@, '.', q as int);
            }
            url.substring_char(i + 1, q)
        },
        None => url.substring_char(0, q),
    };
    if str_eq_ignore_ascii_case(ext, "jpeg") || str_eq_ignore_ascii_case(ext, "jpg") {
        String::from_str("jpg")
    } else if str_eq_ignore_ascii_case(ext, "png") {
        String::from_str("png")
    } else if str_eq_ignore_ascii_case(ext, "webp") {
        String::from_str("webp")
    } else if str_eq_ignore_ascii_case(ext, "avif") {
        String::from_str("avif")
    } else if str_eq_ignore_ascii_case(ext, "gif") {
        String::from_str("gif")
    } else {
        String::from_str("jpg")
    }
}

/// File name of the page at 0-based index `idx`: the 1-based index rendered
/// in decimal, zero-padded to four digits, then a dot and the extension.
pub open spec fn page_file_name_spec(idx: nat, ext: Seq<char>) -> Seq<char> {
    zero_pad(decimal_rep((idx + 1) as nat), 4) + seq!['.'] + ext
}

pub fn page_file_name(idx: usize, ext: &str) -> (r: String)
    requires
        idx < usize::MAX,
    ensures
        r@ == page_file_name_spec(idx as nat, ext@),
{
    let mut s = zero_padded_decimal(idx + 1, 4);
    s.push('.');
    s.append(ext);
    proof {
        assert(s@ =~= page_file_name_spec(idx as nat, ext@));
    }
    s
}

/// Distinct page indices never derive the same file name, whatever the two
/// extensions are.
pub proof fn lemma_page_file_names_injective(i: nat, j: nat, e1: Seq<char>, e2: Seq<char>)
    requires
        page_file_name_spec(i, e1) == page_file_name_spec(j, e2),
    ensures
        i == j,
        e1 == e2,
{
    let p1 = zero_pad(decimal_rep((i + 1) as nat), 4);
    let p2 = zero_pad(decimal_rep((j + 1) as nat), 4);
    lemma_decimal_rep_digits((i + 1) as nat);
    lemma_decimal_rep_digits((j + 1) as nat);
    assert(all_digits(p1));
    assert(all_digits(p2));
    let n1 = page_file_name_spec(i, e1);
    let n2 = page_file_name_spec(j, e2);
    // The dot after the padded digits is the first non-digit character, so
    // equal names force equal digit-prefix lengths.
    if p1.len() < p2.len() {
        assert(n1[p1.len() as int] == '.');
        assert(n2[p1.len() as int] == p2[p1.len() as int]);
        assert(false);
    }
    if p2.len() < p1.len() {
        assert(n2[p2.len() as int] == '.');
        assert(n1[p2.len() as int] == p1[p2.len() as int]);
        assert(false);
    }
    assert(p1 =~= p2) by {
        assert(forall|k: int| 0 <= k < p1.len() ==> p1[k] == n1[k] && p2[k] == n2[k]);
    }
    lemma_zero_pad_decimal_injective((i + 1) as nat, (j + 1) as nat, 4);
    assert(n1.len() == p1.len() + 1 + e1.len());
    assert(n2.len() == p2.len() + 1 + e2.len());
    assert(e1.len() == e2.len());
    assert forall|k: int| 0 <= k < e1.len() implies e1[k] == e2[k] by {
        assert(n1[p1.len() + 1 + k] == e1[k]);
        assert(n2[p2.len() + 1 + k] == e2[k]);
    }
    assert(e1 =~= e2);
}

/// Chapter cache directory:
/// `<base>/anv/manga-pages/<sanitized id>/<translation>/<sanitized chapter>`.
pub open spec fn chapter_dir_spec(
    base: Seq<char>,
    manga_id: Seq<char>,
    translation: Translation,
    chapter: Seq<char>,
) -> Seq<char> {
    base + "/anv/manga-pages/"@ + sanitize_spec(manga_id) + "/"@ + translation_str(translation)
        + "/"@ + sanitize_spec(chapter)
}

/// Builds the chapter directory path under an explicit cache root.
pub fn chapter_dir_under(
    base: &str,
    manga_id: &str,
    translation: Translation,
    chapter: &str,
) -> (r: String)
    ensures
        r@ == chapter_dir_spec(base@, manga_id@, translation, chapter@),
{
    let mut s = String::from_str(base);
    s.append("/anv/manga-pages/");
    s.append(sanitize_cache_segment(manga_id).as_str());
    s.append("/");
    s.append(translation.as_str());
    s.append("/");
    s.append(sanitize_cache_segment(chapter).as_str());
    s
}

/// Relies on dirs_next::cache_dir: the platform cache directory, if the
/// environment defines one; converted to a UTF-8 string.
#[verifier::external_body]
fn os_cache_root() -> (r: Option<String>)
{
    dirs_next::cache_dir().and_then(|p| p.into_os_string().into_string().ok())
}

/// Chapter directory under the given override, or under the platform cache
/// directory; `None` when neither is available.
pub fn manga_cache_chapter_dir(
    manga_id: &str,
    translation: Translation,
    chapter: &str,
    cache_base_override: Option<&str>,
) -> (r: Option<String>)
    ensures
        cache_base_override matches Some(b) ==> r matches Some(dir) && dir@ == chapter_dir_spec(
            b@,
            manga_id@,
            translation,
            chapter@,
        ),
        r matches Some(dir) ==> exists|base: Seq<char>|
            dir@ == chapter_dir_spec(base, manga_id@, translation, chapter@),
{
    let base: String = match cache_base_override {
        Some(b) => String::from_str(b),
        None => {
            match os_cache_root() {
                Some(root) => root,
                None => {
                    return None;
                },
            }
        },
    };
    Some(chapter_dir_under(base.as_str(), manga_id, translation, chapter))
}

} // verus!
