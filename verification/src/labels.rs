//! Episode and chapter label ordering.
//!
//! Labels are decimal strings such as `"12"` or `"271.5"`. They are compared
//! by their numeric value, exactly: whole parts first (leading zeros
//! ignored), then fractional digits (trailing zeros ignored). A label that
//! is not a decimal number counts as zero.

use vstd::prelude::*;
use vstd::string::{StrSliceExecFns, StringExecFns};

use crate::strnum::{all_digits, find_char, is_digit_char, scan_for_char, str_eq};
use core::cmp::Ordering;

verus! {

/// Leading zeros carry no value in a whole part.
pub open spec fn strip_leading_zeros(s: Seq<char>) -> Seq<char>
    decreases s.len(),
{
    if s.len() > 0 && s[0] == '0' {
        strip_leading_zeros(s.drop_first())
    } else {
        s
    }
}

/// Trailing zeros carry no value in a fractional part.
pub open spec fn trim_trailing_zeros(s: Seq<char>) -> Seq<char>
    decreases s.len(),
{
    if s.len() > 0 && s.last() == '0' {
        trim_trailing_zeros(s.drop_last())
    } else {
        s
    }
}

/// Digit-wise comparison of two fractional parts (trailing zeros already
/// trimmed): position by position, a missing digit counts as smaller.
pub open spec fn frac_cmp(a: Seq<char>, b: Seq<char>) -> Ordering
    decreases a.len() + b.len(),
{
    if a.len() == 0 && b.len() == 0 {
        Ordering::Equal
    } else if a.len() == 0 {
        Ordering::Less
    } else if b.len() == 0 {
        Ordering::Greater
    } else if a[0] != b[0] {
        if (a[0] as int) < (b[0] as int) {
            Ordering::Less
        } else {
            Ordering::Greater
        }
    } else {
        frac_cmp(a.drop_first(), b.drop_first())
    }
}

/// Comparison of two whole parts (leading zeros already stripped): a longer
/// digit run is a larger number, equal lengths compare digit-wise.
pub open spec fn whole_cmp(a: Seq<char>, b: Seq<char>) -> Ordering {
    if a.len() < b.len() {
        Ordering::Less
    } else if a.len() > b.len() {
        Ordering::Greater
    } else {
        frac_cmp(a, b)
    }
}

/// The comparison key of a label: stripped whole digits and trimmed
/// fractional digits. A label that is not `digits`, `digits.digits`,
/// `digits.` or `.digits` has the zero key.
pub open spec fn label_key(s: Seq<char>) -> (Seq<char>, Seq<char>) {
    let d = find_char(s, '.', 0);
    if d == s.len() {
        if s.len() > 0 && all_digits(s) {
            (strip_leading_zeros(s), Seq::<char>::empty())
        } else {
            (Seq::<char>::empty(), Seq::<char>::empty())
        }
    } else {
        let whole = s.subrange(0, d);
        let frac = s.subrange(d + 1, s.len() as int);
        if all_digits(whole) && all_digits(frac) && s.len() > 1 {
            (strip_leading_zeros(whole), trim_trailing_zeros(frac))
        } else {
            (Seq::<char>::empty(), Seq::<char>::empty())
        }
    }
}

/// Numeric order of two labels: whole parts first, fractional digits only as
/// a tie breaker.
pub open spec fn label_cmp_spec(a: Seq<char>, b: Seq<char>) -> Ordering {
    let ka = label_key(a);
    let kb = label_key(b);
    if whole_cmp(ka.0, kb.0) == Ordering::Equal {
        frac_cmp(ka.1, kb.1)
    } else {
        whole_cmp(ka.0, kb.0)
    }
}

fn check_digit_run(s: &str, from: usize, to: usize) -> (r: bool)
    requires
        from <= to <= s@.len(),
    ensures
        r == all_digits(s@.subrange(from as int, to as int)),
{
    let mut i: usize = from;
    while i < to
        invariant
            from <= i <= to <= s@.len(),
            forall|j: int| from <= j < i ==> is_digit_char(#[trigger] s@[j]),
        decreases to - i,
    {
        let c = s.get_char(i);
        let v = c as u32;
        if !(48 <= v && v <= 57) {
            proof {
                assert(s@.subrange(from as int, to as int)[i - from] == s@[i as int]);
            }
            return false;
        }
        i = i + 1;
    }
    proof {
        assert forall|j: int| 0 <= j < to - from implies is_digit_char(
            #[trigger] s@.subrange(from as int, to as int)[j],
        ) by {
            assert(s@.subrange(from as int, to as int)[j] == s@[from + j]);
        }
    }
    true
}

/// A scan that skipped the leading zeros agrees with `strip_leading_zeros`.
proof fn lemma_strip_from_scan(s: Seq<char>, k: int)
    requires
        0 <= k <= s.len(),
        forall|j: int| 0 <= j < k ==> s[j] == '0',
        k < s.len() ==> s[k] != '0',
    ensures
        strip_leading_zeros(s) == s.subrange(k, s.len() as int),
    decreases s.len(),
{
    if s.len() > 0 && s[0] == '0' {
        assert(k > 0);
        let t = s.drop_first();
        assert forall|j: int| 0 <= j < k - 1 implies t[j] == '0' by {
            assert(t[j] == s[j + 1]);
        }
        lemma_strip_from_scan(t, k - 1);
        assert(t.subrange(k - 1, t.len() as int) =~= s.subrange(k, s.len() as int));
    } else {
        assert(k == 0);
        assert(s.subrange(0, s.len() as int) =~= s);
    }
}

/// A scan that skipped the trailing zeros agrees with `trim_trailing_zeros`.
proof fn lemma_trim_from_scan(s: Seq<char>, k: int)
    requires
        0 <= k <= s.len(),
        forall|j: int| k <= j < s.len() ==> s[j] == '0',
        k > 0 ==> s[k - 1] != '0',
    ensures
        trim_trailing_zeros(s) == s.subrange(0, k),
    decreases s.len(),
{
    if s.len() > 0 && s.last() == '0' {
        assert(k < s.len());
        lemma_trim_from_scan(s.drop_last(), k);
        assert(s.drop_last().subrange(0, k) =~= s.subrange(0, k));
    } else {
        assert(k == s.len());
        assert(s.subrange(0, s.len() as int) =~= s);
    }
}

/// The comparison key of a label, as owned digit strings.
fn label_key_parts(s: &str) -> (r: (String, String))
    ensures
        (r.0@, r.1@) == label_key(s@),
{
    let n = s.unicode_len();
    proof {
        assert(s@.subrange(0, n as int) =~= s@);
    }
    let d = scan_for_char(s, '.', 0);
    let (wlo, whi, flo, fhi, valid): (usize, usize, usize, usize, bool) = if d == n {
        (0, n, n, n, n > 0 && check_digit_run(s, 0, n))
    } else {
        (0, d, d + 1, n, check_digit_run(s, 0, d) && check_digit_run(s, d + 1, n) && n > 1)
    };
    if !valid {
        proof {
            assert(label_key(s@) == (Seq::<char>::empty(), Seq::<char>::empty()));
        }
        return (String::new(), String::new());
    }
    // strip leading zeros of the whole part
    let mut k: usize = wlo;
    while k < whi && s.get_char(k) == '0'
        invariant
            wlo <= k <= whi <= s@.len(),
            forall|j: int| wlo <= j < k ==> s@[j] == '0',
        decreases whi - k,
    {
        k = k + 1;
    }
    // trim trailing zeros of the fractional part
    let mut m: usize = fhi;
    while m > flo && s.get_char(m - 1) == '0'
        invariant
            flo <= m <= fhi <= s@.len(),
            forall|j: int| m <= j < fhi ==> s@[j] == '0',
        decreases m,
    {
        m = m - 1;
    }
    let whole = String::from_str(s.substring_char(k, whi));
    let frac = String::from_str(s.substring_char(flo, m));
    proof {
        let w = s@.subrange(wlo as int, whi as int);
        assert forall|j: int| 0 <= j < k - wlo implies w[j] == '0' by {
            assert(w[j] == s@[wlo + j]);
        }
        assert(k - wlo < w.len() ==> w[k - wlo] != '0');
        lemma_strip_from_scan(w, k - wlo);
        assert(w.subrange(k - wlo, w.len() as int) =~= s@.subrange(k as int, whi as int));
        let f = s@.subrange(flo as int, fhi as int);
        assert forall|j: int| m - flo <= j < f.len() implies f[j] == '0' by {
            assert(f[j] == s@[flo + j]);
        }
        assert(m - flo > 0 ==> f[m - flo - 1] != '0');
        lemma_trim_from_scan(f, m - flo);
        assert(f.subrange(0, m - flo) =~= s@.subrange(flo as int, m as int));
    }
    (whole, frac)
}

/// Digit-wise comparison from position `i` on, mirroring `frac_cmp` over the
/// remaining suffixes.
fn frac_cmp_exec(a: &str, b: &str, i: usize) -> (r: Ordering)
    requires
        i <= a@.len(),
        i <= b@.len(),
    ensures
        r == frac_cmp(a@.skip(i as int), b@.skip(i as int)),
    decreases a@.len() + b@.len() - 2 * i,
{
    let na = a.unicode_len();
    let nb = b.unicode_len();
    let ghost sa = a@.skip(i as int);
    let ghost sb = b@.skip(i as int);
    if i >= na && i >= nb {
        Ordering::Equal
    } else if i >= na {
        Ordering::Less
    } else if i >= nb {
        Ordering::Greater
    } else {
        let ca = a.get_char(i);
        let cb = b.get_char(i);
        proof {
            assert(sa[0] == a@[i as int]);
            assert(sb[0] == b@[i as int]);
        }
        if ca != cb {
            if (ca as u32) < (cb as u32) {
                Ordering::Less
            } else {
                Ordering::Greater
            }
        } else {
            let r = frac_cmp_exec(a, b, i + 1);
            proof {
                assert(sa.drop_first() =~= a@.skip(i + 1));
                assert(sb.drop_first() =~= b@.skip(i + 1));
            }
            r
        }
    }
}

/// Compares two labels by numeric value; anything unparsable counts as zero.
pub fn compare_episode_labels(left: &str, right: &str) -> (r: Ordering)
    ensures
        r == label_cmp_spec(left@, right@),
{
    let (wa, fa) = label_key_parts(left);
    let (wb, fb) = label_key_parts(right);
    let wa_len = wa.as_str().unicode_len();
    let wb_len = wb.as_str().unicode_len();
    let whole: Ordering = if wa_len < wb_len {
        Ordering::Less
    } else if wa_len > wb_len {
        Ordering::Greater
    } else {
        let r = frac_cmp_exec(wa.as_str(), wb.as_str(), 0);
        proof {
            assert(wa@.skip(0) =~= wa@);
            assert(wb@.skip(0) =~= wb@);
        }
        r
    };
    let is_eq: bool = match whole {
        Ordering::Equal => true,
        _ => false,
    };
    if is_eq {
        let r = frac_cmp_exec(fa.as_str(), fb.as_str(), 0);
        proof {
            assert(fa@.skip(0) =~= fa@);
            assert(fb@.skip(0) =~= fb@);
        }
        r
    } else {
        whole
    }
}

/// Where `x` lands in a sorted run: after every element it does not precede,
/// so equal labels keep their arrival order.
pub open spec fn insert_sorted(x: String, s: Seq<String>) -> Seq<String>
    decreases s.len(),
{
    if s.len() == 0 {
        seq![x]
    } else if label_cmp_spec(s.last()@, x@) == Ordering::Greater {
        insert_sorted(x, s.drop_last()).push(s.last())
    } else {
        s.push(x)
    }
}

/// Stable insertion sort of labels by numeric value.
pub open spec fn sort_labels(s: Seq<String>) -> Seq<String>
    decreases s.len(),
{
    if s.len() == 0 {
        s
    } else {
        insert_sorted(s.last(), sort_labels(s.drop_last()))
    }
}

/// Consecutive equal labels collapse to their first occurrence.
pub open spec fn dedup_adjacent(s: Seq<String>) -> Seq<String>
    decreases s.len(),
{
    if s.len() <= 1 {
        s
    } else if s.last()@ == s[s.len() - 2]@ {
        dedup_adjacent(s.drop_last())
    } else {
        dedup_adjacent(s.drop_last()).push(s.last())
    }
}

/// An insertion position found by scanning from the right agrees with
/// `insert_sorted`.
proof fn lemma_insert_at(s: Seq<String>, x: String, j: int)
    requires
        0 <= j <= s.len(),
        forall|k: int| j <= k < s.len() ==> label_cmp_spec(#[trigger] s[k]@, x@) == Ordering::Greater,
        j > 0 ==> label_cmp_spec(s[j - 1]@, x@) != Ordering::Greater,
    ensures
        insert_sorted(x, s) == s.subrange(0, j) + seq![x] + s.subrange(j, s.len() as int),
    decreases s.len(),
{
    if s.len() == 0 {
        assert(insert_sorted(x, s) =~= s.subrange(0, j) + seq![x] + s.subrange(j, s.len() as int));
    } else if label_cmp_spec(s.last()@, x@) == Ordering::Greater {
        assert(j < s.len());
        let t = s.drop_last();
        lemma_insert_at(t, x, j);
        assert(t.subrange(0, j) =~= s.subrange(0, j));
        assert(t.subrange(j, t.len() as int) =~= s.subrange(j, s.len() - 1));
        assert(insert_sorted(x, s) =~= s.subrange(0, j) + seq![x] + s.subrange(
            j,
            s.len() as int,
        ));
    } else {
        assert(j == s.len());
        assert(insert_sorted(x, s) =~= s.subrange(0, j) + seq![x] + s.subrange(j, s.len() as int));
    }
}

/// Sorts the labels numerically (stable) and removes consecutive duplicate
/// strings, as the chapter/episode pickers present them.
pub fn sorted_episode_labels(episodes: &Vec<String>) -> (r: Vec<String>)
    ensures
        r@ == dedup_adjacent(sort_labels(episodes@)),
{
    let n = episodes.len();
    let mut sorted: Vec<String> = Vec::new();
    let mut i: usize = 0;
    while i < n
        invariant
            0 <= i <= n,
            n == episodes@.len(),
            sorted@ == sort_labels(episodes@.subrange(0, i as int)),
        decreases n - i,
    {
        let x = episodes[i].clone();
        proof {
            assert(x == episodes@[i as int]);
        }
        let mut j: usize = sorted.len();
        while j > 0 && matches!(
            compare_episode_labels(sorted[j - 1].as_str(), x.as_str()),
            Ordering::Greater
        )
            invariant
                0 <= j <= sorted@.len(),
                forall|k: int|
                    j <= k < sorted@.len() ==> label_cmp_spec(#[trigger] sorted@[k]@, x@)
                        == Ordering::Greater,
            decreases j,
        {
            j = j - 1;
        }
        let ghost prev = sorted@;
        sorted.insert(j, x);
        proof {
            lemma_insert_at(prev, x, j as int);
            assert(sorted@ =~= prev.subrange(0, j as int) + seq![x] + prev.subrange(
                j as int,
                prev.len() as int,
            ));
            assert(episodes@.subrange(0, i + 1).drop_last() =~= episodes@.subrange(0, i as int));
            assert(episodes@.subrange(0, i + 1).last() == x);
            assert(sorted@ == sort_labels(episodes@.subrange(0, i + 1)));
        }
        i = i + 1;
    }
    proof {
        assert(episodes@.subrange(0, n as int) =~= episodes@);
    }
    let total = sorted.len();
    let mut out: Vec<String> = Vec::new();
    let mut k: usize = 0;
    while k < total
        invariant
            0 <= k <= total,
            total == sorted@.len(),
            out@ == dedup_adjacent(sorted@.subrange(0, k as int)),
        decreases total - k,
    {
        if k == 0 || !str_eq(sorted[k - 1].as_str(), sorted[k].as_str()) {
            out.push(sorted[k].clone());
        }
        proof {
            let t = sorted@.subrange(0, k + 1);
            assert(t.drop_last() =~= sorted@.subrange(0, k as int));
            assert(t.last() == sorted@[k as int]);
            assert(out@ == dedup_adjacent(sorted@.subrange(0, k + 1)));
        }
        k = k + 1;
    }
    proof {
        assert(sorted@.subrange(0, total as int) =~= sorted@);
    }
    out
}

/// Index of the maximal label among the first `i`, the last one on ties, as
/// a maximum fold from the left finds it.
pub open spec fn latest_index_upto(s: Seq<String>, i: int) -> int
    decreases i,
{
    if i <= 1 {
        0
    } else {
        let b = latest_index_upto(s, i - 1);
        if label_cmp_spec(s[b]@, s[i - 1]@) == Ordering::Greater {
            b
        } else {
            i - 1
        }
    }
}

/// The numerically latest label, if any; on ties, the last one listed.
pub fn latest_label(labels: &Vec<String>) -> (r: Option<String>)
    ensures
        labels@.len() == 0 ==> r is None,
        labels@.len() > 0 ==> ({
            let b = latest_index_upto(labels@, labels@.len() as int);
            r matches Some(l) && 0 <= b < labels@.len() && l == labels@[b]
        }),
{
    let n = labels.len();
    if n == 0 {
        return None;
    }
    let mut best: usize = 0;
    let mut i: usize = 1;
    while i < n
        invariant
            1 <= i <= n,
            n == labels@.len(),
            0 <= best < i,
            best == latest_index_upto(labels@, i as int),
        decreases n - i,
    {
        let c = compare_episode_labels(labels[best].as_str(), labels[i].as_str());
        let keep: bool = match c {
            Ordering::Greater => true,
            _ => false,
        };
        if !keep {
            best = i;
        }
        i = i + 1;
    }
    Some(labels[best].clone())
}

/// The list position the picker highlights: the current label where it is
/// listed, else the latest available one, else the first entry.
pub fn default_selection_index(labels: &Vec<String>, current: &str, latest: &str) -> (r: usize)
    ensures
        ({
            let pc = label_index(labels@, current@);
            let pl = label_index(labels@, latest@);
            if pc < labels@.len() {
                r == pc
            } else if pl < labels@.len() {
                r == pl
            } else {
                r == 0
            }
        }),
{
    match find_label(labels, current) {
        Some(p) => p,
        None => {
            match find_label(labels, latest) {
                Some(p) => p,
                None => 0,
            }
        },
    }
}

/// The first position of a label, if it is listed.
fn find_label(labels: &Vec<String>, x: &str) -> (r: Option<usize>)
    ensures
        match r {
            Some(p) => p == label_index(labels@, x@) && p < labels@.len(),
            None => label_index(labels@, x@) == labels@.len(),
        },
{
    let n = labels.len();
    let mut p: usize = 0;
    while p < n
        invariant
            0 <= p <= n,
            n == labels@.len(),
            forall|j: int| 0 <= j < p ==> (#[trigger] labels@[j])@ != x@,
        decreases n - p,
    {
        if str_eq(labels[p].as_str(), x) {
            proof {
                lemma_label_index_from_scan(labels@, x@, p as int);
            }
            return Some(p);
        }
        p = p + 1;
    }
    proof {
        lemma_label_index_from_scan(labels@, x@, n as int);
    }
    None
}

/// Index of the first label equal to `x`; the length when none is.
pub open spec fn label_index(s: Seq<String>, x: Seq<char>) -> int
    decreases s.len(),
{
    if s.len() == 0 {
        0
    } else if s[0]@ == x {
        0
    } else {
        1 + label_index(s.drop_first(), x)
    }
}

proof fn lemma_label_index_from_scan(s: Seq<String>, x: Seq<char>, p: int)
    requires
        0 <= p <= s.len(),
        forall|j: int| 0 <= j < p ==> (#[trigger] s[j])@ != x,
        p < s.len() ==> s[p]@ == x,
    ensures
        label_index(s, x) == p,
    decreases s.len(),
{
    if s.len() > 0 && p > 0 {
        let t = s.drop_first();
        assert forall|j: int| 0 <= j < p - 1 implies (#[trigger] t[j])@ != x by {
            assert(t[j] == s[j + 1]);
        }
        assert(p - 1 < t.len() ==> t[p - 1]@ == x);
        lemma_label_index_from_scan(t, x, p - 1);
    }
}

/// The label after `current` in the sorted, deduplicated order, if both the
/// current label and a successor exist.
pub fn next_episode_label(current: &str, episodes: &Vec<String>) -> (r: Option<String>)
    ensures
        ({
            let s = dedup_adjacent(sort_labels(episodes@));
            let p = label_index(s, current@);
            match r {
                Some(next) => p + 1 < s.len() && next == s[p + 1],
                None => p >= s.len() || p + 1 >= s.len(),
            }
        }),
{
    let sorted = sorted_episode_labels(episodes);
    let n = sorted.len();
    let mut p: usize = 0;
    while p < n
        invariant
            0 <= p <= n,
            n == sorted@.len(),
            sorted@ == dedup_adjacent(sort_labels(episodes@)),
            forall|j: int| 0 <= j < p ==> (#[trigger] sorted@[j])@ != current@,
        decreases n - p,
    {
        if str_eq(sorted[p].as_str(), current) {
            proof {
                lemma_label_index_from_scan(sorted@, current@, p as int);
            }
            if p + 1 < n {
                return Some(sorted[p + 1].clone());
            }
            return None;
        }
        p = p + 1;
    }
    proof {
        lemma_label_index_from_scan(sorted@, current@, n as int);
    }
    None
}

} // verus!
