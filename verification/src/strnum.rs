//! Small verified string/number toolkit: decimal rendering and parsing with
//! round-trip lemmas, zero padding, and ASCII case-insensitive comparison.

use vstd::prelude::*;
use vstd::string::StrSliceExecFns;

verus! {

/// Relies on String::push: appends the given char to the end of the string.
pub assume_specification[ String::push ](s: &mut String, c: char)
    ensures
        final(s)@ == old(s)@.push(c),
;

pub open spec fn is_digit_char(c: char) -> bool {
    '0' <= c && c <= '9'
}

pub open spec fn digit_char(d: int) -> char {
    (48 + d) as char
}

pub open spec fn digit_val(c: char) -> int {
    c as int - 48
}

pub open spec fn all_digits(s: Seq<char>) -> bool {
    forall|i: int| 0 <= i < s.len() ==> is_digit_char(#[trigger] s[i])
}

/// Canonical decimal representation of `n`, most significant digit first.
pub open spec fn decimal_rep(n: nat) -> Seq<char>
    decreases n,
{
    if n < 10 {
        seq![digit_char(n as int)]
    } else {
        decimal_rep(n / 10).push(digit_char((n % 10) as int))
    }
}

/// Numeric value of a digit string (well-behaved only when `all_digits`).
pub open spec fn decimal_val(s: Seq<char>) -> int
    decreases s.len(),
{
    if s.len() == 0 {
        0
    } else {
        decimal_val(s.drop_last()) * 10 + digit_val(s.last())
    }
}

/// `s` left-padded with `'0'` up to width `w`.
pub open spec fn zero_pad(s: Seq<char>, w: nat) -> Seq<char> {
    if s.len() >= w {
        s
    } else {
        Seq::new((w - s.len()) as nat, |i: int| '0') + s
    }
}

pub proof fn lemma_decimal_rep_digits(n: nat)
    ensures
        decimal_rep(n).len() >= 1,
        all_digits(decimal_rep(n)),
    decreases n,
{
    if n >= 10 {
        lemma_decimal_rep_digits(n / 10);
    }
}

/// Rendering then evaluating a number gives the number back.
pub proof fn lemma_decimal_round_trip(n: nat)
    ensures
        decimal_val(decimal_rep(n)) == n,
    decreases n,
{
    if n < 10 {
        let s = decimal_rep(n);
        assert(s == seq![digit_char(n as int)]);
        assert(s.drop_last() =~= Seq::<char>::empty());
        assert(decimal_val(Seq::<char>::empty()) == 0);
        assert(s.last() == digit_char(n as int));
        assert(digit_val(digit_char(n as int)) == n);
    } else {
        lemma_decimal_round_trip(n / 10);
        let s = decimal_rep(n);
        assert(s.drop_last() =~= decimal_rep(n / 10));
        assert(s.last() == digit_char((n % 10) as int));
        assert(digit_val(digit_char((n % 10) as int)) == n % 10);
        assert(decimal_val(s) == decimal_val(decimal_rep(n / 10)) * 10 + n % 10);
        assert((n / 10) * 10 + n % 10 == n);
    }
}

/// A single leading zero does not change the value of a digit string.
proof fn lemma_leading_zero_val(s: Seq<char>)
    ensures
        decimal_val(seq!['0'] + s) == decimal_val(s),
    decreases s.len(),
{
    if s.len() == 0 {
        assert((seq!['0'] + s) =~= seq!['0']);
        assert(decimal_val(seq!['0']) == decimal_val(seq!['0'].drop_last()) * 10 + digit_val('0'));
        assert(seq!['0'].drop_last() =~= Seq::<char>::empty());
    } else {
        let t = seq!['0'] + s;
        assert(t.drop_last() =~= seq!['0'] + s.drop_last());
        assert(t.last() == s.last());
        lemma_leading_zero_val(s.drop_last());
    }
}

/// Zero padding does not change the value of a digit string.
pub proof fn lemma_zero_pad_val(s: Seq<char>, w: nat)
    ensures
        decimal_val(zero_pad(s, w)) == decimal_val(s),
    decreases w,
{
    if s.len() < w {
        if s.len() + 1 == w {
            assert(zero_pad(s, w) =~= seq!['0'] + s);
            lemma_leading_zero_val(s);
        } else {
            lemma_zero_pad_val(s, (w - 1) as nat);
            lemma_leading_zero_val(zero_pad(s, (w - 1) as nat));
            assert(zero_pad(s, w) =~= seq!['0'] + zero_pad(s, (w - 1) as nat));
        }
    }
}

/// Padded decimal renderings are still injective across numbers, even when
/// the two renderings are padded to the same width.
pub proof fn lemma_zero_pad_decimal_injective(a: nat, b: nat, w: nat)
    requires
        zero_pad(decimal_rep(a), w) == zero_pad(decimal_rep(b), w),
    ensures
        a == b,
{
    lemma_zero_pad_val(decimal_rep(a), w);
    lemma_zero_pad_val(decimal_rep(b), w);
    lemma_decimal_round_trip(a);
    lemma_decimal_round_trip(b);
}

/// The value of a digit string only grows as digits are appended.
pub proof fn lemma_decimal_val_prefix_le(s: Seq<char>, n: int)
    requires
        0 <= n <= s.len(),
        all_digits(s),
    ensures
        0 <= decimal_val(s.subrange(0, n)) <= decimal_val(s),
    decreases s.len() - n,
{
    if n == s.len() {
        assert(s.subrange(0, n) =~= s);
        lemma_decimal_val_nonneg(s);
    } else {
        lemma_decimal_val_prefix_le(s, n + 1);
        let t = s.subrange(0, n + 1);
        assert(t.drop_last() =~= s.subrange(0, n));
        lemma_decimal_val_nonneg(s.subrange(0, n));
    }
}

pub proof fn lemma_decimal_val_nonneg(s: Seq<char>)
    requires
        all_digits(s),
    ensures
        decimal_val(s) >= 0,
    decreases s.len(),
{
    if s.len() > 0 {
        assert(all_digits(s.drop_last()));
        lemma_decimal_val_nonneg(s.drop_last());
    }
}

fn digit_to_char(d: usize) -> (c: char)
    requires
        d < 10,
    ensures
        c == digit_char(d as int),
{
    (48 + d as u8) as char
}

fn char_to_digit(c: char) -> (r: Option<usize>)
    ensures
        r is Some <==> is_digit_char(c),
        r is Some ==> r->0 == digit_val(c),
{
    let v = c as u32;
    if 48 <= v && v <= 57 {
        Some((v - 48) as usize)
    } else {
        None
    }
}

/// Renders `n` in decimal, most significant digit first.
pub fn format_decimal(n: usize) -> (s: String)
    ensures
        s@ == decimal_rep(n as nat),
    decreases n,
{
    if n < 10 {
        let mut s = String::new();
        s.push(digit_to_char(n));
        s
    } else {
        let mut s = format_decimal(n / 10);
        s.push(digit_to_char(n % 10));
        s
    }
}

/// Renders `n` in decimal, left-padded with zeros to at least `width` chars.
pub fn zero_padded_decimal(n: usize, width: usize) -> (s: String)
    ensures
        s@ == zero_pad(decimal_rep(n as nat), width as nat),
{
    let digits = format_decimal(n);
    let len = digits.as_str().unicode_len();
    if len >= width {
        return digits;
    }
    let pad = width - len;
    let mut s = String::new();
    let mut i: usize = 0;
    while i < pad
        invariant
            i <= pad,
            s@ == Seq::new(i as nat, |j: int| '0'),
        decreases pad - i,
    {
        s.push('0');
        proof {
            assert(s@ =~= Seq::new((i + 1) as nat, |j: int| '0'));
        }
        i = i + 1;
    }
    let mut out = s;
    out.append(digits.as_str());
    proof {
        assert(out@ =~= zero_pad(digits@, width as nat));
    }
    out
}

/// Parses a non-empty all-digit string as a `usize`; `None` on an empty
/// string, a non-digit, or overflow.
pub fn parse_decimal(s: &str) -> (r: Option<usize>)
    ensures
        r is Some <==> s@.len() > 0 && all_digits(s@) && decimal_val(s@) <= usize::MAX,
        r is Some ==> r->0 == decimal_val(s@),
{
    let n = s.unicode_len();
    if n == 0 {
        return None;
    }
    let mut acc: usize = 0;
    let mut i: usize = 0;
    while i < n
        invariant
            0 <= i <= n,
            n == s@.len(),
            all_digits(s@.subrange(0, i as int)),
            acc == decimal_val(s@.subrange(0, i as int)),
        decreases n - i,
    {
        let c = s.get_char(i);
        let d = match char_to_digit(c) {
            Some(d) => d,
            None => {
                return None;
            },
        };
        let shifted = match acc.checked_mul(10) {
            Some(v) => v,
            None => {
                proof {
                    overflow_means_value_large(s@, i as int);
                }
                return None;
            },
        };
        let next = match shifted.checked_add(d) {
            Some(v) => v,
            None => {
                proof {
                    overflow_means_value_large(s@, i as int);
                }
                return None;
            },
        };
        proof {
            assert(s@.subrange(0, i + 1).drop_last() =~= s@.subrange(0, i as int));
        }
        acc = next;
        i = i + 1;
    }
    proof {
        assert(s@.subrange(0, n as int) =~= s@);
    }
    Some(acc)
}

/// When one more digit overflows a `usize` accumulator that holds the value
/// of the first `i` digits, the full string cannot denote a `usize` either.
proof fn overflow_means_value_large(s: Seq<char>, i: int)
    requires
        0 <= i < s.len(),
        all_digits(s.subrange(0, i)),
        is_digit_char(s[i]),
        decimal_val(s.subrange(0, i)) * 10 + digit_val(s[i]) > usize::MAX,
    ensures
        !(all_digits(s) && decimal_val(s) <= usize::MAX),
{
    if all_digits(s) {
        assert(s.subrange(0, i + 1).drop_last() =~= s.subrange(0, i));
        assert(decimal_val(s.subrange(0, i + 1)) == decimal_val(s.subrange(0, i)) * 10
            + digit_val(s[i]));
        lemma_decimal_val_prefix_le(s, i + 1);
    }
}

/// Index of the first occurrence of `c` in `s` at or after `from`;
/// `s.len()` when there is none.
pub open spec fn find_char(s: Seq<char>, c: char, from: int) -> int
    decreases s.len() - from,
{
    if from < 0 || from >= s.len() {
        s.len() as int
    } else if s[from] == c {
        from
    } else {
        find_char(s, c, from + 1)
    }
}

/// Index of the last occurrence of `c` in `s` strictly below `below`;
/// `-1` when there is none.
pub open spec fn rfind_char_below(s: Seq<char>, c: char, below: int) -> int
    decreases below,
{
    if below <= 0 || below > s.len() {
        -1
    } else if s[below - 1] == c {
        below - 1
    } else {
        rfind_char_below(s, c, below - 1)
    }
}

pub proof fn lemma_rfind_char_props(s: Seq<char>, c: char, below: int)
    requires
        0 <= below <= s.len(),
    ensures
        -1 <= rfind_char_below(s, c, below) < below,
        rfind_char_below(s, c, below) >= 0 ==> s[rfind_char_below(s, c, below)] == c,
        forall|j: int| rfind_char_below(s, c, below) < j < below ==> s[j] != c,
    decreases below,
{
    if below > 0 && s[below - 1] != c {
        lemma_rfind_char_props(s, c, below - 1);
    }
}

/// Scans forward for `c`, mirroring `find_char`.
pub fn scan_for_char(s: &str, c: char, from: usize) -> (r: usize)
    requires
        from <= s@.len(),
    ensures
        r == find_char(s@, c, from as int),
        from <= r <= s@.len(),
    decreases s@.len() - from,
{
    let n = s.unicode_len();
    if from >= n {
        return n;
    }
    if s.get_char(from) == c {
        return from;
    }
    scan_for_char(s, c, from + 1)
}

/// Scans backward for `c`, mirroring `rfind_char_below`; returns `None`
/// when `c` does not occur below `below`.
pub fn rscan_for_char(s: &str, c: char, below: usize) -> (r: Option<usize>)
    requires
        below <= s@.len(),
    ensures
        match r {
            Some(i) => i == rfind_char_below(s@, c, below as int),
            None => rfind_char_below(s@, c, below as int) == -1,
        },
    decreases below,
{
    if below == 0 {
        return None;
    }
    if s.get_char(below - 1) == c {
        return Some(below - 1);
    }
    rscan_for_char(s, c, below - 1)
}

pub open spec fn ascii_lower_char(c: char) -> char {
    if 'A' <= c && c <= 'Z' {
        (c as int + 32) as char
    } else {
        c
    }
}

pub open spec fn ascii_lower(s: Seq<char>) -> Seq<char> {
    s.map_values(|c: char| ascii_lower_char(c))
}

/// Lower-cases one ASCII letter; anything else passes through.
pub fn to_ascii_lower_char(c: char) -> (r: char)
    ensures
        r == ascii_lower_char(c),
{
    let v = c as u32;
    if 65 <= v && v <= 90 {
        ((v + 32) as u8) as char
    } else {
        c
    }
}

/// Index of the first occurrence of `p` in `s` at or after `from`; `-1`
/// when there is none.
pub open spec fn find_sub(s: Seq<char>, p: Seq<char>, from: int) -> int
    decreases s.len() - from + 1,
{
    if from < 0 || from + p.len() > s.len() {
        -1
    } else if s.subrange(from, from + p.len() as int) == p {
        from
    } else {
        find_sub(s, p, from + 1)
    }
}

pub open spec fn contains_sub(s: Seq<char>, p: Seq<char>) -> bool {
    find_sub(s, p, 0) >= 0
}

/// `s` with the first occurrence of `p`, if any, replaced by `q`.
pub open spec fn replace_first(s: Seq<char>, p: Seq<char>, q: Seq<char>) -> Seq<char> {
    let i = find_sub(s, p, 0);
    if i >= 0 {
        s.subrange(0, i) + q + s.subrange(i + p.len() as int, s.len() as int)
    } else {
        s
    }
}

/// Whether `p` occurs in `s` exactly at position `at`.
fn match_at(s: &str, p: &str, at: usize) -> (r: bool)
    requires
        at + p@.len() <= s@.len(),
    ensures
        r == (s@.subrange(at as int, at + p@.len() as int) == p@),
{
    let n = s.unicode_len();
    let m = p.unicode_len();
    let mut j: usize = 0;
    while j < m
        invariant
            0 <= j <= m,
            m == p@.len(),
            n == s@.len(),
            at + m <= n,
            forall|k: int| 0 <= k < j ==> s@[at + k] == p@[k],
        decreases m - j,
    {
        if s.get_char(at + j) != p.get_char(j) {
            proof {
                assert(s@.subrange(at as int, at + p@.len() as int)[j as int] == s@[at + j]);
            }
            return false;
        }
        j = j + 1;
    }
    proof {
        assert(s@.subrange(at as int, at + p@.len() as int) =~= p@);
    }
    true
}

/// Scans for the first occurrence of `p`, mirroring `find_sub`.
pub fn scan_for_sub(s: &str, p: &str, from: usize) -> (r: Option<usize>)
    requires
        from <= s@.len(),
    ensures
        match r {
            Some(i) => i == find_sub(s@, p@, from as int),
            None => find_sub(s@, p@, from as int) == -1,
        },
    decreases s@.len() - from + 1,
{
    let n = s.unicode_len();
    let m = p.unicode_len();
    if m > n - from {
        return None;
    }
    if match_at(s, p, from) {
        return Some(from);
    }
    proof {
        if p@.len() == 0 {
            assert(s@.subrange(from as int, from as int) =~= p@);
        }
    }
    scan_for_sub(s, p, from + 1)
}

/// Whether `p` occurs anywhere in `s`.
pub fn contains_sub_str(s: &str, p: &str) -> (r: bool)
    ensures
        r == contains_sub(s@, p@),
{
    match scan_for_sub(s, p, 0) {
        Some(_) => true,
        None => false,
    }
}

/// Replaces the first occurrence of `p` in `s`, if any, by `q`.
pub fn replace_first_str(s: &str, p: &str, q: &str) -> (r: String)
    ensures
        r@ == replace_first(s@, p@, q@),
{
    match scan_for_sub(s, p, 0) {
        Some(i) => {
            let n = s.unicode_len();
            let m = p.unicode_len();
            proof {
                lemma_find_sub_props(s@, p@, 0);
            }
            let mut out = String::from_str(s.substring_char(0, i));
            out.append(q);
            out.append(s.substring_char(i + m, n));
            proof {
                assert(out@ =~= replace_first(s@, p@, q@));
            }
            out
        },
        None => String::from_str(s),
    }
}

proof fn lemma_find_sub_props(s: Seq<char>, p: Seq<char>, from: int)
    requires
        0 <= from <= s.len(),
    ensures
        find_sub(s, p, from) >= 0 ==> from <= find_sub(s, p, from) && find_sub(s, p, from)
            + p.len() <= s.len(),
    decreases s.len() - from + 1,
{
    if !(from + p.len() > s.len()) && !(s.subrange(from, from + p.len() as int) == p) {
        if p.len() == 0 {
            assert(s.subrange(from, from) =~= p);
        }
        lemma_find_sub_props(s, p, from + 1);
    }
}

/// Character-wise string equality.
pub fn str_eq(a: &str, b: &str) -> (r: bool)
    ensures
        r == (a@ == b@),
{
    let na = a.unicode_len();
    let nb = b.unicode_len();
    if na != nb {
        return false;
    }
    let mut i: usize = 0;
    while i < na
        invariant
            0 <= i <= na,
            na == a@.len(),
            na == b@.len(),
            forall|j: int| 0 <= j < i ==> a@[j] == b@[j],
        decreases na - i,
    {
        if a.get_char(i) != b.get_char(i) {
            return false;
        }
        i = i + 1;
    }
    proof {
        assert(a@ =~= b@);
    }
    true
}

/// ASCII case-insensitive string equality, as `str::eq_ignore_ascii_case`
/// behaves on any input.
pub fn str_eq_ignore_ascii_case(a: &str, b: &str) -> (r: bool)
    ensures
        r == (ascii_lower(a@) == ascii_lower(b@)),
{
    let na = a.unicode_len();
    let nb = b.unicode_len();
    if na != nb {
        proof {
            assert(ascii_lower(a@).len() != ascii_lower(b@).len());
        }
        return false;
    }
    let mut i: usize = 0;
    while i < na
        invariant
            0 <= i <= na,
            na == a@.len(),
            na == b@.len(),
            forall|j: int|
                0 <= j < i ==> ascii_lower_char(#[trigger] a@[j]) == ascii_lower_char(b@[j]),
        decreases na - i,
    {
        let ca = to_ascii_lower_char(a.get_char(i));
        let cb = to_ascii_lower_char(b.get_char(i));
        if ca != cb {
            proof {
                assert(ascii_lower(a@)[i as int] != ascii_lower(b@)[i as int]);
            }
            return false;
        }
        i = i + 1;
    }
    proof {
        assert(ascii_lower(a@) =~= ascii_lower(b@));
    }
    true
}

} // verus!
