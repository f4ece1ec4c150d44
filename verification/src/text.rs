//! Character-level helpers shared by the DDS and DAS parsers and by the URL
//! renderers: literal matching, whitespace handling, decimal numerals, and
//! the one bridge from ASCII bytes to `String`.

use vstd::prelude::*;

verus! {

/// The characters the grammars treat as whitespace (as `multispace`:
/// space, tab, carriage return, newline).
pub open spec fn is_ws(c: char) -> bool {
    c == ' ' || c == '\t' || c == '\r' || c == '\n'
}

/// The decimal digits.
pub open spec fn is_digit(c: char) -> bool {
    '0' <= c && c <= '9'
}

/// `tok` occurs in `s` starting exactly at position `i`.
pub open spec fn match_at(s: Seq<char>, i: int, tok: Seq<char>) -> bool {
    0 <= i && i + tok.len() <= s.len() && s.subrange(i, i + tok.len()) == tok
}

/// A byte sequence read as the characters with the same code points.
pub open spec fn ascii_view(b: Seq<u8>) -> Seq<char> {
    Seq::new(b.len(), |i: int| b[i] as char)
}

/// Relies on `String::from_utf8`: bytes below 128 are valid UTF-8 and
/// decode to exactly the code points of the bytes.
#[verifier::external_body]
pub(crate) fn ascii_vec_to_string(v: Vec<u8>) -> (r: String)
    requires
        forall|i: int| 0 <= i < v@.len() ==> v@[i] < 128,
    ensures
        r@ == ascii_view(v@),
{
    String::from_utf8(v).unwrap()
}

/// Whether `c` is whitespace, executably.
pub fn is_ws_char(c: char) -> (r: bool)
    ensures
        r == is_ws(c),
{
    c == ' ' || c == '\t' || c == '\r' || c == '\n'
}

/// Whether `tok` occurs in `s` at position `i`.
pub fn match_lit(s: &str, i: usize, tok: &str) -> (r: bool)
    ensures
        r == match_at(s@, i as int, tok@),
{
    let n = tok.unicode_len();
    let sn = s.unicode_len();
    if sn < i || sn - i < n {
        return false;
    }
    let mut j: usize = 0;
    while j < n
        invariant
            j <= n,
            i + n <= sn,
            sn == s@.len(),
            n == tok@.len(),
            forall|k: int| 0 <= k < j ==> s@[i + k] == tok@[k],
        decreases n - j,
    {
        if s.get_char(i + j) != tok.get_char(j) {
            return false;
        }
        j += 1;
    }
    proof {
        assert(s@.subrange(i as int, i + n) =~= tok@);
    }
    true
}

/// The first position at or after `i` whose character is not whitespace.
pub open spec fn spec_skip_ws(s: Seq<char>, i: int) -> int
    decreases s.len() - i,
{
    if i < 0 || i >= s.len() {
        i
    } else if is_ws(s[i]) {
        spec_skip_ws(s, i + 1)
    } else {
        i
    }
}

/// Advances past any run of whitespace.
pub fn skip_ws(s: &str, i: usize) -> (r: usize)
    requires
        i <= s@.len(),
    ensures
        r == spec_skip_ws(s@, i as int),
        i <= r <= s@.len(),
        forall|k: int| i <= k < r ==> is_ws(s@[k]),
        r < s@.len() ==> !is_ws(s@[r as int]),
    decreases s@.len() - i,
{
    if i == s.unicode_len() {
        i
    } else if is_ws_char(s.get_char(i)) {
        skip_ws(s, i + 1)
    } else {
        i
    }
}

/// The position of the first occurrence of `c` at or after `i`, if any.
pub open spec fn spec_find_char(s: Seq<char>, i: int, c: char) -> Option<int>
    decreases s.len() - i,
{
    if i < 0 || i >= s.len() {
        None
    } else if s[i] == c {
        Some(i)
    } else {
        spec_find_char(s, i + 1, c)
    }
}

/// Scans for the next occurrence of `c`.
pub fn find_char(s: &str, i: usize, c: char) -> (r: Option<usize>)
    requires
        i <= s@.len(),
    ensures
        r matches Some(j) ==> i <= j < s@.len() && s@[j as int] == c
            && spec_find_char(s@, i as int, c) == Some(j as int),
        r is None ==> spec_find_char(s@, i as int, c) is None,
    decreases s@.len() - i,
{
    if i == s.unicode_len() {
        None
    } else if s.get_char(i) == c {
        Some(i)
    } else {
        find_char(s, i + 1, c)
    }
}

/// A found position is in range and holds the character.
pub proof fn lemma_find_char_bounds(s: Seq<char>, i: int, c: char)
    ensures
        spec_find_char(s, i, c) matches Some(j) ==> i <= j < s.len() && s[j] == c,
    decreases s.len() - i,
{
    if 0 <= i < s.len() && s[i] != c {
        lemma_find_char_bounds(s, i + 1, c);
    }
}

/// The start of the trimmed form of `s[a..b)`: the first non-whitespace
/// position, or `b` if there is none.
pub open spec fn spec_trim_from(s: Seq<char>, a: int, b: int) -> int
    decreases b - a,
{
    if a < 0 || a >= b {
        a
    } else if is_ws(s[a]) {
        spec_trim_from(s, a + 1, b)
    } else {
        a
    }
}

/// The end of the trimmed form of `s[a..b)`: one past the last
/// non-whitespace position, or `a` if there is none.
pub open spec fn spec_trim_to(s: Seq<char>, a: int, b: int) -> int
    decreases b - a,
{
    if b <= a {
        b
    } else if is_ws(s[b - 1]) {
        spec_trim_to(s, a, b - 1)
    } else {
        b
    }
}

/// The range `s[a..b)` with surrounding whitespace removed.
pub open spec fn spec_trimmed(s: Seq<char>, a: int, b: int) -> Seq<char> {
    let lo = spec_trim_from(s, a, b);
    let hi = spec_trim_to(s, lo, b);
    s.subrange(lo, hi)
}

fn trim_from(s: &str, a: usize, b: usize) -> (r: usize)
    requires
        a <= b <= s@.len(),
    ensures
        r == spec_trim_from(s@, a as int, b as int),
        a <= r <= b,
    decreases b - a,
{
    if a >= b {
        a
    } else if is_ws_char(s.get_char(a)) {
        trim_from(s, a + 1, b)
    } else {
        a
    }
}

fn trim_to(s: &str, a: usize, b: usize) -> (r: usize)
    requires
        a <= b <= s@.len(),
    ensures
        r == spec_trim_to(s@, a as int, b as int),
        a <= r <= b,
    decreases b - a,
{
    if b <= a {
        b
    } else if is_ws_char(s.get_char(b - 1)) {
        trim_to(s, a, b - 1)
    } else {
        b
    }
}

/// The text of `s[a..b)` with surrounding whitespace removed, as an owned
/// string.
pub fn substring_trimmed(s: &str, a: usize, b: usize) -> (r: String)
    requires
        a <= b <= s@.len(),
    ensures
        r@ == spec_trimmed(s@, a as int, b as int),
{
    let lo = trim_from(s, a, b);
    let hi = trim_to(s, lo, b);
    s.substring_char(lo, hi).to_owned()
}

/// All characters are decimal digits.
pub open spec fn all_digits(t: Seq<char>) -> bool {
    forall|i: int| 0 <= i < t.len() ==> is_digit(#[trigger] t[i])
}

/// The value of a sequence of decimal digits, most significant first.
pub open spec fn dec_val(t: Seq<char>) -> nat
    decreases t.len(),
{
    if t.len() == 0 {
        0
    } else {
        dec_val(t.drop_last()) * 10 + (if t.last() as nat >= 48 {
            (t.last() as nat - 48) as nat
        } else {
            0
        })
    }
}

/// Longer digit prefixes have values at least as large.
pub proof fn lemma_dec_val_prefix(t: Seq<char>, i: int, j: int)
    requires
        0 <= i <= j <= t.len(),
    ensures
        dec_val(t.subrange(0, i)) <= dec_val(t.subrange(0, j)),
    decreases j - i,
{
    if i < j {
        lemma_dec_val_prefix(t, i, j - 1);
        assert(t.subrange(0, j).drop_last() =~= t.subrange(0, j - 1));
    }
}

/// The unsigned decimal interpretation of `t`: an optional `+`, then one
/// or more digits, with a value that fits `u32` (mirroring `u32`'s
/// standard string parse).
pub open spec fn spec_parse_u32(t: Seq<char>) -> Option<u32> {
    let digits = if t.len() > 0 && t[0] == '+' {
        t.drop_first()
    } else {
        t
    };
    if digits.len() >= 1 && all_digits(digits) && dec_val(digits) <= u32::MAX {
        Some(dec_val(digits) as u32)
    } else {
        None
    }
}

/// Whether `c` is a decimal digit, executably.
pub fn is_digit_char(c: char) -> (r: bool)
    ensures
        r == is_digit(c),
{
    '0' <= c && c <= '9'
}

pub(crate) fn parse_digits(s: &str, a: usize, b: usize) -> (r: Option<u32>)
    requires
        a <= b <= s@.len(),
    ensures
        (r is Some) == (b - a >= 1 && all_digits(s@.subrange(a as int, b as int)) && dec_val(
            s@.subrange(a as int, b as int),
        ) <= u32::MAX),
        r matches Some(v) ==> v == dec_val(s@.subrange(a as int, b as int)),
{
    let ghost digits = s@.subrange(a as int, b as int);
    if a == b {
        return None;
    }
    let mut acc: u64 = 0;
    let mut i: usize = a;
    while i < b
        invariant
            a <= i <= b <= s@.len(),
            digits == s@.subrange(a as int, b as int),
            forall|k: int| 0 <= k < i - a ==> is_digit(#[trigger] digits[k]),
            acc == dec_val(digits.subrange(0, i - a)),
            acc <= u32::MAX,
        decreases b - i,
    {
        let c = s.get_char(i);
        if !is_digit_char(c) {
            proof {
                assert(digits[i - a] == c);
            }
            return None;
        }
        let d: u64 = (c as u32 as u64) - 48;
        proof {
            assert(digits.subrange(0, i - a + 1).drop_last() =~= digits.subrange(0, i - a));
            assert(digits.subrange(0, i - a + 1).last() == digits[i - a]);
            assert(digits[i - a] == c);
        }
        let next: u64 = acc * 10 + d;
        if next > 0xFFFF_FFFF {
            proof {
                lemma_dec_val_prefix(digits, i - a + 1, digits.len() as int);
                assert(digits.subrange(0, digits.len() as int) =~= digits);
            }
            return None;
        }
        acc = next;
        i += 1;
    }
    proof {
        assert(digits.subrange(0, (b - a) as int) =~= digits);
    }
    Some(acc as u32)
}

/// Parses the trimmed text of `s[a..b)` as a `u32` (optional `+`, digits).
pub fn parse_u32_trimmed(s: &str, a: usize, b: usize) -> (r: Option<u32>)
    requires
        a <= b <= s@.len(),
    ensures
        r == spec_parse_u32(spec_trimmed(s@, a as int, b as int)),
{
    let lo = trim_from(s, a, b);
    let hi = trim_to(s, lo, b);
    let ghost t = spec_trimmed(s@, a as int, b as int);
    proof {
        assert(t == s@.subrange(lo as int, hi as int));
    }
    if lo < hi && s.get_char(lo) == '+' {
        proof {
            assert(t[0] == '+');
            assert(t.drop_first() =~= s@.subrange(lo + 1, hi as int));
        }
        parse_digits(s, lo + 1, hi)
    } else {
        proof {
            if t.len() > 0 {
                assert(t[0] == s@[lo as int]);
            }
        }
        parse_digits(s, lo, hi)
    }
}

/// Character-wise string equality.
pub fn str_eq(a: &str, b: &str) -> (r: bool)
    ensures
        r == (a@ == b@),
{
    let na = a.unicode_len();
    let nb = b.unicode_len();
    if na != nb {
        proof {
            if a@ == b@ {
                assert(a@.len() == b@.len());
            }
        }
        return false;
    }
    let mut i: usize = 0;
    while i < na
        invariant
            i <= na,
            na == a@.len(),
            na == b@.len(),
            forall|k: int| 0 <= k < i ==> a@[k] == b@[k],
        decreases na - i,
    {
        if a.get_char(i) != b.get_char(i) {
            proof {
                if a@ == b@ {
                    assert(a@[i as int] == b@[i as int]);
                }
            }
            return false;
        }
        i += 1;
    }
    proof {
        assert(a@ =~= b@);
    }
    true
}

/// The character for decimal digit `d`.
pub open spec fn digit_char(d: nat) -> char {
    (48 + d) as char
}

/// The decimal numeral of `n`, most significant digit first, without sign
/// or padding.
pub open spec fn dec_rep(n: nat) -> Seq<char>
    decreases n,
{
    if n < 10 {
        seq![digit_char(n)]
    } else {
        dec_rep(n / 10).push(digit_char(n % 10))
    }
}

/// The decimal numeral of `i`, with a leading `-` when negative.
pub open spec fn dec_rep_int(i: int) -> Seq<char> {
    if i < 0 {
        seq!['-'] + dec_rep((-i) as nat)
    } else {
        dec_rep(i as nat)
    }
}

fn dec_bytes(n: u64) -> (r: Vec<u8>)
    ensures
        ascii_view(r@) == dec_rep(n as nat),
        forall|i: int| 0 <= i < r@.len() ==> r@[i] < 128,
    decreases n,
{
    if n < 10 {
        let mut v: Vec<u8> = Vec::new();
        v.push(48 + n as u8);
        proof {
            assert(ascii_view(v@) =~= dec_rep(n as nat));
        }
        v
    } else {
        let mut v = dec_bytes(n / 10);
        v.push(48 + (n % 10) as u8);
        proof {
            assert(ascii_view(v@) =~= dec_rep(n as nat));
        }
        v
    }
}

/// Renders `n` as its decimal numeral.
pub fn u64_to_string(n: u64) -> (r: String)
    ensures
        r@ == dec_rep(n as nat),
{
    ascii_vec_to_string(dec_bytes(n))
}

/// Renders `n` as its decimal numeral.
pub fn usize_to_string(n: usize) -> (r: String)
    ensures
        r@ == dec_rep(n as nat),
{
    u64_to_string(n as u64)
}

/// Renders `i` as its decimal numeral, with a leading `-` when negative.
pub fn i64_to_string(i: i64) -> (r: String)
    ensures
        r@ == dec_rep_int(i as int),
{
    if i >= 0 {
        u64_to_string(i as u64)
    } else {
        let mag: u64 = ((-(i + 1)) as u64) + 1;
        let mut r = String::from_str("-");
        r.append(u64_to_string(mag).as_str());
        proof {
            reveal_strlit("-");
            assert(r@ =~= dec_rep_int(i as int));
        }
        r
    }
}

/// Renders `i` as its decimal numeral, with a leading `-` when negative.
pub fn isize_to_string(i: isize) -> (r: String)
    ensures
        r@ == dec_rep_int(i as int),
{
    i64_to_string(i as i64)
}

} // verus!
