//! The DAS (Dataset Attribute Structure) parser.
//!
//! A DAS block maps variable names to attribute maps; attributes typed
//! `Float32`/`Float64` keep their validated literal text (this library
//! carries no floating-point values), the integer kinds are parsed with
//! range checks, and text kinds have their surrounding quotes stripped.
//! Attributes standing at the top level of the block collect under the
//! reserved name `__global__`.

use vstd::prelude::*;

use crate::data::DataType;
use crate::errors::Error;
use crate::text::all_digits;
use crate::text::dec_val;
use crate::text::is_ws;
use crate::text::spec_find_char;
use crate::text::spec_skip_ws;

verus! {

/// One typed attribute value. The two float kinds hold the validated
/// literal text; the integer kinds hold parsed values.
#[derive(Clone, Debug)]
pub enum DasValue {
    Byte(i8),
    Int16(i16),
    UInt16(u16),
    Int32(i32),
    UInt32(u32),
    Float32(String),
    Float64(String),
    String(String),
    URL(String),
}

/// The mathematical contents of a `DasValue`.
pub enum DasValueView {
    Byte(i8),
    Int16(i16),
    UInt16(u16),
    Int32(i32),
    UInt32(u32),
    Float32(Seq<char>),
    Float64(Seq<char>),
    String(Seq<char>),
    URL(Seq<char>),
}

impl View for DasValue {
    type V = DasValueView;

    open spec fn view(&self) -> DasValueView {
        match self {
            DasValue::Byte(v) => DasValueView::Byte(*v),
            DasValue::Int16(v) => DasValueView::Int16(*v),
            DasValue::UInt16(v) => DasValueView::UInt16(*v),
            DasValue::Int32(v) => DasValueView::Int32(*v),
            DasValue::UInt32(v) => DasValueView::UInt32(*v),
            DasValue::Float32(t) => DasValueView::Float32(t@),
            DasValue::Float64(t) => DasValueView::Float64(t@),
            DasValue::String(t) => DasValueView::String(t@),
            DasValue::URL(t) => DasValueView::URL(t@),
        }
    }
}

/// One parsed attribute: its declared kind, name, and value.
#[derive(Clone, Debug)]
pub struct DasAttribute {
    pub data_type: DataType,
    pub name: String,
    pub value: DasValue,
}

/// The mathematical contents of a `DasAttribute`.
#[verifier::ext_equal]
pub struct DasAttributeView {
    pub data_type: DataType,
    pub name: Seq<char>,
    pub value: DasValueView,
}

impl View for DasAttribute {
    type V = DasAttributeView;

    open spec fn view(&self) -> DasAttributeView {
        DasAttributeView { data_type: self.data_type, name: self.name@, value: self.value@ }
    }
}

/// The signed decimal interpretation of `t` within `[lo, hi]`: an optional
/// sign (`-` only when `signed`), then one or more digits (mirroring the
/// standard integer string parses).
pub open spec fn spec_parse_int(t: Seq<char>, signed: bool, lo: int, hi: int) -> Option<int> {
    let neg = t.len() > 0 && t[0] == '-';
    let digits = if t.len() > 0 && (t[0] == '+' || t[0] == '-') {
        t.drop_first()
    } else {
        t
    };
    if neg && !signed {
        None
    } else if digits.len() >= 1 && all_digits(digits) {
        let v = if neg {
            -(dec_val(digits) as int)
        } else {
            dec_val(digits) as int
        };
        if lo <= v <= hi {
            Some(v)
        } else {
            None
        }
    } else {
        None
    }
}

/// The ASCII lowering of one character.
pub open spec fn lower_char(c: char) -> char {
    if 'A' <= c && c <= 'Z' {
        ((c as nat) + 32) as char
    } else {
        c
    }
}

/// `t` reads as `word` ignoring ASCII case.
pub open spec fn eq_ignore_case(t: Seq<char>, word: Seq<char>) -> bool {
    t.map_values(|c: char| lower_char(c)) == word
}

/// The digits-dot-digits shape of a float mantissa.
pub open spec fn is_mantissa(m: Seq<char>) -> bool {
    match spec_find_char(m, 0, '.') {
        Some(d) => {
            let before = m.subrange(0, d);
            let after = m.subrange(d + 1, m.len() as int);
            all_digits(after) && ((before.len() >= 1 && all_digits(before)) || (before.len()
                == 0 && after.len() >= 1))
        },
        None => m.len() >= 1 && all_digits(m),
    }
}

/// The optional-sign-then-digits shape of a float exponent.
pub open spec fn is_exponent(e: Seq<char>) -> bool {
    let digits = if e.len() > 0 && (e[0] == '+' || e[0] == '-') {
        e.drop_first()
    } else {
        e
    };
    digits.len() >= 1 && all_digits(digits)
}

/// Whether `u` (sign already removed) names an infinity or NaN.
pub open spec fn is_inf_nan(u: Seq<char>) -> bool {
    eq_ignore_case(u, "inf"@) || eq_ignore_case(u, "infinity"@) || eq_ignore_case(u, "nan"@)
}

/// Whether a mantissa-and-exponent body is well formed: the part before
/// the first `e`/`E` is a mantissa and the rest an exponent.
pub open spec fn is_number_body(u: Seq<char>) -> bool {
    match spec_find_char(u, 0, 'e') {
        Some(p) => is_mantissa(u.subrange(0, p)) && is_exponent(
            u.subrange(p + 1, u.len() as int),
        ),
        None => match spec_find_char(u, 0, 'E') {
            Some(p) => is_mantissa(u.subrange(0, p)) && is_exponent(
                u.subrange(p + 1, u.len() as int),
            ),
            None => is_mantissa(u),
        },
    }
}

/// Whether `t` is a well-formed float literal as the standard float string
/// parses accept it: optional sign, then `inf`, `infinity`, `nan` (any
/// ASCII case) or a decimal number with optional exponent.
pub open spec fn is_float_literal(t: Seq<char>) -> bool {
    let u = if t.len() > 0 && (t[0] == '+' || t[0] == '-') {
        t.drop_first()
    } else {
        t
    };
    is_inf_nan(u) || is_number_body(u)
}

/// `t` with one pair of surrounding double quotes removed.
pub open spec fn strip_quotes(t: Seq<char>) -> Seq<char> {
    if t.len() >= 2 && t[0] == '"' && t[t.len() - 1] == '"' {
        t.subrange(1, t.len() - 1)
    } else {
        t
    }
}

/// The value of a raw attribute text under a declared kind, when the text
/// is in the kind's domain.
pub open spec fn spec_attr_value(dt: DataType, raw: Seq<char>) -> Option<DasValueView> {
    match dt {
        DataType::Byte => match spec_parse_int(raw, true, -0x80, 0x7f) {
            Some(v) => Some(DasValueView::Byte(v as i8)),
            None => None,
        },
        DataType::Int16 => match spec_parse_int(raw, true, -0x8000, 0x7fff) {
            Some(v) => Some(DasValueView::Int16(v as i16)),
            None => None,
        },
        DataType::UInt16 => match spec_parse_int(raw, false, 0, 0xffff) {
            Some(v) => Some(DasValueView::UInt16(v as u16)),
            None => None,
        },
        DataType::Int32 => match spec_parse_int(raw, true, -0x8000_0000, 0x7fff_ffff) {
            Some(v) => Some(DasValueView::Int32(v as i32)),
            None => None,
        },
        DataType::UInt32 => match spec_parse_int(raw, false, 0, 0xffff_ffff) {
            Some(v) => Some(DasValueView::UInt32(v as u32)),
            None => None,
        },
        DataType::Float32 => if is_float_literal(raw) {
            Some(DasValueView::Float32(raw))
        } else {
            None
        },
        DataType::Float64 => if is_float_literal(raw) {
            Some(DasValueView::Float64(raw))
        } else {
            None
        },
        DataType::String => Some(DasValueView::String(strip_quotes(raw))),
        DataType::URL => Some(DasValueView::URL(strip_quotes(raw))),
    }
}

/// The first position at or after `i` whose character is whitespace (or
/// the end of `s`).
pub open spec fn spec_find_ws(s: Seq<char>, i: int) -> int
    decreases s.len() - i,
{
    if i < 0 || i >= s.len() {
        i
    } else if is_ws(s[i]) {
        i
    } else {
        spec_find_ws(s, i + 1)
    }
}

/// The structural part of one attribute line at `i`: the kind, the name
/// span, the raw value text, and the position after the `;`.
pub open spec fn spec_attr_shape(s: Seq<char>, i: int) -> Option<
    (int, DataType, Seq<char>, Seq<char>),
> {
    match DataType::spec_parse(s, i) {
        None => None,
        Some((j, dt)) => {
            let j2 = spec_skip_ws(s, j);
            let k = spec_find_ws(s, j2);
            let name = s.subrange(j2, k);
            let j3 = spec_skip_ws(s, k);
            match spec_find_char(s, j3, ';') {
                None => None,
                Some(q) => Some((q + 1, dt, name, s.subrange(j3, q))),
            }
        },
    }
}

/// One whole attribute line at `i`: its shape with the raw value read
/// under the declared kind.
pub open spec fn spec_parse_attribute(s: Seq<char>, i: int) -> Option<(int, DasAttributeView)> {
    match spec_attr_shape(s, i) {
        None => None,
        Some((end, dt, name, raw)) => match spec_attr_value(dt, raw) {
            None => None,
            Some(v) => Some((end, DasAttributeView { data_type: dt, name, value: v })),
        },
    }
}

fn find_ws(s: &str, i: usize) -> (r: usize)
    requires
        i <= s@.len(),
    ensures
        r == spec_find_ws(s@, i as int),
        i <= r <= s@.len(),
    decreases s@.len() - i,
{
    if i == s.unicode_len() {
        i
    } else if crate::text::is_ws_char(s.get_char(i)) {
        i
    } else {
        find_ws(s, i + 1)
    }
}

fn all_digits_range(s: &str, a: usize, b: usize) -> (r: bool)
    requires
        a <= b <= s@.len(),
    ensures
        r == all_digits(s@.subrange(a as int, b as int)),
{
    let ghost t = s@.subrange(a as int, b as int);
    let mut i: usize = a;
    while i < b
        invariant
            a <= i <= b <= s@.len(),
            t == s@.subrange(a as int, b as int),
            forall|k: int| 0 <= k < i - a ==> crate::text::is_digit(#[trigger] t[k]),
        decreases b - i,
    {
        if !crate::text::is_digit_char(s.get_char(i)) {
            proof {
                assert(t[i - a] == s@[i as int]);
            }
            return false;
        }
        i += 1;
    }
    true
}

fn find_sub(s: &str, a: usize, b: usize, k: usize, c: char) -> (r: Option<usize>)
    requires
        a + k <= b <= s@.len(),
    ensures
        (r is Some) == (spec_find_char(s@.subrange(a as int, b as int), k as int, c) is Some),
        r matches Some(p) ==> a + k <= p < b && spec_find_char(
            s@.subrange(a as int, b as int),
            k as int,
            c,
        ) == Some(p - a),
    decreases b - a - k,
{
    let ghost t = s@.subrange(a as int, b as int);
    proof {
        crate::text::lemma_find_char_bounds(t, k as int, c);
    }
    if a + k == b {
        None
    } else if s.get_char(a + k) == c {
        proof {
            assert(t[k as int] == c);
        }
        Some(a + k)
    } else {
        proof {
            assert(t[k as int] != c);
        }
        find_sub(s, a, b, k + 1, c)
    }
}

fn lower_char_exec(c: char) -> (r: char)
    ensures
        r == lower_char(c),
{
    if 'A' <= c && c <= 'Z' {
        (((c as u8) + 32) as char)
    } else {
        c
    }
}

fn is_exponent_range(s: &str, a: usize, b: usize) -> (r: bool)
    requires
        a <= b <= s@.len(),
    ensures
        r == is_exponent(s@.subrange(a as int, b as int)),
{
    let ghost e = s@.subrange(a as int, b as int);
    let (a2, _neg) = if a < b && (s.get_char(a) == '+' || s.get_char(a) == '-') {
        (a + 1, true)
    } else {
        (a, false)
    };
    proof {
        if a2 > a {
            assert(e[0] == s@[a as int]);
            assert(e.drop_first() =~= s@.subrange(a2 as int, b as int));
        } else {
            if e.len() > 0 {
                assert(e[0] == s@[a as int]);
            }
        }
    }
    a2 < b && all_digits_range(s, a2, b)
}

fn is_mantissa_range(s: &str, a: usize, b: usize) -> (r: bool)
    requires
        a <= b <= s@.len(),
    ensures
        r == is_mantissa(s@.subrange(a as int, b as int)),
{
    let ghost m = s@.subrange(a as int, b as int);
    match find_sub(s, a, b, 0, '.') {
        Some(dpos) => {
            proof {
                assert(m.subrange(0, dpos - a) =~= s@.subrange(a as int, dpos as int));
                assert(m.subrange(dpos - a + 1, m.len() as int) =~= s@.subrange(
                    dpos + 1,
                    b as int,
                ));
            }
            let digits_after = all_digits_range(s, dpos + 1, b);
            let before_ok = dpos > a && all_digits_range(s, a, dpos);
            let empty_before_ok = dpos == a && dpos + 1 < b;
            digits_after && (before_ok || empty_before_ok)
        },
        None => {
            a < b && all_digits_range(s, a, b)
        },
    }
}

fn is_float_literal_exec(s: &str, a: usize, b: usize) -> (r: bool)
    requires
        a <= b <= s@.len(),
    ensures
        r == is_float_literal(s@.subrange(a as int, b as int)),
{
    let ghost t = s@.subrange(a as int, b as int);
    let a2 = if a < b && (s.get_char(a) == '+' || s.get_char(a) == '-') {
        a + 1
    } else {
        a
    };
    let ghost u = s@.subrange(a2 as int, b as int);
    proof {
        if a2 > a {
            assert(t[0] == s@[a as int]);
            assert(t.drop_first() =~= u);
        } else {
            if t.len() > 0 {
                assert(t[0] == s@[a as int]);
            }
        }
    }
    if is_inf_nan_bounded(s, a2, b) {
        return true;
    }
    match find_sub(s, a2, b, 0, 'e') {
        Some(p) => {
            proof {
                assert(u.subrange(0, p - a2) =~= s@.subrange(a2 as int, p as int));
                assert(u.subrange(p - a2 + 1, u.len() as int) =~= s@.subrange(
                    p + 1,
                    b as int,
                ));
            }
            is_mantissa_range(s, a2, p) && is_exponent_range(s, p + 1, b)
        },
        None => {
            match find_sub(s, a2, b, 0, 'E') {
                Some(p) => {
                    proof {
                        assert(u.subrange(0, p - a2) =~= s@.subrange(a2 as int, p as int));
                        assert(u.subrange(p - a2 + 1, u.len() as int) =~= s@.subrange(
                            p + 1,
                            b as int,
                        ));
                    }
                    is_mantissa_range(s, a2, p) && is_exponent_range(s, p + 1, b)
                },
                None => is_mantissa_range(s, a2, b),
            }
        },
    }
}

fn is_inf_nan_bounded(s: &str, a: usize, b: usize) -> (r: bool)
    requires
        a <= b <= s@.len(),
    ensures
        r == is_inf_nan(s@.subrange(a as int, b as int)),
{
    let ghost u = s@.subrange(a as int, b as int);
    let r = word_eq_ci(s, a, b, "inf") || word_eq_ci(s, a, b, "infinity") || word_eq_ci(
        s,
        a,
        b,
        "nan",
    );
    r
}

fn word_eq_ci(s: &str, a: usize, b: usize, word: &str) -> (r: bool)
    requires
        a <= b <= s@.len(),
    ensures
        r == eq_ignore_case(s@.subrange(a as int, b as int), word@),
{
    let ghost t = s@.subrange(a as int, b as int);
    let m = word.unicode_len();
    if b - a != m {
        proof {
            if eq_ignore_case(t, word@) {
                assert(t.map_values(|c: char| lower_char(c)).len() == t.len());
            }
        }
        return false;
    }
    let mut i: usize = 0;
    while i < m
        invariant
            i <= m,
            a + m == b,
            b <= s@.len(),
            m == word@.len(),
            t == s@.subrange(a as int, b as int),
            forall|k: int| 0 <= k < i ==> lower_char(#[trigger] t[k]) == word@[k],
        decreases m - i,
    {
        if lower_char_exec(s.get_char(a + i)) != word.get_char(i) {
            proof {
                if eq_ignore_case(t, word@) {
                    assert(t.map_values(|c: char| lower_char(c))[i as int] == word@[i as int]);
                }
            }
            return false;
        }
        i += 1;
    }
    proof {
        assert(t.map_values(|c: char| lower_char(c)) =~= word@);
    }
    true
}

fn parse_int_range(s: &str, a: usize, b: usize, signed: bool, lo: i64, hi: i64) -> (r: Option<
    i64,
>)
    requires
        a <= b <= s@.len(),
        -0x8000_0000 <= lo <= hi <= 0xffff_ffff,
    ensures
        (r is Some) == (spec_parse_int(s@.subrange(a as int, b as int), signed, lo as int, hi as int)
            is Some),
        r matches Some(v) ==> spec_parse_int(
            s@.subrange(a as int, b as int),
            signed,
            lo as int,
            hi as int,
        ) == Some(v as int),
{
    let ghost t = s@.subrange(a as int, b as int);
    let mut neg = false;
    let mut a2 = a;
    if a < b && s.get_char(a) == '+' {
        a2 = a + 1;
    } else if a < b && s.get_char(a) == '-' {
        neg = true;
        a2 = a + 1;
    }
    proof {
        if t.len() > 0 {
            assert(t[0] == s@[a as int]);
        }
        if a2 > a {
            assert(t.drop_first() =~= s@.subrange(a2 as int, b as int));
        }
    }
    if neg && !signed {
        return None;
    }
    let mag = match crate::text::parse_digits(s, a2, b) {
        Some(m) => m,
        None => {
            proof {
                let digits = s@.subrange(a2 as int, b as int);
                if b - a2 >= 1 && all_digits(digits) {
                    crate::text::lemma_dec_val_prefix(digits, 0, digits.len() as int);
                    assert(dec_val(digits) > u32::MAX);
                }
            }
            return None;
        },
    };
    let v: i64 = if neg {
        -(mag as i64)
    } else {
        mag as i64
    };
    if lo <= v && v <= hi {
        Some(v)
    } else {
        None
    }
}

impl DasAttribute {
    /// Reads one attribute line at position `from` of `s`: the kind, the
    /// name, and the raw value up to `;`, read under the kind's domain.
    /// A structurally broken line is a `ParseError`; a structurally sound
    /// line whose raw value is outside the kind's domain reports
    /// `InvalidAttributeValue` with the raw text.
    pub fn parse(s: &str, from: usize) -> (r: Result<(usize, DasAttribute), Error>)
        requires
            from <= s@.len(),
        ensures
            (r is Ok) == (spec_parse_attribute(s@, from as int) is Some),
            r matches Ok(p) ==> spec_parse_attribute(s@, from as int) == Some(
                (p.0 as int, p.1@),
            ) && from < p.0 <= s@.len(),
            spec_attr_shape(s@, from as int) is None ==> (r matches Err(e) && e is ParseError),
            spec_attr_shape(s@, from as int) matches Some(sh) ==> (spec_attr_value(sh.1, sh.3)
                is None ==> (r matches Err(e) && e matches Error::InvalidAttributeValue(t) && t@
                == sh.3)),
    {
        let _sn = s.unicode_len();
        let (j, dt) = match DataType::parse(s, from) {
            Some(p) => p,
            None => {
                return Err(Error::ParseError);
            },
        };
        let j2 = crate::text::skip_ws(s, j);
        let k = find_ws(s, j2);
        let name = s.substring_char(j2, k).to_owned();
        let j3 = crate::text::skip_ws(s, k);
        let q = match crate::text::find_char(s, j3, ';') {
            Some(q) => q,
            None => {
                return Err(Error::ParseError);
            },
        };
        let ghost raw = s@.subrange(j3 as int, q as int);
        let value = match dt {
            DataType::Byte => {
                match parse_int_range(s, j3, q, true, -0x80, 0x7f) {
                    Some(v) => DasValue::Byte(v as i8),
                    None => {
                        return Err(Error::InvalidAttributeValue(s.substring_char(j3, q).to_owned()));
                    },
                }
            },
            DataType::Int16 => {
                match parse_int_range(s, j3, q, true, -0x8000, 0x7fff) {
                    Some(v) => DasValue::Int16(v as i16),
                    None => {
                        return Err(Error::InvalidAttributeValue(s.substring_char(j3, q).to_owned()));
                    },
                }
            },
            DataType::UInt16 => {
                match parse_int_range(s, j3, q, false, 0, 0xffff) {
                    Some(v) => DasValue::UInt16(v as u16),
                    None => {
                        return Err(Error::InvalidAttributeValue(s.substring_char(j3, q).to_owned()));
                    },
                }
            },
            DataType::Int32 => {
                match parse_int_range(s, j3, q, true, -0x8000_0000, 0x7fff_ffff) {
                    Some(v) => DasValue::Int32(v as i32),
                    None => {
                        return Err(Error::InvalidAttributeValue(s.substring_char(j3, q).to_owned()));
                    },
                }
            },
            DataType::UInt32 => {
                match parse_int_range(s, j3, q, false, 0, 0xffff_ffff) {
                    Some(v) => DasValue::UInt32(v as u32),
                    None => {
                        return Err(Error::InvalidAttributeValue(s.substring_char(j3, q).to_owned()));
                    },
                }
            },
            DataType::Float32 => {
                if is_float_literal_exec(s, j3, q) {
                    DasValue::Float32(s.substring_char(j3, q).to_owned())
                } else {
                    return Err(Error::InvalidAttributeValue(s.substring_char(j3, q).to_owned()));
                }
            },
            DataType::Float64 => {
                if is_float_literal_exec(s, j3, q) {
                    DasValue::Float64(s.substring_char(j3, q).to_owned())
                } else {
                    return Err(Error::InvalidAttributeValue(s.substring_char(j3, q).to_owned()));
                }
            },
            DataType::String => DasValue::String(strip_quotes_exec(s, j3, q)),
            DataType::URL => DasValue::URL(strip_quotes_exec(s, j3, q)),
        };
        Ok((q + 1, DasAttribute { data_type: dt, name, value }))
    }
}

fn strip_quotes_exec(s: &str, a: usize, b: usize) -> (r: String)
    requires
        a <= b <= s@.len(),
    ensures
        r@ == strip_quotes(s@.subrange(a as int, b as int)),
{
    let ghost t = s@.subrange(a as int, b as int);
    if b - a >= 2 && s.get_char(a) == '"' && s.get_char(b - 1) == '"' {
        proof {
            assert(t[0] == s@[a as int]);
            assert(t[t.len() - 1] == s@[b - 1]);
            assert(t.subrange(1, t.len() - 1) =~= s@.subrange(a + 1, b - 1));
        }
        s.substring_char(a + 1, b - 1).to_owned()
    } else {
        proof {
            if t.len() >= 2 {
                assert(t[0] == s@[a as int]);
                assert(t[t.len() - 1] == s@[b - 1]);
            }
        }
        s.substring_char(a, b).to_owned()
    }
}

/// The attribute lines of one variable block, closed by a whitespace-led
/// `}`.
pub open spec fn spec_parse_attr_list(s: Seq<char>, i: int) -> Option<
    (int, Seq<DasAttributeView>),
>
    decreases s.len() - i,
{
    if i < 0 || i > s.len() {
        None
    } else {
        let w = spec_skip_ws(s, i);
        if crate::text::match_at(s, w, "}"@) {
            Some((w + 1, Seq::empty()))
        } else if w < i || w > s.len() {
            None
        } else {
            match spec_parse_attribute(s, w) {
                None => None,
                Some((j, at)) => if crate::dds::at_char(s, j, '\n') && i < j + 1 <= s.len() {
                    match spec_parse_attr_list(s, j + 1) {
                        None => None,
                        Some((k, rest)) => Some((k, seq![at] + rest)),
                    }
                } else {
                    None
                },
            }
        }
    }
}

/// One named variable block: the name, `{`, attribute lines, `}`.
pub open spec fn spec_parse_variable(s: Seq<char>, i: int) -> Option<
    (int, (Seq<char>, Seq<DasAttributeView>)),
> {
    if i < 0 || i > s.len() {
        None
    } else {
        let w = spec_skip_ws(s, i);
        let k = spec_find_ws(s, w);
        let name = s.subrange(w, k);
        let w2 = spec_skip_ws(s, k);
        if crate::text::match_at(s, w2, "{"@) && crate::dds::at_char(s, w2 + 1, '\n') {
            match spec_parse_attr_list(s, w2 + 2) {
                None => None,
                Some((end, attrs)) => Some((end, (name, attrs))),
            }
        } else {
            None
        }
    }
}

/// One item of the root block: a variable block, or a loose top-level
/// attribute.
pub enum DasItemView {
    Variable(Seq<char>, Seq<DasAttributeView>),
    Global(DasAttributeView),
}

/// One item at position `i`: a variable block when one parses, else a
/// loose attribute.
pub open spec fn spec_parse_item(s: Seq<char>, i: int) -> Option<(int, DasItemView)> {
    if i < 0 || i > s.len() {
        None
    } else {
        match spec_parse_variable(s, i) {
            Some((j, nv)) => Some((j, DasItemView::Variable(nv.0, nv.1))),
            None => {
                let w = spec_skip_ws(s, i);
                match spec_parse_attribute(s, w) {
                    Some((j, at)) => Some((j, DasItemView::Global(at))),
                    None => None,
                }
            },
        }
    }
}

/// The newline-terminated item list of the root block, closed by `}`.
pub open spec fn spec_parse_items(s: Seq<char>, i: int) -> Option<(int, Seq<DasItemView>)>
    decreases s.len() - i,
{
    if i < 0 || i > s.len() {
        None
    } else if crate::text::match_at(s, i, "}"@) {
        Some((i + 1, Seq::empty()))
    } else {
        match spec_parse_item(s, i) {
            None => None,
            Some((j, it)) => if crate::dds::at_char(s, j, '\n') && i < j + 1 <= s.len() {
                match spec_parse_items(s, j + 1) {
                    None => None,
                    Some((k, rest)) => Some((k, seq![it] + rest)),
                }
            } else {
                None
            },
        }
    }
}

/// A whole DAS document: `Attributes {`, the item list, `}`.
pub open spec fn spec_parse_das(s: Seq<char>, i: int) -> Option<(int, Seq<DasItemView>)> {
    if !crate::text::match_at(s, i, "Attributes {"@) {
        None
    } else if !crate::dds::at_char(s, i + 12, '\n') {
        None
    } else {
        spec_parse_items(s, i + 13)
    }
}

/// The first attribute at or after `i` named `name`.
pub open spec fn spec_find_attr(attrs: Seq<DasAttributeView>, name: Seq<char>, i: int) -> Option<
    int,
>
    decreases attrs.len() - i,
{
    if i < 0 || i >= attrs.len() {
        None
    } else if attrs[i].name == name {
        Some(i)
    } else {
        spec_find_attr(attrs, name, i + 1)
    }
}

/// Replaces the first attribute with `at`'s name, or appends `at`.
pub open spec fn spec_upsert_attr(
    attrs: Seq<DasAttributeView>,
    at: DasAttributeView,
) -> Seq<DasAttributeView> {
    match spec_find_attr(attrs, at.name, 0) {
        Some(i) => attrs.update(i, at),
        None => attrs.push(at),
    }
}

/// The attribute map a parsed attribute list folds to, later lines
/// replacing earlier ones of the same name.
pub open spec fn spec_fold_attrs(list: Seq<DasAttributeView>) -> Seq<DasAttributeView>
    decreases list.len(),
{
    if list.len() == 0 {
        Seq::empty()
    } else {
        spec_upsert_attr(spec_fold_attrs(list.drop_last()), list.last())
    }
}

/// The first variable entry at or after `i` named `name`.
pub open spec fn spec_find_var(
    vars: Seq<(Seq<char>, Seq<DasAttributeView>)>,
    name: Seq<char>,
    i: int,
) -> Option<int>
    decreases vars.len() - i,
{
    if i < 0 || i >= vars.len() {
        None
    } else if vars[i].0 == name {
        Some(i)
    } else {
        spec_find_var(vars, name, i + 1)
    }
}

/// Replaces the first entry named `name`, or appends one.
pub open spec fn spec_upsert_var(
    vars: Seq<(Seq<char>, Seq<DasAttributeView>)>,
    name: Seq<char>,
    attrs: Seq<DasAttributeView>,
) -> Seq<(Seq<char>, Seq<DasAttributeView>)> {
    match spec_find_var(vars, name, 0) {
        Some(i) => vars.update(i, (name, attrs)),
        None => vars.push((name, attrs)),
    }
}

/// The attribute map of the entry named `name`, if present.
pub open spec fn spec_get_var(
    vars: Seq<(Seq<char>, Seq<DasAttributeView>)>,
    name: Seq<char>,
) -> Option<Seq<DasAttributeView>> {
    match spec_find_var(vars, name, 0) {
        Some(i) => Some(vars[i].1),
        None => None,
    }
}

/// The variable map a parsed item list folds to: variable blocks become
/// entries (later blocks replacing earlier ones of the same name), and
/// loose attributes collect under `__global__`.
pub open spec fn spec_fold_items(items: Seq<DasItemView>) -> Seq<
    (Seq<char>, Seq<DasAttributeView>),
>
    decreases items.len(),
{
    if items.len() == 0 {
        Seq::empty()
    } else {
        let prev = spec_fold_items(items.drop_last());
        match items.last() {
            DasItemView::Variable(n, attrs) => spec_upsert_var(prev, n, spec_fold_attrs(attrs)),
            DasItemView::Global(at) => {
                let g = match spec_get_var(prev, "__global__"@) {
                    Some(a) => a,
                    None => Seq::empty(),
                };
                spec_upsert_var(prev, "__global__"@, spec_upsert_attr(g, at))
            },
        }
    }
}

/// The attribute map of one variable: attribute lines in block order,
/// later lines replacing earlier ones of the same name.
#[derive(Clone, Debug)]
pub struct DasVariable {
    attrs: Vec<DasAttribute>,
}

impl View for DasVariable {
    type V = Seq<DasAttributeView>;

    closed spec fn view(&self) -> Seq<DasAttributeView> {
        self.attrs@.map_values(|a: DasAttribute| a@)
    }
}

impl DasVariable {
    /// The number of attributes held.
    pub fn len(&self) -> (r: usize)
        ensures
            r == self@.len(),
    {
        self.attrs.len()
    }

    /// The first attribute named `name`, if any.
    pub fn get(&self, name: &str) -> (r: Option<&DasAttribute>)
        ensures
            (r is Some) == (spec_find_attr(self@, name@, 0) is Some),
            r matches Some(at) ==> (spec_find_attr(self@, name@, 0) matches Some(i) && at@
                == self@[i]),
    {
        let ghost attrs = self@;
        let n = self.attrs.len();
        let mut i: usize = 0;
        while i < n
            invariant
                i <= n,
                n == self.attrs@.len(),
                attrs == self@,
                attrs.len() == n,
                forall|k: int| 0 <= k < n ==> attrs[k] == (#[trigger] self.attrs@[k])@,
                forall|k: int| 0 <= k < i ==> (#[trigger] attrs[k]).name != name@,
            decreases n - i,
        {
            if crate::text::str_eq(self.attrs[i].name.as_str(), name) {
                proof {
                    lemma_find_attr_skip(attrs, name@, 0, i as int);
                }
                return Some(&self.attrs[i]);
            }
            i += 1;
        }
        proof {
            lemma_find_attr_skip(attrs, name@, 0, n as int);
        }
        None
    }

    /// Whether an attribute named `name` is held.
    pub fn contains_key(&self, name: &str) -> (r: bool)
        ensures
            r == (spec_find_attr(self@, name@, 0) is Some),
    {
        match self.get(name) {
            Some(_) => true,
            None => false,
        }
    }
}

proof fn lemma_find_attr_skip(attrs: Seq<DasAttributeView>, name: Seq<char>, j: int, i: int)
    requires
        0 <= j <= i <= attrs.len(),
        forall|k: int| j <= k < i ==> (#[trigger] attrs[k]).name != name,
    ensures
        spec_find_attr(attrs, name, j) == spec_find_attr(attrs, name, i),
    decreases i - j,
{
    if j < i {
        lemma_find_attr_skip(attrs, name, j + 1, i);
    }
}

proof fn lemma_find_var_skip(
    vars: Seq<(Seq<char>, Seq<DasAttributeView>)>,
    name: Seq<char>,
    j: int,
    i: int,
)
    requires
        0 <= j <= i <= vars.len(),
        forall|k: int| j <= k < i ==> (#[trigger] vars[k]).0 != name,
    ensures
        spec_find_var(vars, name, j) == spec_find_var(vars, name, i),
    decreases i - j,
{
    if j < i {
        lemma_find_var_skip(vars, name, j + 1, i);
    }
}

/// The parsed form of a whole DAS block: variable names mapped to their
/// attribute maps, with loose top-level attributes under `__global__`.
#[derive(Clone, Debug)]
pub struct DasAttributes {
    vars: Vec<(String, DasVariable)>,
}

impl View for DasAttributes {
    type V = Seq<(Seq<char>, Seq<DasAttributeView>)>;

    closed spec fn view(&self) -> Seq<(Seq<char>, Seq<DasAttributeView>)> {
        self.vars@.map_values(|p: (String, DasVariable)| (p.0@, p.1@))
    }
}

impl DasAttributes {
    /// The number of variable entries (counting `__global__` when loose
    /// attributes were present).
    pub fn len(&self) -> (r: usize)
        ensures
            r == self@.len(),
    {
        self.vars.len()
    }

    /// The first entry named `name`, if any.
    pub fn get(&self, name: &str) -> (r: Option<&DasVariable>)
        ensures
            (r is Some) == (spec_find_var(self@, name@, 0) is Some),
            r matches Some(v) ==> (spec_find_var(self@, name@, 0) matches Some(i) && v@
                == self@[i].1),
    {
        let ghost vars = self@;
        let n = self.vars.len();
        let mut i: usize = 0;
        while i < n
            invariant
                i <= n,
                n == self.vars@.len(),
                vars == self@,
                vars.len() == n,
                forall|k: int| 0 <= k < n ==> vars[k] == ((#[trigger] self.vars@[k]).0@,
                self.vars@[k].1@),
                forall|k: int| 0 <= k < i ==> (#[trigger] vars[k]).0 != name@,
            decreases n - i,
        {
            if crate::text::str_eq(self.vars[i].0.as_str(), name) {
                proof {
                    lemma_find_var_skip(vars, name@, 0, i as int);
                }
                return Some(&self.vars[i].1);
            }
            i += 1;
        }
        proof {
            lemma_find_var_skip(vars, name@, 0, n as int);
        }
        None
    }

    /// Whether an entry named `name` exists.
    pub fn contains_key(&self, name: &str) -> (r: bool)
        ensures
            r == (spec_find_var(self@, name@, 0) is Some),
    {
        match self.get(name) {
            Some(_) => true,
            None => false,
        }
    }
}

fn upsert_attr(attrs: &mut Vec<DasAttribute>, at: DasAttribute)
    ensures
        final(attrs)@.map_values(|a: DasAttribute| a@) == spec_upsert_attr(
            old(attrs)@.map_values(|a: DasAttribute| a@),
            at@,
        ),
{
    let ghost view = attrs@.map_values(|a: DasAttribute| a@);
    let n = attrs.len();
    let mut i: usize = 0;
    while i < n
        invariant
            i <= n,
            n == attrs@.len(),
            view == attrs@.map_values(|a: DasAttribute| a@),
            view == old(attrs)@.map_values(|a: DasAttribute| a@),
            view.len() == n,
            forall|k: int| 0 <= k < n ==> view[k] == (#[trigger] attrs@[k])@,
            forall|k: int| 0 <= k < i ==> (#[trigger] view[k]).name != at@.name,
        decreases n - i,
    {
        if crate::text::str_eq(attrs[i].name.as_str(), at.name.as_str()) {
            proof {
                assert(view[i as int].name == at@.name);
            }
            proof {
                lemma_find_attr_skip(view, at@.name, 0, i as int);
            }
            let _ = attrs.remove(i);
            attrs.insert(i, at);
            proof {
                assert(attrs@.map_values(|a: DasAttribute| a@) =~= view.update(i as int, at@));
            }
            return ;
        }
        i += 1;
    }
    proof {
        lemma_find_attr_skip(view, at@.name, 0, n as int);
    }
    attrs.push(at);
    proof {
        assert(attrs@.map_values(|a: DasAttribute| a@) =~= view.push(at@));
    }
}

fn build_variable(list: Vec<DasAttribute>) -> (r: DasVariable)
    ensures
        r@ == spec_fold_attrs(list@.map_values(|a: DasAttribute| a@)),
{
    let ghost lv = list@.map_values(|a: DasAttribute| a@);
    let n = list.len();
    let mut rest = list;
    let mut attrs: Vec<DasAttribute> = Vec::new();
    let mut i: usize = 0;
    proof {
        assert(attrs@.map_values(|a: DasAttribute| a@) =~= spec_fold_attrs(
            lv.subrange(0, 0),
        ));
    }
    while i < n
        invariant
            i <= n,
            n == lv.len(),
            rest@.len() == n - i,
            forall|j: int| 0 <= j < n - i ==> (#[trigger] rest@[j])@ == lv[i + j],
            attrs@.map_values(|a: DasAttribute| a@) == spec_fold_attrs(
                lv.subrange(0, i as int),
            ),
        decreases n - i,
    {
        let at = rest.remove(0);
        proof {
            assert(lv.subrange(0, i + 1).drop_last() =~= lv.subrange(0, i as int));
            assert(lv.subrange(0, i + 1).last() == lv[i as int]);
        }
        upsert_attr(&mut attrs, at);
        i += 1;
    }
    proof {
        assert(lv.subrange(0, n as int) =~= lv);
    }
    DasVariable { attrs }
}

fn parse_attr_list(s: &str, i: usize) -> (r: Option<(usize, Vec<DasAttribute>)>)
    requires
        i <= s@.len(),
    ensures
        (r is Some) == (spec_parse_attr_list(s@, i as int) is Some),
        r matches Some(p) ==> spec_parse_attr_list(s@, i as int) == Some(
            (p.0 as int, p.1@.map_values(|a: DasAttribute| a@)),
        ) && i < p.0 <= s@.len(),
    decreases s@.len() - i,
{
    let _sn = s.unicode_len();
    proof {
        reveal_strlit("}");
    }
    let w = crate::text::skip_ws(s, i);
    if crate::text::match_lit(s, w, "}") {
        let out: Vec<DasAttribute> = Vec::new();
        proof {
            assert(out@.map_values(|a: DasAttribute| a@) =~= Seq::<DasAttributeView>::empty());
        }
        return Some((w + 1, out));
    }
    let (j, at) = match DasAttribute::parse(s, w) {
        Ok(p) => p,
        Err(_) => {
            return None;
        },
    };
    if !crate::dds::check_char(s, j, '\n') {
        return None;
    }
    let (k, rest) = match parse_attr_list(s, j + 1) {
        Some(p) => p,
        None => {
            return None;
        },
    };
    let mut out = rest;
    out.insert(0, at);
    proof {
        assert(out@.map_values(|a: DasAttribute| a@) =~= seq![out@[0]@]
            + out@.drop_first().map_values(|a: DasAttribute| a@));
    }
    Some((k, out))
}

/// Reads one named variable block at position `from` of `s`, folding its
/// attribute lines into an attribute map.
pub fn parse_das_variable(s: &str, from: usize) -> (r: Option<(usize, (String, DasVariable))>)
    requires
        from <= s@.len(),
    ensures
        (r is Some) == (spec_parse_variable(s@, from as int) is Some),
        r matches Some(p) ==> (spec_parse_variable(s@, from as int) matches Some(q) && q.0
            == p.0 as int && p.1.0@ == q.1.0 && p.1.1@ == spec_fold_attrs(q.1.1)),
{
    let _sn = s.unicode_len();
    proof {
        reveal_strlit("{");
    }
    let w = crate::text::skip_ws(s, from);
    let k = find_ws(s, w);
    let name = s.substring_char(w, k).to_owned();
    let w2 = crate::text::skip_ws(s, k);
    if !(crate::text::match_lit(s, w2, "{") && crate::dds::check_char(s, w2 + 1, '\n')) {
        return None;
    }
    let (end, attrs) = match parse_attr_list(s, w2 + 2) {
        Some(p) => p,
        None => {
            return None;
        },
    };
    Some((end, (name, build_variable(attrs))))
}

enum DasItem {
    Variable(String, Vec<DasAttribute>),
    Global(DasAttribute),
}

/// The mathematical contents of one parsed item.
spec fn das_item_view(it: DasItem) -> DasItemView {
    match it {
        DasItem::Variable(n, attrs) => DasItemView::Variable(
            n@,
            attrs@.map_values(|a: DasAttribute| a@),
        ),
        DasItem::Global(at) => DasItemView::Global(at@),
    }
}

fn parse_item(s: &str, i: usize) -> (r: Option<(usize, DasItem)>)
    requires
        i <= s@.len(),
    ensures
        (r is Some) == (spec_parse_item(s@, i as int) is Some),
        r matches Some(p) ==> spec_parse_item(s@, i as int) == Some(
            (p.0 as int, das_item_view(p.1)),
        ) && p.0 <= s@.len(),
{
    let _sn = s.unicode_len();
    proof {
        reveal_strlit("{");
    }
    let w = crate::text::skip_ws(s, i);
    let k = find_ws(s, w);
    let w2 = crate::text::skip_ws(s, k);
    if crate::text::match_lit(s, w2, "{") && crate::dds::check_char(s, w2 + 1, '\n') {
        let name = s.substring_char(w, k).to_owned();
        match parse_attr_list(s, w2 + 2) {
            Some((end, attrs)) => {
                return Some((end, DasItem::Variable(name, attrs)));
            },
            None => {},
        }
    }
    match DasAttribute::parse(s, w) {
        Ok((j, at)) => Some((j, DasItem::Global(at))),
        Err(_) => None,
    }
}

fn parse_items(s: &str, i: usize) -> (r: Option<(usize, Vec<DasItem>)>)
    requires
        i <= s@.len(),
    ensures
        (r is Some) == (spec_parse_items(s@, i as int) is Some),
        r matches Some(p) ==> spec_parse_items(s@, i as int) == Some(
            (p.0 as int, p.1@.map_values(|it: DasItem| das_item_view(it))),
        ) && i < p.0 <= s@.len(),
    decreases s@.len() - i,
{
    let _sn = s.unicode_len();
    proof {
        reveal_strlit("}");
    }
    if crate::text::match_lit(s, i, "}") {
        let out: Vec<DasItem> = Vec::new();
        proof {
            assert(out@.map_values(|it: DasItem| das_item_view(it)) =~= Seq::<
                DasItemView,
            >::empty());
        }
        return Some((i + 1, out));
    }
    let (j, it) = match parse_item(s, i) {
        Some(p) => p,
        None => {
            return None;
        },
    };
    if !crate::dds::check_char(s, j, '\n') {
        return None;
    }
    if !(i < j + 1) {
        return None;
    }
    let (k, rest) = match parse_items(s, j + 1) {
        Some(p) => p,
        None => {
            return None;
        },
    };
    let mut out = rest;
    out.insert(0, it);
    proof {
        assert(out@.map_values(|x: DasItem| das_item_view(x)) =~= seq![das_item_view(out@[0])]
            + out@.drop_first().map_values(|x: DasItem| das_item_view(x)));
    }
    Some((k, out))
}

fn upsert_var(vars: &mut Vec<(String, DasVariable)>, name: String, dv: DasVariable)
    ensures
        final(vars)@.map_values(|p: (String, DasVariable)| (p.0@, p.1@)) == spec_upsert_var(
            old(vars)@.map_values(|p: (String, DasVariable)| (p.0@, p.1@)),
            name@,
            dv@,
        ),
{
    let ghost view = vars@.map_values(|p: (String, DasVariable)| (p.0@, p.1@));
    let n = vars.len();
    let mut i: usize = 0;
    while i < n
        invariant
            i <= n,
            n == vars@.len(),
            view == vars@.map_values(|p: (String, DasVariable)| (p.0@, p.1@)),
            view == old(vars)@.map_values(|p: (String, DasVariable)| (p.0@, p.1@)),
            view.len() == n,
            forall|k: int| 0 <= k < n ==> view[k] == ((#[trigger] vars@[k]).0@, vars@[k].1@),
            forall|k: int| 0 <= k < i ==> (#[trigger] view[k]).0 != name@,
        decreases n - i,
    {
        if crate::text::str_eq(vars[i].0.as_str(), name.as_str()) {
            proof {
                assert(view[i as int].0 == name@);
            }
            proof {
                lemma_find_var_skip(view, name@, 0, i as int);
            }
            let _ = vars.remove(i);
            vars.insert(i, (name, dv));
            proof {
                assert(vars@.map_values(|p: (String, DasVariable)| (p.0@, p.1@)) =~= view.update(
                    i as int,
                    (name@, dv@),
                ));
            }
            return ;
        }
        i += 1;
    }
    proof {
        lemma_find_var_skip(view, name@, 0, n as int);
    }
    vars.push((name, dv));
    proof {
        assert(vars@.map_values(|p: (String, DasVariable)| (p.0@, p.1@)) =~= view.push(
            (name@, dv@),
        ));
    }
}

fn global_upsert(vars: &mut Vec<(String, DasVariable)>, at: DasAttribute)
    ensures
        final(vars)@.map_values(|p: (String, DasVariable)| (p.0@, p.1@)) == spec_upsert_var(
            old(vars)@.map_values(|p: (String, DasVariable)| (p.0@, p.1@)),
            "__global__"@,
            spec_upsert_attr(
                match spec_get_var(
                    old(vars)@.map_values(|p: (String, DasVariable)| (p.0@, p.1@)),
                    "__global__"@,
                ) {
                    Some(a) => a,
                    None => Seq::empty(),
                },
                at@,
            ),
        ),
{
    let ghost view = vars@.map_values(|p: (String, DasVariable)| (p.0@, p.1@));
    let gname = String::from_str("__global__");
    let n = vars.len();
    let mut i: usize = 0;
    while i < n
        invariant
            i <= n,
            n == vars@.len(),
            view == vars@.map_values(|p: (String, DasVariable)| (p.0@, p.1@)),
            view == old(vars)@.map_values(|p: (String, DasVariable)| (p.0@, p.1@)),
            view.len() == n,
            gname@ == "__global__"@,
            forall|k: int| 0 <= k < n ==> view[k] == ((#[trigger] vars@[k]).0@, vars@[k].1@),
            forall|k: int| 0 <= k < i ==> (#[trigger] view[k]).0 != gname@,
        decreases n - i,
    {
        if crate::text::str_eq(vars[i].0.as_str(), gname.as_str()) {
            proof {
                assert(view[i as int].0 == gname@);
                lemma_find_var_skip(view, gname@, 0, i as int);
            }
            let (nm, dv) = vars.remove(i);
            let mut dv2 = dv;
            let ghost old_attrs = dv2@;
            upsert_attr(&mut dv2.attrs, at);
            proof {
                assert(dv2@ == spec_upsert_attr(old_attrs, at@));
            }
            vars.insert(i, (nm, dv2));
            proof {
                assert(vars@.map_values(|p: (String, DasVariable)| (p.0@, p.1@)) =~= view.update(
                    i as int,
                    (view[i as int].0, spec_upsert_attr(view[i as int].1, at@)),
                ));
                assert(view.update(
                    i as int,
                    (view[i as int].0, spec_upsert_attr(view[i as int].1, at@)),
                ) =~= spec_upsert_var(
                    view,
                    "__global__"@,
                    spec_upsert_attr(view[i as int].1, at@),
                ));
            }
            return ;
        }
        i += 1;
    }
    proof {
        lemma_find_var_skip(view, gname@, 0, n as int);
    }
    let ghost at_view = at@;
    let mut fresh: Vec<DasAttribute> = Vec::new();
    fresh.push(at);
    let dv = DasVariable { attrs: fresh };
    proof {
        assert(dv@ =~= seq![at_view]);
        assert(spec_upsert_attr(Seq::<DasAttributeView>::empty(), at_view) =~= seq![at_view]);
    }
    vars.push((gname, dv));
    proof {
        assert(vars@.map_values(|p: (String, DasVariable)| (p.0@, p.1@)) =~= view.push(
            ("__global__"@, dv@),
        ));
    }
}

/// Parses a whole DAS document: `Ok` exactly on the texts the DAS grammar
/// accepts, with the folded variable map pinned to the grammar's reading;
/// `ParseError` otherwise.
pub fn parse_das_attributes(input: &str) -> (r: Result<DasAttributes, Error>)
    ensures
        (r is Ok) == (spec_parse_das(input@, 0) is Some),
        r matches Ok(a) ==> (spec_parse_das(input@, 0) matches Some(p) && a@
            == spec_fold_items(p.1)),
        r matches Err(e) ==> e is ParseError,
{
    let _sn = input.unicode_len();
    proof {
        reveal_strlit("Attributes {");
    }
    if !crate::text::match_lit(input, 0, "Attributes {") {
        return Err(Error::ParseError);
    }
    if !crate::dds::check_char(input, 12, '\n') {
        return Err(Error::ParseError);
    }
    let (_, items) = match parse_items(input, 13) {
        Some(p) => p,
        None => {
            return Err(Error::ParseError);
        },
    };
    let ghost iv = items@.map_values(|it: DasItem| das_item_view(it));
    let n = items.len();
    let mut rest = items;
    let mut vars: Vec<(String, DasVariable)> = Vec::new();
    let mut i: usize = 0;
    proof {
        assert(vars@.map_values(|p: (String, DasVariable)| (p.0@, p.1@)) =~= spec_fold_items(
            iv.subrange(0, 0),
        ));
    }
    while i < n
        invariant
            i <= n,
            n == iv.len(),
            rest@.len() == n - i,
            forall|j: int| 0 <= j < n - i ==> das_item_view(#[trigger] rest@[j]) == iv[i + j],
            vars@.map_values(|p: (String, DasVariable)| (p.0@, p.1@)) == spec_fold_items(
                iv.subrange(0, i as int),
            ),
        decreases n - i,
    {
        let it = rest.remove(0);
        proof {
            assert(iv.subrange(0, i + 1).drop_last() =~= iv.subrange(0, i as int));
            assert(iv.subrange(0, i + 1).last() == iv[i as int]);
        }
        match it {
            DasItem::Variable(name, attrs) => {
                let dv = build_variable(attrs);
                upsert_var(&mut vars, name, dv);
            },
            DasItem::Global(at) => {
                global_upsert(&mut vars, at);
            },
        }
        i += 1;
    }
    proof {
        assert(iv.subrange(0, n as int) =~= iv);
    }
    Ok(DasAttributes { vars })
}

} // verus!
