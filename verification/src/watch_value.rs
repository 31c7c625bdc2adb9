//! Value kinds and access rights of watched variables, and the text codec
//! of the integer and boolean kinds: values are shown in decimal and written
//! back from the text that `str::parse` accepts.
use vstd::prelude::*;
use vstd::string::StringSliceAdditionalSpecFns;

use crate::fixed::{lemma_ascii_char_bytes, value_bytes, value_new, value_push};

verus! {

/// Type tag of a watched value; the host picks its display and editor by it.
#[derive(Clone, Copy, Debug, PartialEq, Eq, Structural)]
pub enum WatchValueKind {
    F32,
    F64,
    I8,
    I16,
    I32,
    I64,
    U8,
    U16,
    U32,
    U64,
    Bool,
    /// A fixed-length string of at most this many bytes.
    Str(u8),
}

/// Whether the host may write a watched value.
#[derive(Clone, Copy, Debug, PartialEq, Eq, Structural)]
pub enum Access {
    ReadOnly,
    ReadWrite,
}

/// Type information and text codec of a watched value.
pub trait WatchValue: Sized {
    fn watch_kind() -> WatchValueKind;

    fn watch_type_name() -> &'static str;

    /// Renders the value as text.
    fn watch_read(val: &Self) -> heapless::String<32>;

    /// Parses text written by the host; `None` when it is not a value of the type.
    fn watch_write(raw: &str) -> Option<Self>;
}

// ---------------------------------------------------------------------------
// Decimal text
// ---------------------------------------------------------------------------

pub open spec fn is_digit(b: u8) -> bool {
    48 <= b <= 57
}

pub open spec fn all_digits(s: Seq<u8>) -> bool {
    forall|i: int| 0 <= i < s.len() ==> is_digit(#[trigger] s[i])
}

/// The number that a sequence of decimal digits denotes.
pub open spec fn digits_value(s: Seq<u8>) -> nat
    decreases s.len(),
{
    if s.len() == 0 {
        0
    } else {
        digits_value(s.drop_last()) * 10 + (s.last() - 48) as nat
    }
}

/// The shortest decimal digits of `n`.
pub open spec fn decimal_digits(n: nat) -> Seq<u8>
    decreases n,
{
    if n < 10 {
        seq![(48 + n) as u8]
    } else {
        decimal_digits(n / 10).push((48 + n % 10) as u8)
    }
}

/// The decimal text of `v`: a `-` before the digits of a negative number.
pub open spec fn decimal_text(v: int) -> Seq<u8> {
    if v < 0 {
        seq![45u8] + decimal_digits((-v) as nat)
    } else {
        decimal_digits(v as nat)
    }
}

/// The integer that `str::parse` reads from `s`: an optional `+` (or, for a
/// signed type, `-`) followed by one or more decimal digits, and nothing else.
pub open spec fn parse_integer(s: Seq<u8>, signed: bool) -> Option<int> {
    if s.len() == 0 {
        None
    } else if s[0] == 43u8 || (signed && s[0] == 45u8) {
        let d = s.drop_first();
        if d.len() > 0 && all_digits(d) {
            if s[0] == 45u8 {
                Some(-(digits_value(d) as int))
            } else {
                Some(digits_value(d) as int)
            }
        } else {
            None
        }
    } else if all_digits(s) {
        Some(digits_value(s) as int)
    } else {
        None
    }
}

/// The value of the type with range `lo..=hi` that parsing `s` yields.
pub open spec fn parse_in_range(s: Seq<u8>, signed: bool, lo: int, hi: int) -> Option<int> {
    match parse_integer(s, signed) {
        Some(v) => if lo <= v <= hi {
            Some(v)
        } else {
            None
        },
        None => None,
    }
}

pub open spec fn pow10(k: nat) -> nat
    decreases k,
{
    if k == 0 {
        1
    } else {
        10 * pow10((k - 1) as nat)
    }
}

proof fn lemma_decimal_digits_len(n: nat, k: nat)
    requires
        k >= 1,
        n < pow10(k),
    ensures
        decimal_digits(n).len() <= k,
    decreases n,
{
    if n >= 10 {
        assert(n / 10 < pow10((k - 1) as nat)) by (nonlinear_arith)
            requires
                n < pow10(k),
                pow10(k) == 10 * pow10((k - 1) as nat),
                k >= 1,
        ;
        if k == 1 {
            assert(pow10(0) == 1);
        } else {
            lemma_decimal_digits_len(n / 10, (k - 1) as nat);
        }
    }
}

proof fn lemma_decimal_digits_are_digits(n: nat)
    ensures
        all_digits(decimal_digits(n)),
        decimal_digits(n).len() >= 1,
        digits_value(decimal_digits(n)) == n,
    decreases n,
{
    let d = decimal_digits(n);
    if n >= 10 {
        lemma_decimal_digits_are_digits(n / 10);
        assert(d.drop_last() =~= decimal_digits(n / 10));
        assert(n == (n / 10) * 10 + n % 10) by (nonlinear_arith);
        assert(d.last() == (48 + n % 10) as u8);
        assert(((48 + n % 10) as u8) as int == 48 + n % 10);
        assert(digits_value(d) == digits_value(d.drop_last()) * 10 + (d.last() - 48) as nat);
    } else {
        assert(d.drop_last() =~= Seq::<u8>::empty());
        assert(digits_value(d) == digits_value(d.drop_last()) * 10 + (d.last() - 48) as nat);
    }
}

proof fn lemma_digits_value_prefix(s: Seq<u8>, k: int)
    requires
        0 <= k <= s.len(),
        all_digits(s),
    ensures
        digits_value(s.take(k)) <= digits_value(s),
    decreases s.len() - k,
{
    if k < s.len() {
        lemma_digits_value_prefix(s, k + 1);
        assert(s.take(k + 1).drop_last() =~= s.take(k));
    } else {
        assert(s.take(k) =~= s);
    }
}


/// Decimal text of a value, like `write!("{}")` of an integer: the digits of
/// `magnitude`, after a `-` when `negative`.
pub fn render_decimal(negative: bool, magnitude: u64) -> (r: heapless::String<32>)
    requires
        negative ==> magnitude > 0,
    ensures
        value_bytes(r) == decimal_text(if negative { -(magnitude as int) } else { magnitude as int }),
{
    // Digits from least to most significant.
    let mut rev: Vec<u8> = Vec::new();
    let mut n: u64 = magnitude;
    while n >= 10
        invariant
            decimal_digits(magnitude as nat) == decimal_digits(n as nat) + rev@.reverse(),
            rev@.len() + decimal_digits(n as nat).len() == decimal_digits(magnitude as nat).len(),
        decreases n,
    {
        let d: u8 = (n % 10) as u8;
        proof {
            assert(decimal_digits(n as nat) == decimal_digits((n / 10) as nat).push((48 + n % 10) as u8));
            assert(rev@.push((48 + d) as u8).reverse() =~= seq![(48 + d) as u8] + rev@.reverse());
        }
        rev.push(48 + d);
        n = n / 10;
    }
    proof {
        assert(rev@.push((48 + n) as u8).reverse() =~= seq![(48 + n) as u8] + rev@.reverse());
    }
    rev.push((48 + n) as u8);
    proof {
        assert(decimal_digits(magnitude as nat) =~= rev@.reverse());
        assert(pow10(20) == 100000000000000000000nat) by {
            reveal_with_fuel(pow10, 21);
        }
        lemma_decimal_digits_len(magnitude as nat, 20);
        lemma_decimal_digits_are_digits(magnitude as nat);
        assert forall|k: int| 0 <= k < rev@.len() implies is_digit(#[trigger] rev@[k]) by {
            assert(rev@[k] == rev@.reverse()[rev@.len() - 1 - k]);
        }
    }
    let mut out = value_new();
    if negative {
        proof {
            lemma_ascii_char_bytes(45u8);
        }
        let _ = value_push(&mut out, '-');
    }
    let ghost start = value_bytes(out);
    let len = rev.len();
    let mut i: usize = len;
    while i > 0
        invariant
            i <= len,
            len == rev@.len(),
            len <= 20,
            start.len() <= 1,
            all_digits(rev@),
            value_bytes(out) == start + rev@.reverse().take((len - i) as int),
        decreases i,
    {
        i = i - 1;
        let b = rev[i];
        proof {
            assert(is_digit(rev@[i as int]));
            lemma_ascii_char_bytes(b);
            assert(rev@.reverse().take((len - i) as int) =~= rev@.reverse().take((len - i - 1) as int).push(b));
        }
        let _ = value_push(&mut out, b as char);
    }
    proof {
        assert(rev@.reverse().take(len as int) =~= rev@.reverse());
        if negative {
            assert(start =~= seq![45u8]);
        } else {
            assert(start =~= Seq::<u8>::empty());
        }
    }
    out
}

/// The decimal text of a signed value.
fn render_signed(v: i64) -> (r: heapless::String<32>)
    ensures
        value_bytes(r) == decimal_text(v as int),
{
    if v < 0 {
        let m: u64 = (-(v as i128)) as u64;
        render_decimal(true, m)
    } else {
        render_decimal(false, v as u64)
    }
}

/// Parses decimal text the way `str::parse` does for an integer type whose
/// range is `lo..=hi`: `None` unless the text is an optional sign and one
/// or more digits whose value lies in the range.
pub fn parse_decimal(s: &[u8], signed: bool, lo: i128, hi: i128) -> (r: Option<i128>)
    requires
        -0x1_0000_0000_0000_0000 <= lo,
        hi <= 0x1_0000_0000_0000_0000,
    ensures
        match parse_in_range(s@, signed, lo as int, hi as int) {
            Some(v) => r == Some(v as i128),
            None => r is None,
        },
{
    let len = s.len();
    if len == 0 {
        return None;
    }
    let first = s[0];
    let mut start: usize = 0;
    let mut negative = false;
    if first == 43 || (signed && first == 45) {
        if len == 1 {
            return None;
        }
        start = 1;
        negative = first == 45;
    }
    let ghost d = s@.subrange(start as int, len as int);
    proof {
        if start == 1 {
            assert(d =~= s@.drop_first());
        } else {
            assert(d =~= s@);
        }
        assert(d.len() > 0);
        assert(parse_integer(s@, signed) == if all_digits(d) {
            Some(if negative { -(digits_value(d) as int) } else { digits_value(d) as int })
        } else {
            None::<int>
        });
    }
    let mut acc: u128 = 0;
    let mut i: usize = start;
    while i < len
        invariant
            start <= i <= len,
            len == s@.len(),
            d == s@.subrange(start as int, len as int),
            all_digits(d.take(i - start)),
            acc == digits_value(d.take(i - start)),
            acc <= 0x1_0000_0000_0000_0000,
            d.len() > 0,
            -0x1_0000_0000_0000_0000 <= lo,
            hi <= 0x1_0000_0000_0000_0000,
            parse_integer(s@, signed) == if all_digits(d) {
                Some(if negative { -(digits_value(d) as int) } else { digits_value(d) as int })
            } else {
                None::<int>
            },
        decreases len - i,
    {
        let b = s[i];
        if b < 48 || b > 57 {
            proof {
                assert(d[i - start] == b);
                assert(!all_digits(d));
            }
            return None;
        }
        proof {
            assert(d.take(i - start + 1).drop_last() =~= d.take(i - start));
            assert(d.take(i - start + 1).last() == b);
            assert(all_digits(d.take(i - start + 1))) by {
                assert forall|k: int| 0 <= k < d.take(i - start + 1).len() implies is_digit(
                    #[trigger] d.take(i - start + 1)[k],
                ) by {
                    if k < i - start {
                        assert(d.take(i - start + 1)[k] == d.take(i - start)[k]);
                    }
                }
            }
        }
        acc = acc * 10 + (b - 48) as u128;
        if acc > 0x1_0000_0000_0000_0000 {
            proof {
                if all_digits(d) {
                    lemma_digits_value_prefix(d, i - start + 1);
                }
            }
            return None;
        }
        i = i + 1;
    }
    proof {
        assert(d.take(len - start) =~= d);
    }
    let v: i128 = if negative {
        -(acc as i128)
    } else {
        acc as i128
    };
    if lo <= v && v <= hi {
        Some(v)
    } else {
        None
    }
}

impl WatchValue for i8 {
    fn watch_kind() -> (k: WatchValueKind)
        ensures
            k == WatchValueKind::I8,
    {
        WatchValueKind::I8
    }

    fn watch_type_name() -> (n: &'static str)
        ensures
            n@ == "i8"@,
    {
        "i8"
    }

    fn watch_read(val: &i8) -> (r: heapless::String<32>)
        ensures
            value_bytes(r) == decimal_text(*val as int),
    {
        render_signed(*val as i64)
    }

    fn watch_write(raw: &str) -> (r: Option<i8>)
        ensures
            match parse_in_range(raw.spec_bytes(), true, i8::MIN as int, i8::MAX as int) {
                Some(v) => r == Some(v as i8),
                None => r is None,
            },
    {
        match parse_decimal(raw.as_bytes(), true, i8::MIN as i128, i8::MAX as i128) {
            Some(v) => Some(v as i8),
            None => None,
        }
    }
}

impl WatchValue for i16 {
    fn watch_kind() -> (k: WatchValueKind)
        ensures
            k == WatchValueKind::I16,
    {
        WatchValueKind::I16
    }

    fn watch_type_name() -> (n: &'static str)
        ensures
            n@ == "i16"@,
    {
        "i16"
    }

    fn watch_read(val: &i16) -> (r: heapless::String<32>)
        ensures
            value_bytes(r) == decimal_text(*val as int),
    {
        render_signed(*val as i64)
    }

    fn watch_write(raw: &str) -> (r: Option<i16>)
        ensures
            match parse_in_range(raw.spec_bytes(), true, i16::MIN as int, i16::MAX as int) {
                Some(v) => r == Some(v as i16),
                None => r is None,
            },
    {
        match parse_decimal(raw.as_bytes(), true, i16::MIN as i128, i16::MAX as i128) {
            Some(v) => Some(v as i16),
            None => None,
        }
    }
}

impl WatchValue for i32 {
    fn watch_kind() -> (k: WatchValueKind)
        ensures
            k == WatchValueKind::I32,
    {
        WatchValueKind::I32
    }

    fn watch_type_name() -> (n: &'static str)
        ensures
            n@ == "i32"@,
    {
        "i32"
    }

    fn watch_read(val: &i32) -> (r: heapless::String<32>)
        ensures
            value_bytes(r) == decimal_text(*val as int),
    {
        render_signed(*val as i64)
    }

    fn watch_write(raw: &str) -> (r: Option<i32>)
        ensures
            match parse_in_range(raw.spec_bytes(), true, i32::MIN as int, i32::MAX as int) {
                Some(v) => r == Some(v as i32),
                None => r is None,
            },
    {
        match parse_decimal(raw.as_bytes(), true, i32::MIN as i128, i32::MAX as i128) {
            Some(v) => Some(v as i32),
            None => None,
        }
    }
}

impl WatchValue for i64 {
    fn watch_kind() -> (k: WatchValueKind)
        ensures
            k == WatchValueKind::I64,
    {
        WatchValueKind::I64
    }

    fn watch_type_name() -> (n: &'static str)
        ensures
            n@ == "i64"@,
    {
        "i64"
    }

    fn watch_read(val: &i64) -> (r: heapless::String<32>)
        ensures
            value_bytes(r) == decimal_text(*val as int),
    {
        render_signed(*val as i64)
    }

    fn watch_write(raw: &str) -> (r: Option<i64>)
        ensures
            match parse_in_range(raw.spec_bytes(), true, i64::MIN as int, i64::MAX as int) {
                Some(v) => r == Some(v as i64),
                None => r is None,
            },
    {
        match parse_decimal(raw.as_bytes(), true, i64::MIN as i128, i64::MAX as i128) {
            Some(v) => Some(v as i64),
            None => None,
        }
    }
}

impl WatchValue for u8 {
    fn watch_kind() -> (k: WatchValueKind)
        ensures
            k == WatchValueKind::U8,
    {
        WatchValueKind::U8
    }

    fn watch_type_name() -> (n: &'static str)
        ensures
            n@ == "u8"@,
    {
        "u8"
    }

    fn watch_read(val: &u8) -> (r: heapless::String<32>)
        ensures
            value_bytes(r) == decimal_text(*val as int),
    {
        render_decimal(false, *val as u64)
    }

    fn watch_write(raw: &str) -> (r: Option<u8>)
        ensures
            match parse_in_range(raw.spec_bytes(), false, u8::MIN as int, u8::MAX as int) {
                Some(v) => r == Some(v as u8),
                None => r is None,
            },
    {
        match parse_decimal(raw.as_bytes(), false, u8::MIN as i128, u8::MAX as i128) {
            Some(v) => Some(v as u8),
            None => None,
        }
    }
}

impl WatchValue for u16 {
    fn watch_kind() -> (k: WatchValueKind)
        ensures
            k == WatchValueKind::U16,
    {
        WatchValueKind::U16
    }

    fn watch_type_name() -> (n: &'static str)
        ensures
            n@ == "u16"@,
    {
        "u16"
    }

    fn watch_read(val: &u16) -> (r: heapless::String<32>)
        ensures
            value_bytes(r) == decimal_text(*val as int),
    {
        render_decimal(false, *val as u64)
    }

    fn watch_write(raw: &str) -> (r: Option<u16>)
        ensures
            match parse_in_range(raw.spec_bytes(), false, u16::MIN as int, u16::MAX as int) {
                Some(v) => r == Some(v as u16),
                None => r is None,
            },
    {
        match parse_decimal(raw.as_bytes(), false, u16::MIN as i128, u16::MAX as i128) {
            Some(v) => Some(v as u16),
            None => None,
        }
    }
}

impl WatchValue for u32 {
    fn watch_kind() -> (k: WatchValueKind)
        ensures
            k == WatchValueKind::U32,
    {
        WatchValueKind::U32
    }

    fn watch_type_name() -> (n: &'static str)
        ensures
            n@ == "u32"@,
    {
        "u32"
    }

    fn watch_read(val: &u32) -> (r: heapless::String<32>)
        ensures
            value_bytes(r) == decimal_text(*val as int),
    {
        render_decimal(false, *val as u64)
    }

    fn watch_write(raw: &str) -> (r: Option<u32>)
        ensures
            match parse_in_range(raw.spec_bytes(), false, u32::MIN as int, u32::MAX as int) {
                Some(v) => r == Some(v as u32),
                None => r is None,
            },
    {
        match parse_decimal(raw.as_bytes(), false, u32::MIN as i128, u32::MAX as i128) {
            Some(v) => Some(v as u32),
            None => None,
        }
    }
}

impl WatchValue for u64 {
    fn watch_kind() -> (k: WatchValueKind)
        ensures
            k == WatchValueKind::U64,
    {
        WatchValueKind::U64
    }

    fn watch_type_name() -> (n: &'static str)
        ensures
            n@ == "u64"@,
    {
        "u64"
    }

    fn watch_read(val: &u64) -> (r: heapless::String<32>)
        ensures
            value_bytes(r) == decimal_text(*val as int),
    {
        render_decimal(false, *val as u64)
    }

    fn watch_write(raw: &str) -> (r: Option<u64>)
        ensures
            match parse_in_range(raw.spec_bytes(), false, u64::MIN as int, u64::MAX as int) {
                Some(v) => r == Some(v as u64),
                None => r is None,
            },
    {
        match parse_decimal(raw.as_bytes(), false, u64::MIN as i128, u64::MAX as i128) {
            Some(v) => Some(v as u64),
            None => None,
        }
    }
}

/// The text of a boolean: `1` for true, `0` for false.
pub open spec fn bool_text(b: bool) -> Seq<u8> {
    if b {
        seq![49u8]
    } else {
        seq![48u8]
    }
}

impl WatchValue for bool {
    fn watch_kind() -> (k: WatchValueKind)
        ensures
            k == WatchValueKind::Bool,
    {
        WatchValueKind::Bool
    }

    fn watch_type_name() -> (n: &'static str)
        ensures
            n@ == "bool"@,
    {
        "bool"
    }

    fn watch_read(val: &bool) -> (r: heapless::String<32>)
        ensures
            value_bytes(r) == bool_text(*val),
    {
        let mut s = value_new();
        proof {
            lemma_ascii_char_bytes(48u8);
            lemma_ascii_char_bytes(49u8);
        }
        if *val {
            let _ = value_push(&mut s, '1');
        } else {
            let _ = value_push(&mut s, '0');
        }
        s
    }

    fn watch_write(raw: &str) -> (r: Option<bool>)
        ensures
            r == if raw.spec_bytes() == bool_text(true) {
                Some(true)
            } else if raw.spec_bytes() == bool_text(false) {
                Some(false)
            } else {
                None::<bool>
            },
    {
        let b = raw.as_bytes();
        if b.len() == 1 && b[0] == 49 {
            proof {
                assert(b@ =~= seq![49u8]);
            }
            Some(true)
        } else if b.len() == 1 && b[0] == 48 {
            proof {
                assert(b@ =~= seq![48u8]);
            }
            Some(false)
        } else {
            None
        }
    }
}

/// Reading a value as text and parsing the text back gives the value.
pub proof fn lemma_decimal_roundtrip(v: int, signed: bool)
    requires
        signed || v >= 0,
    ensures
        parse_integer(decimal_text(v), signed) == Some(v),
{
    if v < 0 {
        let d = decimal_digits((-v) as nat);
        lemma_decimal_digits_are_digits((-v) as nat);
        assert((seq![45u8] + d).drop_first() =~= d);
    } else {
        lemma_decimal_digits_are_digits(v as nat);
        let d = decimal_digits(v as nat);
        assert(is_digit(d[0]));
    }
}

/// For every integer type, the text that `watch_read` renders is parsed by
/// `watch_write` back into the same value.
pub proof fn lemma_watch_text_roundtrip(v: int, signed: bool, lo: int, hi: int)
    requires
        signed || v >= 0,
        lo <= v <= hi,
    ensures
        parse_in_range(decimal_text(v), signed, lo, hi) == Some(v),
{
    lemma_decimal_roundtrip(v, signed);
}

} // verus!
