//! Register values as text, and text read back as register values.
//!
//! `Binary` writes `0b_` and the bits in groups of four, padded to the width
//! of the type; `Octal` writes `0o` and the octal digits; `Decimal` writes
//! the decimal number, signed for the signed types; `Hexadecimal` writes `0x`
//! and upper-case digits padded to the width of the type. Reading accepts
//! surrounding white space, underscores anywhere, and the prefix of the format.
use vstd::prelude::*;
use crate::text::{
    digit_value, is_upper_digit, lemma_grouped_shape, lemma_padded_shape,
    is_space, lemma_digits_of, lemma_grouped_without_underscores, lemma_padded_digits,
    lemma_trim_unchanged, lemma_without_underscores_concat, lemma_without_underscores_none,
    all_digits, digits_value, unsigned_body,
    chars_of, digits_of, grouped, int_text, padded_digits, padded_digits_of, parse_signed,
    parse_signed_chars, parse_unsigned, parse_unsigned_chars, push_digits, push_grouped,
    remove_underscores, strip_prefix, strip_radix_prefix, string_of, trim, trim_chars,
    without_underscores,
};
use crate::values::{DValue, DisplayFormat, Parsed, RegType, Rendered};

verus! {

/// A value of the `Option` read from text, as the outcome of a read.
pub open spec fn parsed_of(o: Option<DValue>) -> Parsed<DValue> {
    match o {
        Some(v) => Parsed::Value(v),
        None => Parsed::Invalid,
    }
}

impl DisplayFormat {
    /// The text of the unsigned number `value`, a value of `bits` bits.
    pub open spec fn u64_text(self, value: nat, bits: nat) -> Seq<char> {
        match self {
            DisplayFormat::Binary => seq!['0', 'b', '_'] + grouped(padded_digits(value, 2, bits)),
            DisplayFormat::Octal => seq!['0', 'o'] + digits_of(value, 8),
            DisplayFormat::Decimal => digits_of(value, 10),
            DisplayFormat::Hexadecimal => seq!['0', 'x'] + padded_digits(value, 16, bits / 4),
        }
    }

    /// The unsigned 64-bit number that `text` writes in this format: white
    /// space around it and underscores in it are ignored, and the prefix of
    /// the format (`0b`, `0o`, `0x`) may be left out.
    pub open spec fn u64_of_text(self, text: Seq<char>) -> Option<u64> {
        let t = without_underscores(trim(text));
        let n = match self {
            DisplayFormat::Binary => parse_unsigned(strip_radix_prefix(t, 'b'), 2, u64::MAX as nat),
            DisplayFormat::Octal => parse_unsigned(strip_radix_prefix(t, 'o'), 8, u64::MAX as nat),
            DisplayFormat::Decimal => parse_unsigned(t, 10, u64::MAX as nat),
            DisplayFormat::Hexadecimal => parse_unsigned(
                strip_radix_prefix(t, 'x'),
                16,
                u64::MAX as nat,
            ),
        };
        match n {
            Some(v) => Some(v as u64),
            None => None,
        }
    }

    /// The `i16` that `text` writes: in decimal a signed number in range
    /// (white space around it ignored); in the other formats the low 16 bits
    /// of the unsigned number, read as two's complement.
    pub open spec fn i16_of_text(self, text: Seq<char>) -> Option<i16> {
        if self == DisplayFormat::Decimal {
            match parse_signed(trim(text), i16::MIN as int, i16::MAX as int) {
                Some(v) => Some(v as i16),
                None => None,
            }
        } else {
            match self.u64_of_text(text) {
                Some(v) => Some((v as u16) as i16),
                None => None,
            }
        }
    }

    /// The `i32` that `text` writes, as for `i16_of_text`.
    pub open spec fn i32_of_text(self, text: Seq<char>) -> Option<i32> {
        if self == DisplayFormat::Decimal {
            match parse_signed(trim(text), i32::MIN as int, i32::MAX as int) {
                Some(v) => Some(v as i32),
                None => None,
            }
        } else {
            match self.u64_of_text(text) {
                Some(v) => Some((v as u32) as i32),
                None => None,
            }
        }
    }

    /// The `i64` that `text` writes, as for `i16_of_text`.
    pub open spec fn i64_of_text(self, text: Seq<char>) -> Option<i64> {
        if self == DisplayFormat::Decimal {
            match parse_signed(trim(text), i64::MIN as int, i64::MAX as int) {
                Some(v) => Some(v as i64),
                None => None,
            }
        } else {
            match self.u64_of_text(text) {
                Some(v) => Some(v as i64),
                None => None,
            }
        }
    }

    /// The value of type `reg` that `text` writes in this format. An unsigned
    /// type keeps the low bits of the number read; a float type, outside
    /// decimal, takes the number read as its bits.
    pub open spec fn value_of_text(self, text: Seq<char>, reg: RegType) -> Parsed<DValue> {
        match reg {
            RegType::U16 => parsed_of(
                match self.u64_of_text(text) {
                    Some(v) => Some(DValue::U16(v as u16)),
                    None => None,
                },
            ),
            RegType::I16 => parsed_of(
                match self.i16_of_text(text) {
                    Some(v) => Some(DValue::I16(v)),
                    None => None,
                },
            ),
            RegType::U32 => parsed_of(
                match self.u64_of_text(text) {
                    Some(v) => Some(DValue::U32(v as u32)),
                    None => None,
                },
            ),
            RegType::I32 => parsed_of(
                match self.i32_of_text(text) {
                    Some(v) => Some(DValue::I32(v)),
                    None => None,
                },
            ),
            RegType::F32 => if self == DisplayFormat::Decimal {
                Parsed::DecimalFloat
            } else {
                parsed_of(
                    match self.u64_of_text(text) {
                        Some(v) => Some(DValue::F32(v as u32)),
                        None => None,
                    },
                )
            },
            RegType::U64 => parsed_of(
                match self.u64_of_text(text) {
                    Some(v) => Some(DValue::U64(v)),
                    None => None,
                },
            ),
            RegType::I64 => parsed_of(
                match self.i64_of_text(text) {
                    Some(v) => Some(DValue::I64(v)),
                    None => None,
                },
            ),
            RegType::F64 => if self == DisplayFormat::Decimal {
                Parsed::DecimalFloat
            } else {
                parsed_of(
                    match self.u64_of_text(text) {
                        Some(v) => Some(DValue::F64(v)),
                        None => None,
                    },
                )
            },
        }
    }

    /// The text of `value` in this format; `None` for a float in decimal,
    /// whose text is a floating-point rendering. Signed values outside
    /// decimal are written as their two's-complement bits.
    pub open spec fn text_of(self, value: DValue) -> Option<Seq<char>> {
        let dec = self == DisplayFormat::Decimal;
        match value {
            DValue::U16(v) => Some(self.u64_text(v as nat, 16)),
            DValue::I16(v) => Some(
                if dec {
                    int_text(v as int)
                } else {
                    self.u64_text((v as u16) as nat, 16)
                },
            ),
            DValue::U32(v) => Some(self.u64_text(v as nat, 32)),
            DValue::I32(v) => Some(
                if dec {
                    int_text(v as int)
                } else {
                    self.u64_text((v as u32) as nat, 32)
                },
            ),
            DValue::F32(b) => if dec {
                None
            } else {
                Some(self.u64_text(b as nat, 32))
            },
            DValue::U64(v) => Some(self.u64_text(v as nat, 64)),
            DValue::I64(v) => Some(
                if dec {
                    int_text(v as int)
                } else {
                    self.u64_text((v as u64) as nat, 64)
                },
            ),
            DValue::F64(b) => if dec {
                None
            } else {
                Some(self.u64_text(b as nat, 64))
            },
        }
    }

    /// Whether `r` is what this format makes of `value`: its text, or the
    /// bits of a float shown in decimal.
    pub open spec fn renders(self, value: DValue, r: Rendered) -> bool {
        match r {
            Rendered::Text(s) => self.text_of(value) == Some(s@),
            Rendered::Float32(b) => self == DisplayFormat::Decimal && value == DValue::F32(b),
            Rendered::Float64(b) => self == DisplayFormat::Decimal && value == DValue::F64(b),
        }
    }

    /// Writes the unsigned number `value`, a value of `bits` bits, in this format.
    pub fn format_u64(&self, value: u64, bits: usize) -> (s: String)
        ensures
            s@ == self.u64_text(value as nat, bits as nat),
    {
        let mut v: Vec<char> = Vec::new();
        match self {
            DisplayFormat::Binary => {
                let p = padded_digits_of(value, 2, bits);
                v.push('0');
                v.push('b');
                v.push('_');
                push_grouped(&mut v, &p);
            },
            DisplayFormat::Octal => {
                v.push('0');
                v.push('o');
                push_digits(&mut v, value, 8);
            },
            DisplayFormat::Decimal => {
                push_digits(&mut v, value, 10);
            },
            DisplayFormat::Hexadecimal => {
                let mut p = padded_digits_of(value, 16, bits / 4);
                v.push('0');
                v.push('x');
                v.append(&mut p);
            },
        }
        string_of(&v)
    }

    /// Writes `value` in this format. A float in decimal comes back as its
    /// bits, for the caller to render.
    pub fn format(&self, value: &DValue) -> (r: Rendered)
        ensures
            self.renders(*value, r),
    {
        let dec = match self {
            DisplayFormat::Decimal => true,
            _ => false,
        };
        match value {
            DValue::U16(v) => Rendered::Text(self.format_u64(*v as u64, 16)),
            DValue::I16(v) => if dec {
                Rendered::Text(string_of(&int_chars(*v as i64)))
            } else {
                Rendered::Text(self.format_u64(*v as u16 as u64, 16))
            },
            DValue::U32(v) => Rendered::Text(self.format_u64(*v as u64, 32)),
            DValue::I32(v) => if dec {
                Rendered::Text(string_of(&int_chars(*v as i64)))
            } else {
                Rendered::Text(self.format_u64(*v as u32 as u64, 32))
            },
            DValue::F32(b) => if dec {
                Rendered::Float32(*b)
            } else {
                Rendered::Text(self.format_u64(*b as u64, 32))
            },
            DValue::U64(v) => Rendered::Text(self.format_u64(*v, 64)),
            DValue::I64(v) => if dec {
                Rendered::Text(string_of(&int_chars(*v)))
            } else {
                Rendered::Text(self.format_u64(*v as u64, 64))
            },
            DValue::F64(b) => if dec {
                Rendered::Float64(*b)
            } else {
                Rendered::Text(self.format_u64(*b, 64))
            },
        }
    }

    /// Reads `text` as an unsigned 64-bit number in this format.
    pub fn parse_u64(&self, text: &str) -> (r: Option<u64>)
        ensures
            r == self.u64_of_text(text@),
    {
        let chars = chars_of(text);
        let t = remove_underscores(&trim_chars(&chars));
        match self {
            DisplayFormat::Binary => parse_unsigned_chars(&strip_prefix(&t, 'b'), 2),
            DisplayFormat::Octal => parse_unsigned_chars(&strip_prefix(&t, 'o'), 8),
            DisplayFormat::Decimal => parse_unsigned_chars(&t, 10),
            DisplayFormat::Hexadecimal => parse_unsigned_chars(&strip_prefix(&t, 'x'), 16),
        }
    }

    /// Reads `text` as an `i16` in this format.
    pub fn parse_i16(&self, text: &str) -> (r: Option<i16>)
        ensures
            r == self.i16_of_text(text@),
    {
        match self {
            DisplayFormat::Decimal => {
                let t = trim_chars(&chars_of(text));
                match parse_signed_chars(&t, i16::MIN as i64, i16::MAX as i64) {
                    Some(v) => Some(v as i16),
                    None => None,
                }
            },
            _ => match self.parse_u64(text) {
                Some(v) => Some(v as u16 as i16),
                None => None,
            },
        }
    }

    /// Reads `text` as an `i32` in this format.
    pub fn parse_i32(&self, text: &str) -> (r: Option<i32>)
        ensures
            r == self.i32_of_text(text@),
    {
        match self {
            DisplayFormat::Decimal => {
                let t = trim_chars(&chars_of(text));
                match parse_signed_chars(&t, i32::MIN as i64, i32::MAX as i64) {
                    Some(v) => Some(v as i32),
                    None => None,
                }
            },
            _ => match self.parse_u64(text) {
                Some(v) => Some(v as u32 as i32),
                None => None,
            },
        }
    }

    /// Reads `text` as an `i64` in this format.
    pub fn parse_i64(&self, text: &str) -> (r: Option<i64>)
        ensures
            r == self.i64_of_text(text@),
    {
        match self {
            DisplayFormat::Decimal => {
                let t = trim_chars(&chars_of(text));
                parse_signed_chars(&t, i64::MIN, i64::MAX)
            },
            _ => match self.parse_u64(text) {
                Some(v) => Some(v as i64),
                None => None,
            },
        }
    }

    /// Reads `text` as a value of type `reg` in this format. A float type in
    /// decimal is left to the caller (`Parsed::DecimalFloat`).
    pub fn parse(&self, text: &str, reg: &RegType) -> (r: Parsed<DValue>)
        ensures
            r == self.value_of_text(text@, *reg),
    {
        let dec = match self {
            DisplayFormat::Decimal => true,
            _ => false,
        };
        let o: Option<DValue> = match reg {
            RegType::U16 => match self.parse_u64(text) {
                Some(v) => Some(DValue::U16(v as u16)),
                None => None,
            },
            RegType::I16 => match self.parse_i16(text) {
                Some(v) => Some(DValue::I16(v)),
                None => None,
            },
            RegType::U32 => match self.parse_u64(text) {
                Some(v) => Some(DValue::U32(v as u32)),
                None => None,
            },
            RegType::I32 => match self.parse_i32(text) {
                Some(v) => Some(DValue::I32(v)),
                None => None,
            },
            RegType::F32 => {
                if dec {
                    return Parsed::DecimalFloat;
                }
                match self.parse_u64(text) {
                    Some(v) => Some(DValue::F32(v as u32)),
                    None => None,
                }
            },
            RegType::U64 => match self.parse_u64(text) {
                Some(v) => Some(DValue::U64(v)),
                None => None,
            },
            RegType::I64 => match self.parse_i64(text) {
                Some(v) => Some(DValue::I64(v)),
                None => None,
            },
            RegType::F64 => {
                if dec {
                    return Parsed::DecimalFloat;
                }
                match self.parse_u64(text) {
                    Some(v) => Some(DValue::F64(v)),
                    None => None,
                }
            },
        };
        match o {
            Some(v) => Parsed::Value(v),
            None => Parsed::Invalid,
        }
    }
}

/// Digits of a number, preceded by `'0'` and the letter `x`, read back as the
/// number in base `radix` once trimmed, freed of underscores and of the prefix.
proof fn lemma_prefixed_digits_read(x: char, p: Seq<char>, radix: nat, value: nat)
    requires
        x == 'b' || x == 'o' || x == 'x',
        2 <= radix <= 16,
        p.len() > 0,
        all_digits(p, radix),
        digits_value(p, radix) == value,
        value <= u64::MAX,
        p[0] != '+',
        forall|i: int| 0 <= i < p.len() ==> #[trigger] p[i] != '_' && !is_space(p[i]),
    ensures
        parse_unsigned(
            strip_radix_prefix(without_underscores(trim(seq!['0', x] + p)), x),
            radix,
            u64::MAX as nat,
        ) == Some(value),
{
    let t = seq!['0', x] + p;
    assert(t[0] == '0');
    assert(t.last() == p.last());
    assert(p.last() == p[p.len() - 1]);
    lemma_trim_unchanged(t);
    assert forall|i: int| 0 <= i < t.len() implies #[trigger] t[i] != '_' by {
        if i >= 2 {
            assert(t[i] == p[i - 2]);
        }
    }
    lemma_without_underscores_none(t);
    assert(t.subrange(2, t.len() as int) == p);
    assert(unsigned_body(p) == p);
}

/// Digits of a number read back as the number.
proof fn lemma_plain_digits_read(p: Seq<char>, radix: nat, value: nat)
    requires
        2 <= radix <= 16,
        p.len() > 0,
        all_digits(p, radix),
        digits_value(p, radix) == value,
        value <= u64::MAX,
        p[0] != '+',
        p[0] != '-',
        forall|i: int| 0 <= i < p.len() ==> #[trigger] p[i] != '_' && !is_space(p[i]),
    ensures
        parse_unsigned(without_underscores(trim(p)), radix, u64::MAX as nat) == Some(value),
        trim(p) == p,
{
    assert(p.last() == p[p.len() - 1]);
    lemma_trim_unchanged(p);
    lemma_without_underscores_none(p);
    assert(unsigned_body(p) == p);
}

/// A number written in binary reads back, in binary, as the same number.
proof fn lemma_binary_text_roundtrip(value: u64, bits: nat)
    ensures
        DisplayFormat::Binary.u64_of_text(DisplayFormat::Binary.u64_text(value as nat, bits))
            == Some(value),
{
    let n = value as nat;
    let p = padded_digits(n, 2, bits);
    lemma_padded_digits(n, 2, bits);
    lemma_grouped_without_underscores(p);
    let g = grouped(p);
    let text = seq!['0', 'b', '_'] + g;
    assert(text[0] == '0');
    assert(text.last() == g.last());
    assert(p.last() == p[p.len() - 1]);
    lemma_trim_unchanged(text);
    lemma_without_underscores_concat(seq!['0', 'b', '_'], g);
    lemma_without_underscores_concat(seq!['0', 'b'], seq!['_']);
    assert(seq!['0', 'b'] + seq!['_'] == seq!['0', 'b', '_']);
    let u = seq!['_'];
    assert(u.drop_last() == Seq::<char>::empty());
    assert(u.last() == '_');
    assert(without_underscores(Seq::<char>::empty()) == Seq::<char>::empty());
    assert(without_underscores(u) == Seq::<char>::empty());
    let ob = seq!['0', 'b'];
    assert forall|i: int| 0 <= i < 2 implies #[trigger] ob[i] != '_' by {}
    lemma_without_underscores_none(ob);
    let w = seq!['0', 'b'] + p;
    assert(without_underscores(trim(text)) == w);
    assert(w.subrange(2, w.len() as int) == p);
    assert(unsigned_body(p) == p);
}

/// A number written in a format reads back, in that format, as the same number.
pub proof fn lemma_u64_text_roundtrip(f: DisplayFormat, value: u64, bits: nat)
    ensures
        f.u64_of_text(f.u64_text(value as nat, bits)) == Some(value),
{
    let n = value as nat;
    match f {
        DisplayFormat::Binary => {
            lemma_binary_text_roundtrip(value, bits);
        },
        DisplayFormat::Octal => {
            lemma_padded_digits(n, 8, 0);
            lemma_prefixed_digits_read('o', digits_of(n, 8), 8, n);
        },
        DisplayFormat::Decimal => {
            lemma_padded_digits(n, 10, 0);
            lemma_plain_digits_read(digits_of(n, 10), 10, n);
        },
        DisplayFormat::Hexadecimal => {
            lemma_padded_digits(n, 16, bits / 4);
            lemma_prefixed_digits_read('x', padded_digits(n, 16, bits / 4), 16, n);
        },
    }
}

/// The digits of a shown number: upper-case digit characters of the base
/// that write the number, at least `width` of them, and with no leading zero
/// beyond that width (but for the single digit `"0"`).
pub open spec fn digit_text(body: Seq<char>, radix: nat, value: nat, width: nat) -> bool {
    &&& body.len() >= width
    &&& body.len() > 0
    &&& forall|i: int|
        0 <= i < body.len() ==> is_upper_digit(#[trigger] body[i]) && digit_value(body[i]) < radix
    &&& digits_value(body, radix) == value
    &&& body.len() > width ==> (body[0] != '0' || body.len() == 1)
}

/// What each format writes of an unsigned number of `bits` bits: `0b_` and
/// the bits, at least `bits` of them, with a `'_'` at every fifth place;
/// `0o` and the octal digits; the decimal digits; `0x` and upper-case
/// hexadecimal digits, at least one per four bits. No zero leads beyond the
/// width.
pub proof fn lemma_u64_text_shape(f: DisplayFormat, value: u64, bits: nat)
    ensures
        ({
            let t = f.u64_text(value as nat, bits);
            match f {
                DisplayFormat::Binary => {
                    let rest = t.skip(3);
                    &&& t.take(3) == seq!['0', 'b', '_']
                    &&& forall|k: int|
                        0 <= k < rest.len() ==> (#[trigger] rest[k] == '_' <==> k % 5 == 4)
                    &&& digit_text(without_underscores(rest), 2, value as nat, bits)
                },
                DisplayFormat::Octal => t.take(2) == seq!['0', 'o'] && digit_text(
                    t.skip(2),
                    8,
                    value as nat,
                    0,
                ),
                DisplayFormat::Decimal => digit_text(t, 10, value as nat, 0),
                DisplayFormat::Hexadecimal => t.take(2) == seq!['0', 'x'] && digit_text(
                    t.skip(2),
                    16,
                    value as nat,
                    bits / 4,
                ),
            }
        }),
{
    let n = value as nat;
    let t = f.u64_text(n, bits);
    match f {
        DisplayFormat::Binary => {
            let p = padded_digits(n, 2, bits);
            lemma_padded_shape(n, 2, bits);
            lemma_padded_digits(n, 2, bits);
            lemma_grouped_shape(p);
            lemma_grouped_without_underscores(p);
            assert(t.take(3) == seq!['0', 'b', '_']);
            assert(t.skip(3) == grouped(p));
        },
        DisplayFormat::Octal => {
            lemma_padded_shape(n, 8, 0);
            assert(t.take(2) == seq!['0', 'o']);
            assert(t.skip(2) == digits_of(n, 8));
        },
        DisplayFormat::Decimal => {
            lemma_padded_shape(n, 10, 0);
        },
        DisplayFormat::Hexadecimal => {
            lemma_padded_shape(n, 16, bits / 4);
            assert(t.take(2) == seq!['0', 'x']);
            assert(t.skip(2) == padded_digits(n, 16, bits / 4));
        },
    }
}

/// The decimal text of an integer reads back as the integer.
pub proof fn lemma_int_text_roundtrip(v: int, min: int, max: int)
    requires
        min <= v <= max,
        -u64::MAX <= v <= u64::MAX,
    ensures
        parse_signed(trim(int_text(v)), min, max) == Some(v),
{
    if v < 0 {
        let m = (-v) as nat;
        let d = digits_of(m, 10);
        lemma_padded_digits(m, 10, 0);
        let t = seq!['-'] + d;
        assert(t[0] == '-');
        assert(t.last() == d.last());
        assert(d.last() == d[d.len() - 1]);
        lemma_trim_unchanged(t);
        assert(t.drop_first() == d);
    } else {
        let m = v as nat;
        lemma_padded_digits(m, 10, 0);
        lemma_plain_digits_read(digits_of(m, 10), 10, m);
    }
}

/// What a format shows of a value reads back, in that format, as the same
/// value. (A float shown in decimal is rendered and read outside this library.)
pub proof fn lemma_text_roundtrip(f: DisplayFormat, value: DValue)
    requires
        !(f == DisplayFormat::Decimal && value.reg_type().is_float()),
    ensures
        f.text_of(value) is Some,
        f.value_of_text(f.text_of(value).unwrap(), value.reg_type()) == Parsed::Value(value),
{
    let dec = f == DisplayFormat::Decimal;
    match value {
        DValue::U16(v) => {
            lemma_u64_text_roundtrip(f, v as u64, 16);
        },
        DValue::I16(v) => {
            if dec {
                lemma_int_text_roundtrip(v as int, i16::MIN as int, i16::MAX as int);
            } else {
                let w = (v as u16) as u64;
                lemma_u64_text_roundtrip(f, w, 16);
                assert(((w as u16) as i16) == v) by (bit_vector)
                    requires
                        w == (v as u16) as u64,
                ;
            }
        },
        DValue::U32(v) => {
            lemma_u64_text_roundtrip(f, v as u64, 32);
        },
        DValue::I32(v) => {
            if dec {
                lemma_int_text_roundtrip(v as int, i32::MIN as int, i32::MAX as int);
            } else {
                let w = (v as u32) as u64;
                lemma_u64_text_roundtrip(f, w, 32);
                assert(((w as u32) as i32) == v) by (bit_vector)
                    requires
                        w == (v as u32) as u64,
                ;
            }
        },
        DValue::F32(b) => {
            lemma_u64_text_roundtrip(f, b as u64, 32);
        },
        DValue::U64(v) => {
            lemma_u64_text_roundtrip(f, v, 64);
        },
        DValue::I64(v) => {
            if dec {
                lemma_int_text_roundtrip(v as int, i64::MIN as int, i64::MAX as int);
            } else {
                let w = v as u64;
                lemma_u64_text_roundtrip(f, w, 64);
                assert((w as i64) == v) by (bit_vector)
                    requires
                        w == v as u64,
                ;
            }
        },
        DValue::F64(b) => {
            lemma_u64_text_roundtrip(f, b, 64);
        },
    }
}

/// The decimal text of `v`, with a `'-'` before a negative one.
pub fn int_chars(v: i64) -> (r: Vec<char>)
    ensures
        r@ == int_text(v as int),
{
    let mut r: Vec<char> = Vec::new();
    if v < 0 {
        r.push('-');
        let m: u64 = if v == i64::MIN {
            0x8000_0000_0000_0000u64
        } else {
            (-v) as u64
        };
        push_digits(&mut r, m, 10);
    } else {
        push_digits(&mut r, v as u64, 10);
    }
    r
}

} // verus!
