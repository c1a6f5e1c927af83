use modbus_client::values::{DValue, DisplayFormat, Parsed, RegType, Rendered};

fn text(r: Rendered) -> String {
    match r {
        Rendered::Text(s) => s,
        other => panic!("expected text, got {:?}", other),
    }
}

#[test]
fn format_u64_binary_pads_and_groups() {
    assert_eq!(DisplayFormat::Binary.format_u64(5, 16), "0b_0000_0000_0000_0101");
    assert_eq!(DisplayFormat::Binary.format_u64(0, 0), "0b_0");
    assert_eq!(DisplayFormat::Binary.format_u64(0x1F, 4), "0b_1111_1");
    assert_eq!(
        DisplayFormat::Binary.format_u64(0xFFFF_FFFF, 32),
        "0b_1111_1111_1111_1111_1111_1111_1111_1111"
    );
}

#[test]
fn format_u64_octal_decimal_hex() {
    assert_eq!(DisplayFormat::Octal.format_u64(8, 16), "0o10");
    assert_eq!(DisplayFormat::Octal.format_u64(0, 64), "0o0");
    assert_eq!(DisplayFormat::Decimal.format_u64(0, 16), "0");
    assert_eq!(DisplayFormat::Decimal.format_u64(u64::MAX, 64), "18446744073709551615");
    assert_eq!(DisplayFormat::Hexadecimal.format_u64(255, 16), "0x00FF");
    assert_eq!(DisplayFormat::Hexadecimal.format_u64(0x1234ABCD, 32), "0x1234ABCD");
    assert_eq!(DisplayFormat::Hexadecimal.format_u64(0x12345, 16), "0x12345");
}

#[test]
fn format_matches_std_formatting() {
    for v in [0u64, 1, 7, 8, 9, 10, 15, 16, 255, 256, 4095, 65535, 65536, 123456789, u64::MAX] {
        for bits in [16usize, 32, 64] {
            let width = bits / 4;
            assert_eq!(DisplayFormat::Hexadecimal.format_u64(v, bits), format!("0x{v:0width$X}"));
            assert_eq!(DisplayFormat::Octal.format_u64(v, bits), format!("0o{v:o}"));
            assert_eq!(DisplayFormat::Decimal.format_u64(v, bits), v.to_string());
            let s = format!("{v:b}");
            let w = bits.max(s.len());
            let padded = format!("{v:0w$b}");
            let groups: Vec<_> = padded
                .as_bytes()
                .chunks(4)
                .map(|c| std::str::from_utf8(c).unwrap())
                .collect();
            assert_eq!(DisplayFormat::Binary.format_u64(v, bits), format!("0b_{}", groups.join("_")));
        }
    }
}

#[test]
fn format_signed_values() {
    assert_eq!(text(DisplayFormat::Decimal.format(&DValue::I16(-5))), "-5");
    assert_eq!(text(DisplayFormat::Hexadecimal.format(&DValue::I16(-1))), "0xFFFF");
    assert_eq!(text(DisplayFormat::Decimal.format(&DValue::I32(i32::MIN))), "-2147483648");
    assert_eq!(text(DisplayFormat::Decimal.format(&DValue::I64(i64::MIN))), "-9223372036854775808");
    assert_eq!(text(DisplayFormat::Hexadecimal.format(&DValue::I64(-2))), "0xFFFFFFFFFFFFFFFE");
    assert_eq!(text(DisplayFormat::Octal.format(&DValue::I32(-1))), "0o37777777777");
    assert_eq!(text(DisplayFormat::Decimal.format(&DValue::U32(70000))), "70000");
}

#[test]
fn format_floats() {
    let bits = 1.5f32.to_bits();
    assert_eq!(DisplayFormat::Decimal.format(&DValue::F32(bits)), Rendered::Float32(bits));
    assert_eq!(text(DisplayFormat::Hexadecimal.format(&DValue::F32(bits))), "0x3FC00000");
    let bits64 = (-2.0f64).to_bits();
    assert_eq!(DisplayFormat::Decimal.format(&DValue::F64(bits64)), Rendered::Float64(bits64));
    assert_eq!(text(DisplayFormat::Hexadecimal.format(&DValue::F64(bits64))), "0xC000000000000000");
}

#[test]
fn parse_u64_accepts_prefix_underscores_and_space() {
    assert_eq!(DisplayFormat::Hexadecimal.parse_u64(" 0x_ff "), Some(255));
    assert_eq!(DisplayFormat::Hexadecimal.parse_u64("FF"), Some(255));
    assert_eq!(DisplayFormat::Hexadecimal.parse_u64("0xDeadBeef"), Some(0xDEADBEEF));
    assert_eq!(DisplayFormat::Binary.parse_u64("0b1010"), Some(10));
    assert_eq!(DisplayFormat::Binary.parse_u64("0b_0000_0000_0000_0101"), Some(5));
    assert_eq!(DisplayFormat::Octal.parse_u64("0o17"), Some(15));
    assert_eq!(DisplayFormat::Decimal.parse_u64("1_000"), Some(1000));
    assert_eq!(DisplayFormat::Decimal.parse_u64("\t42\n"), Some(42));
    assert_eq!(DisplayFormat::Decimal.parse_u64("+5"), Some(5));
    assert_eq!(DisplayFormat::Decimal.parse_u64("18446744073709551615"), Some(u64::MAX));
}

#[test]
fn parse_u64_rejects() {
    assert_eq!(DisplayFormat::Decimal.parse_u64(""), None);
    assert_eq!(DisplayFormat::Decimal.parse_u64("   "), None);
    assert_eq!(DisplayFormat::Decimal.parse_u64("+"), None);
    assert_eq!(DisplayFormat::Decimal.parse_u64("-5"), None);
    assert_eq!(DisplayFormat::Decimal.parse_u64("18446744073709551616"), None);
    assert_eq!(DisplayFormat::Decimal.parse_u64("12a"), None);
    assert_eq!(DisplayFormat::Binary.parse_u64("0b102"), None);
    assert_eq!(DisplayFormat::Octal.parse_u64("8"), None);
    assert_eq!(DisplayFormat::Hexadecimal.parse_u64("0x"), None);
    assert_eq!(DisplayFormat::Hexadecimal.parse_u64("0xG"), None);
    assert_eq!(DisplayFormat::Decimal.parse_u64("0x10"), None);
    assert_eq!(DisplayFormat::Decimal.parse_u64("1 2"), None);
}

#[test]
fn parse_u64_matches_std() {
    let inputs = [
        "0", "1", "+1", "-1", "", "+", "-", "007", "99999999999999999999", "1_2_3", " 12 ", "abc",
        "AbC", "0x1f", "0b11", "0o77", "ff_ff", "1e3", "٣",
    ];
    for t in inputs {
        let cleaned = t.trim().replace('_', "");
        assert_eq!(DisplayFormat::Decimal.parse_u64(t), cleaned.parse::<u64>().ok(), "{t}");
        let h = cleaned.strip_prefix("0x").unwrap_or(&cleaned);
        assert_eq!(DisplayFormat::Hexadecimal.parse_u64(t), u64::from_str_radix(h, 16).ok(), "{t}");
        let b = cleaned.strip_prefix("0b").unwrap_or(&cleaned);
        assert_eq!(DisplayFormat::Binary.parse_u64(t), u64::from_str_radix(b, 2).ok(), "{t}");
        let o = cleaned.strip_prefix("0o").unwrap_or(&cleaned);
        assert_eq!(DisplayFormat::Octal.parse_u64(t), u64::from_str_radix(o, 8).ok(), "{t}");
    }
}

#[test]
fn parse_signed_decimal() {
    assert_eq!(DisplayFormat::Decimal.parse_i16("-32768"), Some(-32768));
    assert_eq!(DisplayFormat::Decimal.parse_i16("32767"), Some(32767));
    assert_eq!(DisplayFormat::Decimal.parse_i16("32768"), None);
    assert_eq!(DisplayFormat::Decimal.parse_i16("-32769"), None);
    assert_eq!(DisplayFormat::Decimal.parse_i16(" 12 "), Some(12));
    assert_eq!(DisplayFormat::Decimal.parse_i16("1_2"), None);
    assert_eq!(DisplayFormat::Decimal.parse_i16("-"), None);
    assert_eq!(DisplayFormat::Decimal.parse_i16("-0"), Some(0));
    assert_eq!(DisplayFormat::Decimal.parse_i32("-2147483648"), Some(i32::MIN));
    assert_eq!(DisplayFormat::Decimal.parse_i32("2147483648"), None);
    assert_eq!(DisplayFormat::Decimal.parse_i64("-9223372036854775808"), Some(i64::MIN));
    assert_eq!(DisplayFormat::Decimal.parse_i64("9223372036854775807"), Some(i64::MAX));
    assert_eq!(DisplayFormat::Decimal.parse_i64("9223372036854775808"), None);
    assert_eq!(DisplayFormat::Decimal.parse_i64("+7"), Some(7));
}

#[test]
fn parse_signed_other_formats_take_low_bits() {
    assert_eq!(DisplayFormat::Hexadecimal.parse_i16("0xFFFF"), Some(-1));
    assert_eq!(DisplayFormat::Hexadecimal.parse_i16("0x18000"), Some(i16::MIN));
    assert_eq!(DisplayFormat::Binary.parse_i32("0b_1111_1111_1111_1111_1111_1111_1111_1110"), Some(-2));
    assert_eq!(DisplayFormat::Octal.parse_i64("0o1777777777777777777777"), Some(-1));
}

#[test]
fn parse_values_of_each_type() {
    let d = DisplayFormat::Decimal;
    assert_eq!(d.parse("70000", &RegType::U16), Parsed::Value(DValue::U16(4464)));
    assert_eq!(d.parse("-3", &RegType::I16), Parsed::Value(DValue::I16(-3)));
    assert_eq!(d.parse("4294967295", &RegType::U32), Parsed::Value(DValue::U32(u32::MAX)));
    assert_eq!(d.parse("x", &RegType::I32), Parsed::Invalid);
    assert_eq!(d.parse("1.5", &RegType::F32), Parsed::DecimalFloat);
    assert_eq!(d.parse("2", &RegType::F64), Parsed::DecimalFloat);
    assert_eq!(d.parse("12", &RegType::U64), Parsed::Value(DValue::U64(12)));
    assert_eq!(d.parse("-12", &RegType::I64), Parsed::Value(DValue::I64(-12)));
    let h = DisplayFormat::Hexadecimal;
    assert_eq!(h.parse("0x3FC00000", &RegType::F32), Parsed::Value(DValue::F32(1.5f32.to_bits())));
    assert_eq!(h.parse("0xC000000000000000", &RegType::F64), Parsed::Value(DValue::F64((-2.0f64).to_bits())));
    assert_eq!(h.parse("zz", &RegType::F64), Parsed::Invalid);
}

#[test]
fn shown_text_reads_back_as_the_value() {
    let values = [
        DValue::U16(0), DValue::U16(65535), DValue::I16(-1), DValue::I16(i16::MIN), DValue::I16(123),
        DValue::U32(0xDEADBEEF), DValue::I32(-123456), DValue::I32(i32::MAX),
        DValue::F32(1.5f32.to_bits()), DValue::U64(u64::MAX), DValue::I64(i64::MIN),
        DValue::I64(42), DValue::F64((-0.25f64).to_bits()),
    ];
    let formats = [
        DisplayFormat::Binary, DisplayFormat::Octal, DisplayFormat::Decimal, DisplayFormat::Hexadecimal,
    ];
    for v in values {
        let reg = match v {
            DValue::U16(_) => RegType::U16,
            DValue::I16(_) => RegType::I16,
            DValue::U32(_) => RegType::U32,
            DValue::I32(_) => RegType::I32,
            DValue::F32(_) => RegType::F32,
            DValue::U64(_) => RegType::U64,
            DValue::I64(_) => RegType::I64,
            DValue::F64(_) => RegType::F64,
        };
        for f in formats {
            match f.format(&v) {
                Rendered::Text(t) => assert_eq!(f.parse(&t, &reg), Parsed::Value(v), "{t}"),
                _ => assert!(f == DisplayFormat::Decimal && matches!(reg, RegType::F32 | RegType::F64)),
            }
        }
    }
}

#[test]
fn span_of_types() {
    assert_eq!(RegType::U16.span(), 1);
    assert_eq!(RegType::I16.span(), 1);
    assert_eq!(RegType::U32.span(), 2);
    assert_eq!(RegType::I32.span(), 2);
    assert_eq!(RegType::F32.span(), 2);
    assert_eq!(RegType::U64.span(), 4);
    assert_eq!(RegType::I64.span(), 4);
    assert_eq!(RegType::F64.span(), 4);
    assert_eq!(RegType::default(), RegType::I16);
    assert_eq!(DisplayFormat::default(), DisplayFormat::Decimal);
}

#[test]
fn trimming_follows_unicode_white_space() {
    assert_eq!(DisplayFormat::Decimal.parse_u64("\u{3000}7\u{00A0}"), Some(7));
    assert_eq!(DisplayFormat::Decimal.parse_u64("\u{85}7\u{2029}"), Some(7));
    assert_eq!(DisplayFormat::Decimal.parse_u64("\u{200B}7"), None);
    assert_eq!(DisplayFormat::Decimal.parse_i16("\u{1680}-7\u{205F}"), Some(-7));
}
