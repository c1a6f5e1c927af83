use modbus_client::share_data::ShareData;
use modbus_client::values::{DValue, DisplayFormat, Parsed, RegType, Rendered};

fn shown(d: &ShareData, in_reg: bool, addr: usize) -> Option<String> {
    match d.read_registers(in_reg, addr) {
        Some(Rendered::Text(s)) => Some(s),
        Some(other) => panic!("unexpected {:?}", other),
        None => None,
    }
}

#[test]
fn new_tables_have_sixteen_cleared_entries() {
    let d = ShareData::new();
    assert_eq!(d.coils, vec![false; 16]);
    assert_eq!(d.discrete_inputs, vec![false; 16]);
    assert_eq!(d.input_registers, vec![0u16; 16]);
    assert_eq!(d.holding_registers, vec![0u16; 16]);
    assert_eq!(d.input_registers_config, vec![Some(RegType::I16); 16]);
    assert_eq!(d.holding_registers_display_format, vec![Some(DisplayFormat::Decimal); 16]);
    assert_eq!(d.coils_offset, 0);
    assert!(!d.word_swap && !d.byte_swap);
    assert_eq!(d.max_len(), 16);
}

#[test]
fn resize_replaces_tables() {
    let mut d = ShareData::new();
    d.input_registers[0] = 7;
    d.resize_input_registers(3);
    assert_eq!(d.input_registers, vec![0u16; 3]);
    assert_eq!(d.input_registers_config, vec![Some(RegType::I16); 3]);
    assert_eq!(d.input_registers_display_format, vec![Some(DisplayFormat::Decimal); 3]);
    assert_eq!(d.holding_registers.len(), 16);
    d.resize_coils(40);
    assert_eq!(d.coils, vec![false; 40]);
    d.resize_discrete_inputs(0);
    assert!(d.discrete_inputs.is_empty());
    d.resize_holding_registers(2);
    assert_eq!(d.holding_registers_config, vec![Some(RegType::I16); 2]);
    assert_eq!(d.max_len(), 40);
}

#[test]
fn read_registers_decodes_with_swaps() {
    let mut d = ShareData::new();
    d.input_registers[0] = 0x1234;
    d.input_registers[1] = 0x5678;
    assert!(d.write_reg_type(true, 0, RegType::U32));
    assert!(d.write_display_format(true, 0, DisplayFormat::Hexadecimal));
    assert_eq!(shown(&d, true, 0).as_deref(), Some("0x56781234"));
    assert_eq!(shown(&d, true, 1), None);
    d.word_swap = true;
    assert_eq!(shown(&d, true, 0).as_deref(), Some("0x12345678"));
    d.byte_swap = true;
    assert_eq!(shown(&d, true, 0).as_deref(), Some("0x34127856"));
    d.word_swap = false;
    assert_eq!(shown(&d, true, 0).as_deref(), Some("0x78563412"));
}

#[test]
fn read_registers_of_each_width() {
    let mut d = ShareData::new();
    d.holding_registers[0] = 0xFFFF;
    assert_eq!(shown(&d, false, 0).as_deref(), Some("-1"));
    d.byte_swap = true;
    d.holding_registers[0] = 0x0100;
    assert_eq!(shown(&d, false, 0).as_deref(), Some("1"));
    d.byte_swap = false;
    for (i, w) in [0x0001u16, 0x0000, 0x0000, 0x8000].iter().enumerate() {
        d.holding_registers[4 + i] = *w;
    }
    assert!(d.write_reg_type(false, 4, RegType::I64));
    assert_eq!(shown(&d, false, 4).as_deref(), Some("-9223372036854775807"));
    assert!(d.write_reg_type(false, 4, RegType::U64));
    assert_eq!(shown(&d, false, 4).as_deref(), Some("9223372036854775809"));
    d.holding_registers[8] = 0x0000;
    d.holding_registers[9] = 0x3FC0;
    assert!(d.write_reg_type(false, 8, RegType::F32));
    assert_eq!(d.read_registers(false, 8), Some(Rendered::Float32(1.5f32.to_bits())));
}

#[test]
fn read_registers_needs_type_format_and_words() {
    let mut d = ShareData::new();
    assert_eq!(shown(&d, true, 16), None);
    d.input_registers_display_format[2] = None;
    assert_eq!(shown(&d, true, 2), None);
    d.input_registers.truncate(10);
    assert_eq!(shown(&d, true, 9).as_deref(), Some("0"));
    assert_eq!(shown(&d, true, 10), None);
}

#[test]
fn write_reg_type_reshapes_layout() {
    let mut d = ShareData::new();
    assert!(d.write_reg_type(false, 0, RegType::U64));
    assert_eq!(&d.holding_registers_config[0..5], &[Some(RegType::U64), None, None, None, Some(RegType::I16)]);
    assert!(!d.write_reg_type(false, 1, RegType::U16));
    assert!(d.write_reg_type(false, 0, RegType::U32));
    assert_eq!(&d.holding_registers_config[0..4], &[Some(RegType::U32), None, Some(RegType::I16), Some(RegType::I16)]);
    assert!(d.write_reg_type(false, 0, RegType::U16));
    assert_eq!(&d.holding_registers_config[0..2], &[Some(RegType::U16), Some(RegType::I16)]);
    assert!(!d.write_reg_type(false, 13, RegType::F64));
    assert!(d.write_reg_type(false, 12, RegType::F64));
    assert!(!d.write_reg_type(false, 100, RegType::U16));
    assert!(!d.write_reg_type(true, usize::MAX, RegType::U64));
}

#[test]
fn write_display_format_bounds() {
    let mut d = ShareData::new();
    assert!(d.write_display_format(true, 15, DisplayFormat::Binary));
    assert_eq!(d.input_registers_display_format[15], Some(DisplayFormat::Binary));
    assert!(!d.write_display_format(true, 16, DisplayFormat::Binary));
    d.apply_type_format(false, 3, RegType::U32, DisplayFormat::Octal);
    assert_eq!(d.holding_registers_config[3], Some(RegType::U32));
    assert_eq!(d.holding_registers_config[4], None);
    assert_eq!(d.holding_registers_display_format[3], Some(DisplayFormat::Octal));
}

#[test]
fn parse_string_to_dvalue_encodes_words() {
    let mut d = ShareData::new();
    assert!(d.write_reg_type(false, 0, RegType::U32));
    assert!(d.write_display_format(false, 0, DisplayFormat::Hexadecimal));
    assert_eq!(d.parse_string_to_dvalue(0, &"0x12345678".to_string()), Parsed::Value(vec![0x5678, 0x1234]));
    d.word_swap = true;
    assert_eq!(d.parse_string_to_dvalue(0, &"0x12345678".to_string()), Parsed::Value(vec![0x1234, 0x5678]));
    d.byte_swap = true;
    assert_eq!(d.parse_string_to_dvalue(0, &"0x12345678".to_string()), Parsed::Value(vec![0x3412, 0x7856]));
    assert_eq!(d.parse_string_to_dvalue(0, &"nope".to_string()), Parsed::Invalid);
    assert_eq!(d.parse_string_to_dvalue(1, &"1".to_string()), Parsed::Invalid);
    assert_eq!(d.parse_string_to_dvalue(99, &"1".to_string()), Parsed::Invalid);
    assert_eq!(d.parse_string_to_dvalue(2, &"-2".to_string()), Parsed::Value(vec![0xFEFF]));
    assert!(d.write_reg_type(false, 4, RegType::F64));
    assert_eq!(d.parse_string_to_dvalue(4, &"1.0".to_string()), Parsed::DecimalFloat);
}

#[test]
fn encode_value_of_each_type() {
    let mut d = ShareData::new();
    assert_eq!(d.encode_value(&DValue::I16(-2)), vec![0xFFFE]);
    assert_eq!(d.encode_value(&DValue::U64(0x0001_0002_0003_0004)), vec![4, 3, 2, 1]);
    assert_eq!(d.encode_value(&DValue::F32(1.5f32.to_bits())), vec![0x0000, 0x3FC0]);
    d.word_swap = true;
    assert_eq!(d.encode_value(&DValue::I64(-2)), vec![0xFFFF, 0xFFFF, 0xFFFF, 0xFFFE]);
    assert_eq!(d.encode_value(&DValue::U16(0x1234)), vec![0x1234]);
    d.byte_swap = true;
    assert_eq!(d.encode_value(&DValue::U16(0x1234)), vec![0x3412]);
}

#[test]
fn written_value_reads_back() {
    for (ws, bs) in [(false, false), (true, false), (false, true), (true, true)] {
        let mut d = ShareData::new();
        d.word_swap = ws;
        d.byte_swap = bs;
        for (addr, t, f, text) in [
            (0usize, RegType::I32, DisplayFormat::Decimal, "-123456"),
            (2, RegType::U64, DisplayFormat::Hexadecimal, "0x0123456789ABCDEF"),
            (6, RegType::I16, DisplayFormat::Binary, "0b_1000_0000_0000_0001"),
            (7, RegType::F32, DisplayFormat::Octal, "0o7760000000"),
        ] {
            assert!(d.write_reg_type(false, addr, t));
            assert!(d.write_display_format(false, addr, f));
            let words = match d.parse_string_to_dvalue(addr, &text.to_string()) {
                Parsed::Value(w) => w,
                other => panic!("{:?}", other),
            };
            for (i, w) in words.iter().enumerate() {
                d.holding_registers[addr + i] = *w;
            }
            assert_eq!(shown(&d, false, addr).as_deref(), Some(text));
        }
    }
}

#[test]
fn reentering_shown_text_writes_same_words() {
    let mut d = ShareData::new();
    d.holding_registers = vec![0x1234, 0xABCD, 0x0001, 0x8000, 0xFFFF, 0x7FFF, 0, 0];
    d.holding_registers_config = vec![Some(RegType::U32), None, Some(RegType::I64), None, None, None, Some(RegType::I16), Some(RegType::U16)];
    d.holding_registers_display_format = vec![
        Some(DisplayFormat::Hexadecimal), Some(DisplayFormat::Decimal), Some(DisplayFormat::Binary),
        Some(DisplayFormat::Decimal), Some(DisplayFormat::Decimal), Some(DisplayFormat::Decimal),
        Some(DisplayFormat::Octal), Some(DisplayFormat::Decimal),
    ];
    for (ws, bs) in [(false, false), (true, false), (false, true), (true, true)] {
        d.word_swap = ws;
        d.byte_swap = bs;
        for (addr, n) in [(0usize, 2usize), (2, 4), (6, 1), (7, 1)] {
            let text = shown(&d, false, addr).unwrap();
            assert_eq!(
                d.parse_string_to_dvalue(addr, &text),
                Parsed::Value(d.holding_registers[addr..addr + n].to_vec()),
                "{text}"
            );
        }
    }
}

fn tiled(cfg: &[Option<RegType>]) -> bool {
    let mut i = 0;
    while i < cfg.len() {
        match cfg[i] {
            None => return false,
            Some(t) => {
                let n = t.span();
                if i + n > cfg.len() || cfg[i + 1..i + n].iter().any(|c| c.is_some()) {
                    return false;
                }
                i += n;
            }
        }
    }
    true
}

#[test]
fn retyping_keeps_the_table_tiled() {
    let types = [RegType::U16, RegType::I32, RegType::F64, RegType::I16, RegType::U64, RegType::F32];
    let mut d = ShareData::new();
    let mut seed: usize = 7;
    for _ in 0..400 {
        seed = seed.wrapping_mul(1103515245).wrapping_add(12345) % 1_000_003;
        let addr = seed % 16;
        let t = types[(seed / 16) % types.len()];
        let before = d.holding_registers_config.clone();
        let ok = d.write_reg_type(false, addr, t);
        // the law applies when a wider type does not cut a value in two
        let wider = before[addr].map_or(false, |o| t.span() > o.span());
        let cuts = ok && wider && addr + t.span() < 16 && before[addr + t.span()].is_none();
        if !cuts {
            assert!(tiled(&d.holding_registers_config), "{:?} -> {:?}", before, d.holding_registers_config);
        } else {
            d.holding_registers_config = before;
        }
    }
}

#[test]
fn retype_needs_only_its_own_old_value_inside() {
    let mut d = ShareData::new();
    // a broken entry elsewhere in the table does not matter
    d.holding_registers_config[15] = Some(RegType::U64);
    assert!(!d.retype_out_of_bounds(false, 0, RegType::U32));
    assert!(d.write_reg_type(false, 0, RegType::U32));
    assert!(!d.retype_out_of_bounds(false, 15, RegType::U64));
    assert!(!d.write_reg_type(false, 15, RegType::U64));
    // narrowing a value whose old type ends past the table would index past it
    assert!(d.retype_out_of_bounds(false, 15, RegType::U16));
    assert!(!d.retype_out_of_bounds(false, 20, RegType::U16));
}

#[test]
fn raw_reads_and_encodings_undo_each_other() {
    for (ws, bs) in [(false, false), (true, false), (false, true), (true, true)] {
        let mut d = ShareData::new();
        d.word_swap = ws;
        d.byte_swap = bs;
        let w = d.parse_64_raw(0x0123_4567_89AB_CDEF);
        d.input_registers[4..8].copy_from_slice(&w);
        assert_eq!(d.read_64_raw(true, 4), 0x0123_4567_89AB_CDEF);
        let w = d.parse_32_raw(0xDEAD_BEEF);
        d.input_registers[8..10].copy_from_slice(&w);
        assert_eq!(d.read_32_raw(true, 8), 0xDEAD_BEEF);
        assert_eq!(d.parse_32_raw(d.read_32_raw(true, 8)), w);
        let w = d.parse_16_raw(0x1234);
        d.input_registers[10] = w[0];
        assert_eq!(d.read_16_raw(true, 10), 0x1234);
    }
}
