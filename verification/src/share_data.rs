//! The four Modbus data tables, with the type and display format of each
//! register.
//!
//! A register whose type spans several words owns the following registers:
//! their type entry is `None`. Reading a register decodes its words with the
//! current word and byte swaps and writes the value in its display format;
//! writing text to a holding register reads it in the display format and
//! encodes it into words with the same swaps.
use vstd::prelude::*;
use crate::values::{DValue, DisplayFormat, Parsed, RegType, Rendered};
use crate::words::{
    compose32, compose64, encode, lemma_encode_then_read, lemma_read_then_encode, limit, split,
    split32, split64, stored_value, swap_bytes,
};
use crate::display::lemma_text_roundtrip;

verus! {

/// The data of the client: what was last read of each table, where each
/// table starts, how each register is typed and shown, and how multi-word
/// values are ordered.
#[derive(Debug, Clone)]
pub struct ShareData {
    pub coils: Vec<bool>,
    pub coils_offset: u16,
    pub discrete_inputs: Vec<bool>,
    pub discrete_inputs_offset: u16,
    pub input_registers: Vec<u16>,
    pub input_registers_offset: u16,
    pub input_registers_config: Vec<Option<RegType>>,
    pub input_registers_display_format: Vec<Option<DisplayFormat>>,
    pub holding_registers: Vec<u16>,
    pub holding_registers_offset: u16,
    pub holding_registers_config: Vec<Option<RegType>>,
    pub holding_registers_display_format: Vec<Option<DisplayFormat>>,
    pub word_swap: bool,
    pub byte_swap: bool,
}

/// The contents of a [`ShareData`].
pub struct Tables {
    pub coils: Seq<bool>,
    pub coils_offset: u16,
    pub discrete_inputs: Seq<bool>,
    pub discrete_inputs_offset: u16,
    pub input_registers: Seq<u16>,
    pub input_registers_offset: u16,
    pub input_config: Seq<Option<RegType>>,
    pub input_formats: Seq<Option<DisplayFormat>>,
    pub holding_registers: Seq<u16>,
    pub holding_registers_offset: u16,
    pub holding_config: Seq<Option<RegType>>,
    pub holding_formats: Seq<Option<DisplayFormat>>,
    pub word_swap: bool,
    pub byte_swap: bool,
}

impl View for ShareData {
    type V = Tables;

    open spec fn view(&self) -> Tables {
        Tables {
            coils: self.coils@,
            coils_offset: self.coils_offset,
            discrete_inputs: self.discrete_inputs@,
            discrete_inputs_offset: self.discrete_inputs_offset,
            input_registers: self.input_registers@,
            input_registers_offset: self.input_registers_offset,
            input_config: self.input_registers_config@,
            input_formats: self.input_registers_display_format@,
            holding_registers: self.holding_registers@,
            holding_registers_offset: self.holding_registers_offset,
            holding_config: self.holding_registers_config@,
            holding_formats: self.holding_registers_display_format@,
            word_swap: self.word_swap,
            byte_swap: self.byte_swap,
        }
    }
}

/// `count` copies of `value`.
pub open spec fn copies<T>(value: T, count: nat) -> Seq<T> {
    Seq::new(count, |i: int| value)
}

/// Whether every typed register of `cfg` has all its words inside the table.
pub open spec fn layout_fits(cfg: Seq<Option<RegType>>) -> bool {
    forall|i: int|
        0 <= i < cfg.len() && #[trigger] cfg[i] is Some ==> i + cfg[i]->0.width() <= cfg.len()
}

/// Whether register `addr` can take type `t`: it is typed (not owned by the
/// register before it) and a value of type `t` there ends inside the table.
pub open spec fn can_retype(cfg: Seq<Option<RegType>>, addr: int, t: RegType) -> bool {
    &&& 0 <= addr
    &&& addr + t.width() <= cfg.len()
    &&& cfg[addr] is Some
}

/// Whether retyping register `addr` of `cfg` to `t` stays inside the table:
/// when the new type is narrower than the old one, the old type's words end
/// inside it (they are the ones set back to `I16`).
pub open spec fn retype_in_bounds(cfg: Seq<Option<RegType>>, addr: int, t: RegType) -> bool {
    can_retype(cfg, addr, t) && t.width() < cfg[addr]->0.width() ==> addr + cfg[addr]->0.width()
        <= cfg.len()
}

/// Whether register `i` of `cfg` is typed and its value covers register `k`
/// (besides itself).
pub open spec fn owns(cfg: Seq<Option<RegType>>, i: int, k: int) -> bool {
    cfg[i] is Some && i < k < i + cfg[i]->0.width()
}

/// Whether `cfg` is tiled by its values: each typed register is followed,
/// inside the table, by exactly the untyped registers its value covers, and
/// every untyped register is covered by a typed one before it.
pub open spec fn tiled(cfg: Seq<Option<RegType>>) -> bool {
    &&& layout_fits(cfg)
    &&& forall|i: int, k: int|
        0 <= i < cfg.len() && 0 <= k < cfg.len() && #[trigger] owns(cfg, i, k) ==> cfg[k] is None
    &&& forall|k: int|
        0 <= k < cfg.len() && #[trigger] cfg[k] is None ==> exists|i: int|
            0 <= i < k && #[trigger] owns(cfg, i, k)
}

/// `cfg` with register `addr` retyped to `t`: the registers that the old type
/// owned and the new one does not become `I16` registers of their own; those
/// that the new type owns and the old one did not become owned (`None`).
pub open spec fn retyped(cfg: Seq<Option<RegType>>, addr: int, t: RegType) -> Seq<Option<RegType>> {
    let old_w = cfg[addr]->0.width();
    let w = t.width();
    Seq::new(
        cfg.len(),
        |i: int|
            if i == addr {
                Some(t)
            } else if addr + w <= i < addr + old_w {
                Some(RegType::I16)
            } else if addr + old_w <= i < addr + w {
                None
            } else {
                cfg[i]
            },
    )
}

/// The value of type `t` whose words are stored at `regs[addr..]`.
pub open spec fn decoded(
    regs: Seq<u16>,
    addr: int,
    t: RegType,
    word_swap: bool,
    byte_swap: bool,
) -> DValue {
    let v = stored_value(regs, addr, t.width(), word_swap, byte_swap);
    match t {
        RegType::U16 => DValue::U16(v as u16),
        RegType::I16 => DValue::I16((v as u16) as i16),
        RegType::U32 => DValue::U32(v as u32),
        RegType::I32 => DValue::I32((v as u32) as i32),
        RegType::F32 => DValue::F32(v as u32),
        RegType::U64 => DValue::U64(v as u64),
        RegType::I64 => DValue::I64((v as u64) as i64),
        RegType::F64 => DValue::F64(v as u64),
    }
}

/// The bits of `value` as an unsigned number of its width (two's complement
/// for the signed types, the IEEE-754 bits for the floats).
pub open spec fn raw_bits(value: DValue) -> nat {
    match value {
        DValue::U16(v) => v as nat,
        DValue::I16(v) => (v as u16) as nat,
        DValue::U32(v) => v as nat,
        DValue::I32(v) => (v as u32) as nat,
        DValue::F32(b) => b as nat,
        DValue::U64(v) => v as nat,
        DValue::I64(v) => (v as u64) as nat,
        DValue::F64(b) => b as nat,
    }
}

impl Tables {
    /// The input registers (`in_reg`) or the holding registers.
    pub open spec fn regs(self, in_reg: bool) -> Seq<u16> {
        if in_reg {
            self.input_registers
        } else {
            self.holding_registers
        }
    }

    /// The register types of the input or the holding registers.
    pub open spec fn config(self, in_reg: bool) -> Seq<Option<RegType>> {
        if in_reg {
            self.input_config
        } else {
            self.holding_config
        }
    }

    /// The display formats of the input or the holding registers.
    pub open spec fn formats(self, in_reg: bool) -> Seq<Option<DisplayFormat>> {
        if in_reg {
            self.input_formats
        } else {
            self.holding_formats
        }
    }

    /// Every typed register has all its words inside its table.
    pub open spec fn wf(self) -> bool {
        layout_fits(self.input_config) && layout_fits(self.holding_config)
    }

    /// The value of register `addr` and the format it is shown in, when the
    /// register is typed, has a format, and all its words have been read.
    pub open spec fn value_at(self, in_reg: bool, addr: int) -> Option<(DValue, DisplayFormat)> {
        let cfg = self.config(in_reg);
        let fmts = self.formats(in_reg);
        let regs = self.regs(in_reg);
        if 0 <= addr < cfg.len() && cfg[addr] is Some && addr < fmts.len() && fmts[addr] is Some
            && addr + cfg[addr]->0.width() <= regs.len() {
            Some(
                (
                    decoded(regs, addr, cfg[addr]->0, self.word_swap, self.byte_swap),
                    fmts[addr]->0,
                ),
            )
        } else {
            None
        }
    }

    /// These tables with the types of the input or holding registers replaced.
    pub open spec fn with_config(self, in_reg: bool, cfg: Seq<Option<RegType>>) -> Tables {
        if in_reg {
            Tables { input_config: cfg, ..self }
        } else {
            Tables { holding_config: cfg, ..self }
        }
    }

    /// These tables with the formats of the input or holding registers replaced.
    pub open spec fn with_formats(self, in_reg: bool, fmts: Seq<Option<DisplayFormat>>) -> Tables {
        if in_reg {
            Tables { input_formats: fmts, ..self }
        } else {
            Tables { holding_formats: fmts, ..self }
        }
    }

    /// What `write_reg_type` makes of these tables.
    pub open spec fn after_write_reg_type(self, in_reg: bool, addr: int, t: RegType) -> Tables {
        if can_retype(self.config(in_reg), addr, t) {
            self.with_config(in_reg, retyped(self.config(in_reg), addr, t))
        } else {
            self
        }
    }

    /// What `write_display_format` makes of these tables.
    pub open spec fn after_write_display_format(
        self,
        in_reg: bool,
        addr: int,
        f: DisplayFormat,
    ) -> Tables {
        if 0 <= addr < self.formats(in_reg).len() {
            self.with_formats(in_reg, self.formats(in_reg).update(addr, Some(f)))
        } else {
            self
        }
    }

    /// The words that `encode_value` makes of `value` with these swaps.
    pub open spec fn words_of(self, value: DValue) -> Seq<u16> {
        encode(raw_bits(value), value.reg_type().width(), self.word_swap, self.byte_swap)
    }

    /// What `parse_string_to_dvalue` makes of `text` for holding register `addr`.
    pub open spec fn words_of_text(self, addr: int, text: Seq<char>) -> Parsed<Seq<u16>> {
        let cfg = self.holding_config;
        let fmts = self.holding_formats;
        if 0 <= addr < cfg.len() && cfg[addr] is Some && addr < fmts.len() && fmts[addr] is Some {
            match fmts[addr]->0.value_of_text(text, cfg[addr]->0) {
                Parsed::Value(v) => Parsed::Value(self.words_of(v)),
                Parsed::Invalid => Parsed::Invalid,
                Parsed::DecimalFloat => Parsed::DecimalFloat,
            }
        } else {
            Parsed::Invalid
        }
    }
}

/// A table of single-register values has every value inside it.
proof fn lemma_uniform_layout_fits(n: nat)
    ensures
        layout_fits(copies(Some(RegType::I16), n)),
{
}

/// Retyping a register keeps every typed register inside its table.
pub proof fn lemma_retyped_fits(cfg: Seq<Option<RegType>>, addr: int, t: RegType)
    requires
        layout_fits(cfg),
        can_retype(cfg, addr, t),
    ensures
        layout_fits(retyped(cfg, addr, t)),
{
    let r = retyped(cfg, addr, t);
    assert forall|i: int| 0 <= i < r.len() && #[trigger] r[i] is Some implies i + r[i]->0.width()
        <= r.len() by {
        if i != addr {
            if cfg[i] is Some && !(addr + t.width() <= i < addr + cfg[addr]->0.width()) {
                assert(r[i] == cfg[i]);
            }
        }
    }
}

/// The decoded value has the type asked for, and its bits are the stored number.
pub proof fn lemma_decoded_bits(
    regs: Seq<u16>,
    addr: int,
    t: RegType,
    word_swap: bool,
    byte_swap: bool,
)
    requires
        0 <= addr,
        addr + t.width() <= regs.len(),
    ensures
        decoded(regs, addr, t, word_swap, byte_swap).reg_type() == t,
        raw_bits(decoded(regs, addr, t, word_swap, byte_swap)) == stored_value(
            regs,
            addr,
            t.width(),
            word_swap,
            byte_swap,
        ),
{
    let v = stored_value(regs, addr, t.width(), word_swap, byte_swap);
    lemma_read_then_encode(regs, addr, t.width(), word_swap, byte_swap);
    match t {
        RegType::I16 => {
            let x = v as u16;
            assert(((x as i16) as u16) == x) by (bit_vector);
        },
        RegType::I32 => {
            let x = v as u32;
            assert(((x as i32) as u32) == x) by (bit_vector);
        },
        RegType::I64 => {
            let x = v as u64;
            assert(((x as i64) as u64) == x) by (bit_vector);
        },
        _ => {},
    }
}

/// The bits of a value fit in its width.
pub proof fn lemma_raw_bits_fit(v: DValue)
    ensures
        raw_bits(v) < limit(v.reg_type().width()),
{
}

/// Registers holding the words of a value decode as that value.
pub proof fn lemma_decoded_encoded(
    v: DValue,
    regs: Seq<u16>,
    addr: int,
    word_swap: bool,
    byte_swap: bool,
)
    requires
        0 <= addr,
        addr + v.reg_type().width() <= regs.len(),
        regs.subrange(addr, addr + v.reg_type().width()) == encode(
            raw_bits(v),
            v.reg_type().width(),
            word_swap,
            byte_swap,
        ),
    ensures
        decoded(regs, addr, v.reg_type(), word_swap, byte_swap) == v,
{
    let n = v.reg_type().width();
    lemma_raw_bits_fit(v);
    lemma_encode_then_read(raw_bits(v), n, word_swap, byte_swap, regs, addr);
    match v {
        DValue::I16(x) => {
            assert((((x as u16) as nat) as u16) as i16 == x) by (bit_vector);
        },
        DValue::I32(x) => {
            assert((((x as u32) as nat) as u32) as i32 == x) by (bit_vector);
        },
        DValue::I64(x) => {
            assert((((x as u64) as nat) as u64) as i64 == x) by (bit_vector);
        },
        _ => {},
    }
}

/// A value read from text has the type it was read as.
pub proof fn lemma_value_of_text_type(f: DisplayFormat, text: Seq<char>, t: RegType)
    ensures
        f.value_of_text(text, t) matches Parsed::Value(v) ==> v.reg_type() == t,
{
}

/// A value written to a holding register reads back, in the register's
/// format, as the value that was written: once the registers hold the words
/// made of the text, the register shows the value read from the text.
pub proof fn lemma_written_value_reads_back(
    s: Tables,
    addr: int,
    text: Seq<char>,
    v: DValue,
    regs: Seq<u16>,
)
    requires
        0 <= addr < s.holding_config.len(),
        addr < s.holding_formats.len(),
        s.holding_config[addr] is Some,
        s.holding_formats[addr] is Some,
        s.holding_formats[addr]->0.value_of_text(text, s.holding_config[addr]->0)
            == Parsed::Value(v),
        addr + v.reg_type().width() <= regs.len(),
        regs.subrange(addr, addr + v.reg_type().width()) == s.words_of(v),
    ensures
        s.words_of_text(addr, text) == Parsed::Value(s.words_of(v)),
        (Tables { holding_registers: regs, ..s }).value_at(false, addr) == Some(
            (v, s.holding_formats[addr]->0),
        ),
{
    lemma_value_of_text_type(s.holding_formats[addr]->0, text, s.holding_config[addr]->0);
    lemma_decoded_encoded(v, regs, addr, s.word_swap, s.byte_swap);
}

/// Re-entering the text a holding register shows, unchanged, writes back
/// exactly the words it holds (for every value but a float shown in decimal,
/// whose text is not made here).
pub proof fn lemma_shown_text_writes_same_words(s: Tables, addr: int)
    requires
        s.value_at(false, addr) matches Some((v, f)) && !(f == DisplayFormat::Decimal
            && v.reg_type().is_float()),
    ensures
        ({
            let (v, f) = s.value_at(false, addr)->0;
            let n = s.holding_config[addr]->0.width();
            &&& f.text_of(v) is Some
            &&& s.words_of_text(addr, f.text_of(v)->0) == Parsed::Value(
                s.holding_registers.subrange(addr, addr + n),
            )
        }),
{
    let (v, f) = s.value_at(false, addr)->0;
    let t = s.holding_config[addr]->0;
    let regs = s.holding_registers;
    lemma_decoded_bits(regs, addr, t, s.word_swap, s.byte_swap);
    lemma_text_roundtrip(f, v);
    lemma_read_then_encode(regs, addr, t.width(), s.word_swap, s.byte_swap);
}

/// A table of single-register values is tiled.
pub proof fn lemma_uniform_tiled(n: nat)
    ensures
        tiled(copies(Some(RegType::I16), n)),
{
    let c = copies(Some(RegType::I16), n);
    assert forall|i: int, k: int|
        0 <= i < c.len() && 0 <= k < c.len() && #[trigger] owns(c, i, k) implies c[k] is None by {}
}

/// Retyping a register keeps the table tiled, provided that a wider new type
/// ends at the end of the table or where a value starts (it does not cut a
/// value in two).
pub proof fn lemma_retype_keeps_tiling(cfg: Seq<Option<RegType>>, addr: int, t: RegType)
    requires
        tiled(cfg),
        can_retype(cfg, addr, t) && t.width() > cfg[addr]->0.width() ==> addr + t.width()
            == cfg.len() || cfg[addr + t.width()] is Some,
    ensures
        tiled(
            if can_retype(cfg, addr, t) {
                retyped(cfg, addr, t)
            } else {
                cfg
            },
        ),
{
    if can_retype(cfg, addr, t) {
        let r = retyped(cfg, addr, t);
        let w = t.width() as int;
        let ow = cfg[addr]->0.width() as int;
        let len = cfg.len() as int;
        lemma_retyped_fits(cfg, addr, t);
        assert forall|i: int, k: int|
            0 <= i < len && 0 <= k < len && #[trigger] owns(r, i, k) implies r[k] is None by {
            if i == addr {
                if k < addr + ow {
                    assert(owns(cfg, addr, k));
                }
            } else if addr + w <= i < addr + ow {
            } else if addr + ow <= i < addr + w {
            } else {
                assert(r[i] == cfg[i]);
                assert(owns(cfg, i, k));
                if i < addr {
                    if addr < k {
                        assert(owns(cfg, i, addr));
                    }
                } else {
                    if i < addr + ow {
                        assert(owns(cfg, addr, i));
                    }
                }
            }
        }
        assert forall|k: int| 0 <= k < len && #[trigger] r[k] is None implies exists|i: int|
            0 <= i < k && #[trigger] owns(r, i, k) by {
            if addr + ow <= k < addr + w {
                assert(owns(r, addr, k));
            } else {
                assert(k != addr);
                assert(r[k] == cfg[k]);
                let i = choose|i: int| 0 <= i < k && #[trigger] owns(cfg, i, k);
                if i == addr {
                    assert(owns(r, addr, k));
                } else if i < addr {
                    if addr < k {
                        assert(owns(cfg, i, addr));
                    }
                    assert(r[i] == cfg[i]);
                    assert(owns(r, i, k));
                } else {
                    if i < addr + ow {
                        assert(owns(cfg, addr, i));
                    }
                    if i < addr + w {
                        let p = addr + w;
                        if k >= p {
                            assert(owns(cfg, i, p));
                        }
                    }
                    assert(r[i] == cfg[i]);
                    assert(owns(r, i, k));
                }
            }
        }
    }
}

/// A vector of `count` copies of `value`.
fn filled<T: Copy>(value: T, count: usize) -> (v: Vec<T>)
    ensures
        v@ == copies(value, count as nat),
{
    let mut v: Vec<T> = Vec::new();
    let mut i: usize = 0;
    while i < count
        invariant
            i <= count,
            v@ == copies(value, i as nat),
        decreases count - i,
    {
        v.push(value);
        i = i + 1;
    }
    v
}

/// Retypes register `addr` of `cfg` to `t`, if it can be; says whether it was.
fn retype(cfg: &mut Vec<Option<RegType>>, addr: usize, t: RegType) -> (ok: bool)
    requires
        retype_in_bounds(old(cfg)@, addr as int, t),
    ensures
        ok == can_retype(old(cfg)@, addr as int, t),
        final(cfg)@ == if ok {
            retyped(old(cfg)@, addr as int, t)
        } else {
            old(cfg)@
        },
{
    let span = t.span();
    let len = cfg.len();
    if addr > len || len - addr < span {
        return false;
    }
    let old_t = match cfg[addr] {
        Some(v) => v,
        None => {
            return false;
        },
    };
    let old_span = old_t.span();
    let ghost c0 = cfg@;
    assert(c0[addr as int] is Some);
    cfg.set(addr, Some(t));
    if span < old_span {
        let mut i: usize = addr + span;
        while i < addr + old_span
            invariant
                addr + span <= i <= addr + old_span <= len,
                span == t.width(),
                old_span == c0[addr as int]->0.width(),
                cfg@.len() == len,
                forall|j: int|
                    0 <= j < len ==> #[trigger] cfg@[j] == if j == addr {
                        Some(t)
                    } else if addr + span <= j < i {
                        Some(RegType::I16)
                    } else {
                        c0[j]
                    },
            decreases addr + old_span - i,
        {
            cfg.set(i, Some(RegType::I16));
            i = i + 1;
        }
    } else if span > old_span {
        let mut i: usize = addr + old_span;
        while i < addr + span
            invariant
                addr + old_span <= i <= addr + span <= len,
                span == t.width(),
                old_span == c0[addr as int]->0.width(),
                cfg@.len() == len,
                forall|j: int|
                    0 <= j < len ==> #[trigger] cfg@[j] == if j == addr {
                        Some(t)
                    } else if addr + old_span <= j < i {
                        None
                    } else {
                        c0[j]
                    },
            decreases addr + span - i,
        {
            cfg.set(i, None);
            i = i + 1;
        }
    }
    assert(cfg@ == retyped(c0, addr as int, t));
    true
}

/// Sets the format of register `addr` of `fmts` to `f`, if there is such a
/// register; says whether there was.
fn reformat(fmts: &mut Vec<Option<DisplayFormat>>, addr: usize, f: DisplayFormat) -> (ok: bool)
    ensures
        ok == (addr < old(fmts)@.len()),
        final(fmts)@ == if ok {
            old(fmts)@.update(addr as int, Some(f))
        } else {
            old(fmts)@
        },
{
    if addr >= fmts.len() {
        return false;
    }
    fmts.set(addr, Some(f));
    true
}

impl ShareData {
    /// Sixteen entries in each table, all zero, at offset 0; every register an
    /// `I16` shown in decimal; no swapping.
    pub fn new() -> (s: Self)
        ensures
            s@.coils == copies(false, 16),
            s@.discrete_inputs == copies(false, 16),
            s@.input_registers == copies(0u16, 16),
            s@.holding_registers == copies(0u16, 16),
            s@.input_config == copies(Some(RegType::I16), 16),
            s@.holding_config == copies(Some(RegType::I16), 16),
            s@.input_formats == copies(Some(DisplayFormat::Decimal), 16),
            s@.holding_formats == copies(Some(DisplayFormat::Decimal), 16),
            s.coils_offset == 0,
            s.discrete_inputs_offset == 0,
            s.input_registers_offset == 0,
            s.holding_registers_offset == 0,
            !s.word_swap,
            !s.byte_swap,
            s@.wf(),
    {
        proof {
            lemma_uniform_layout_fits(16);
        }
        ShareData {
            coils: filled(false, 16),
            coils_offset: 0,
            discrete_inputs: filled(false, 16),
            discrete_inputs_offset: 0,
            input_registers: filled(0u16, 16),
            input_registers_offset: 0,
            input_registers_config: filled(Some(RegType::I16), 16),
            input_registers_display_format: filled(Some(DisplayFormat::Decimal), 16),
            holding_registers: filled(0u16, 16),
            holding_registers_offset: 0,
            holding_registers_config: filled(Some(RegType::I16), 16),
            holding_registers_display_format: filled(Some(DisplayFormat::Decimal), 16),
            word_swap: false,
            byte_swap: false,
        }
    }

    /// Replaces the coils with `coils_count` cleared ones.
    pub fn resize_coils(&mut self, coils_count: u16)
        ensures
            final(self)@ == (Tables { coils: copies(false, coils_count as nat), ..old(self)@ }),
    {
        self.coils = filled(false, coils_count as usize);
    }

    /// Replaces the discrete inputs with `discrete_inputs_count` cleared ones.
    pub fn resize_discrete_inputs(&mut self, discrete_inputs_count: u16)
        ensures
            final(self)@ == (Tables {
                discrete_inputs: copies(false, discrete_inputs_count as nat),
                ..old(self)@
            }),
    {
        self.discrete_inputs = filled(false, discrete_inputs_count as usize);
    }

    /// Replaces the input registers with `input_registers_count` zero ones,
    /// each an `I16` shown in decimal.
    pub fn resize_input_registers(&mut self, input_registers_count: u16)
        ensures
            final(self)@ == (Tables {
                input_registers: copies(0u16, input_registers_count as nat),
                input_config: copies(Some(RegType::I16), input_registers_count as nat),
                input_formats: copies(Some(DisplayFormat::Decimal), input_registers_count as nat),
                ..old(self)@
            }),
            old(self)@.wf() ==> final(self)@.wf(),
    {
        proof {
            lemma_uniform_layout_fits(input_registers_count as nat);
        }
        let n = input_registers_count as usize;
        self.input_registers = filled(0u16, n);
        self.input_registers_config = filled(Some(RegType::I16), n);
        self.input_registers_display_format = filled(Some(DisplayFormat::Decimal), n);
    }

    /// Replaces the holding registers with `holding_registers_count` zero
    /// ones, each an `I16` shown in decimal.
    pub fn resize_holding_registers(&mut self, holding_registers_count: u16)
        ensures
            final(self)@ == (Tables {
                holding_registers: copies(0u16, holding_registers_count as nat),
                holding_config: copies(Some(RegType::I16), holding_registers_count as nat),
                holding_formats: copies(
                    Some(DisplayFormat::Decimal),
                    holding_registers_count as nat,
                ),
                ..old(self)@
            }),
            old(self)@.wf() ==> final(self)@.wf(),
    {
        proof {
            lemma_uniform_layout_fits(holding_registers_count as nat);
        }
        let n = holding_registers_count as usize;
        self.holding_registers = filled(0u16, n);
        self.holding_registers_config = filled(Some(RegType::I16), n);
        self.holding_registers_display_format = filled(Some(DisplayFormat::Decimal), n);
    }

    /// Whether `write_reg_type` with these arguments would index past the end
    /// of the table: the register's old type ends past it while the new type is
    /// narrower.
    pub fn retype_out_of_bounds(&self, in_reg: bool, addr: usize, reg_type: RegType) -> (b: bool)
        ensures
            b == !retype_in_bounds(self@.config(in_reg), addr as int, reg_type),
    {
        let cfg = if in_reg {
            &self.input_registers_config
        } else {
            &self.holding_registers_config
        };
        let span = reg_type.span();
        let len = cfg.len();
        if addr > len || len - addr < span {
            return false;
        }
        match cfg[addr] {
            None => false,
            Some(old) => {
                let old_span = old.span();
                span < old_span && len - addr < old_span
            },
        }
    }

    /// The one-word value at `addr`.
    pub fn read_16_raw(&self, in_reg: bool, addr: usize) -> (r: u16)
        requires
            addr + 1 <= self@.regs(in_reg).len(),
        ensures
            r == stored_value(self@.regs(in_reg), addr as int, 1, self.word_swap, self.byte_swap),
    {
        let a = if in_reg {
            self.input_registers[addr]
        } else {
            self.holding_registers[addr]
        };
        let a = if self.byte_swap {
            swap_bytes(a)
        } else {
            a
        };
        a
    }

    /// The two-word value at `addr`.
    pub fn read_32_raw(&self, in_reg: bool, addr: usize) -> (r: u32)
        requires
            addr + 2 <= self@.regs(in_reg).len(),
        ensures
            r == stored_value(self@.regs(in_reg), addr as int, 2, self.word_swap, self.byte_swap),
    {
        assert(addr + 2 <= if in_reg {
            self.input_registers.len()
        } else {
            self.holding_registers.len()
        });
        let (a, b) = if in_reg {
            (self.input_registers[addr], self.input_registers[addr + 1])
        } else {
            (self.holding_registers[addr], self.holding_registers[addr + 1])
        };
        let (a, b) = if self.word_swap {
            (b, a)
        } else {
            (a, b)
        };
        let (a, b) = if self.byte_swap {
            (swap_bytes(a), swap_bytes(b))
        } else {
            (a, b)
        };
        compose32(a, b)
    }

    /// The four-word value at `addr`.
    pub fn read_64_raw(&self, in_reg: bool, addr: usize) -> (r: u64)
        requires
            addr + 4 <= self@.regs(in_reg).len(),
        ensures
            r == stored_value(self@.regs(in_reg), addr as int, 4, self.word_swap, self.byte_swap),
    {
        assert(addr + 4 <= if in_reg {
            self.input_registers.len()
        } else {
            self.holding_registers.len()
        });
        let (a, b, c, d) = if in_reg {
            (
                self.input_registers[addr],
                self.input_registers[addr + 1],
                self.input_registers[addr + 2],
                self.input_registers[addr + 3],
            )
        } else {
            (
                self.holding_registers[addr],
                self.holding_registers[addr + 1],
                self.holding_registers[addr + 2],
                self.holding_registers[addr + 3],
            )
        };
        let (a, b, c, d) = if self.word_swap {
            (d, c, b, a)
        } else {
            (a, b, c, d)
        };
        let (a, b, c, d) = if self.byte_swap {
            (swap_bytes(a), swap_bytes(b), swap_bytes(c), swap_bytes(d))
        } else {
            (a, b, c, d)
        };
        compose64(a, b, c, d)
    }

    /// The value of register `addr` of the input (`in_reg`) or holding
    /// registers in its display format; `None` when the register has no type
    /// (it belongs to the one before), no format, or not all its words.
    pub fn read_registers(&self, in_reg: bool, addr: usize) -> (r: Option<Rendered>)
        ensures
            match self@.value_at(in_reg, addr as int) {
                None => r is None,
                Some((v, f)) => r is Some && f.renders(v, r->0),
            },
    {
        let (cfg, fmts, len) = if in_reg {
            (
                &self.input_registers_config,
                &self.input_registers_display_format,
                self.input_registers.len(),
            )
        } else {
            (
                &self.holding_registers_config,
                &self.holding_registers_display_format,
                self.holding_registers.len(),
            )
        };
        if addr >= cfg.len() {
            return None;
        }
        let reg_type = match cfg[addr] {
            Some(t) => t,
            None => {
                return None;
            },
        };
        if addr >= fmts.len() {
            return None;
        }
        let fmt = match fmts[addr] {
            Some(f) => f,
            None => {
                return None;
            },
        };
        let span = reg_type.span();
        if addr > len || len - addr < span {
            return None;
        }
        let dvalue = match reg_type {
            RegType::U16 => DValue::U16(self.read_16_raw(in_reg, addr)),
            RegType::I16 => DValue::I16(self.read_16_raw(in_reg, addr) as i16),
            RegType::U32 => DValue::U32(self.read_32_raw(in_reg, addr)),
            RegType::I32 => DValue::I32(self.read_32_raw(in_reg, addr) as i32),
            RegType::F32 => DValue::F32(self.read_32_raw(in_reg, addr)),
            RegType::U64 => DValue::U64(self.read_64_raw(in_reg, addr)),
            RegType::I64 => DValue::I64(self.read_64_raw(in_reg, addr) as i64),
            RegType::F64 => DValue::F64(self.read_64_raw(in_reg, addr)),
        };
        Some(fmt.format(&dvalue))
    }

    /// Gives register `addr` of the input (`in_reg`) or holding registers the
    /// type `reg_type`, when it is typed and the value fits; says whether it did.
    pub fn write_reg_type(&mut self, in_reg: bool, addr: usize, reg_type: RegType) -> (ok: bool)
        requires
            retype_in_bounds(old(self)@.config(in_reg), addr as int, reg_type),
        ensures
            ok == can_retype(old(self)@.config(in_reg), addr as int, reg_type),
            final(self)@ == old(self)@.after_write_reg_type(in_reg, addr as int, reg_type),
            old(self)@.wf() ==> final(self)@.wf(),
    {
        proof {
            if can_retype(self@.config(in_reg), addr as int, reg_type) && self@.wf() {
                lemma_retyped_fits(self@.config(in_reg), addr as int, reg_type);
            }
        }
        if in_reg {
            retype(&mut self.input_registers_config, addr, reg_type)
        } else {
            retype(&mut self.holding_registers_config, addr, reg_type)
        }
    }

    /// Gives register `addr` of the input (`in_reg`) or holding registers the
    /// display format `format`, when there is such a register; says whether it did.
    pub fn write_display_format(&mut self, in_reg: bool, addr: usize, format: DisplayFormat) -> (ok:
        bool)
        ensures
            ok == (addr < old(self)@.formats(in_reg).len()),
            final(self)@ == old(self)@.after_write_display_format(in_reg, addr as int, format),
            final(self)@.wf() == old(self)@.wf(),
    {
        if in_reg {
            reformat(&mut self.input_registers_display_format, addr, format)
        } else {
            reformat(&mut self.holding_registers_display_format, addr, format)
        }
    }

    /// Sets both the type and the display format of a register, each where
    /// it can be set.
    pub fn apply_type_format(
        &mut self,
        in_reg: bool,
        addr: usize,
        reg_type: RegType,
        format: DisplayFormat,
    )
        requires
            retype_in_bounds(old(self)@.config(in_reg), addr as int, reg_type),
        ensures
            final(self)@ == old(self)@.after_write_reg_type(
                in_reg,
                addr as int,
                reg_type,
            ).after_write_display_format(in_reg, addr as int, format),
            old(self)@.wf() ==> final(self)@.wf(),
    {
        self.write_reg_type(in_reg, addr, reg_type);
        self.write_display_format(in_reg, addr, format);
    }

    /// The registers that hold the one-word `value`.
    pub fn parse_16_raw(&self, value: u16) -> (r: Vec<u16>)
        ensures
            r@ == encode(value as nat, 1, self.word_swap, self.byte_swap),
    {
        let a = if self.byte_swap {
            swap_bytes(value)
        } else {
            value
        };
        let r = vec![a];
        proof {
            let e = encode(value as nat, 1, self.word_swap, self.byte_swap);
            assert(split(value as nat, 1)[0] == value);
            assert(r@ == e);
        }
        r
    }

    /// The registers that hold the two-word `value`.
    pub fn parse_32_raw(&self, value: u32) -> (r: Vec<u16>)
        ensures
            r@ == encode(value as nat, 2, self.word_swap, self.byte_swap),
    {
        let (a, b) = split32(value);
        let (a, b) = if self.byte_swap {
            (swap_bytes(a), swap_bytes(b))
        } else {
            (a, b)
        };
        let (a, b) = if self.word_swap {
            (b, a)
        } else {
            (a, b)
        };
        let r = vec![a, b];
        proof {
            let e = encode(value as nat, 2, self.word_swap, self.byte_swap);
            let s = split(value as nat, 2);
            assert(s[0] == value % 0x1_0000);
            assert(s[1] == (value / 0x1_0000) % 0x1_0000);
            assert(r@ == e);
        }
        r
    }

    /// The registers that hold the four-word `value`.
    pub fn parse_64_raw(&self, value: u64) -> (r: Vec<u16>)
        ensures
            r@ == encode(value as nat, 4, self.word_swap, self.byte_swap),
    {
        let (a, b, c, d) = split64(value);
        let (a, b, c, d) = if self.byte_swap {
            (swap_bytes(a), swap_bytes(b), swap_bytes(c), swap_bytes(d))
        } else {
            (a, b, c, d)
        };
        let (a, b, c, d) = if self.word_swap {
            (d, c, b, a)
        } else {
            (a, b, c, d)
        };
        let r = vec![a, b, c, d];
        proof {
            let e = encode(value as nat, 4, self.word_swap, self.byte_swap);
            let s = split(value as nat, 4);
            assert(s[0] == value % 0x1_0000);
            assert(s[1] == (value / 0x1_0000) % 0x1_0000);
            assert(s[2] == (value / 0x1_0000_0000) % 0x1_0000);
            assert(s[3] == (value / 0x1_0000_0000_0000) % 0x1_0000);
            assert(r@ == e);
        }
        r
    }

    /// The registers that hold `value`, with the current swaps.
    pub fn encode_value(&self, value: &DValue) -> (r: Vec<u16>)
        ensures
            r@ == self@.words_of(*value),
    {
        match value {
            DValue::U16(v) => self.parse_16_raw(*v),
            DValue::I16(v) => self.parse_16_raw(*v as u16),
            DValue::U32(v) => self.parse_32_raw(*v),
            DValue::I32(v) => self.parse_32_raw(*v as u32),
            DValue::F32(b) => self.parse_32_raw(*b),
            DValue::U64(v) => self.parse_64_raw(*v),
            DValue::I64(v) => self.parse_64_raw(*v as u64),
            DValue::F64(b) => self.parse_64_raw(*b),
        }
    }

    /// Reads `value` as the new value of holding register `addr`, in the
    /// register's type and format, and gives the registers that hold it.
    pub fn parse_string_to_dvalue(&self, addr: usize, value: &String) -> (r: Parsed<Vec<u16>>)
        ensures
            match (r, self@.words_of_text(addr as int, value@)) {
                (Parsed::Value(w), Parsed::Value(e)) => w@ == e,
                (Parsed::Invalid, Parsed::Invalid) => true,
                (Parsed::DecimalFloat, Parsed::DecimalFloat) => true,
                _ => false,
            },
    {
        if addr >= self.holding_registers_config.len() {
            return Parsed::Invalid;
        }
        let reg_type = match self.holding_registers_config[addr] {
            Some(t) => t,
            None => {
                return Parsed::Invalid;
            },
        };
        if addr >= self.holding_registers_display_format.len() {
            return Parsed::Invalid;
        }
        let format = match self.holding_registers_display_format[addr] {
            Some(f) => f,
            None => {
                return Parsed::Invalid;
            },
        };
        match format.parse(value.as_str(), &reg_type) {
            Parsed::Value(v) => Parsed::Value(self.encode_value(&v)),
            Parsed::Invalid => Parsed::Invalid,
            Parsed::DecimalFloat => Parsed::DecimalFloat,
        }
    }

    /// The number of rows of the table view: the length of the longest table.
    pub fn max_len(&self) -> (n: usize)
        ensures
            n >= self.coils@.len(),
            n >= self.discrete_inputs@.len(),
            n >= self.input_registers@.len(),
            n >= self.holding_registers@.len(),
            n == self.coils@.len() || n == self.discrete_inputs@.len() || n
                == self.input_registers@.len() || n == self.holding_registers@.len(),
    {
        let mut n = self.coils.len();
        if self.discrete_inputs.len() > n {
            n = self.discrete_inputs.len();
        }
        if self.input_registers.len() > n {
            n = self.input_registers.len();
        }
        if self.holding_registers.len() > n {
            n = self.holding_registers.len();
        }
        n
    }
}


/// What a register shows, in both tables: a value of the register's own
/// type, in the register's own format, whose bits are the number its
/// registers hold; a signed type reads that number as two's complement.
pub proof fn lemma_read_value_meaning(s: Tables, in_reg: bool, addr: int)
    requires
        s.value_at(in_reg, addr) is Some,
    ensures
        ({
            let (v, f) = s.value_at(in_reg, addr)->0;
            let t = s.config(in_reg)[addr]->0;
            let n = stored_value(s.regs(in_reg), addr, t.width(), s.word_swap, s.byte_swap);
            &&& v.reg_type() == t
            &&& f == s.formats(in_reg)[addr]->0
            &&& raw_bits(v) == n
            &&& n < limit(t.width())
            &&& match v {
                DValue::U16(x) => x == n,
                DValue::I16(x) => x == if n >= 0x8000 {
                    n - 0x1_0000
                } else {
                    n as int
                },
                DValue::U32(x) => x == n,
                DValue::I32(x) => x == if n >= 0x8000_0000 {
                    n - 0x1_0000_0000
                } else {
                    n as int
                },
                DValue::F32(b) => b == n,
                DValue::U64(x) => x == n,
                DValue::I64(x) => x == if n >= 0x8000_0000_0000_0000 {
                    n - 0x1_0000_0000_0000_0000
                } else {
                    n as int
                },
                DValue::F64(b) => b == n,
            }
        }),
{
    let t = s.config(in_reg)[addr]->0;
    let regs = s.regs(in_reg);
    lemma_decoded_bits(regs, addr, t, s.word_swap, s.byte_swap);
    lemma_read_then_encode(regs, addr, t.width(), s.word_swap, s.byte_swap);
    let (v, f) = s.value_at(in_reg, addr)->0;
    match v {
        DValue::I16(x) => {
            assert((x as int) == if (x as u16) >= 0x8000 {
                (x as u16) as int - 0x1_0000
            } else {
                (x as u16) as int
            }) by (bit_vector);
        },
        DValue::I32(x) => {
            assert((x as int) == if (x as u32) >= 0x8000_0000 {
                (x as u32) as int - 0x1_0000_0000
            } else {
                (x as u32) as int
            }) by (bit_vector);
        },
        DValue::I64(x) => {
            assert((x as int) == if (x as u64) >= 0x8000_0000_0000_0000 {
                (x as u64) as int - 0x1_0000_0000_0000_0000
            } else {
                (x as u64) as int
            }) by (bit_vector);
        },
        _ => {},
    }
}

/// Reading text as a value defers to the caller exactly when the type is a
/// float and the format decimal; otherwise it gives a value of the type asked for, or fails.
pub proof fn lemma_value_of_text_outcome(f: DisplayFormat, text: Seq<char>, t: RegType)
    ensures
        f.value_of_text(text, t) is DecimalFloat <==> (f == DisplayFormat::Decimal
            && t.is_float()),
        f.value_of_text(text, t) matches Parsed::Value(v) ==> v.reg_type() == t,
{
}

/// Text written to a holding register keeps the outcome of reading it: it is
/// deferred exactly for a float register shown in decimal, it is invalid
/// exactly when the text is not a value of the register's type in its format
/// (or the register has no type or no format), and otherwise it gives the
/// words of the value read.
pub proof fn lemma_words_of_text_outcome(s: Tables, addr: int, text: Seq<char>)
    ensures
        ({
            let cfg = s.holding_config;
            let fmts = s.holding_formats;
            let ready = 0 <= addr < cfg.len() && cfg[addr] is Some && addr < fmts.len()
                && fmts[addr] is Some;
            &&& !ready ==> s.words_of_text(addr, text) is Invalid
            &&& ready ==> {
                let t = cfg[addr]->0;
                let f = fmts[addr]->0;
                &&& (s.words_of_text(addr, text) is DecimalFloat <==> (f == DisplayFormat::Decimal
                    && t.is_float()))
                &&& (s.words_of_text(addr, text) is Invalid <==> f.value_of_text(text, t) is Invalid)
                &&& (s.words_of_text(addr, text) matches Parsed::Value(w) ==> f.value_of_text(
                    text,
                    t,
                ) matches Parsed::Value(v) && v.reg_type() == t && w == encode(
                    raw_bits(v),
                    t.width(),
                    s.word_swap,
                    s.byte_swap,
                ))
            }
        }),
{
    if 0 <= addr < s.holding_config.len() && s.holding_config[addr] is Some && addr
        < s.holding_formats.len() && s.holding_formats[addr] is Some {
        lemma_value_of_text_outcome(
            s.holding_formats[addr]->0,
            text,
            s.holding_config[addr]->0,
        );
    }
}

/// What retyping a register does to the tables: when it can be retyped, the
/// register takes the new type; the registers that the old type covered and
/// the new one does not each become a one-word `I16` register of their own;
/// the registers the new type covers beyond the old one become covered
/// (untyped); every other register, the other table's types, all formats,
/// all data, offsets and swaps stay as they were. When it cannot, nothing changes.
pub proof fn lemma_write_reg_type_effect(s: Tables, in_reg: bool, addr: int, t: RegType)
    requires
        retype_in_bounds(s.config(in_reg), addr, t),
    ensures
        ({
            let c = s.config(in_reg);
            let after = s.after_write_reg_type(in_reg, addr, t);
            let c2 = after.config(in_reg);
            &&& !can_retype(c, addr, t) ==> after == s
            &&& can_retype(c, addr, t) ==> {
                let ow = c[addr]->0.width() as int;
                let w = t.width() as int;
                &&& c2.len() == c.len()
                &&& c2[addr] == Some(t)
                &&& forall|i: int| addr + w <= i < addr + ow ==> c2[i] == Some(RegType::I16)
                &&& forall|i: int| addr + ow <= i < addr + w ==> c2[i] is None
                &&& forall|i: int|
                    0 <= i < c.len() && i != addr && !(addr + w <= i < addr + ow) && !(addr + ow
                        <= i < addr + w) ==> c2[i] == c[i]
                &&& after.config(!in_reg) == s.config(!in_reg)
                &&& after.formats(true) == s.formats(true)
                &&& after.formats(false) == s.formats(false)
                &&& after.regs(true) == s.regs(true)
                &&& after.regs(false) == s.regs(false)
                &&& after.coils == s.coils
                &&& after.discrete_inputs == s.discrete_inputs
                &&& after.coils_offset == s.coils_offset
                &&& after.discrete_inputs_offset == s.discrete_inputs_offset
                &&& after.input_registers_offset == s.input_registers_offset
                &&& after.holding_registers_offset == s.holding_registers_offset
                &&& after.word_swap == s.word_swap
                &&& after.byte_swap == s.byte_swap
            }
        }),
{
}

} // verus!
