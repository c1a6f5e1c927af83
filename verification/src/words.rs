//! Numbers of 16, 32 and 64 bits as sequences of 16-bit register words.
//!
//! A value of `n` words (1, 2 or 4) is cut into its 16-bit digits, least
//! significant first. The registers hold those digits in that order, or in
//! the reverse order when words are swapped; each word has its two bytes
//! exchanged when bytes are swapped. Reading undoes the same arrangement.
use vstd::prelude::*;

verus! {

/// `x` with its two bytes exchanged.
pub open spec fn swapped(x: u16) -> u16 {
    ((x % 256) * 256 + x / 256) as u16
}

/// The weight of the `i`-th 16-bit digit: 65536 to the power `i` (`i < 4`).
pub open spec fn weight(i: int) -> nat {
    if i == 0 {
        1
    } else if i == 1 {
        0x1_0000
    } else if i == 2 {
        0x1_0000_0000
    } else {
        0x1_0000_0000_0000
    }
}

/// The number of values of `n` words (`n` being 1, 2 or 4): 65536 to the power `n`.
pub open spec fn limit(n: nat) -> nat {
    if n == 1 {
        0x1_0000
    } else if n == 2 {
        0x1_0000_0000
    } else {
        0x1_0000_0000_0000_0000
    }
}

/// The number whose 16-bit digits, least significant first, are `w`
/// (one, two or four of them).
pub open spec fn combine(w: Seq<u16>) -> nat {
    if w.len() == 1 {
        w[0] as nat
    } else if w.len() == 2 {
        (w[0] + 0x1_0000 * w[1]) as nat
    } else {
        (w[0] + 0x1_0000 * w[1] + 0x1_0000_0000 * w[2] + 0x1_0000_0000_0000 * w[3]) as nat
    }
}

/// The `n` 16-bit digits of `value`, least significant first.
pub open spec fn split(value: nat, n: nat) -> Seq<u16> {
    Seq::new(n, |i: int| ((value / weight(i)) % 0x1_0000) as u16)
}

/// The words `w` in register order: reversed when `word_swap`, each with
/// its bytes exchanged when `byte_swap`. The same arrangement takes register
/// order back to digit order.
pub open spec fn arranged(w: Seq<u16>, word_swap: bool, byte_swap: bool) -> Seq<u16> {
    Seq::new(
        w.len(),
        |j: int|
            {
                let x = if word_swap {
                    w[w.len() - 1 - j]
                } else {
                    w[j]
                };
                if byte_swap {
                    swapped(x)
                } else {
                    x
                }
            },
    )
}

/// The registers that hold an `n`-word value in digit order.
pub open spec fn encode(value: nat, n: nat, word_swap: bool, byte_swap: bool) -> Seq<u16> {
    arranged(split(value, n), word_swap, byte_swap)
}

/// The `n`-word value that the registers `regs[addr..addr + n]` hold.
pub open spec fn stored_value(
    regs: Seq<u16>,
    addr: int,
    n: nat,
    word_swap: bool,
    byte_swap: bool,
) -> nat {
    combine(arranged(regs.subrange(addr, addr + n), word_swap, byte_swap))
}

/// Exchanging bytes twice gives the word back.
pub proof fn lemma_swapped_twice(x: u16)
    ensures
        swapped(swapped(x)) == x,
{
    assert(swapped(swapped(x)) == x) by (bit_vector);
}

/// Arranging twice gives the words back.
pub proof fn lemma_arranged_twice(w: Seq<u16>, word_swap: bool, byte_swap: bool)
    ensures
        arranged(arranged(w, word_swap, byte_swap), word_swap, byte_swap) == w,
{
    let a = arranged(w, word_swap, byte_swap);
    let b = arranged(a, word_swap, byte_swap);
    assert forall|j: int| 0 <= j < w.len() implies #[trigger] b[j] == w[j] by {
        let k = if word_swap {
            w.len() - 1 - j
        } else {
            j
        };
        lemma_swapped_twice(w[j]);
        assert(b[j] == (if byte_swap {
            swapped(a[k])
        } else {
            a[k]
        }));
    }
    assert(b == w);
}

/// Splitting a number of `n` words and combining the digits gives it back.
pub proof fn lemma_combine_split(value: nat, n: nat)
    requires
        n == 1 || n == 2 || n == 4,
        value < limit(n),
    ensures
        combine(split(value, n)) == value,
{
    let s = split(value, n);
    if n == 1 {
        assert(value % 0x1_0000 == value);
    } else if n == 2 {
        let v = value;
        assert(s[0] == v % 0x1_0000);
        assert(s[1] == (v / 0x1_0000) % 0x1_0000);
        assert(v % 0x1_0000 + 0x1_0000 * ((v / 0x1_0000) % 0x1_0000) == v) by (nonlinear_arith)
            requires
                v < 0x1_0000_0000,
        ;
    } else {
        let v = value;
        assert(s[0] == v % 0x1_0000);
        assert(s[1] == (v / 0x1_0000) % 0x1_0000);
        assert(s[2] == (v / 0x1_0000_0000) % 0x1_0000);
        assert(s[3] == (v / 0x1_0000_0000_0000) % 0x1_0000);
        lemma_combine_split_4(v);
    }
}

proof fn lemma_combine_split_4(v: nat)
    requires
        v < 0x1_0000_0000_0000_0000,
    ensures
        v % 0x1_0000 + 0x1_0000 * ((v / 0x1_0000) % 0x1_0000) + 0x1_0000_0000 * ((v
            / 0x1_0000_0000) % 0x1_0000) + 0x1_0000_0000_0000 * ((v / 0x1_0000_0000_0000)
            % 0x1_0000) == v,
{
    let x = v as u64;
    assert((x % 0x1_0000) as int + 0x1_0000 * ((x / 0x1_0000) % 0x1_0000) as int + 0x1_0000_0000 * ((x
        / 0x1_0000_0000) % 0x1_0000) as int + 0x1_0000_0000_0000 * ((x / 0x1_0000_0000_0000)
        % 0x1_0000) as int == x as int) by (bit_vector);
}

/// Combining digits and splitting the number gives the digits back.
pub proof fn lemma_split_combine(w: Seq<u16>)
    requires
        w.len() == 1 || w.len() == 2 || w.len() == 4,
    ensures
        split(combine(w), w.len()) == w,
        combine(w) < limit(w.len()),
{
    let v = combine(w);
    let s = split(v, w.len());
    if w.len() == 1 {
        assert(s[0] == w[0]);
    } else if w.len() == 2 {
        let (a, b) = (w[0], w[1]);
        assert(v == a + 0x1_0000 * b);
        assert((a + 0x1_0000 * b) % 0x1_0000 == a && (a + 0x1_0000 * b) / 0x1_0000 == b && a
            + 0x1_0000 * b < 0x1_0000_0000)
            by (nonlinear_arith)
            requires
                a < 0x1_0000,
                b < 0x1_0000,
        ;
        assert((b as int) % 0x1_0000 == b);
        assert(s[0] == w[0]);
        assert(s[1] == w[1]);
    } else {
        let (a, b, c, d) = (w[0], w[1], w[2], w[3]);
        lemma_split_combine_4(a, b, c, d);
        assert(s[0] == w[0]);
        assert(s[1] == w[1]);
        assert(s[2] == w[2]);
        assert(s[3] == w[3]);
    }
    assert(s == w);
}

proof fn lemma_split_combine_4(a: u16, b: u16, c: u16, d: u16)
    ensures
        ({
            let v = a + 0x1_0000 * b + 0x1_0000_0000 * c + 0x1_0000_0000_0000 * d;
            &&& v < 0x1_0000_0000_0000_0000
            &&& v % 0x1_0000 == a
            &&& (v / 0x1_0000) % 0x1_0000 == b
            &&& (v / 0x1_0000_0000) % 0x1_0000 == c
            &&& (v / 0x1_0000_0000_0000) % 0x1_0000 == d
        }),
{
    let x: u64 = compose64_spec(a, b, c, d);
    assert(x as int == a + 0x1_0000 * b + 0x1_0000_0000 * c + 0x1_0000_0000_0000 * d
        && x % 0x1_0000 == a && (x / 0x1_0000) % 0x1_0000 == b && (x / 0x1_0000_0000) % 0x1_0000
        == c && (x / 0x1_0000_0000_0000) % 0x1_0000 == d) by (bit_vector)
        requires
            x == (a as u64) | ((b as u64) << 16) | ((c as u64) << 32) | ((d as u64) << 48),
    ;
}

spec fn compose64_spec(a: u16, b: u16, c: u16, d: u16) -> u64 {
    (a as u64) | ((b as u64) << 16) | ((c as u64) << 32) | ((d as u64) << 48)
}

/// What is stored by `encode` reads back as the same value, with the same swaps.
pub proof fn lemma_encode_then_read(
    value: nat,
    n: nat,
    word_swap: bool,
    byte_swap: bool,
    regs: Seq<u16>,
    addr: int,
)
    requires
        n == 1 || n == 2 || n == 4,
        value < limit(n),
        0 <= addr,
        addr + n <= regs.len(),
        regs.subrange(addr, addr + n) == encode(value, n, word_swap, byte_swap),
    ensures
        stored_value(regs, addr, n, word_swap, byte_swap) == value,
{
    lemma_arranged_twice(split(value, n), word_swap, byte_swap);
    lemma_combine_split(value, n);
}

/// The registers of a stored value are what `encode` makes of that value.
pub proof fn lemma_read_then_encode(
    regs: Seq<u16>,
    addr: int,
    n: nat,
    word_swap: bool,
    byte_swap: bool,
)
    requires
        n == 1 || n == 2 || n == 4,
        0 <= addr,
        addr + n <= regs.len(),
    ensures
        stored_value(regs, addr, n, word_swap, byte_swap) < limit(n),
        encode(stored_value(regs, addr, n, word_swap, byte_swap), n, word_swap, byte_swap)
            == regs.subrange(addr, addr + n),
{
    let w = regs.subrange(addr, addr + n);
    let a = arranged(w, word_swap, byte_swap);
    lemma_split_combine(a);
    lemma_arranged_twice(w, word_swap, byte_swap);
}

/// `x` with its two bytes exchanged (`u16::swap_bytes`).
pub fn swap_bytes(x: u16) -> (r: u16)
    ensures
        r == swapped(x),
{
    let r = (x << 8) | (x >> 8);
    assert(r == swapped(x)) by (bit_vector)
        requires
            r == (x << 8) | (x >> 8),
    ;
    r
}

/// The 32-bit number with low word `a` and high word `b`.
pub fn compose32(a: u16, b: u16) -> (r: u32)
    ensures
        r == a + 0x1_0000 * b,
{
    let r = a as u32 | (b as u32) << 16;
    assert(r == a + 0x1_0000 * b) by (bit_vector)
        requires
            r == a as u32 | (b as u32) << 16,
    ;
    r
}

/// The 64-bit number with words `a`, `b`, `c`, `d`, least significant first.
pub fn compose64(a: u16, b: u16, c: u16, d: u16) -> (r: u64)
    ensures
        r == a + 0x1_0000 * b + 0x1_0000_0000 * c + 0x1_0000_0000_0000 * d,
{
    let r = a as u64 | ((b as u64) << 16) | ((c as u64) << 32) | ((d as u64) << 48);
    proof {
        lemma_split_combine_4(a, b, c, d);
        assert(r == compose64_spec(a, b, c, d));
        assert(r as int == a + 0x1_0000 * b + 0x1_0000_0000 * c + 0x1_0000_0000_0000 * d)
            by (bit_vector)
            requires
                r == (a as u64) | ((b as u64) << 16) | ((c as u64) << 32) | ((d as u64) << 48),
        ;
    }
    r
}

/// The two words of `v`, least significant first.
pub fn split32(v: u32) -> (r: (u16, u16))
    ensures
        r.0 == v % 0x1_0000,
        r.1 == (v / 0x1_0000) % 0x1_0000,
{
    let a = v as u16;
    let b = (v >> 16) as u16;
    assert(a == v % 0x1_0000 && b == (v / 0x1_0000) % 0x1_0000) by (bit_vector)
        requires
            a == v as u16,
            b == (v >> 16) as u16,
    ;
    (a, b)
}

/// The four words of `v`, least significant first.
pub fn split64(v: u64) -> (r: (u16, u16, u16, u16))
    ensures
        r.0 == v % 0x1_0000,
        r.1 == (v / 0x1_0000) % 0x1_0000,
        r.2 == (v / 0x1_0000_0000) % 0x1_0000,
        r.3 == (v / 0x1_0000_0000_0000) % 0x1_0000,
{
    let a = v as u16;
    let b = (v >> 16) as u16;
    let c = (v >> 32) as u16;
    let d = (v >> 48) as u16;
    assert(a == v % 0x1_0000 && b == (v / 0x1_0000) % 0x1_0000 && c == (v / 0x1_0000_0000)
        % 0x1_0000 && d == (v / 0x1_0000_0000_0000) % 0x1_0000) by (bit_vector)
        requires
            a == v as u16,
            b == (v >> 16) as u16,
            c == (v >> 32) as u16,
            d == (v >> 48) as u16,
    ;
    (a, b, c, d)
}


/// Exchanging bytes moves the low byte up and the high byte down.
pub proof fn lemma_swapped_exchanges_bytes(x: u16)
    ensures
        swapped(x) % 256 == x / 256,
        swapped(x) / 256 == x % 256,
{
    assert(swapped(x) % 256 == x / 256 && swapped(x) / 256 == x % 256) by (bit_vector);
}

/// Word swap puts the words in reverse order; without it they keep their
/// order; byte swap exchanges the bytes of each word in place.
pub proof fn lemma_arranged_order(w: Seq<u16>, word_swap: bool, byte_swap: bool)
    ensures
        arranged(w, word_swap, byte_swap).len() == w.len(),
        forall|j: int|
            0 <= j < w.len() ==> #[trigger] arranged(w, word_swap, byte_swap)[j] == {
                let x = if word_swap {
                    w[w.len() - 1 - j]
                } else {
                    w[j]
                };
                if byte_swap {
                    swapped(x)
                } else {
                    x
                }
            },
        arranged(w, false, false) == w,
        forall|j: int|
            0 <= j < w.len() ==> #[trigger] arranged(w, true, false)[j] == w[w.len() - 1 - j],
{
    assert(arranged(w, false, false) == w);
}

/// The number that `n` registers hold, written out: the registers from
/// `addr` on are its 16-bit digits from the least significant, or from the
/// most significant when words are swapped; each digit has its bytes
/// exchanged when bytes are swapped.
pub proof fn lemma_stored_value_digits(
    regs: Seq<u16>,
    addr: int,
    word_swap: bool,
    byte_swap: bool,
)
    requires
        0 <= addr,
        addr + 4 <= regs.len(),
    ensures
        ({
            let b = |x: u16|
                if byte_swap {
                    swapped(x)
                } else {
                    x
                };
            let (r0, r1, r2, r3) = (regs[addr], regs[addr + 1], regs[addr + 2], regs[addr + 3]);
            &&& stored_value(regs, addr, 1, word_swap, byte_swap) == b(r0)
            &&& stored_value(regs, addr, 2, word_swap, byte_swap) == if word_swap {
                b(r1) + 0x1_0000 * b(r0)
            } else {
                b(r0) + 0x1_0000 * b(r1)
            }
            &&& stored_value(regs, addr, 4, word_swap, byte_swap) == if word_swap {
                b(r3) + 0x1_0000 * b(r2) + 0x1_0000_0000 * b(r1) + 0x1_0000_0000_0000 * b(r0)
            } else {
                b(r0) + 0x1_0000 * b(r1) + 0x1_0000_0000 * b(r2) + 0x1_0000_0000_0000 * b(r3)
            }
        }),
{
    let s1 = regs.subrange(addr, addr + 1);
    let s2 = regs.subrange(addr, addr + 2);
    let s4 = regs.subrange(addr, addr + 4);
    lemma_arranged_order(s1, word_swap, byte_swap);
    lemma_arranged_order(s2, word_swap, byte_swap);
    lemma_arranged_order(s4, word_swap, byte_swap);
    let a1 = arranged(s1, word_swap, byte_swap);
    let a2 = arranged(s2, word_swap, byte_swap);
    let a4 = arranged(s4, word_swap, byte_swap);
    assert(a1[0] == a1[0]);
    assert(a2[0] == a2[0] && a2[1] == a2[1]);
    assert(a4[0] == a4[0] && a4[1] == a4[1] && a4[2] == a4[2] && a4[3] == a4[3]);
}

/// The registers that `encode` makes of a value, written out: its 16-bit
/// digits from the least significant, or from the most significant when
/// words are swapped, each with its bytes exchanged when bytes are swapped.
pub proof fn lemma_encode_digits(value: nat, word_swap: bool, byte_swap: bool)
    ensures
        ({
            let b = |x: u16|
                if byte_swap {
                    swapped(x)
                } else {
                    x
                };
            let d0 = (value % 0x1_0000) as u16;
            let d1 = ((value / 0x1_0000) % 0x1_0000) as u16;
            let d2 = ((value / 0x1_0000_0000) % 0x1_0000) as u16;
            let d3 = ((value / 0x1_0000_0000_0000) % 0x1_0000) as u16;
            &&& encode(value, 1, word_swap, byte_swap) == seq![b(d0)]
            &&& encode(value, 2, word_swap, byte_swap) == if word_swap {
                seq![b(d1), b(d0)]
            } else {
                seq![b(d0), b(d1)]
            }
            &&& encode(value, 4, word_swap, byte_swap) == if word_swap {
                seq![b(d3), b(d2), b(d1), b(d0)]
            } else {
                seq![b(d0), b(d1), b(d2), b(d3)]
            }
        }),
{
    lemma_arranged_order(split(value, 1), word_swap, byte_swap);
    lemma_arranged_order(split(value, 2), word_swap, byte_swap);
    lemma_arranged_order(split(value, 4), word_swap, byte_swap);
    let b = |x: u16|
        if byte_swap {
            swapped(x)
        } else {
            x
        };
    let d0 = (value % 0x1_0000) as u16;
    let d1 = ((value / 0x1_0000) % 0x1_0000) as u16;
    let d2 = ((value / 0x1_0000_0000) % 0x1_0000) as u16;
    let d3 = ((value / 0x1_0000_0000_0000) % 0x1_0000) as u16;
    let e1 = encode(value, 1, word_swap, byte_swap);
    let e2 = encode(value, 2, word_swap, byte_swap);
    let e4 = encode(value, 4, word_swap, byte_swap);
    assert(e1 == seq![b(d0)]);
    if word_swap {
        assert(e2 == seq![b(d1), b(d0)]);
        assert(e4 == seq![b(d3), b(d2), b(d1), b(d0)]);
    } else {
        assert(e2 == seq![b(d0), b(d1)]);
        assert(e4 == seq![b(d0), b(d1), b(d2), b(d3)]);
    }
}

} // verus!
