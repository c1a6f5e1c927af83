//! Numbers as text: digits in a base, trimming, underscores, digit groups.
//!
//! The reading side follows the rules of Rust's integer parsing
//! (`from_str_radix`): an optional sign, then one or more digits of the base,
//! nothing else, and a value in range. The writing side produces the
//! shortest digit string, optionally padded with zeros.
use vstd::prelude::*;
use vstd::string::*;
use vstd::arithmetic::div_mod::*;

verus! {

// ---------------------------------------------------------------------------
// Specification
// ---------------------------------------------------------------------------

/// Whether `c` is white space in the sense of Unicode's `White_Space`
/// property, which is what `str::trim` removes.
pub open spec fn is_space(c: char) -> bool {
    let n = c as u32;
    ||| 9 <= n <= 13
    ||| n == 32
    ||| n == 0x85
    ||| n == 0xA0
    ||| n == 0x1680
    ||| 0x2000 <= n <= 0x200A
    ||| n == 0x2028
    ||| n == 0x2029
    ||| n == 0x202F
    ||| n == 0x205F
    ||| n == 0x3000
}

/// `s` without its leading white space.
pub open spec fn trim_start(s: Seq<char>) -> Seq<char>
    decreases s.len(),
{
    if s.len() > 0 && is_space(s[0]) {
        trim_start(s.drop_first())
    } else {
        s
    }
}

/// `s` without its trailing white space.
pub open spec fn trim_end(s: Seq<char>) -> Seq<char>
    decreases s.len(),
{
    if s.len() > 0 && is_space(s.last()) {
        trim_end(s.drop_last())
    } else {
        s
    }
}

/// `s` without leading and trailing white space.
pub open spec fn trim(s: Seq<char>) -> Seq<char> {
    trim_end(trim_start(s))
}

/// `s` with every `'_'` removed.
pub open spec fn without_underscores(s: Seq<char>) -> Seq<char>
    decreases s.len(),
{
    if s.len() == 0 {
        s
    } else if s.last() == '_' {
        without_underscores(s.drop_last())
    } else {
        without_underscores(s.drop_last()).push(s.last())
    }
}

/// `s` without the two-character prefix `'0'`, `x`, if it has it.
pub open spec fn strip_radix_prefix(s: Seq<char>, x: char) -> Seq<char> {
    if s.len() >= 2 && s[0] == '0' && s[1] == x {
        s.subrange(2, s.len() as int)
    } else {
        s
    }
}

/// The value of `c` as a digit: `'0'..='9'` are 0 to 9, and letters of
/// either case are 10 to 35. Any other character gets 36, a digit of no base.
pub open spec fn digit_value(c: char) -> nat {
    let n = c as u32;
    if 48 <= n <= 57 {
        (n - 48) as nat
    } else if 97 <= n <= 122 {
        (n - 87) as nat
    } else if 65 <= n <= 90 {
        (n - 55) as nat
    } else {
        36
    }
}

/// Whether every character of `s` is a digit of base `radix`.
pub open spec fn all_digits(s: Seq<char>, radix: nat) -> bool {
    forall|i: int| 0 <= i < s.len() ==> #[trigger] digit_value(s[i]) < radix
}

/// The number that the digits `s` write in base `radix`, most significant first.
pub open spec fn digits_value(s: Seq<char>, radix: nat) -> nat
    decreases s.len(),
{
    if s.len() == 0 {
        0
    } else {
        digits_value(s.drop_last(), radix) * radix + digit_value(s.last())
    }
}

/// The digits of an unsigned number: an optional `'+'`, then the rest.
pub open spec fn unsigned_body(s: Seq<char>) -> Seq<char> {
    if s.len() > 0 && s[0] == '+' {
        s.drop_first()
    } else {
        s
    }
}

/// `s` read as an unsigned number of base `radix` no greater than `max`:
/// an optional `'+'` and at least one digit.
pub open spec fn parse_unsigned(s: Seq<char>, radix: nat, max: nat) -> Option<nat> {
    let body = unsigned_body(s);
    if body.len() > 0 && all_digits(body, radix) && digits_value(body, radix) <= max {
        Some(digits_value(body, radix))
    } else {
        None
    }
}

/// `s` read as a signed decimal number within `min..=max`: an optional
/// `'+'` or `'-'` and at least one digit.
pub open spec fn parse_signed(s: Seq<char>, min: int, max: int) -> Option<int> {
    if s.len() > 0 && s[0] == '-' {
        let body = s.drop_first();
        if body.len() > 0 && all_digits(body, 10) && min <= -digits_value(body, 10) {
            Some(-digits_value(body, 10))
        } else {
            None
        }
    } else {
        let body = unsigned_body(s);
        if body.len() > 0 && all_digits(body, 10) && digits_value(body, 10) <= max {
            Some(digits_value(body, 10) as int)
        } else {
            None
        }
    }
}

/// The character of the digit `d` (below 16): `'0'..='9'`, then `'A'..='F'`.
pub open spec fn digit_char(d: nat) -> char {
    if d < 10 {
        (48 + d) as char
    } else {
        (55 + d) as char
    }
}

/// The shortest digits of `n` in base `radix` (no leading zeros; `"0"` for 0).
pub open spec fn digits_of(n: nat, radix: nat) -> Seq<char>
    decreases n,
{
    if radix < 2 || n < radix {
        seq![digit_char(n)]
    } else {
        proof {
            lemma_div_decreases(n as int, radix as int);
        }
        digits_of(n / radix, radix).push(digit_char(n % radix))
    }
}

/// `k` zero characters.
pub open spec fn zeros(k: nat) -> Seq<char> {
    Seq::new(k, |i: int| '0')
}

/// The digits of `n`, padded on the left with zeros to at least `width` characters.
pub open spec fn padded_digits(n: nat, radix: nat, width: nat) -> Seq<char> {
    let d = digits_of(n, radix);
    if d.len() < width {
        zeros((width - d.len()) as nat) + d
    } else {
        d
    }
}

/// `s` cut into groups of four characters from the left, joined by `'_'`
/// (the last group may be shorter).
pub open spec fn grouped(s: Seq<char>) -> Seq<char>
    decreases s.len(),
{
    if s.len() == 0 {
        s
    } else if s.len() > 1 && (s.len() - 1) % 4 == 0 {
        grouped(s.drop_last()).push('_').push(s.last())
    } else {
        grouped(s.drop_last()).push(s.last())
    }
}

/// The decimal text of an integer, with a `'-'` before a negative one.
pub open spec fn int_text(v: int) -> Seq<char> {
    if v < 0 {
        seq!['-'] + digits_of((-v) as nat, 10)
    } else {
        digits_of(v as nat, 10)
    }
}

// ---------------------------------------------------------------------------
// Lemmas
// ---------------------------------------------------------------------------

pub proof fn lemma_digit_char(d: nat)
    requires
        d < 16,
    ensures
        digit_value(digit_char(d)) == d,
        digit_char(d) != '_',
        !is_space(digit_char(d)),
        digit_char(d) != '+',
        digit_char(d) != '-',
{
}

pub proof fn lemma_digits_of(n: nat, radix: nat)
    requires
        2 <= radix <= 16,
    ensures
        digits_of(n, radix).len() > 0,
        all_digits(digits_of(n, radix), radix),
        digits_value(digits_of(n, radix), radix) == n,
        forall|i: int|
            0 <= i < digits_of(n, radix).len() ==> exists|d: nat|
                d < radix && #[trigger] digits_of(n, radix)[i] == digit_char(d),
    decreases n,
{
    let s = digits_of(n, radix);
    if n < radix {
        lemma_digit_char(n);
        assert(s.drop_last().len() == 0);
        assert(digits_value(s.drop_last(), radix) == 0);
        lemma_zero_times(radix);
        assert(s[0] == digit_char(n));
    } else {
        lemma_div_decreases(n as int, radix as int);
        lemma_fundamental_div_mod(n as int, radix as int);
        lemma_mod_bound_nat(n, radix);
        let q = n / radix;
        let r = n % radix;
        lemma_digits_of(q, radix);
        lemma_digit_char(r);
        assert(s.drop_last() == digits_of(q, radix));
        assert(digits_value(s, radix) == q * radix + r);
        assert(q * radix == radix * q) by (nonlinear_arith);
        assert forall|i: int| 0 <= i < s.len() implies #[trigger] digit_value(s[i]) < radix by {
            if i < s.len() - 1 {
                assert(s[i] == digits_of(q, radix)[i]);
            }
        }
        assert forall|i: int| 0 <= i < s.len() implies exists|d: nat|
            d < radix && #[trigger] s[i] == digit_char(d) by {
            if i < s.len() - 1 {
                assert(s[i] == digits_of(q, radix)[i]);
            } else {
                assert(s[i] == digit_char(r));
            }
        }
    }
}

proof fn lemma_zero_times(x: nat)
    ensures
        0 * x == 0,
{
    assert(0 * x == 0) by (nonlinear_arith);
}

proof fn lemma_mod_bound_nat(n: nat, radix: nat)
    requires
        radix > 0,
    ensures
        n % radix < radix,
{
}

pub proof fn lemma_digits_value_zeros(k: nat, radix: nat)
    ensures
        digits_value(zeros(k), radix) == 0,
    decreases k,
{
    if k > 0 {
        assert(zeros(k).drop_last() == zeros((k - 1) as nat));
        lemma_digits_value_zeros((k - 1) as nat, radix);
        assert(zeros(k).last() == '0');
        assert(digit_value('0') == 0);
        lemma_zero_times(radix);
    }
}

/// Leading zeros do not change the value of a digit string.
pub proof fn lemma_digits_value_leading_zeros(k: nat, s: Seq<char>, radix: nat)
    ensures
        digits_value(zeros(k) + s, radix) == digits_value(s, radix),
    decreases s.len(),
{
    if s.len() == 0 {
        assert(zeros(k) + s == zeros(k));
        lemma_digits_value_zeros(k, radix);
    } else {
        assert((zeros(k) + s).drop_last() == zeros(k) + s.drop_last());
        lemma_digits_value_leading_zeros(k, s.drop_last(), radix);
    }
}

pub proof fn lemma_padded_digits(n: nat, radix: nat, width: nat)
    requires
        2 <= radix <= 16,
    ensures
        padded_digits(n, radix, width).len() > 0,
        padded_digits(n, radix, width).len() >= width,
        all_digits(padded_digits(n, radix, width), radix),
        digits_value(padded_digits(n, radix, width), radix) == n,
        padded_digits(n, radix, width)[0] != '+',
        padded_digits(n, radix, width)[0] != '-',
        forall|i: int|
            0 <= i < padded_digits(n, radix, width).len() ==> {
                &&& #[trigger] padded_digits(n, radix, width)[i] != '_'
                &&& !is_space(padded_digits(n, radix, width)[i])
            },
{
    let d = digits_of(n, radix);
    lemma_digits_of(n, radix);
    let p = padded_digits(n, radix, width);
    assert forall|i: int| 0 <= i < d.len() implies {
        &&& #[trigger] d[i] != '_'
        &&& !is_space(d[i])
        &&& d[i] != '+'
        &&& d[i] != '-'
    } by {
        let dd = choose|dd: nat| dd < radix && d[i] == digit_char(dd);
        lemma_digit_char(dd);
    }
    if d.len() < width {
        let k = (width - d.len()) as nat;
        lemma_digits_value_leading_zeros(k, d, radix);
        assert forall|i: int| 0 <= i < p.len() implies #[trigger] digit_value(p[i]) < radix by {
            if i >= k {
                assert(p[i] == d[i - k]);
            }
        }
        assert forall|i: int| 0 <= i < p.len() implies {
            &&& #[trigger] p[i] != '_'
            &&& !is_space(p[i])
        } by {
            if i >= k {
                assert(p[i] == d[i - k]);
            }
        }
    }
}

/// Removing underscores distributes over concatenation.
pub proof fn lemma_without_underscores_concat(a: Seq<char>, b: Seq<char>)
    ensures
        without_underscores(a + b) == without_underscores(a) + without_underscores(b),
    decreases b.len(),
{
    if b.len() == 0 {
        assert(a + b == a);
        assert(without_underscores(a) + without_underscores(b) == without_underscores(a));
    } else {
        assert((a + b).drop_last() == a + b.drop_last());
        lemma_without_underscores_concat(a, b.drop_last());
    }
}

/// A string without `'_'` is left as it is.
pub proof fn lemma_without_underscores_none(s: Seq<char>)
    requires
        forall|i: int| 0 <= i < s.len() ==> #[trigger] s[i] != '_',
    ensures
        without_underscores(s) == s,
    decreases s.len(),
{
    if s.len() > 0 {
        lemma_without_underscores_none(s.drop_last());
        assert(s.drop_last().push(s.last()) == s);
    }
}

/// Grouping adds nothing but underscores.
pub proof fn lemma_grouped_without_underscores(s: Seq<char>)
    requires
        forall|i: int| 0 <= i < s.len() ==> #[trigger] s[i] != '_',
    ensures
        without_underscores(grouped(s)) == s,
        s.len() > 0 ==> grouped(s).len() > 0 && grouped(s)[0] == s[0] && grouped(s).last()
            == s.last(),
    decreases s.len(),
{
    if s.len() > 0 {
        let p = s.drop_last();
        lemma_grouped_without_underscores(p);
        let g = grouped(p);
        assert(s.last() == s[s.len() - 1]);
        assert(s.last() != '_');
        if s.len() > 1 && (s.len() - 1) % 4 == 0 {
            assert(g.push('_').push(s.last()).drop_last() == g.push('_'));
            assert(g.push('_').drop_last() == g);
            assert(g.push('_').last() == '_');
            assert(without_underscores(g.push('_')) == without_underscores(g));
            assert(without_underscores(grouped(s)) == without_underscores(g).push(s.last()));
        } else {
            assert(g.push(s.last()).drop_last() == g);
            assert(without_underscores(grouped(s)) == without_underscores(g).push(s.last()));
        }
        assert(s.drop_last().push(s.last()) == s);
        if s.len() > 1 {
            assert(p[0] == s[0]);
        }
    }
}

/// A string that neither starts nor ends with white space is its own trim.
pub proof fn lemma_trim_unchanged(s: Seq<char>)
    requires
        s.len() > 0,
        !is_space(s[0]),
        !is_space(s.last()),
    ensures
        trim(s) == s,
{
}

pub proof fn lemma_digits_value_push(s: Seq<char>, c: char, radix: nat)
    ensures
        digits_value(s.push(c), radix) == digits_value(s, radix) * radix + digit_value(c),
{
    assert(s.push(c).drop_last() == s);
}

/// The value of a prefix of a digit string is at most the value of the whole.
pub proof fn lemma_digits_value_prefix(s: Seq<char>, k: int, radix: nat)
    requires
        0 <= k <= s.len(),
        radix >= 1,
    ensures
        digits_value(s.subrange(0, k), radix) <= digits_value(s, radix),
    decreases s.len() - k,
{
    if k < s.len() {
        lemma_digits_value_prefix(s, k + 1, radix);
        let a = s.subrange(0, k);
        let b = s.subrange(0, k + 1);
        assert(b.drop_last() == a);
        let va = digits_value(a, radix);
        assert(va * radix >= va) by (nonlinear_arith)
            requires
                radix >= 1,
        ;
    } else {
        assert(s.subrange(0, k) == s);
    }
}

// ---------------------------------------------------------------------------
// Executable code
// ---------------------------------------------------------------------------

/// Calls `String::push`, trusted to leave `s` as its old characters
/// followed by `c`, as its documentation says.
#[verifier::external_body]
fn push_char(s: &mut String, c: char)
    ensures
        final(s)@ == old(s)@.push(c),
{
    s.push(c);
}

/// The characters of `s`.
pub fn chars_of(s: &str) -> (v: Vec<char>)
    ensures
        v@ == s@,
{
    let n = s.unicode_len();
    let mut v: Vec<char> = Vec::new();
    let mut i: usize = 0;
    while i < n
        invariant
            n == s@.len(),
            i <= n,
            v@ == s@.subrange(0, i as int),
        decreases n - i,
    {
        v.push(s.get_char(i));
        i = i + 1;
    }
    v
}

/// A `String` holding the characters `v`.
pub fn string_of(v: &Vec<char>) -> (s: String)
    ensures
        s@ == v@,
{
    let mut s = String::new();
    let mut i: usize = 0;
    while i < v.len()
        invariant
            i <= v.len(),
            s@ == v@.subrange(0, i as int),
        decreases v.len() - i,
    {
        push_char(&mut s, v[i]);
        i = i + 1;
    }
    s
}

/// Whether `c` is white space (Unicode `White_Space`).
pub fn is_space_char(c: char) -> (b: bool)
    ensures
        b == is_space(c),
{
    let n = c as u32;
    (9 <= n && n <= 13) || n == 32 || n == 0x85 || n == 0xA0 || n == 0x1680 || (0x2000 <= n && n
        <= 0x200A) || n == 0x2028 || n == 0x2029 || n == 0x202F || n == 0x205F || n == 0x3000
}

/// `v` without leading and trailing white space.
pub fn trim_chars(v: &Vec<char>) -> (r: Vec<char>)
    ensures
        r@ == trim(v@),
{
    let n = v.len();
    let mut lo: usize = 0;
    assert(v@.subrange(0, n as int) == v@);
    while lo < n && is_space_char(v[lo])
        invariant
            n == v@.len(),
            lo <= n,
            trim_start(v@) == trim_start(v@.subrange(lo as int, n as int)),
        decreases n - lo,
    {
        assert(v@.subrange(lo as int, n as int).drop_first() == v@.subrange(
            lo + 1,
            n as int,
        ));
        lo = lo + 1;
    }
    let ghost t = v@.subrange(lo as int, n as int);
    assert(trim_start(v@) == t);
    let mut hi: usize = n;
    while hi > lo && is_space_char(v[hi - 1])
        invariant
            n == v@.len(),
            lo <= hi <= n,
            t == v@.subrange(lo as int, n as int),
            trim_end(t) == trim_end(v@.subrange(lo as int, hi as int)),
        decreases hi - lo,
    {
        assert(v@.subrange(lo as int, hi as int).drop_last() == v@.subrange(
            lo as int,
            hi - 1,
        ));
        hi = hi - 1;
    }
    let mut r: Vec<char> = Vec::new();
    let mut i: usize = lo;
    while i < hi
        invariant
            lo <= i <= hi <= n,
            n == v@.len(),
            r@ == v@.subrange(lo as int, i as int),
        decreases hi - i,
    {
        r.push(v[i]);
        i = i + 1;
    }
    r
}

/// `v` with every `'_'` removed.
pub fn remove_underscores(v: &Vec<char>) -> (r: Vec<char>)
    ensures
        r@ == without_underscores(v@),
{
    let mut r: Vec<char> = Vec::new();
    let mut i: usize = 0;
    while i < v.len()
        invariant
            i <= v.len(),
            r@ == without_underscores(v@.subrange(0, i as int)),
        decreases v.len() - i,
    {
        assert(v@.subrange(0, i + 1).drop_last() == v@.subrange(0, i as int));
        if v[i] != '_' {
            r.push(v[i]);
        }
        i = i + 1;
    }
    assert(v@.subrange(0, v.len() as int) == v@);
    r
}

/// `v` without the prefix `'0'`, `x`, if it has it.
pub fn strip_prefix(v: &Vec<char>, x: char) -> (r: Vec<char>)
    ensures
        r@ == strip_radix_prefix(v@, x),
{
    if v.len() >= 2 && v[0] == '0' && v[1] == x {
        let mut r: Vec<char> = Vec::new();
        let mut i: usize = 2;
        while i < v.len()
            invariant
                2 <= i <= v.len(),
                r@ == v@.subrange(2, i as int),
            decreases v.len() - i,
        {
            r.push(v[i]);
            i = i + 1;
        }
        r
    } else {
        v.clone()
    }
}

/// The digit value of `c`.
pub fn digit_of(c: char) -> (d: u32)
    ensures
        d == digit_value(c),
{
    let n = c as u32;
    if 48 <= n && n <= 57 {
        n - 48
    } else if 97 <= n && n <= 122 {
        n - 87
    } else if 65 <= n && n <= 90 {
        n - 55
    } else {
        36
    }
}

/// The characters `v[start..]` read as digits of base `radix`, when there is
/// at least one, all are digits, and the value fits in a `u64`.
pub fn parse_digits(v: &Vec<char>, start: usize, radix: u64) -> (r: Option<u64>)
    requires
        2 <= radix <= 16,
        start <= v.len(),
    ensures
        ({
            let body = v@.subrange(start as int, v@.len() as int);
            r == if body.len() > 0 && all_digits(body, radix as nat) && digits_value(
                body,
                radix as nat,
            ) <= u64::MAX {
                Some(digits_value(body, radix as nat) as u64)
            } else {
                None
            }
        }),
{
    let ghost body = v@.subrange(start as int, v@.len() as int);
    if start == v.len() {
        return None;
    }
    let mut acc: u64 = 0;
    let mut i: usize = start;
    while i < v.len()
        invariant
            start <= i <= v.len(),
            2 <= radix <= 16,
            body == v@.subrange(start as int, v@.len() as int),
            all_digits(v@.subrange(start as int, i as int), radix as nat),
            acc == digits_value(v@.subrange(start as int, i as int), radix as nat),
        decreases v.len() - i,
    {
        let ghost pre = v@.subrange(start as int, i as int);
        let ghost next = v@.subrange(start as int, i + 1);
        assert(next.drop_last() == pre);
        assert(next == body.subrange(0, i + 1 - start));
        let d = digit_of(v[i]);
        if d as u64 >= radix {
            assert(body[i - start] == v@[i as int]);
            return None;
        }
        proof {
            lemma_digits_value_push(pre, v@[i as int], radix as nat);
            assert(pre.push(v@[i as int]) == next);
        }
        match acc.checked_mul(radix) {
            None => {
                proof {
                    lemma_digits_value_prefix(body, i + 1 - start, radix as nat);
                }
                return None;
            },
            Some(m) => match m.checked_add(d as u64) {
                None => {
                    proof {
                        lemma_digits_value_prefix(body, i + 1 - start, radix as nat);
                    }
                    return None;
                },
                Some(a) => {
                    acc = a;
                },
            },
        }
        assert forall|j: int| 0 <= j < next.len() implies #[trigger] digit_value(next[j])
            < radix as nat by {
            if j < pre.len() {
                assert(next[j] == pre[j]);
            }
        }
        i = i + 1;
    }
    assert(v@.subrange(start as int, i as int) == body);
    Some(acc)
}

/// `v` read as an unsigned number of base `radix` that fits in a `u64`.
pub fn parse_unsigned_chars(v: &Vec<char>, radix: u64) -> (r: Option<u64>)
    requires
        2 <= radix <= 16,
    ensures
        r == match parse_unsigned(v@, radix as nat, u64::MAX as nat) {
            Some(n) => Some(n as u64),
            None => None,
        },
{
    if v.len() > 0 && v[0] == '+' {
        assert(v@.drop_first() == v@.subrange(1, v@.len() as int));
        parse_digits(v, 1, radix)
    } else {
        assert(v@ == v@.subrange(0, v@.len() as int));
        parse_digits(v, 0, radix)
    }
}

/// `v` read as a signed decimal number within `min..=max`.
pub fn parse_signed_chars(v: &Vec<char>, min: i64, max: i64) -> (r: Option<i64>)
    requires
        min <= 0 <= max,
    ensures
        r == match parse_signed(v@, min as int, max as int) {
            Some(n) => Some(n as i64),
            None => None,
        },
{
    if v.len() > 0 && v[0] == '-' {
        assert(v@.drop_first() == v@.subrange(1, v@.len() as int));
        match parse_digits(v, 1, 10) {
            None => None,
            Some(m) => {
                // the magnitude of `min` as a `u64`
                let bound: u64 = if min == i64::MIN {
                    0x8000_0000_0000_0000u64
                } else {
                    (-min) as u64
                };
                if m > bound {
                    None
                } else if m == 0x8000_0000_0000_0000u64 {
                    Some(i64::MIN)
                } else {
                    Some(-(m as i64))
                }
            },
        }
    } else {
        let r = parse_unsigned_chars(v, 10);
        match r {
            None => None,
            Some(m) => {
                if m > max as u64 {
                    None
                } else {
                    Some(m as i64)
                }
            },
        }
    }
}

/// The character of the digit `d`.
pub fn digit_char_of(d: u64) -> (c: char)
    requires
        d < 16,
    ensures
        c == digit_char(d as nat),
{
    match d {
        0 => '0',
        1 => '1',
        2 => '2',
        3 => '3',
        4 => '4',
        5 => '5',
        6 => '6',
        7 => '7',
        8 => '8',
        9 => '9',
        10 => 'A',
        11 => 'B',
        12 => 'C',
        13 => 'D',
        14 => 'E',
        _ => 'F',
    }
}

/// Appends the shortest digits of `n` in base `radix` to `v`.
pub fn push_digits(v: &mut Vec<char>, n: u64, radix: u64)
    requires
        2 <= radix <= 16,
    ensures
        final(v)@ == old(v)@ + digits_of(n as nat, radix as nat),
    decreases n,
{
    if n >= radix {
        proof {
            lemma_div_decreases(n as int, radix as int);
        }
        push_digits(v, n / radix, radix);
    }
    proof {
        lemma_mod_bound_nat(n as nat, radix as nat);
        if n < radix {
            lemma_small_mod(n as nat, radix as nat);
        }
    }
    v.push(digit_char_of(n % radix));
}

/// Appends `k` zero characters to `v`.
pub fn push_zeros(v: &mut Vec<char>, k: usize)
    ensures
        final(v)@ == old(v)@ + zeros(k as nat),
{
    let ghost v0 = v@;
    let mut i: usize = 0;
    while i < k
        invariant
            i <= k,
            v@ == v0 + zeros(i as nat),
        decreases k - i,
    {
        v.push('0');
        i = i + 1;
        assert(v@ == v0 + zeros(i as nat));
    }
}

/// The digits of `n` in base `radix`, padded on the left with zeros to at
/// least `width` characters.
pub fn padded_digits_of(n: u64, radix: u64, width: usize) -> (r: Vec<char>)
    requires
        2 <= radix <= 16,
    ensures
        r@ == padded_digits(n as nat, radix as nat, width as nat),
{
    let mut d: Vec<char> = Vec::new();
    push_digits(&mut d, n, radix);
    assert(d@ == digits_of(n as nat, radix as nat));
    if d.len() < width {
        let mut r: Vec<char> = Vec::new();
        push_zeros(&mut r, width - d.len());
        let mut i: usize = 0;
        let ghost z = r@;
        while i < d.len()
            invariant
                i <= d.len(),
                r@ == z + d@.subrange(0, i as int),
            decreases d.len() - i,
        {
            r.push(d[i]);
            i = i + 1;
        }
        assert(d@.subrange(0, d.len() as int) == d@);
        r
    } else {
        d
    }
}

/// Appends `s` to `out` in groups of four characters joined by `'_'`.
pub fn push_grouped(out: &mut Vec<char>, s: &Vec<char>)
    ensures
        final(out)@ == old(out)@ + grouped(s@),
{
    let ghost o = out@;
    let mut i: usize = 0;
    while i < s.len()
        invariant
            i <= s.len(),
            out@ == o + grouped(s@.subrange(0, i as int)),
        decreases s.len() - i,
    {
        let ghost p = s@.subrange(0, i as int);
        let ghost q = s@.subrange(0, i + 1);
        assert(q.drop_last() == p);
        if i > 0 && i % 4 == 0 {
            out.push('_');
        }
        out.push(s[i]);
        i = i + 1;
    }
    assert(s@.subrange(0, s.len() as int) == s@);
}


/// Whether `c` is one of the digit characters `'0'..='9'` or `'A'..='F'`
/// (upper case).
pub open spec fn is_upper_digit(c: char) -> bool {
    let n = c as u32;
    (48 <= n <= 57) || (65 <= n <= 70)
}

/// The shortest digits of a number are upper-case digit characters of the
/// base, have no leading zero (but for the number 0 itself), and write the number.
pub proof fn lemma_digits_of_shape(n: nat, radix: nat)
    requires
        2 <= radix <= 16,
    ensures
        digits_of(n, radix).len() > 0,
        digits_value(digits_of(n, radix), radix) == n,
        forall|i: int|
            0 <= i < digits_of(n, radix).len() ==> is_upper_digit(#[trigger] digits_of(n, radix)[i])
                && digit_value(digits_of(n, radix)[i]) < radix,
        n > 0 ==> digits_of(n, radix)[0] != '0',
        n == 0 ==> digits_of(n, radix) == seq!['0'],
    decreases n,
{
    lemma_digits_of(n, radix);
    let s = digits_of(n, radix);
    assert forall|i: int| 0 <= i < s.len() implies is_upper_digit(#[trigger] s[i]) && digit_value(
        s[i],
    ) < radix by {
        let d = choose|d: nat| d < radix && s[i] == digit_char(d);
        lemma_digit_char(d);
    }
    if n >= radix {
        lemma_div_decreases(n as int, radix as int);
        let q = n / radix;
        assert(q > 0) by {
            vstd::arithmetic::div_mod::lemma_div_non_zero(n as int, radix as int);
        }
        lemma_digits_of_shape(q, radix);
        assert(s[0] == digits_of(q, radix)[0]);
    }
}

/// Grouping by four: a `'_'` stands at every fifth place and nowhere else,
/// and the other places hold the characters in order.
pub proof fn lemma_grouped_shape(s: Seq<char>)
    requires
        forall|i: int| 0 <= i < s.len() ==> #[trigger] s[i] != '_',
        s.len() > 0,
    ensures
        grouped(s).len() == s.len() + (s.len() - 1) / 4,
        forall|k: int|
            0 <= k < grouped(s).len() ==> (#[trigger] grouped(s)[k] == '_' <==> k % 5 == 4),
        forall|k: int|
            0 <= k < grouped(s).len() && k % 5 != 4 ==> #[trigger] grouped(s)[k] == s[k - k / 5],
    decreases s.len(),
{
    let n = s.len() as int;
    if n == 1 {
        assert(grouped(s.drop_last()) == s.drop_last());
    } else {
        let p = s.drop_last();
        lemma_grouped_shape(p);
        let g = grouped(p);
        let last = s.last();
        assert(last == s[n - 1]);
        if (n - 1) % 4 == 0 {
            let r = g.push('_').push(last);
            assert(grouped(s) == r);
            assert forall|k: int| 0 <= k < r.len() implies (#[trigger] r[k] == '_' <==> k % 5 == 4) by {
                if k < g.len() {
                    assert(r[k] == g[k]);
                }
            }
            assert forall|k: int| 0 <= k < r.len() && k % 5 != 4 implies #[trigger] r[k] == s[k - k
                / 5] by {
                if k < g.len() {
                    assert(r[k] == g[k]);
                    assert(p[k - k / 5] == s[k - k / 5]);
                }
            }
        } else {
            let r = g.push(last);
            assert(grouped(s) == r);
            assert forall|k: int| 0 <= k < r.len() implies (#[trigger] r[k] == '_' <==> k % 5 == 4) by {
                if k < g.len() {
                    assert(r[k] == g[k]);
                }
            }
            assert forall|k: int| 0 <= k < r.len() && k % 5 != 4 implies #[trigger] r[k] == s[k - k
                / 5] by {
                if k < g.len() {
                    assert(r[k] == g[k]);
                    assert(p[k - k / 5] == s[k - k / 5]);
                }
            }
        }
    }
}


/// The digits padded to a width are upper-case digit characters of the base
/// that write the number, at least `width` of them, and no more than the
/// shortest digits when those are longer (so no zero leads then, but for the
/// number 0 written as `"0"`).
pub proof fn lemma_padded_shape(n: nat, radix: nat, width: nat)
    requires
        2 <= radix <= 16,
    ensures
        ({
            let p = padded_digits(n, radix, width);
            &&& digits_value(p, radix) == n
            &&& p.len() >= width
            &&& p.len() > 0
            &&& forall|i: int|
                0 <= i < p.len() ==> is_upper_digit(#[trigger] p[i]) && digit_value(p[i]) < radix
            &&& p.len() > width ==> (p[0] != '0' || p.len() == 1)
        }),
{
    lemma_digits_of_shape(n, radix);
    lemma_padded_digits(n, radix, width);
    let d = digits_of(n, radix);
    let p = padded_digits(n, radix, width);
    if d.len() < width {
        let k = (width - d.len()) as nat;
        assert forall|i: int| 0 <= i < p.len() implies is_upper_digit(#[trigger] p[i])
            && digit_value(p[i]) < radix by {
            if i >= k {
                assert(p[i] == d[i - k]);
            } else {
                assert(p[i] == '0');
            }
        }
    }
}

} // verus!
