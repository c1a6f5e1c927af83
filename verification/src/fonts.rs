//! Which font files of the fonts directory are added to the user interface,
//! and the order in which its proportional font family tries the fonts.
//!
//! The bundled Chinese font comes first, then the first default font, the
//! bundled emoji font, the other default fonts, and last the extra fonts of
//! the directory sorted by name.
use vstd::prelude::*;
use vstd::relations::{sorted_by, total_ordering};
use vstd::string::*;
use crate::text::chars_of;

verus! {

broadcast use vstd::seq_lib::to_multiset_build, vstd::seq_lib::to_multiset_insert;

/// The stem of the bundled Chinese font file.
pub open spec fn bundled_stem() -> Seq<char> {
    "AlibabaPuHuiTi-3-55-Regular"@
}

/// The name of the bundled Chinese font.
pub open spec fn chinese_font() -> Seq<char> {
    "AlibabaPuHuiTi"@
}

/// The name of the bundled emoji font.
pub open spec fn emoji_font() -> Seq<char> {
    "NotoEmoji"@
}

/// Whether a file of the fonts directory is an extra font: a TrueType or
/// OpenType file other than the bundled Chinese font.
pub open spec fn is_extra(stem: Seq<char>, extension: Seq<char>) -> bool {
    (extension == "ttf"@ || extension == "otf"@) && stem != bundled_stem()
}

/// `a` comes before or is `b` in the order of their characters' code points
/// (the order of Rust's `String`s).
pub open spec fn lex_le(a: Seq<char>, b: Seq<char>) -> bool
    decreases a.len(),
{
    if a.len() == 0 {
        true
    } else if b.len() == 0 {
        false
    } else if (a[0] as u32) < (b[0] as u32) {
        true
    } else if a[0] == b[0] {
        lex_le(a.drop_first(), b.drop_first())
    } else {
        false
    }
}

/// The order of strings, as a relation.
pub open spec fn text_order() -> spec_fn(Seq<char>, Seq<char>) -> bool {
    |a: Seq<char>, b: Seq<char>| lex_le(a, b)
}

/// The texts of `v`.
pub open spec fn texts(v: Seq<String>) -> Seq<Seq<char>> {
    v.map_values(|s: String| s@)
}

proof fn lemma_lex_reflexive(a: Seq<char>)
    ensures
        lex_le(a, a),
    decreases a.len(),
{
    if a.len() > 0 {
        lemma_lex_reflexive(a.drop_first());
    }
}

proof fn lemma_lex_antisymmetric(a: Seq<char>, b: Seq<char>)
    requires
        lex_le(a, b),
        lex_le(b, a),
    ensures
        a == b,
    decreases a.len(),
{
    if a.len() > 0 && b.len() > 0 {
        lemma_lex_antisymmetric(a.drop_first(), b.drop_first());
        assert(a == seq![a[0]] + a.drop_first());
        assert(b == seq![b[0]] + b.drop_first());
    }
}

proof fn lemma_lex_transitive(a: Seq<char>, b: Seq<char>, c: Seq<char>)
    requires
        lex_le(a, b),
        lex_le(b, c),
    ensures
        lex_le(a, c),
    decreases a.len(),
{
    if a.len() > 0 && b.len() > 0 && c.len() > 0 {
        if a[0] == b[0] && b[0] == c[0] {
            lemma_lex_transitive(a.drop_first(), b.drop_first(), c.drop_first());
        }
    }
}

proof fn lemma_lex_total(a: Seq<char>, b: Seq<char>)
    ensures
        lex_le(a, b) || lex_le(b, a),
    decreases a.len(),
{
    if a.len() > 0 && b.len() > 0 {
        if a[0] == b[0] {
            lemma_lex_total(a.drop_first(), b.drop_first());
        } else {
            lemma_char_codes_differ(a[0], b[0]);
        }
    }
}

proof fn lemma_char_codes_differ(x: char, y: char)
    requires
        x != y,
    ensures
        (x as u32) != (y as u32),
{
}

/// The order of strings is a total order.
pub proof fn lemma_text_order_total()
    ensures
        total_ordering(text_order()),
{
    let r = text_order();
    assert forall|x: Seq<char>| #[trigger] r(x, x) by {
        lemma_lex_reflexive(x);
    }
    assert forall|x: Seq<char>, y: Seq<char>| #[trigger] r(x, y) && #[trigger] r(y, x) implies x
        == y by {
        lemma_lex_antisymmetric(x, y);
    }
    assert forall|x: Seq<char>, y: Seq<char>, z: Seq<char>| #[trigger]
        r(x, y) && #[trigger] r(y, z) implies r(x, z) by {
        lemma_lex_transitive(x, y, z);
    }
    assert forall|x: Seq<char>, y: Seq<char>| #[trigger] r(x, y) || #[trigger] r(y, x) by {
        lemma_lex_total(x, y);
    }
}

/// Whether `a` and `b` hold the same characters.
fn same_chars(a: &Vec<char>, b: &Vec<char>) -> (r: bool)
    ensures
        r == (a@ == b@),
{
    if a.len() != b.len() {
        return false;
    }
    let mut i: usize = 0;
    while i < a.len()
        invariant
            a.len() == b.len(),
            i <= a.len(),
            forall|j: int| 0 <= j < i ==> a@[j] == b@[j],
        decreases a.len() - i,
    {
        if a[i] != b[i] {
            return false;
        }
        i = i + 1;
    }
    assert(a@ == b@);
    true
}

/// Whether `a` comes before or is `b`.
fn chars_le(a: &Vec<char>, b: &Vec<char>) -> (r: bool)
    ensures
        r == lex_le(a@, b@),
{
    let mut i: usize = 0;
    assert(a@.skip(0) == a@);
    assert(b@.skip(0) == b@);
    while i < a.len() && i < b.len() && a[i] == b[i]
        invariant
            i <= a.len(),
            i <= b.len(),
            lex_le(a@, b@) == lex_le(a@.skip(i as int), b@.skip(i as int)),
        decreases a.len() - i,
    {
        assert(a@.skip(i as int).drop_first() == a@.skip(i + 1));
        assert(b@.skip(i as int).drop_first() == b@.skip(i + 1));
        i = i + 1;
    }
    if i == a.len() {
        true
    } else if i == b.len() {
        false
    } else {
        (a[i] as u32) < (b[i] as u32)
    }
}

/// Whether the file with this stem and extension is an extra font.
pub fn is_extra_font(stem: &str, extension: &str) -> (r: bool)
    ensures
        r == is_extra(stem@, extension@),
{
    let e = chars_of(extension);
    let ttf = chars_of("ttf");
    let otf = chars_of("otf");
    if !(same_chars(&e, &ttf) || same_chars(&e, &otf)) {
        return false;
    }
    let s = chars_of(stem);
    let bundled = chars_of("AlibabaPuHuiTi-3-55-Regular");
    !same_chars(&s, &bundled)
}

/// The names sorted.
pub fn sorted_names(names: &Vec<String>) -> (r: Vec<String>)
    ensures
        texts(r@) == texts(names@).sort_by(text_order()),
{
    let ghost leq = text_order();
    proof {
        lemma_text_order_total();
    }
    let mut r: Vec<String> = Vec::new();
    let mut i: usize = 0;
    assert(texts(r@) == texts(names@.take(0)));
    while i < names.len()
        invariant
            i <= names.len(),
            leq == text_order(),
            total_ordering(leq),
            sorted_by(texts(r@), leq),
            texts(r@).to_multiset() == texts(names@.take(i as int)).to_multiset(),
        decreases names.len() - i,
    {
        let name = names[i].clone();
        let key = chars_of(name.as_str());
        let mut p: usize = 0;
        while p < r.len() && chars_le(&chars_of(r[p].as_str()), &key)
            invariant
                p <= r.len(),
                key@ == name@,
                leq == text_order(),
                forall|j: int| 0 <= j < p ==> lex_le(#[trigger] texts(r@)[j], name@),
            decreases r.len() - p,
        {
            p = p + 1;
        }
        let ghost before = texts(r@);
        proof {
            if p < r.len() {
                lemma_lex_total(before[p as int], name@);
                assert forall|j: int| p <= j < before.len() implies lex_le(
                    name@,
                    #[trigger] before[j],
                ) by {
                    if j > p {
                        assert(leq(before[p as int], before[j]));
                        lemma_lex_transitive(name@, before[p as int], before[j]);
                    }
                }
            }
        }
        r.insert(p, name);
        proof {
            let after = texts(r@);
            assert(after == before.insert(p as int, names@[i as int]@));
            assert forall|a: int, b: int| 0 <= a < b < after.len() implies #[trigger] leq(
                after[a],
                after[b],
            ) by {
                if a < p && b == p {
                } else if a < p && b > p {
                    assert(after[b] == before[b - 1]);
                    assert(lex_le(before[a], name@));
                    assert(lex_le(name@, before[b - 1]));
                    lemma_lex_transitive(before[a], name@, before[b - 1]);
                } else if a == p {
                    assert(after[b] == before[b - 1]);
                } else if b < p {
                    assert(leq(before[a], before[b]));
                } else {
                    assert(after[a] == before[a - 1]);
                    assert(after[b] == before[b - 1]);
                    assert(leq(before[a - 1], before[b - 1]));
                }
            }
            assert(names@.take(i + 1) == names@.take(i as int).push(names@[i as int]));
            assert(texts(names@.take(i + 1)) == texts(names@.take(i as int)).push(
                names@[i as int]@,
            ));
        }
        i = i + 1;
    }
    proof {
        assert(names@.take(names.len() as int) == names@);
        texts(names@).lemma_sort_by_ensures(leq);
        vstd::seq_lib::lemma_sorted_unique(texts(r@), texts(names@).sort_by(leq), leq);
    }
    r
}

/// The proportional font family: the Chinese font, the first default font,
/// the emoji font, the other default fonts, then the extra fonts.
pub fn proportional_family(defaults: &Vec<String>, extra: &Vec<String>) -> (r: Vec<String>)
    requires
        defaults.len() >= 1,
    ensures
        texts(r@) == seq![chinese_font(), defaults@[0]@, emoji_font()] + texts(defaults@).skip(1)
            + texts(extra@),
{
    let mut r: Vec<String> = Vec::new();
    r.push(String::from_str("AlibabaPuHuiTi"));
    r.push(defaults[0].clone());
    r.push(String::from_str("NotoEmoji"));
    let mut i: usize = 1;
    assert(texts(r@) == seq![chinese_font(), defaults@[0]@, emoji_font()]);
    while i < defaults.len()
        invariant
            1 <= i <= defaults.len(),
            texts(r@) == seq![chinese_font(), defaults@[0]@, emoji_font()] + texts(
                defaults@,
            ).subrange(1, i as int),
        decreases defaults.len() - i,
    {
        let ghost before = texts(r@);
        r.push(defaults[i].clone());
        assert(texts(r@) == before.push(defaults@[i as int]@));
        assert(texts(defaults@).subrange(1, i + 1) == texts(defaults@).subrange(1, i as int).push(
            defaults@[i as int]@,
        ));
        i = i + 1;
    }
    let mut j: usize = 0;
    assert(texts(defaults@).subrange(1, defaults.len() as int) == texts(defaults@).skip(1));
    assert(texts(extra@).take(0) == Seq::<Seq<char>>::empty());
    while j < extra.len()
        invariant
            j <= extra.len(),
            defaults.len() >= 1,
            texts(r@) == seq![chinese_font(), defaults@[0]@, emoji_font()] + texts(
                defaults@,
            ).skip(1) + texts(extra@).take(j as int),
        decreases extra.len() - j,
    {
        let ghost before = texts(r@);
        r.push(extra[j].clone());
        assert(texts(r@) == before.push(extra@[j as int]@));
        assert(texts(extra@).take(j + 1) == texts(extra@).take(j as int).push(extra@[j as int]@));
        j = j + 1;
    }
    r
}

} // verus!
