//! Small helpers: UTF-16 strings for the Win32 API and DPI scaling.

use vstd::prelude::*;

verus! {

/// The UTF-16 code units that encode one character.
pub open spec fn utf16_of(c: char) -> Seq<u16> {
    let v = c as u32;
    if v < 0x10000 {
        seq![v as u16]
    } else {
        let u = (v - 0x10000) as u32;
        seq![(0xD800 + u / 0x400) as u16, (0xDC00 + u % 0x400) as u16]
    }
}

proof fn lemma_utf16_of_units(v: u32)
    ensures
        v < 0x10000 ==> (v as u16) as u32 == v,
        0x10000 <= v <= 0x10FFFF ==> ({
            let u = (v - 0x10000) as u32;
            &&& (0xD800 + u / 0x400) as u16 >= 0xD800
            &&& (0xDC00 + u % 0x400) as u16 >= 0xDC00
        }),
{
    assert(v < 0x10000 ==> (v as u16) as u32 == v) by (bit_vector);
    assert(0x10000 <= v <= 0x10FFFF ==> ({
        let u = (v - 0x10000) as u32;
        &&& (0xD800 + u / 0x400) as u16 >= 0xD800
        &&& (0xDC00 + u % 0x400) as u16 >= 0xDC00
    })) by (bit_vector);
}

/// UTF-16 encoding of a character sequence.
pub open spec fn utf16_units(s: Seq<char>) -> Seq<u16>
    decreases s.len(),
{
    if s.len() == 0 {
        Seq::empty()
    } else {
        utf16_units(s.drop_last()) + utf16_of(s.last())
    }
}

/// A NUL-terminated UTF-16 string, as the wide-character Win32 calls take it.
pub open spec fn wide_spec(s: Seq<char>) -> Seq<u16> {
    utf16_units(s).push(0u16)
}

fn push_utf16(out: &mut Vec<u16>, c: char)
    ensures
        final(out)@ == old(out)@ + utf16_of(c),
{
    let v: u32 = c as u32;
    if v < 0x10000 {
        out.push(v as u16);
    } else {
        let u: u32 = v - 0x10000;
        assert(u < 0x100000) by {
            assert(v <= 0x10FFFF);
        }
        out.push((0xD800 + u / 0x400) as u16);
        out.push((0xDC00 + u % 0x400) as u16);
    }
}

/// Build a NUL-terminated UTF-16 string (the wide Win32 calls only accept
/// NUL-terminated UTF-16 text).
pub fn wide(s: &str) -> (res: Vec<u16>)
    ensures
        res@ == wide_spec(s@),
{
    broadcast use vstd::string::axiom_spec_iter;
    let mut out: Vec<u16> = Vec::new();
    for c in it: s.chars()
        invariant
            it.seq() == s@,
            out@ == utf16_units(s@.take(it.index() as int)),
    {
        proof {
            assert(s@.take(it.index() + 1).drop_last() =~= s@.take(it.index() as int));
        }
        push_utf16(&mut out, c);
    }
    proof {
        assert(s@.take(s@.len() as int) =~= s@);
    }
    out.push(0);
    out
}

} // verus!

verus! {

/// `v` is a value of type `i32`.
pub open spec fn in_i32(v: int) -> bool {
    i32::MIN <= v <= i32::MAX
}

/// Whether a wider value fits in an `i32`.
pub fn fits_i32(v: i64) -> (r: bool)
    ensures
        r == in_i32(v as int),
{
    -0x8000_0000 <= v && v <= 0x7fff_ffff
}

/// Rust's integer division, which rounds toward zero.
pub open spec fn div_toward_zero(a: int, b: int) -> int
    recommends
        b > 0,
{
    if a >= 0 {
        a / b
    } else {
        -((-a) / b)
    }
}

/// `dpi as i32`: values above `i32::MAX` wrap to negative numbers.
pub open spec fn dpi_as_i32(dpi: u32) -> int {
    if dpi <= i32::MAX {
        dpi as int
    } else {
        dpi - 0x1_0000_0000
    }
}

/// `v * dpi / 96` rounded to the nearest integer, halves rounding up:
/// the floor of `(v * dpi + 48) / 96`.
pub open spec fn scale_spec(v: int, dpi: u32) -> int {
    (v * dpi_as_i32(dpi) + 48) / 96
}

/// The intermediate values `v * dpi` and `v * dpi + 48` that `scale` forms
/// fit in an `i32`.
pub open spec fn scale_fits(v: int, dpi: u32) -> bool {
    i32::MIN <= v * dpi_as_i32(dpi) && v * dpi_as_i32(dpi) + 48 <= i32::MAX
}

/// Scale a 96-dpi logical pixel value to the actual DPI (rounded).
pub fn scale(v: i32, dpi: u32) -> (r: i32)
    requires
        scale_fits(v as int, dpi),
    ensures
        r == scale_spec(v as int, dpi),
{
    let d: i32 = #[verifier::truncate] (dpi as i32);
    assert(d == dpi_as_i32(dpi)) by (bit_vector)
        requires
            d == #[verifier::truncate] (dpi as i32),
    ;
    assert(v * d == v * dpi_as_i32(dpi));
    let p: i32 = v * d + 48;
    if p >= 0 {
        p / 96
    } else {
        // Rust's `/` rounds toward zero; for negative numerators the floor
        // is one less unless the division is exact.
        let n: i32 = -p;
        let q: i32 = (n - 1) / 96;
        proof {
            let ni = n as int;
            vstd::arithmetic::div_mod::lemma_fundamental_div_mod(ni - 1, 96);
            let r = (ni - 1) % 96;
            assert(p as int == 96 * (-q - 1) + (95 - r));
            vstd::arithmetic::div_mod::lemma_fundamental_div_mod_converse(p as int, 96, -q - 1, 95 - r);
        }
        -q - 1
    }
}

} // verus!

verus! {

proof fn lemma_utf16_units_len_and_index(s: Seq<char>)
    requires
        forall|i: int| 0 <= i < s.len() ==> (s[i] as u32) < 0x10000,
    ensures
        utf16_units(s).len() == s.len(),
        forall|i: int| 0 <= i < s.len() ==> #[trigger] utf16_units(s)[i] as u32 == s[i] as u32,
    decreases s.len(),
{
    if s.len() > 0 {
        let t = s.drop_last();
        lemma_utf16_units_len_and_index(t);
        lemma_utf16_of_units(s.last() as u32);
        assert forall|i: int| 0 <= i < s.len() implies #[trigger] utf16_units(s)[i] as u32
            == s[i] as u32 by {
            if i < t.len() {
                assert(t[i] == s[i]);
            }
        }
    }
}

proof fn lemma_utf16_units_no_nul(s: Seq<char>)
    requires
        forall|i: int| 0 <= i < s.len() ==> s[i] != '\0',
    ensures
        forall|j: int| 0 <= j < utf16_units(s).len() ==> #[trigger] utf16_units(s)[j] != 0,
    decreases s.len(),
{
    if s.len() > 0 {
        let t = s.drop_last();
        assert forall|i: int| 0 <= i < t.len() implies t[i] != '\0' by {
            assert(t[i] == s[i]);
        }
        lemma_utf16_units_no_nul(t);
        let c = s.last();
        assert(c != '\0');
        vstd::utf8::char_is_scalar(c);
        if (c as u32) == 0 {
            vstd::utf8::char_u32_cast(c, 0);
            assert(c == '\0');
        }
        assert((c as u32) != 0);
        lemma_utf16_of_units(c as u32);
        let a = utf16_units(t);
        let b = utf16_of(c);
        assert forall|j: int| 0 <= j < utf16_units(s).len() implies #[trigger] utf16_units(s)[j]
            != 0 by {
            if j < a.len() {
                assert(utf16_units(s)[j] == a[j]);
            } else {
                assert(utf16_units(s)[j] == b[j - a.len()]);
            }
        }
    }
}

/// `wide` always ends with exactly one NUL terminator: the result is never
/// empty, its last unit is 0, and when the text holds no NUL character no
/// earlier unit is 0, so Win32 reads back the whole text.
pub proof fn lemma_wide_nul_terminated(s: Seq<char>)
    ensures
        wide_spec(s).len() >= 1,
        wide_spec(s).last() == 0,
        (forall|i: int| 0 <= i < s.len() ==> s[i] != '\0') ==> (forall|j: int|
            0 <= j < wide_spec(s).len() - 1 ==> #[trigger] wide_spec(s)[j] != 0),
{
    if forall|i: int| 0 <= i < s.len() ==> s[i] != '\0' {
        lemma_utf16_units_no_nul(s);
        assert forall|j: int| 0 <= j < wide_spec(s).len() - 1 implies #[trigger] wide_spec(
            s,
        )[j] != 0 by {
            assert(wide_spec(s)[j] == utf16_units(s)[j]);
        }
    }
}

/// Text made only of characters below U+10000 (ASCII included) is encoded
/// one unit per character, unit `i` being the code of character `i`.
pub proof fn lemma_wide_of_bmp_text(s: Seq<char>)
    requires
        forall|i: int| 0 <= i < s.len() ==> (s[i] as u32) < 0x10000,
    ensures
        wide_spec(s).len() == s.len() + 1,
        forall|i: int| 0 <= i < s.len() ==> #[trigger] wide_spec(s)[i] as u32 == s[i] as u32,
{
    lemma_utf16_units_len_and_index(s);
    assert forall|i: int| 0 <= i < s.len() implies #[trigger] wide_spec(s)[i] as u32
        == s[i] as u32 by {
        assert(wide_spec(s)[i] == utf16_units(s)[i]);
    }
}

/// At 96 dpi `scale` is the identity.
pub proof fn lemma_scale_identity_at_96(v: int)
    ensures
        scale_spec(v, 96) == v,
{
    assert(dpi_as_i32(96) == 96);
    vstd::arithmetic::div_mod::lemma_fundamental_div_mod_converse(v * 96 + 48, 96, v, 48);
}

/// For DPIs up to `i32::MAX`, `scale` rounds `v * dpi / 96` to the
/// nearest integer, halves rounding up, for every value, negative ones
/// included.
pub proof fn lemma_scale_rounds_to_nearest(v: int, dpi: u32)
    requires
        dpi <= i32::MAX,
    ensures
        96 * scale_spec(v, dpi) - 48 <= v * dpi < 96 * scale_spec(v, dpi) + 48,
{
    let p = v * dpi;
    assert(dpi_as_i32(dpi) == dpi);
    vstd::arithmetic::div_mod::lemma_fundamental_div_mod(p + 48, 96);
}

/// `scale` never decreases when the value grows.
pub proof fn lemma_scale_monotonic_in_value(v1: int, v2: int, dpi: u32)
    requires
        v1 <= v2,
        dpi <= i32::MAX,
    ensures
        scale_spec(v1, dpi) <= scale_spec(v2, dpi),
{
    let a = v1 * dpi + 48;
    let b = v2 * dpi + 48;
    assert(a <= b) by (nonlinear_arith)
        requires
            v1 <= v2,
            dpi >= 0,
            a == v1 * dpi + 48,
            b == v2 * dpi + 48,
    ;
    vstd::arithmetic::div_mod::lemma_div_is_ordered(a, b, 96);
}

/// `scale` of a non-negative value never decreases when the DPI grows.
pub proof fn lemma_scale_monotonic_in_dpi(v: int, dpi1: u32, dpi2: u32)
    requires
        v >= 0,
        dpi1 <= dpi2 <= i32::MAX,
    ensures
        scale_spec(v, dpi1) <= scale_spec(v, dpi2),
{
    let a = v * dpi1 + 48;
    let b = v * dpi2 + 48;
    assert(a <= b) by (nonlinear_arith)
        requires
            v >= 0,
            dpi1 <= dpi2,
            a == v * dpi1 + 48,
            b == v * dpi2 + 48,
    ;
    vstd::arithmetic::div_mod::lemma_div_is_ordered(a, b, 96);
}

/// `scale` where its arithmetic fits in an `i32`, `None` where it would
/// overflow.
pub fn scale_checked(v: i32, dpi: u32) -> (r: Option<i32>)
    ensures
        r is Some <==> scale_fits(v as int, dpi),
        r matches Some(x) ==> x == scale_spec(v as int, dpi),
{
    let d: i64 = if dpi <= 0x7fff_ffff {
        dpi as i64
    } else {
        dpi as i64 - 0x1_0000_0000
    };
    assert(d == dpi_as_i32(dpi));
    assert(-0x8000_0000 * 0x8000_0000 <= (v as i64) * d <= 0x8000_0000 * 0x8000_0000) by (nonlinear_arith)
        requires
            -0x8000_0000 <= v < 0x8000_0000,
            -0x8000_0000 <= d < 0x8000_0000,
    ;
    let p: i64 = v as i64 * d;
    if p < i32::MIN as i64 || p + 48 > i32::MAX as i64 {
        return None;
    }
    Some(scale(v, dpi))
}

/// UTF-16 decoding: a high surrogate followed by a low surrogate gives the
/// supplementary character they encode; any other unit gives the character
/// of that code; a lone surrogate gives U+FFFD.
pub open spec fn decode_utf16(units: Seq<u16>) -> Seq<char>
    decreases units.len(),
{
    if units.len() == 0 {
        Seq::empty()
    } else {
        let a = units[0] as u32;
        if 0xD800 <= a < 0xDC00 && units.len() >= 2 && 0xDC00 <= (units[1] as u32) < 0xE000 {
            let b = units[1] as u32;
            let c = (0x10000 + (a - 0xD800) * 0x400 + (b - 0xDC00)) as u32;
            seq![c as char] + decode_utf16(units.subrange(2, units.len() as int))
        } else if 0xD800 <= a < 0xE000 {
            seq!['\u{FFFD}'] + decode_utf16(units.drop_first())
        } else {
            seq![a as char] + decode_utf16(units.drop_first())
        }
    }
}

proof fn lemma_utf16_units_prepend(c: char, t: Seq<char>)
    ensures
        utf16_units(seq![c] + t) == utf16_of(c) + utf16_units(t),
    decreases t.len(),
{
    let s = seq![c] + t;
    if t.len() == 0 {
        assert(s.drop_last() =~= Seq::<char>::empty());
        assert(s.last() == c);
        assert(utf16_units(Seq::<char>::empty()) =~= Seq::<u16>::empty());
        assert(utf16_units(s.drop_last()) =~= Seq::<u16>::empty());
        assert(utf16_units(t) =~= Seq::<u16>::empty());
        assert(utf16_units(s) =~= utf16_of(c));
    } else {
        lemma_utf16_units_prepend(c, t.drop_last());
        assert(s.drop_last() =~= seq![c] + t.drop_last());
        assert(s.last() == t.last());
        assert(utf16_units(s) =~= utf16_of(c) + utf16_units(t.drop_last()) + utf16_of(t.last()));
    }
}

proof fn lemma_utf16_pair(v: u32)
    requires
        0x10000 <= v <= 0x10FFFF,
    ensures
        ({
            let u = (v - 0x10000) as u32;
            let hi = ((0xD800 + u / 0x400) as u16) as u32;
            let lo = ((0xDC00 + u % 0x400) as u16) as u32;
            &&& 0xD800 <= hi < 0xDC00
            &&& 0xDC00 <= lo < 0xE000
            &&& (0x10000 + (hi - 0xD800) * 0x400 + (lo - 0xDC00)) as u32 == v
        }),
{
    assert(0x10000 <= v <= 0x10FFFF ==> ({
        let u = (v - 0x10000) as u32;
        let hi = ((0xD800 + u / 0x400) as u16) as u32;
        let lo = ((0xDC00 + u % 0x400) as u16) as u32;
        &&& 0xD800 <= hi < 0xDC00
        &&& 0xDC00 <= lo < 0xE000
        &&& (0x10000 + (hi - 0xD800) * 0x400 + (lo - 0xDC00)) as u32 == v
    })) by (bit_vector);
}

proof fn lemma_decode_utf16_units(s: Seq<char>)
    ensures
        decode_utf16(utf16_units(s)) == s,
    decreases s.len(),
{
    if s.len() > 0 {
        let c = s[0];
        let t = s.drop_first();
        assert(s =~= seq![c] + t);
        lemma_utf16_units_prepend(c, t);
        lemma_decode_utf16_units(t);
        let units = utf16_units(s);
        let rest = utf16_units(t);
        assert(units == utf16_of(c) + rest);
        let v = c as u32;
        vstd::utf8::char_is_scalar(c);
        vstd::utf8::char_u32_cast(c, v);
        lemma_utf16_of_units(v);
        if v < 0x10000 {
            assert(units[0] as u32 == v);
            assert(units.drop_first() =~= rest);
            assert(decode_utf16(units) =~= seq![c] + t);
        } else {
            lemma_utf16_pair(v);
            assert(units.subrange(2, units.len() as int) =~= rest);
            assert(decode_utf16(units) =~= seq![c] + t);
        }
    }
}

/// Dropping the terminator of `wide`'s result and decoding the UTF-16 units
/// gives back the text.
pub proof fn lemma_wide_decodes_to_text(s: Seq<char>)
    ensures
        wide_spec(s).drop_last() == utf16_units(s),
        decode_utf16(wide_spec(s).drop_last()) == s,
{
    assert(wide_spec(s).drop_last() =~= utf16_units(s));
    lemma_decode_utf16_units(s);
}

} // verus!
