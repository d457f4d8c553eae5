//! Byte-level rendering and parsing of the values that go into a session
//! token: a 128-bit identifier as 32 lowercase hex digits, and a 64-bit
//! timestamp as canonical decimal digits.  Parsing is strict: it accepts
//! exactly the strings the renderers produce, which makes render/parse a
//! bijection onto the valid strings.

use vstd::prelude::*;

verus! {

/// ASCII code of '.', the separator of the token format.
pub const DOT: u8 = 46;

/// The ASCII hex digit for a nibble value below 16.
pub open spec fn hex_char(n: u8) -> u8 {
    if n < 10 {
        (48 + n) as u8
    } else {
        (87 + n) as u8
    }
}

/// The value of an ASCII hex digit, or None if the byte is not a
/// lowercase hex digit.
pub open spec fn hex_val(c: u8) -> Option<u8> {
    if 48 <= c && c <= 57 {
        Some((c - 48) as u8)
    } else if 97 <= c && c <= 102 {
        Some((c - 87) as u8)
    } else {
        None
    }
}

/// The nibble of `x` rendered at position `i` of the 32-digit form
/// (position 0 is the most significant nibble).
pub open spec fn nibble_of(x: u128, i: int) -> u8 {
    ((x >> (((31 - i) * 4) as u128)) & 0xf) as u8
}

/// A 128-bit value as exactly 32 lowercase hex digits, most significant
/// first.
pub open spec fn u128_hex(x: u128) -> Seq<u8> {
    Seq::new(32, |i: int| hex_char(nibble_of(x, i)))
}

/// Folds hex digits into a value, most significant first.  Digits beyond
/// the 32nd wrap; the parser never feeds it more than 32.
pub open spec fn fold_hex(s: Seq<u8>) -> u128
    decreases s.len(),
{
    if s.len() == 0 {
        0
    } else {
        (fold_hex(s.drop_last()) << 4) | (hex_val(s.last()).unwrap_or(0) as u128)
    }
}

/// Whether every byte of `s` is a lowercase hex digit.
pub open spec fn all_hex(s: Seq<u8>) -> bool {
    forall|i: int| 0 <= i < s.len() ==> #[trigger] hex_val(s[i]) is Some
}

/// Strict parse of a 128-bit value: exactly 32 lowercase hex digits.
pub open spec fn parse_hex32(s: Seq<u8>) -> Option<u128> {
    if s.len() == 32 && all_hex(s) {
        Some(fold_hex(s))
    } else {
        None
    }
}

/// The ASCII decimal digit for a value below 10.
pub open spec fn dec_char(n: u64) -> u8 {
    (48 + (n % 10)) as u8
}

/// A 64-bit value as canonical decimal digits: no sign, no leading zero.
pub open spec fn u64_dec(x: u64) -> Seq<u8>
    decreases x,
{
    if x < 10 {
        seq![dec_char(x)]
    } else {
        u64_dec(x / 10).push(dec_char(x))
    }
}

/// The value of an ASCII decimal digit, or None.
pub open spec fn dec_val(c: u8) -> Option<u8> {
    if 48 <= c && c <= 57 {
        Some((c - 48) as u8)
    } else {
        None
    }
}

/// Whether every byte of `s` is a decimal digit.
pub open spec fn all_dec(s: Seq<u8>) -> bool {
    forall|i: int| 0 <= i < s.len() ==> #[trigger] dec_val(s[i]) is Some
}

/// Folds decimal digits into an unbounded integer, most significant
/// first.
pub open spec fn fold_dec(s: Seq<u8>) -> int
    decreases s.len(),
{
    if s.len() == 0 {
        0
    } else {
        fold_dec(s.drop_last()) * 10 + dec_val(s.last()).unwrap_or(0)
    }
}

/// Strict parse of a 64-bit value: decimal digits, canonical (no leading
/// zero), and within range.
pub open spec fn parse_dec64(s: Seq<u8>) -> Option<u64> {
    if s.len() > 0 && all_dec(s) && (s[0] != 48 || s.len() == 1) && fold_dec(s) <= u64::MAX {
        Some(fold_dec(s) as u64)
    } else {
        None
    }
}

/// Renders a 128-bit identifier as 32 lowercase hex digits, appended to
/// `out`.
pub fn push_hex32(x: u128, out: &mut Vec<u8>)
    ensures
        final(out)@ == old(out)@ + u128_hex(x),
{
    let mut i: usize = 0;
    while i < 32
        invariant
            0 <= i <= 32,
            out@ == old(out)@ + u128_hex(x).take(i as int),
        decreases 32 - i,
    {
        let shift: u128 = ((31 - i) * 4) as u128;
        let nv: u128 = (x >> shift) & 0xf;
        proof {
            lemma_nibble_lt16();
        }
        let n: u8 = nv as u8;
        let c: u8 = if n < 10 {
            48 + n
        } else {
            87 + n
        };
        assert(c == hex_char(nibble_of(x, i as int)));
        out.push(c);
        assert(out@ =~= old(out)@ + u128_hex(x).take(i + 1));
        i += 1;
    }
    assert(out@ =~= old(out)@ + u128_hex(x));
}

/// A masked nibble is below 16, whatever the shift.
proof fn lemma_nibble_lt16()
    ensures
        forall|y: u128, sh: u128| #[trigger] ((y >> sh) & 0xf) < 16,
{
    assert(forall|y: u128, sh: u128| #[trigger] ((y >> sh) & 0xf) < 16) by (bit_vector);
}

/// Renders a 64-bit value as canonical decimal digits, appended to
/// `out`.
pub fn push_dec64(x: u64, out: &mut Vec<u8>)
    ensures
        final(out)@ == old(out)@ + u64_dec(x),
    decreases x,
{
    if x < 10 {
        out.push(48 + x as u8);
        assert(out@ =~= old(out)@ + u64_dec(x));
    } else {
        push_dec64(x / 10, out);
        out.push(48 + (x % 10) as u8);
        assert(out@ =~= old(out)@ + u64_dec(x));
    }
}

/// Parses exactly 32 lowercase hex digits from `s[from..from + 32]`.
pub fn scan_hex32(s: &Vec<u8>, from: usize) -> (r: Option<u128>)
    requires
        from + 32 <= s@.len(),
    ensures
        r == parse_hex32(s@.subrange(from as int, from + 32)),
{
    let ghost part = s@.subrange(from as int, from + 32);
    let n = s.len();
    let mut acc: u128 = 0;
    let mut i: usize = 0;
    while i < 32
        invariant
            0 <= i <= 32,
            from + 32 <= n == s@.len(),
            part == s@.subrange(from as int, from + 32),
            acc == fold_hex(part.take(i as int)),
            all_hex(part.take(i as int)),
        decreases 32 - i,
    {
        let c = s[from + i];
        let v: u8;
        if 48 <= c && c <= 57 {
            v = c - 48;
        } else if 97 <= c && c <= 102 {
            v = c - 87;
        } else {
            assert(hex_val(part[i as int]) is None);
            return None;
        }
        assert(hex_val(part[i as int]) == Some(v));
        assert(part.take(i + 1).drop_last() =~= part.take(i as int));
        acc = (acc << 4) | (v as u128);
        i += 1;
    }
    assert(part.take(32) =~= part);
    Some(acc)
}

/// Parses a canonical decimal 64-bit value from all of `s[from..to]`.
pub fn scan_dec64(s: &Vec<u8>, from: usize, to: usize) -> (r: Option<u64>)
    requires
        from <= to <= s@.len(),
    ensures
        r == parse_dec64(s@.subrange(from as int, to as int)),
{
    let ghost part = s@.subrange(from as int, to as int);
    if from == to {
        return None;
    }
    if s[from] == 48 && to - from > 1 {
        return None;
    }
    let mut acc: u64 = 0;
    let mut i: usize = from;
    while i < to
        invariant
            from <= i <= to <= s@.len(),
            part == s@.subrange(from as int, to as int),
            acc == fold_dec(part.take(i - from)),
            all_dec(part.take(i - from)),
        decreases to - i,
    {
        let c = s[i];
        if !(48 <= c && c <= 57) {
            assert(dec_val(part[i - from]) is None);
            return None;
        }
        let v: u8 = c - 48;
        assert(dec_val(part[i - from]) == Some(v));
        assert(part.take(i - from + 1).drop_last() =~= part.take(i - from));
        if acc > (u64::MAX - v as u64) / 10 {
            proof {
                lemma_fold_dec_grows(part, i - from + 1);
            }
            return None;
        }
        acc = acc * 10 + v as u64;
        i += 1;
    }
    assert(part.take(to - from) =~= part);
    Some(acc)
}

/// Once a decimal prefix exceeds the 64-bit range, every extension of it
/// does too.
proof fn lemma_fold_dec_grows(s: Seq<u8>, k: int)
    requires
        0 <= k <= s.len(),
        fold_dec(s.take(k)) > u64::MAX,
    ensures
        fold_dec(s) > u64::MAX,
    decreases s.len() - k,
{
    if k < s.len() {
        assert(s.take(k + 1).drop_last() =~= s.take(k));
        assert(fold_dec(s.take(k + 1)) == fold_dec(s.take(k)) * 10 + dec_val(s.take(k + 1).last()).unwrap_or(0));
        assert(fold_dec(s.take(k)) * 10 >= fold_dec(s.take(k))) by (nonlinear_arith)
            requires fold_dec(s.take(k)) > 0,
        ;
        lemma_fold_dec_grows(s, k + 1);
    } else {
        assert(s.take(k) =~= s);
    }
}

/// Parsing the hex rendering of a value gives the value back.
pub proof fn lemma_hex_round_trip(x: u128)
    ensures
        parse_hex32(u128_hex(x)) == Some(x),
{
    lemma_nibble_lt16();
    assert forall|i: int| 0 <= i < 32 implies #[trigger] hex_val(u128_hex(x)[i]) is Some by {
        assert(((x >> (((31 - i) * 4) as u128)) & 0xf) < 16);
    }
    lemma_fold_hex_prefix(x, 32);
    assert(u128_hex(x).take(32) =~= u128_hex(x));
    assert(x >> 0u128 == x) by (bit_vector);
}

/// Folding the first `k` hex digits of the rendering of `x` recovers the
/// top `k` nibbles of `x`.
proof fn lemma_fold_hex_prefix(x: u128, k: int)
    requires
        1 <= k <= 32,
    ensures
        fold_hex(u128_hex(x).take(k)) == x >> (((32 - k) * 4) as u128),
    decreases k,
{
    let s = u128_hex(x);
    lemma_nibble_lt16();
    if k == 1 {
        assert(s.take(1).drop_last() =~= Seq::<u8>::empty());
        assert(fold_hex(Seq::<u8>::empty()) == 0);
        assert(s.take(1).last() == hex_char(nibble_of(x, 0)));
        assert(nibble_of(x, 0) < 16);
        assert(hex_val(hex_char(nibble_of(x, 0))) == Some(nibble_of(x, 0)));
        assert(fold_hex(s.take(1)) == (0u128 << 4) | (nibble_of(x, 0) as u128));
        assert((0u128 << 4) | ((x >> 124u128) & 0xf) == x >> 124u128) by (bit_vector);
    } else {
        lemma_fold_hex_prefix(x, k - 1);
        assert(s.take(k).drop_last() =~= s.take(k - 1));
        let n = nibble_of(x, k - 1);
        assert(n < 16);
        assert(hex_val(hex_char(n)) == Some(n));
        let sh: u128 = ((32 - k) * 4) as u128;
        assert(fold_hex(s.take(k)) == (fold_hex(s.take(k - 1)) << 4) | (n as u128));
        assert(forall|y: u128, shv: u128|
            shv <= 120 ==> ((y >> ((shv + 4)) << 4) | ((y >> shv) & 0xf)) == #[trigger] (y >> shv)) by (bit_vector);
        assert(sh <= 120);
        assert(((x >> (sh + 4)) << 4) | ((x >> sh) & 0xf) == x >> sh);
        assert(n as u128 == (x >> sh) & 0xf);
    }
}

/// Parsing the decimal rendering of a value gives the value back.
pub proof fn lemma_dec_round_trip(x: u64)
    ensures
        parse_dec64(u64_dec(x)) == Some(x),
{
    lemma_dec_shape(x);
    lemma_fold_dec_of_render(x);
}

/// The decimal rendering is digits only, never empty, and has no leading
/// zero.
pub proof fn lemma_dec_shape(x: u64)
    ensures
        u64_dec(x).len() >= 1,
        all_dec(u64_dec(x)),
        u64_dec(x)[0] == 48 ==> u64_dec(x).len() == 1,
        forall|i: int| 0 <= i < u64_dec(x).len() ==> #[trigger] u64_dec(x)[i] != DOT,
    decreases x,
{
    if x >= 10 {
        lemma_dec_shape(x / 10);
        assert(u64_dec(x) == u64_dec(x / 10).push(dec_char(x)));
        assert(u64_dec(x)[0] == u64_dec(x / 10)[0]);
        if x / 10 < 10 {
            assert(u64_dec(x / 10) == seq![dec_char(x / 10)]);
            assert(x / 10 >= 1);
            assert(dec_char(x / 10) == 48 + (x / 10) % 10);
            assert(u64_dec(x)[0] != 48);
        } else {
            assert(u64_dec(x / 10).len() == u64_dec(x / 100).len() + 1);
            assert(u64_dec(x / 10).len() >= 2);
            assert(u64_dec(x)[0] != 48);
        }
    }
}

/// Folding the rendering of `x` yields `x`.
proof fn lemma_fold_dec_of_render(x: u64)
    ensures
        fold_dec(u64_dec(x)) == x,
    decreases x,
{
    if x < 10 {
        assert(u64_dec(x).drop_last() =~= Seq::<u8>::empty());
        assert(fold_dec(Seq::<u8>::empty()) == 0);
        assert(u64_dec(x).last() == dec_char(x));
        assert(dec_val(dec_char(x)) == Some((x % 10) as u8));
    } else {
        lemma_fold_dec_of_render(x / 10);
        assert(u64_dec(x).drop_last() =~= u64_dec(x / 10));
        assert(u64_dec(x).last() == dec_char(x));
        assert(dec_val(dec_char(x)) == Some((x % 10) as u8));
        assert(fold_dec(u64_dec(x)) == (x / 10) * 10 + (x % 10));
    }
}

/// Hex digits are never the separator.
pub proof fn lemma_hex_no_dot(x: u128)
    ensures
        forall|i: int| 0 <= i < 32 ==> #[trigger] u128_hex(x)[i] != DOT,
{
    lemma_nibble_lt16();
    assert forall|i: int| 0 <= i < 32 implies #[trigger] u128_hex(x)[i] != DOT by {
        assert(((x >> (((31 - i) * 4) as u128)) & 0xf) < 16);
    }
}

} // verus!
