use vstd::prelude::*;

use vstd::string::StringSliceAdditionalSpecFns;
use vstd::utf8::{decode_utf8, encode_utf8, encode_utf8_decode_utf8, is_ascii_chars, is_ascii_chars_encode_utf8, valid_utf8};

use crate::small_string::lemma_ascii_valid_utf8;

verus! {

/// `x` with its four bytes in reverse order.
pub open spec fn swap_bytes32(x: u32) -> u32 {
    ((x & 0xff) << 24) | ((x & 0xff00) << 8) | ((x >> 8) & 0xff00) | (x >> 24)
}

/// The big-endian form of `x` on the little-endian machines that this
/// library models throughout (a sponge's bytes are its lanes in little-endian
/// order): the bytes of `x` reversed.
pub fn normalize_endianess(x: u32) -> (r: u32)
    ensures
        r == swap_bytes32(x),
{
    ((x & 0xff) << 24) | ((x & 0xff00) << 8) | ((x >> 8) & 0xff00) | (x >> 24)
}

/// Normalizing twice gives the number back.
pub proof fn lemma_normalize_endianess_involutive(x: u32)
    ensures
        swap_bytes32(swap_bytes32(x)) == x,
{
    assert(swap_bytes32(swap_bytes32(x)) == x) by (bit_vector);
}

/// The string whose UTF-8 encoding is `bytes`, if `bytes` is valid UTF-8.
/// Calls `String::from_utf8` of std, which returns `Ok` exactly on valid UTF-8
/// and then holds those bytes; its error is dropped.
#[verifier::external_body]
pub(crate) fn string_from_utf8(bytes: Vec<u8>) -> (r: Option<String>)
    ensures
        r is Some <==> valid_utf8(bytes@),
        r matches Some(s) ==> s@ == decode_utf8(bytes@),
{
    String::from_utf8(bytes).ok()
}

/// The bytes read as characters one for one.
pub open spec fn ascii_chars(b: Seq<u8>) -> Seq<char> {
    b.map_values(|c: u8| c as char)
}

/// ASCII bytes decode to the characters of the same codes.
pub proof fn lemma_decode_ascii(b: Seq<u8>)
    requires
        forall|i: int| 0 <= i < b.len() ==> #[trigger] b[i] < 128,
    ensures
        valid_utf8(b),
        decode_utf8(b) == ascii_chars(b),
{
    lemma_ascii_valid_utf8(b);
    let cs = ascii_chars(b);
    assert(is_ascii_chars(cs));
    is_ascii_chars_encode_utf8(cs);
    assert(encode_utf8(cs) =~= b);
    encode_utf8_decode_utf8(cs);
}

/// The lowercase ASCII hex digit for `n < 16`.
pub open spec fn hex_digit(n: u32) -> u8 {
    if n < 10 {
        (n + 48) as u8
    } else {
        (n + 87) as u8
    }
}

/// `0x` followed by the eight lowercase hex digits of `x`, most significant first.
pub open spec fn selector_hex(x: u32) -> Seq<u8> {
    seq![48u8, 120u8] + Seq::new(8, |i: int| hex_digit((x >> ((28 - 4 * i) as u32)) & 0xf))
}

/// `x` as `0x` and eight lowercase hex digits, as the selector of a function
/// is written.
pub fn function_selector_to_hex(x: u32) -> (r: String)
    ensures
        r@ == ascii_chars(selector_hex(x)),
{
    let mut v: Vec<u8> = Vec::new();
    v.push(48u8);
    v.push(120u8);
    let mut i: u32 = 0;
    while i < 8
        invariant
            i <= 8,
            v@.len() == 2 + i,
            v@ == selector_hex(x).subrange(0, 2 + i as int),
        decreases 8 - i,
    {
        let y = x >> (28 - 4 * i);
        let n = y & 0xf;
        assert(n < 16) by (bit_vector)
            requires
                n == y & 0xf,
        ;
        let c = if n < 10 { (n + 48) as u8 } else { (n + 87) as u8 };
        v.push(c);
        assert(v@ =~= selector_hex(x).subrange(0, 2 + i + 1));
        i = i + 1;
    }
    assert(v@ =~= selector_hex(x));
    proof {
        assert forall|j: int| 0 <= j < v@.len() implies #[trigger] v@[j] < 128 by {
            if j >= 2 {
                let y = x >> ((28 - 4 * (j - 2)) as u32);
                let n = y & 0xf;
                assert(n <= 0xf) by (bit_vector)
                    requires
                        n == y & 0xf,
                ;
            }
        }
        lemma_decode_ascii(v@);
    }
    let r = string_from_utf8(v);
    r.unwrap()
}

/// `b` with an ASCII capital letter turned into its small letter.
pub open spec fn ascii_lower(b: u8) -> u8 {
    if 65 <= b <= 90 {
        (b + 32) as u8
    } else {
        b
    }
}

/// `s` without every leading `0x`, removed one after the other.
pub open spec fn strip_hex_prefixes(s: Seq<u8>) -> Seq<u8>
    decreases s.len(),
{
    if s.len() >= 2 && s[0] == 48 && s[1] == 120 {
        strip_hex_prefixes(s.subrange(2, s.len() as int))
    } else {
        s
    }
}

/// `s` without one leading `+` sign.
pub open spec fn unsigned_digits(s: Seq<u8>) -> Seq<u8> {
    if s.len() >= 1 && s[0] == 43 {
        s.drop_first()
    } else {
        s
    }
}

/// Whether `b` is a digit or a small letter `a` to `f`.
pub open spec fn is_hex_digit(b: u8) -> bool {
    (48 <= b <= 57) || (97 <= b <= 102)
}

/// The value of the hex digit `b`.
pub open spec fn hex_digit_value(b: u8) -> nat {
    if b <= 57 {
        (b - 48) as nat
    } else {
        (b - 87) as nat
    }
}

/// The number that a sequence of hex digits denotes.
pub open spec fn hex_value(s: Seq<u8>) -> nat
    decreases s.len(),
{
    if s.len() == 0 {
        0
    } else {
        hex_value(s.drop_last()) * 16 + hex_digit_value(s.last())
    }
}

/// The selector that a command-line argument names: after the argument is
/// put in lower case and stripped of its leading `0x` prefixes, what remains
/// must be an optional `+` and at least one hex digit, denoting a number that
/// fits in 32 bits. The result is that number in big-endian form.
/// (Only ASCII letters matter here: no other character lowers to a hex digit,
/// `x` or `+`, so any other character makes the argument invalid either way.)
pub open spec fn spec_parse_selector(arg: Seq<u8>) -> Option<u32> {
    let d = unsigned_digits(strip_hex_prefixes(arg.map_values(|b: u8| ascii_lower(b))));
    if d.len() > 0 && (forall|i: int| 0 <= i < d.len() ==> #[trigger] is_hex_digit(d[i]))
        && hex_value(d) <= u32::MAX {
        Some(swap_bytes32(hex_value(d) as u32))
    } else {
        None
    }
}

fn lower(b: u8) -> (r: u8)
    ensures
        r == ascii_lower(b),
{
    if 65 <= b && b <= 90 {
        b + 32
    } else {
        b
    }
}

/// Reads a target selector given in hex, as `spec_parse_selector` describes;
/// `None` where the argument is no such number.
pub fn parse_selector(arg: &str) -> (r: Option<u32>)
    ensures
        r == spec_parse_selector(arg.spec_bytes()),
{
    let b = arg.as_bytes();
    let n = b.len();
    let ghost low = b@.map_values(|c: u8| ascii_lower(c));
    let mut start: usize = 0;
    assert(low.subrange(0, n as int) =~= low);
    while n - start >= 2 && b[start] == 48 && lower(b[start + 1]) == 120
        invariant
            start <= n,
            n == b@.len(),
            low == b@.map_values(|c: u8| ascii_lower(c)),
            strip_hex_prefixes(low) == strip_hex_prefixes(low.subrange(start as int, n as int)),
        decreases n - start,
    {
        let ghost rest = low.subrange(start as int, n as int);
        assert(rest.subrange(2, rest.len() as int) =~= low.subrange(start + 2, n as int));
        start = start + 2;
    }
    let ghost stripped = low.subrange(start as int, n as int);
    assert(strip_hex_prefixes(low) == stripped) by {
        assert(!(stripped.len() >= 2 && stripped[0] == 48 && stripped[1] == 120));
    }
    if start == n {
        return None;
    }
    if b[start] == 43 {
        start = start + 1;
        if start == n {
            return None;
        }
    }
    let ghost digits = low.subrange(start as int, n as int);
    assert(digits =~= unsigned_digits(stripped));
    let mut v: u64 = 0;
    let mut i: usize = start;
    while i < n
        invariant
            start <= i <= n,
            start < n,
            n == b@.len(),
            low == b@.map_values(|c: u8| ascii_lower(c)),
            digits == low.subrange(start as int, n as int),
            digits == unsigned_digits(strip_hex_prefixes(low)),
            b@ == arg.spec_bytes(),
            forall|j: int| start <= j < i ==> #[trigger] is_hex_digit(low[j]),
            v <= u32::MAX ==> v == hex_value(low.subrange(start as int, i as int)),
            v > u32::MAX ==> v == u32::MAX + 1 && hex_value(low.subrange(start as int, i as int)) > u32::MAX,
        decreases n - i,
    {
        let c = lower(b[i]);
        let d: u64 = if 48 <= c && c <= 57 {
            (c - 48) as u64
        } else if 97 <= c && c <= 102 {
            (c - 87) as u64
        } else {
            assert(!is_hex_digit(digits[i - start]));
            return None;
        };
        let ghost pre = low.subrange(start as int, i as int);
        assert(low.subrange(start as int, i + 1).drop_last() =~= pre);
        if v <= 0xffff_ffff {
            v = v * 16 + d;
            if v > 0xffff_ffff {
                v = 0x1_0000_0000;
            }
        }
        i = i + 1;
    }
    assert(digits =~= low.subrange(start as int, i as int));
    if v > 0xffff_ffff {
        return None;
    }
    Some(normalize_endianess(v as u32))
}

proof fn lemma_nibbles(x: u32)
    ensures
        ((((((((x >> 28u32) & 0xf) as nat * 16 + ((x >> 24u32) & 0xf) as nat) * 16 + ((x >> 20u32)
            & 0xf) as nat) * 16 + ((x >> 16u32) & 0xf) as nat) * 16 + ((x >> 12u32) & 0xf) as nat)
            * 16 + ((x >> 8u32) & 0xf) as nat) * 16 + ((x >> 4u32) & 0xf) as nat) * 16 + ((x
            >> 0u32) & 0xf) as nat == x as nat,
{
    assert(((((((((x >> 28u32) & 0xf) * 16 + ((x >> 24u32) & 0xf)) * 16 + ((x >> 20u32) & 0xf))
        * 16 + ((x >> 16u32) & 0xf)) * 16 + ((x >> 12u32) & 0xf)) * 16 + ((x >> 8u32) & 0xf)) * 16
        + ((x >> 4u32) & 0xf)) * 16 + ((x >> 0u32) & 0xf) == x) by (bit_vector);
}

/// The text that `function_selector_to_hex` writes for `x` is ten
/// characters: `0x` and eight hex digits that denote `x`.
pub proof fn lemma_selector_hex_text(x: u32)
    ensures
        selector_hex(x).len() == 10,
        selector_hex(x)[0] == 48,
        selector_hex(x)[1] == 120,
        forall|i: int| 2 <= i < 10 ==> #[trigger] is_hex_digit(selector_hex(x)[i]),
        hex_value(selector_hex(x).subrange(2, 10)) == x as nat,
{
    let h = selector_hex(x);
    let d = h.subrange(2, 10);
    assert forall|i: int| 0 <= i < 8 implies is_hex_digit(#[trigger] d[i]) && hex_digit_value(d[i]) == (x
        >> ((28 - 4 * i) as u32)) & 0xf by {
        let y = x >> ((28 - 4 * i) as u32);
        let n = y & 0xf;
        assert(n < 16) by (bit_vector)
            requires
                n == y & 0xf,
        ;
    }
    assert forall|i: int| 2 <= i < 10 implies #[trigger] is_hex_digit(h[i]) by {
        assert(is_hex_digit(d[i - 2]));
    }
    let v0 = hex_digit_value(d[0]);
    assert(d.subrange(0, 1).drop_last() =~= Seq::<u8>::empty());
    assert(hex_value(Seq::<u8>::empty()) == 0);
    assert(d.subrange(0, 1).last() == d[0]);
    assert(hex_value(d.subrange(0, 1)) == v0);
    assert(d.subrange(0, 2).drop_last() =~= d.subrange(0, 1));
    assert(d.subrange(0, 3).drop_last() =~= d.subrange(0, 2));
    assert(d.subrange(0, 4).drop_last() =~= d.subrange(0, 3));
    assert(d.subrange(0, 5).drop_last() =~= d.subrange(0, 4));
    assert(d.subrange(0, 6).drop_last() =~= d.subrange(0, 5));
    assert(d.subrange(0, 7).drop_last() =~= d.subrange(0, 6));
    assert(d.drop_last() =~= d.subrange(0, 7));
    assert(hex_value(d.subrange(0, 2)) == hex_value(d.subrange(0, 1)) * 16 + hex_digit_value(d[1]));
    assert(hex_value(d.subrange(0, 3)) == hex_value(d.subrange(0, 2)) * 16 + hex_digit_value(d[2]));
    assert(hex_value(d.subrange(0, 4)) == hex_value(d.subrange(0, 3)) * 16 + hex_digit_value(d[3]));
    assert(hex_value(d.subrange(0, 5)) == hex_value(d.subrange(0, 4)) * 16 + hex_digit_value(d[4]));
    assert(hex_value(d.subrange(0, 6)) == hex_value(d.subrange(0, 5)) * 16 + hex_digit_value(d[5]));
    assert(hex_value(d.subrange(0, 7)) == hex_value(d.subrange(0, 6)) * 16 + hex_digit_value(d[6]));
    assert(hex_value(d) == hex_value(d.subrange(0, 7)) * 16 + hex_digit_value(d[7]));
    assert(hex_digit_value(d[0]) == (x >> 28u32) & 0xf);
    assert(hex_digit_value(d[1]) == (x >> 24u32) & 0xf);
    assert(hex_digit_value(d[2]) == (x >> 20u32) & 0xf);
    assert(hex_digit_value(d[3]) == (x >> 16u32) & 0xf);
    assert(hex_digit_value(d[4]) == (x >> 12u32) & 0xf);
    assert(hex_digit_value(d[5]) == (x >> 8u32) & 0xf);
    assert(hex_digit_value(d[6]) == (x >> 4u32) & 0xf);
    assert(hex_digit_value(d[7]) == (x >> 0u32) & 0xf);
    lemma_nibbles(x);
    assert(hex_value(d) == x as nat);
}

/// Reading back the text that `function_selector_to_hex` writes for `x`
/// with `parse_selector` gives `x` in big-endian form, which is the selector
/// that `x` denotes when `x` is itself a selector already normalized.
pub proof fn lemma_selector_hex_round_trip(x: u32)
    ensures
        spec_parse_selector(encode_utf8(ascii_chars(selector_hex(x)))) == Some(swap_bytes32(x)),
{
    lemma_selector_hex_text(x);
    let h = selector_hex(x);
    let d = h.subrange(2, 10);
    assert forall|i: int| 0 <= i < h.len() implies #[trigger] h[i] < 128 by {
        if i >= 2 {
            assert(is_hex_digit(h[i]));
        }
    }
    lemma_decode_ascii(h);
    let cs = ascii_chars(h);
    assert(is_ascii_chars(cs));
    is_ascii_chars_encode_utf8(cs);
    assert(encode_utf8(cs) =~= h);
    let low = h.map_values(|b: u8| ascii_lower(b));
    assert(low =~= h) by {
        assert forall|i: int| 0 <= i < h.len() implies #[trigger] low[i] == h[i] by {
            if i >= 2 {
                assert(is_hex_digit(h[i]));
            }
        }
    }
    assert(h.subrange(2, h.len() as int) =~= d);
    assert(is_hex_digit(h[3]));
    assert(d[1] == h[3]);
    assert(strip_hex_prefixes(d) == d);
    assert(strip_hex_prefixes(h) == d);
    assert(is_hex_digit(h[2]));
    assert(d[0] == h[2]);
    assert(unsigned_digits(d) == d);
    assert forall|i: int| 0 <= i < d.len() implies #[trigger] is_hex_digit(d[i]) by {
        assert(d[i] == h[i + 2]);
    }
}

/// Parsing does not depend on the case of ASCII letters: an argument and the
/// same argument in lower case name the same selector, or are both invalid.
pub proof fn lemma_parse_selector_case_insensitive(arg: Seq<u8>)
    ensures
        spec_parse_selector(arg) == spec_parse_selector(arg.map_values(|b: u8| ascii_lower(b))),
{
    let low = arg.map_values(|b: u8| ascii_lower(b));
    let low2 = low.map_values(|b: u8| ascii_lower(b));
    assert(low2 =~= low);
}

/// A leading `0x` or `0X` does not change what an argument names.
pub proof fn lemma_parse_selector_prefix(s: Seq<u8>)
    ensures
        spec_parse_selector(seq![48u8, 120u8] + s) == spec_parse_selector(s),
        spec_parse_selector(seq![48u8, 88u8] + s) == spec_parse_selector(s),
{
    let low = s.map_values(|b: u8| ascii_lower(b));
    let p1 = seq![48u8, 120u8] + s;
    let p2 = seq![48u8, 88u8] + s;
    let l1 = p1.map_values(|b: u8| ascii_lower(b));
    let l2 = p2.map_values(|b: u8| ascii_lower(b));
    assert(l1 =~= seq![48u8, 120u8] + low);
    assert(l2 =~= seq![48u8, 120u8] + low);
    assert(l1.subrange(2, l1.len() as int) =~= low);
    assert(strip_hex_prefixes(l1) == strip_hex_prefixes(low));
}

} // verus!
