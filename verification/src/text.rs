//! Byte-level text utilities: UTF-8 decoding, equality helpers, and decimal
//! formatting of port numbers. Contracts are stated over `vstd`'s UTF-8 model
//! (`encode_utf8` / `decode_utf8`), so no meaning is taken on trust beyond the
//! single `String::from_utf8` wrapper.

use vstd::prelude::*;
use vstd::utf8::*;

verus! {

/// Relies on `String::from_utf8`: it returns `Ok` exactly on valid UTF-8
/// input, and the resulting string's characters are the decoding of the
/// bytes.
#[verifier::external_body]
pub fn bytes_to_string(v: Vec<u8>) -> (r: Option<String>)
    ensures
        r is Some <==> valid_utf8(v@),
        r matches Some(s) ==> s@ == decode_utf8(v@),
{
    String::from_utf8(v).ok()
}

/// A sequence of bytes below `0x80` is valid UTF-8 and decodes to the
/// corresponding ASCII characters, one per byte.
pub proof fn lemma_ascii_decode(bytes: Seq<u8>)
    requires
        forall|i: int| 0 <= i < bytes.len() ==> bytes[i] < 0x80,
    ensures
        valid_utf8(bytes),
        decode_utf8(bytes) =~= bytes.map_values(|b: u8| b as char),
{
    let chars = bytes.map_values(|b: u8| b as char);
    assert forall|i: int| 0 <= i < chars.len() implies '\0' <= #[trigger] chars[i]
        <= '\u{7f}' by {
        assert(bytes[i] < 0x80);
    }
    assert(is_ascii_chars(chars));
    is_ascii_chars_encode_utf8(chars);
    assert(encode_utf8(chars) =~= bytes);
    encode_utf8_valid_utf8(chars);
    encode_utf8_decode_utf8(chars);
}

/// If the UTF-8 encodings of two character sequences agree, so do the
/// sequences themselves.
pub proof fn lemma_encode_utf8_injective(a: Seq<char>, b: Seq<char>)
    requires
        encode_utf8(a) == encode_utf8(b),
    ensures
        a == b,
{
    encode_utf8_decode_utf8(a);
    encode_utf8_decode_utf8(b);
}

/// Byte-slice equality.
pub fn bytes_eq(a: &[u8], b: &[u8]) -> (r: bool)
    ensures
        r <==> a@ =~= b@,
{
    if a.len() != b.len() {
        return false;
    }
    let n = a.len();
    let mut i: usize = 0;
    while i < n
        invariant
            n == a@.len() == b@.len(),
            0 <= i <= n,
            forall|j: int| 0 <= j < i ==> a@[j] == b@[j],
        decreases n - i,
    {
        if a[i] != b[i] {
            return false;
        }
        i = i + 1;
    }
    assert(a@ =~= b@);
    true
}

/// String-slice equality, by way of the UTF-8 encodings.
pub fn str_eq(a: &str, b: &str) -> (r: bool)
    ensures
        r <==> a@ == b@,
{
    let r = bytes_eq(a.as_bytes(), b.as_bytes());
    proof {
        if r {
            lemma_encode_utf8_injective(a@, b@);
        }
    }
    r
}

/// The shortest decimal digit string (ASCII bytes) for `n`.
pub open spec fn spec_decimal(n: nat) -> Seq<u8>
    decreases n,
{
    if n < 10 {
        seq![(0x30 + n) as u8]
    } else {
        spec_decimal(n / 10).push((0x30 + n % 10) as u8)
    }
}

/// Formats `n` in decimal, without leading zeros.
pub fn u16_to_string(n: u16) -> (r: String)
    ensures
        encode_utf8(r@) == spec_decimal(n as nat),
        r@ == decode_utf8(spec_decimal(n as nat)),
{
    let mut digits: Vec<u8> = Vec::new();
    let mut m: u64 = n as u64;
    loop
        invariant
            forall|j: int| 0 <= j < digits@.len() ==> 0x30 <= #[trigger] digits@[j] <= 0x39,
            spec_decimal(n as nat) =~= if digits@.len() == 0 {
                spec_decimal(m as nat)
            } else if m == 0 {
                digits@.reverse()
            } else {
                spec_decimal(m as nat) + digits@.reverse()
            },
        ensures
            m == 0,
            digits@.len() > 0,
            spec_decimal(n as nat) =~= digits@.reverse(),
            forall|j: int| 0 <= j < digits@.len() ==> 0x30 <= #[trigger] digits@[j] <= 0x39,
        decreases m, (if digits@.len() == 0 { 1int } else { 0int }),
    {
        if m == 0 && digits.len() > 0 {
            break;
        }
        let ghost old_digits = digits@;
        let ghost old_m = m as nat;
        let d: u8 = 0x30 + (m % 10) as u8;
        digits.push(d);
        m = m / 10;
        proof {
            assert(digits@.reverse() =~= seq![d] + old_digits.reverse());
            if old_m < 10 {
                assert(spec_decimal(old_m) =~= seq![d]);
            } else {
                assert(spec_decimal(old_m) =~= spec_decimal(old_m / 10).push(d));
                assert(spec_decimal(old_m / 10).push(d) =~= spec_decimal(old_m / 10) + seq![d]);
                if old_digits.len() > 0 {
                    assert(spec_decimal(old_m / 10) + digits@.reverse() =~= spec_decimal(old_m)
                        + old_digits.reverse());
                }
            }
        }
    }
    let mut out: Vec<u8> = Vec::new();
    let len = digits.len();
    let mut i: usize = len;
    while i > 0
        invariant
            len == digits@.len(),
            0 <= i <= len,
            out@ =~= digits@.reverse().take(len - i),
            forall|j: int| 0 <= j < digits@.len() ==> 0x30 <= #[trigger] digits@[j] <= 0x39,
        decreases i,
    {
        i = i - 1;
        out.push(digits[i]);
        proof {
            assert(out@ =~= digits@.reverse().take(len - i));
        }
    }
    assert(out@ =~= spec_decimal(n as nat));
    proof {
        lemma_ascii_decode(out@);
    }
    match bytes_to_string(out) {
        Some(s) => {
            proof {
                decode_utf8_encode_utf8(spec_decimal(n as nat));
            }
            s
        },
        None => {
            proof {
                assert(false);
            }
            String::new()
        },
    }
}

/// The UTF-8 encoding of an ASCII character sequence is one byte per
/// character.
pub proof fn lemma_ascii_encode_len(s: Seq<char>)
    requires
        is_ascii_chars(s),
    ensures
        encode_utf8(s).len() == s.len(),
{
    is_ascii_chars_encode_utf8(s);
}

} // verus!
