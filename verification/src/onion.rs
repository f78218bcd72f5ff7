//! Recognising onion announcements: the `OP_RETURN` pushdata frame, the
//! `<label>.onion:<port>` record shape, and decimal port parsing. All
//! specifications are stated over byte sequences; the address a script
//! yields is the UTF-8 decoding of the framed payload.

use vstd::prelude::*;
use vstd::utf8::*;

use crate::text::bytes_to_string;
use crate::text::lemma_ascii_decode;

verus! {

/// ASCII decimal digit.
pub open spec fn is_digit(b: u8) -> bool {
    0x30 <= b <= 0x39
}

/// Value of an ASCII digit string read in base 10.
pub open spec fn spec_digits_value(d: Seq<u8>) -> nat
    decreases d.len(),
{
    if d.len() == 0 {
        0
    } else {
        spec_digits_value(d.drop_last()) * 10 + (if d.last() >= 0x30 {
            (d.last() - 0x30) as nat
        } else {
            0
        })
    }
}

/// Extending a digit string never lowers its value.
pub proof fn lemma_digits_value_monotone(d: Seq<u8>, k: int)
    requires
        0 <= k <= d.len(),
    ensures
        spec_digits_value(d) >= spec_digits_value(d.take(k)),
    decreases d.len(),
{
    if k < d.len() {
        assert(d.drop_last().take(k) =~= d.take(k));
        lemma_digits_value_monotone(d.drop_last(), k);
    } else {
        assert(d.take(k) =~= d);
    }
}

/// The digit portion of a port string: a single leading `+` is allowed, as
/// the standard library's integer parser accepts one.
pub open spec fn spec_port_digits(b: Seq<u8>) -> Seq<u8> {
    if b.len() > 0 && b[0] == 0x2b {
        b.drop_first()
    } else {
        b
    }
}

/// A string the standard library parses as a `u16`: optional `+`, then one
/// or more digits, with value at most 65535.
pub open spec fn valid_port_str(b: Seq<u8>) -> bool {
    let d = spec_port_digits(b);
    &&& d.len() > 0
    &&& forall|i: int| 0 <= i < d.len() ==> is_digit(#[trigger] d[i])
    &&& spec_digits_value(d) <= 0xffff
}

/// The numeric value of a valid port string.
pub open spec fn spec_port_value(b: Seq<u8>) -> nat {
    spec_digits_value(spec_port_digits(b))
}

/// Parses a decimal `u16` as the standard library does: an optional leading
/// `+`, then one or more ASCII digits, rejecting values above 65535.
pub fn parse_port(b: &[u8]) -> (r: Option<u16>)
    ensures
        r is Some <==> valid_port_str(b@),
        r matches Some(p) ==> p as nat == spec_port_value(b@),
{
    let n = b.len();
    let start: usize = if n > 0 && b[0] == 0x2b {
        1
    } else {
        0
    };
    let ghost d = spec_port_digits(b@);
    proof {
        assert(d =~= b@.subrange(start as int, n as int));
    }
    if n == start {
        return None;
    }
    let mut i: usize = start;
    while i < n
        invariant
            start <= i <= n,
            n == b@.len(),
            d == spec_port_digits(b@),
            d =~= b@.subrange(start as int, n as int),
            forall|j: int| 0 <= j < i - start ==> is_digit(#[trigger] d[j]),
        decreases n - i,
    {
        assert(d[i - start] == b@[i as int]);
        if b[i] < 0x30 || b[i] > 0x39 {
            proof {
                assert(spec_port_digits(b@) == d);
                assert(!is_digit(spec_port_digits(b@)[i - start]));
                assert(!valid_port_str(b@));
            }
            return None;
        }
        i = i + 1;
    }
    let mut acc: u32 = 0;
    i = start;
    while i < n
        invariant
            start <= i <= n,
            n == b@.len(),
            d == spec_port_digits(b@),
            d =~= b@.subrange(start as int, n as int),
            forall|j: int| 0 <= j < d.len() ==> is_digit(#[trigger] d[j]),
            acc as nat == spec_digits_value(d.take(i - start)),
            acc <= 0xffff,
        decreases n - i,
    {
        assert(d[i - start] == b@[i as int]);
        let dig: u32 = (b[i] - 0x30) as u32;
        let ghost old_acc = acc;
        acc = acc * 10 + dig;
        i = i + 1;
        proof {
            let k = i - start;
            assert(d.take(k).drop_last() =~= d.take(k - 1));
            assert(d.take(k).last() == d[k - 1]);
            assert(is_digit(d[k - 1]));
            assert(spec_digits_value(d.take(k)) == spec_digits_value(d.take(k - 1)) * 10 + (d[k
                - 1] - 0x30));
            assert(acc as nat == spec_digits_value(d.take(k)));
        }
        if acc > 0xffff {
            proof {
                lemma_digits_value_monotone(d, i - start);
                assert(spec_digits_value(d) >= spec_digits_value(d.take(i - start)));
                assert(spec_port_digits(b@) == d);
                assert(spec_digits_value(spec_port_digits(b@)) > 0xffff);
                assert(!valid_port_str(b@));
            }
            return None;
        }
    }
    proof {
        assert(d.take(n - start) =~= d);
    }
    Some(acc as u16)
}

/// The six bytes of the literal `.onion`.
pub open spec fn onion_suffix() -> Seq<u8> {
    seq![0x2eu8, 0x6fu8, 0x6eu8, 0x69u8, 0x6fu8, 0x6eu8]
}

/// The host part must end in `.onion`; nothing more is asked of the label.
pub open spec fn is_onion_host(h: Seq<u8>) -> bool {
    h.len() >= 6 && h.subrange(h.len() - 6, h.len() as int) == onion_suffix()
}

/// A well-formed record split at position `i`: the only colon sits at `i`,
/// the bytes before it end in `.onion`, and the bytes after it are a decimal
/// port greater than zero.
pub open spec fn valid_onion_split(b: Seq<u8>, i: int) -> bool {
    &&& 0 <= i < b.len()
    &&& b[i] == 0x3a
    &&& forall|j: int| 0 <= j < b.len() && j != i ==> b[j] != 0x3a
    &&& is_onion_host(b.take(i))
    &&& valid_port_str(b.subrange(i + 1, b.len() as int))
    &&& spec_port_value(b.subrange(i + 1, b.len() as int)) > 0
}

/// A well-formed `<label>.onion:<port>` record.
pub open spec fn valid_onion_record(b: Seq<u8>) -> bool {
    exists|i: int| valid_onion_split(b, i)
}

/// Checks the record shape on raw bytes.
fn onion_record_check(b: &[u8]) -> (r: bool)
    ensures
        r == valid_onion_record(b@),
{
    let n = b.len();
    let mut count: usize = 0;
    let mut first: usize = 0;
    let mut second: usize = 0;
    let mut i: usize = 0;
    while i < n
        invariant
            0 <= i <= n,
            n == b@.len(),
            count <= i,
            count == 0 ==> forall|j: int| 0 <= j < i ==> b@[j] != 0x3a,
            count >= 1 ==> first < i && b@[first as int] == 0x3a,
            count == 1 ==> forall|j: int| 0 <= j < i && j != first ==> b@[j] != 0x3a,
            count >= 2 ==> second < i && second != first && b@[second as int] == 0x3a,
        decreases n - i,
    {
        if b[i] == 0x3a {
            if count == 0 {
                first = i;
            } else if count == 1 {
                second = i;
            }
            count = count + 1;
        }
        i = i + 1;
    }
    if count == 0 {
        assert(!valid_onion_record(b@)) by {
            assert(forall|k: int| !valid_onion_split(b@, k));
        }
        return false;
    }
    if count >= 2 {
        assert(!valid_onion_record(b@)) by {
            assert forall|k: int| !valid_onion_split(b@, k) by {
                if 0 <= k < b@.len() && b@[k] == 0x3a {
                    if k == first {
                        assert(b@[second as int] == 0x3a && second != k);
                    } else {
                        assert(b@[first as int] == 0x3a && first != k);
                    }
                }
            }
        }
        return false;
    }
    // exactly one colon, at `first`
    let host_ok: bool = first >= 6 && b[first - 6] == 0x2e && b[first - 5] == 0x6f && b[first - 4]
        == 0x6e && b[first - 3] == 0x69 && b[first - 2] == 0x6f && b[first - 1] == 0x6e;
    proof {
        let h = b@.take(first as int);
        if host_ok {
            assert(h.subrange(h.len() - 6, h.len() as int) =~= onion_suffix());
        } else {
            if h.len() >= 6 && h.subrange(h.len() - 6, h.len() as int) == onion_suffix() {
                assert(h[h.len() - 6] == 0x2e && h[h.len() - 5] == 0x6f && h[h.len() - 4] == 0x6e
                    && h[h.len() - 3] == 0x69 && h[h.len() - 2] == 0x6f && h[h.len() - 1] == 0x6e);
            }
        }
        assert(host_ok == is_onion_host(b@.take(first as int)));
    }
    let mut port_bytes: Vec<u8> = Vec::new();
    let mut k: usize = first + 1;
    while k < n
        invariant
            first + 1 <= k <= n,
            n == b@.len(),
            port_bytes@ =~= b@.subrange(first + 1, k as int),
        decreases n - k,
    {
        port_bytes.push(b[k]);
        k = k + 1;
    }
    assert(port_bytes@ =~= b@.subrange(first + 1, n as int));
    let port_ok: bool = match parse_port(port_bytes.as_slice()) {
        Some(p) => p > 0,
        None => false,
    };
    let r = host_ok && port_ok;
    proof {
        if r {
            assert(valid_onion_split(b@, first as int));
        } else {
            assert forall|kk: int| !valid_onion_split(b@, kk) by {
                if 0 <= kk < b@.len() && b@[kk] == 0x3a {
                    if kk != first {
                        assert(b@[first as int] == 0x3a && first != kk);
                    }
                }
            }
        }
    }
    r
}

/// Record-shape check on a string, as applied to a decoded payload: the
/// string's UTF-8 bytes must form a well-formed onion record.
pub fn is_valid_onion_address(s: &str) -> (r: bool)
    ensures
        r == valid_onion_record(encode_utf8(s@)),
{
    onion_record_check(s.as_bytes())
}

/// The `OP_RETURN` pushdata frame: `0x6a`, a length prefix (direct push
/// `0x01..=0x4b`, one-byte `0x4c`, or little-endian two-byte `0x4d`), then
/// exactly that many payload bytes within the script.
pub open spec fn spec_pushdata_payload(s: Seq<u8>) -> Option<Seq<u8>> {
    if s.len() < 2 || s[0] != 0x6a {
        None
    } else if 0x01 <= s[1] <= 0x4b {
        if s.len() >= 2 + s[1] {
            Some(s.subrange(2, 2 + s[1]))
        } else {
            None
        }
    } else if s[1] == 0x4c {
        if s.len() >= 3 && s.len() >= 3 + s[2] {
            Some(s.subrange(3, 3 + s[2]))
        } else {
            None
        }
    } else if s[1] == 0x4d {
        if s.len() >= 4 && s.len() >= 4 + (s[2] + 256 * (s[3] as int)) {
            Some(s.subrange(4, 4 + (s[2] + 256 * (s[3] as int))))
        } else {
            None
        }
    } else {
        None
    }
}

/// The onion address a script announces: the framed payload, provided it is
/// valid UTF-8 and decodes to a well-formed onion record.
pub open spec fn spec_extract_onion(s: Seq<u8>) -> Option<Seq<char>> {
    match spec_pushdata_payload(s) {
        Some(p) => if valid_utf8(p) && valid_onion_record(p) {
            Some(decode_utf8(p))
        } else {
            None
        },
        None => None,
    }
}

/// Extracts the announced onion address from a scriptPubKey, if any.
pub fn extract_onion_address_from_script(script: &[u8]) -> (r: Option<String>)
    ensures
        (r is Some) == (spec_extract_onion(script@) is Some),
        r matches Some(s) ==> Some(s@) == spec_extract_onion(script@),
{
    if script.len() < 2 || script[0] != 0x6a {
        return None;
    }
    let prefix = script[1];
    let (start, dlen): (usize, usize) = if 0x01 <= prefix && prefix <= 0x4b {
        (2, prefix as usize)
    } else if prefix == 0x4c {
        if script.len() < 3 {
            return None;
        }
        (3, script[2] as usize)
    } else if prefix == 0x4d {
        if script.len() < 4 {
            return None;
        }
        (4, script[2] as usize + 256 * (script[3] as usize))
    } else {
        return None;
    };
    if script.len() < start || script.len() - start < dlen {
        return None;
    }
    let end: usize = start + dlen;
    let ghost payload_spec = spec_pushdata_payload(script@).unwrap();
    let mut payload: Vec<u8> = Vec::new();
    let mut k: usize = start;
    while k < end
        invariant
            start <= k <= end,
            end == start + dlen,
            end <= script@.len(),
            payload@ =~= script@.subrange(start as int, k as int),
        decreases end - k,
    {
        payload.push(script[k]);
        k = k + 1;
    }
    assert(payload@ =~= payload_spec);
    if !onion_record_check(payload.as_slice()) {
        return None;
    }
    bytes_to_string(payload)
}

} // verus!
