//! Command-line helpers: splitting a `user:password` credential pair.

use vstd::prelude::*;
use vstd::utf8::*;

use crate::error::TrackerError;
use crate::text::bytes_to_string;

verus! {

/// Position `i` holds the only colon in `b`.
pub open spec fn is_single_colon(b: Seq<u8>, i: int) -> bool {
    &&& 0 <= i < b.len()
    &&& b[i] == 0x3a
    &&& forall|j: int| 0 <= j < b.len() && j != i ==> b[j] != 0x3a
}

/// Splits at the only colon, when there is exactly one.
pub open spec fn spec_proxy_split(b: Seq<u8>) -> Option<(Seq<u8>, Seq<u8>)> {
    if exists|i: int| is_single_colon(b, i) {
        let i = choose|i: int| is_single_colon(b, i);
        Some((b.take(i), b.skip(i + 1)))
    } else {
        None
    }
}

/// Parses a `user:password` pair: accepted exactly when the string holds
/// one colon; anything else is a parsing error.
pub fn parse_proxy_auth(s: &str) -> (r: Result<(String, String), TrackerError>)
    ensures
        ({
            let b = encode_utf8(s@);
            &&& (r is Ok <==> (spec_proxy_split(b) matches Some(t) && valid_utf8(t.0)
                && valid_utf8(t.1)))
            &&& (r matches Ok(p) ==> (spec_proxy_split(b) matches Some(t) && encode_utf8(p.0@)
                == t.0 && encode_utf8(p.1@) == t.1))
            &&& (r matches Err(e) ==> e is ParsingError)
        }),
{
    let bytes = s.as_bytes();
    let n = bytes.len();
    let mut count: usize = 0;
    let mut first: usize = 0;
    let mut second: usize = 0;
    let mut i: usize = 0;
    while i < n
        invariant
            0 <= i <= n,
            n == bytes@.len(),
            count <= i,
            count == 0 ==> forall|j: int| 0 <= j < i ==> bytes@[j] != 0x3a,
            count >= 1 ==> first < i && bytes@[first as int] == 0x3a,
            count == 1 ==> forall|j: int| 0 <= j < i && j != first ==> bytes@[j] != 0x3a,
            count >= 2 ==> second < i && second != first && bytes@[second as int] == 0x3a,
        decreases n - i,
    {
        if bytes[i] == 0x3a {
            if count == 0 {
                first = i;
            } else if count == 1 {
                second = i;
            }
            count = count + 1;
        }
        i = i + 1;
    }
    if count != 1 {
        proof {
            assert forall|k: int| !is_single_colon(bytes@, k) by {
                if 0 <= k < bytes@.len() && bytes@[k] == 0x3a {
                    if count >= 2 {
                        if k == first {
                            assert(bytes@[second as int] == 0x3a && second != k);
                        } else {
                            assert(bytes@[first as int] == 0x3a && first != k);
                        }
                    }
                }
            }
        }
        return Err(TrackerError::ParsingError);
    }
    proof {
        assert(is_single_colon(bytes@, first as int));
        let w = choose|i: int| is_single_colon(bytes@, i);
        if w != first {
            assert(bytes@[first as int] == 0x3a && first != w);
            assert(false);
        }
    }
    let mut user_bytes: Vec<u8> = Vec::new();
    let mut k: usize = 0;
    while k < first
        invariant
            0 <= k <= first < n,
            n == bytes@.len(),
            user_bytes@ =~= bytes@.subrange(0, k as int),
        decreases first - k,
    {
        user_bytes.push(bytes[k]);
        k = k + 1;
    }
    assert(user_bytes@ =~= bytes@.take(first as int));
    let mut pass_bytes: Vec<u8> = Vec::new();
    k = first + 1;
    while k < n
        invariant
            first + 1 <= k <= n,
            n == bytes@.len(),
            pass_bytes@ =~= bytes@.subrange(first + 1, k as int),
        decreases n - k,
    {
        pass_bytes.push(bytes[k]);
        k = k + 1;
    }
    assert(pass_bytes@ =~= bytes@.skip(first + 1));
    let ghost ub = user_bytes@;
    let ghost pb = pass_bytes@;
    let user = match bytes_to_string(user_bytes) {
        Some(u) => u,
        None => {
            return Err(TrackerError::ParsingError);
        },
    };
    let passwd = match bytes_to_string(pass_bytes) {
        Some(p) => p,
        None => {
            return Err(TrackerError::ParsingError);
        },
    };
    proof {
        decode_utf8_encode_utf8(ub);
        decode_utf8_encode_utf8(pb);
    }
    Ok((user, passwd))
}

} // verus!
