//! The concise-binary encoding layer under the wire format: definite-length
//! item headers, text strings, byte strings, and text arrays. Encoders are
//! proved to produce exactly the specified bytes; parsers are proved to
//! compute exactly the specified parse; and the parse of an encoding is
//! proved to give the encoded value back.

use vstd::prelude::*;
use vstd::utf8::*;

use crate::text::bytes_to_string;

verus! {

/// Big-endian bytes of a 16-bit value.
pub open spec fn spec_be16(n: nat) -> Seq<u8>
    recommends
        n < 0x10000,
{
    seq![(n / 0x100) as u8, (n % 0x100) as u8]
}

/// Big-endian bytes of a 32-bit value.
pub open spec fn spec_be32(n: nat) -> Seq<u8>
    recommends
        n < 0x1_0000_0000,
{
    spec_be16(n / 0x10000) + spec_be16(n % 0x10000)
}

/// Big-endian bytes of a 64-bit value.
pub open spec fn spec_be64(n: nat) -> Seq<u8>
    recommends
        n < 0x1_0000_0000_0000_0000,
{
    spec_be32(n / 0x1_0000_0000) + spec_be32(n % 0x1_0000_0000)
}

/// An item header: three major-type bits, then the argument in its
/// shortest definite-length form.
pub open spec fn spec_header(major: u8, n: nat) -> Seq<u8>
    recommends
        major < 8,
        n < 0x1_0000_0000_0000_0000,
{
    if n < 24 {
        seq![(major * 32 + n) as u8]
    } else if n < 0x100 {
        seq![(major * 32 + 24) as u8, n as u8]
    } else if n < 0x10000 {
        seq![(major * 32 + 25) as u8] + spec_be16(n)
    } else if n < 0x1_0000_0000 {
        seq![(major * 32 + 26) as u8] + spec_be32(n)
    } else {
        seq![(major * 32 + 27) as u8] + spec_be64(n)
    }
}

/// The 16-bit value read big-endian at `p`.
pub open spec fn spec_val16(b: Seq<u8>, p: int) -> nat {
    (b[p] * 0x100 + b[p + 1]) as nat
}

/// The 32-bit value read big-endian at `p`.
pub open spec fn spec_val32(b: Seq<u8>, p: int) -> nat {
    spec_val16(b, p) * 0x10000 + spec_val16(b, p + 2)
}

/// The 64-bit value read big-endian at `p`.
pub open spec fn spec_val64(b: Seq<u8>, p: int) -> nat {
    spec_val32(b, p) * 0x1_0000_0000 + spec_val32(b, p + 4)
}

/// Parses an item header at `pos`: the major type, the argument, and the
/// position after the header. Indefinite lengths and the reserved argument
/// forms are rejected.
pub open spec fn spec_parse_header(b: Seq<u8>, pos: int) -> Option<(u8, nat, int)> {
    if !(0 <= pos < b.len()) {
        None
    } else {
        let ib = b[pos];
        let major = ib / 32;
        let ai = ib % 32;
        if ai < 24 {
            Some((major, ai as nat, pos + 1))
        } else if ai == 24 {
            if pos + 2 <= b.len() {
                Some((major, b[pos + 1] as nat, pos + 2))
            } else {
                None
            }
        } else if ai == 25 {
            if pos + 3 <= b.len() {
                Some((major, spec_val16(b, pos + 1), pos + 3))
            } else {
                None
            }
        } else if ai == 26 {
            if pos + 5 <= b.len() {
                Some((major, spec_val32(b, pos + 1), pos + 5))
            } else {
                None
            }
        } else if ai == 27 {
            if pos + 9 <= b.len() {
                Some((major, spec_val64(b, pos + 1), pos + 9))
            } else {
                None
            }
        } else {
            None
        }
    }
}

/// Parsing a header at the place its encoding occupies yields the encoded
/// major type and argument, and lands just past the header.
pub proof fn lemma_parse_header(b: Seq<u8>, pos: int, major: u8, n: nat)
    requires
        major < 8,
        n < 0x1_0000_0000_0000_0000,
        0 <= pos,
        pos + spec_header(major, n).len() <= b.len(),
        b.subrange(pos, pos + spec_header(major, n).len()) == spec_header(major, n),
    ensures
        spec_parse_header(b, pos) == Some((major, n, pos + spec_header(major, n).len())),
{
    let h = spec_header(major, n);
    let hl = h.len() as int;
    let sub = b.subrange(pos, pos + hl);
    assert forall|k: int| 0 <= k < hl implies b[pos + k] == h[k] by {
        assert(sub[k] == b[pos + k]);
        assert(sub[k] == h[k]);
    }
    assert(b[pos + 0] == h[0]);
    assert(b[pos] == h[0]);
    if n < 24 {
        assert(h[0] == (major * 32 + n) as u8);
        assert((major * 32 + n) as u8 / 32 == major);
        assert((major * 32 + n) as u8 % 32 == n);
    } else if n < 0x100 {
        assert(h[0] == (major * 32 + 24) as u8);
        assert((major * 32 + 24) as u8 / 32 == major);
        assert((major * 32 + 24) as u8 % 32 == 24);
        assert(b[pos + 1] == n as u8);
    } else if n < 0x10000 {
        assert(h[0] == (major * 32 + 25) as u8);
        assert(h[1] == spec_be16(n)[0]);
        assert(h[2] == spec_be16(n)[1]);
        assert(b[pos + 1] == (n / 0x100) as u8);
        assert(b[pos + 2] == (n % 0x100) as u8);
        assert(spec_val16(b, pos + 1) == n);
    } else if n < 0x1_0000_0000 {
        let hi = n / 0x10000;
        let lo = n % 0x10000;
        assert(h[0] == (major * 32 + 26) as u8);
        assert(h[1] == spec_be32(n)[0] && h[2] == spec_be32(n)[1] && h[3] == spec_be32(n)[2]
            && h[4] == spec_be32(n)[3]);
        assert(spec_be32(n)[0] == spec_be16(hi)[0] && spec_be32(n)[1] == spec_be16(hi)[1]
            && spec_be32(n)[2] == spec_be16(lo)[0] && spec_be32(n)[3] == spec_be16(lo)[1]);
        assert(b[pos + 1] == (hi / 0x100) as u8);
        assert(b[pos + 2] == (hi % 0x100) as u8);
        assert(b[pos + 3] == (lo / 0x100) as u8);
        assert(b[pos + 4] == (lo % 0x100) as u8);
        assert(spec_val16(b, pos + 1) == hi);
        assert(spec_val16(b, pos + 3) == lo);
        assert(spec_val32(b, pos + 1) == hi * 0x10000 + lo);
        assert(hi * 0x10000 + lo == n) by {
            assert(n == 0x10000 * (n / 0x10000) + n % 0x10000);
        }
    } else {
        let hi = n / 0x1_0000_0000;
        let lo = n % 0x1_0000_0000;
        let hihi = hi / 0x10000;
        let hilo = hi % 0x10000;
        let lohi = lo / 0x10000;
        let lolo = lo % 0x10000;
        assert(h[0] == (major * 32 + 27) as u8);
        assert(h[1] == spec_be64(n)[0] && h[2] == spec_be64(n)[1] && h[3] == spec_be64(n)[2]
            && h[4] == spec_be64(n)[3] && h[5] == spec_be64(n)[4] && h[6] == spec_be64(n)[5]
            && h[7] == spec_be64(n)[6] && h[8] == spec_be64(n)[7]);
        assert(spec_be64(n)[0] == spec_be32(hi)[0] && spec_be64(n)[1] == spec_be32(hi)[1]
            && spec_be64(n)[2] == spec_be32(hi)[2] && spec_be64(n)[3] == spec_be32(hi)[3]
            && spec_be64(n)[4] == spec_be32(lo)[0] && spec_be64(n)[5] == spec_be32(lo)[1]
            && spec_be64(n)[6] == spec_be32(lo)[2] && spec_be64(n)[7] == spec_be32(lo)[3]);
        assert(spec_be32(hi)[0] == spec_be16(hihi)[0] && spec_be32(hi)[1] == spec_be16(hihi)[1]
            && spec_be32(hi)[2] == spec_be16(hilo)[0] && spec_be32(hi)[3] == spec_be16(hilo)[1]);
        assert(spec_be32(lo)[0] == spec_be16(lohi)[0] && spec_be32(lo)[1] == spec_be16(lohi)[1]
            && spec_be32(lo)[2] == spec_be16(lolo)[0] && spec_be32(lo)[3] == spec_be16(lolo)[1]);
        assert(b[pos + 1] == (hihi / 0x100) as u8);
        assert(b[pos + 2] == (hihi % 0x100) as u8);
        assert(b[pos + 3] == (hilo / 0x100) as u8);
        assert(b[pos + 4] == (hilo % 0x100) as u8);
        assert(b[pos + 5] == (lohi / 0x100) as u8);
        assert(b[pos + 6] == (lohi % 0x100) as u8);
        assert(b[pos + 7] == (lolo / 0x100) as u8);
        assert(b[pos + 8] == (lolo % 0x100) as u8);
        assert(spec_val16(b, pos + 1) == hihi);
        assert(spec_val16(b, pos + 3) == hilo);
        assert(spec_val16(b, pos + 5) == lohi);
        assert(spec_val16(b, pos + 7) == lolo);
        assert(spec_val32(b, pos + 1) == hihi * 0x10000 + hilo);
        assert(spec_val32(b, pos + 5) == lohi * 0x10000 + lolo);
        assert(hihi * 0x10000 + hilo == hi) by {
            assert(hi == 0x10000 * (hi / 0x10000) + hi % 0x10000);
        }
        assert(lohi * 0x10000 + lolo == lo) by {
            assert(lo == 0x10000 * (lo / 0x10000) + lo % 0x10000);
        }
        assert(spec_val64(b, pos + 1) == hi * 0x1_0000_0000 + lo);
        assert(hi * 0x1_0000_0000 + lo == n) by {
            assert(n == 0x1_0000_0000 * (n / 0x1_0000_0000) + n % 0x1_0000_0000);
        }
    }
}

/// Appends the header for `(major, n)` to `out`.
pub fn encode_header_into(out: &mut Vec<u8>, major: u8, n: u64)
    requires
        major < 8,
    ensures
        final(out)@ == old(out)@ + spec_header(major, n as nat),
{
    let m32: u8 = major * 32;
    if n < 24 {
        out.push(m32 + n as u8);
        assert(final(out)@ =~= old(out)@ + spec_header(major, n as nat));
    } else if n < 0x100 {
        out.push(m32 + 24);
        out.push(n as u8);
        assert(final(out)@ =~= old(out)@ + spec_header(major, n as nat));
    } else if n < 0x10000 {
        out.push(m32 + 25);
        out.push((n / 0x100) as u8);
        out.push((n % 0x100) as u8);
        assert(final(out)@ =~= old(out)@ + spec_header(major, n as nat));
    } else if n < 0x1_0000_0000 {
        let hi = n / 0x10000;
        let lo = n % 0x10000;
        out.push(m32 + 26);
        out.push((hi / 0x100) as u8);
        out.push((hi % 0x100) as u8);
        out.push((lo / 0x100) as u8);
        out.push((lo % 0x100) as u8);
        assert(final(out)@ =~= old(out)@ + spec_header(major, n as nat));
    } else {
        let hi = n / 0x1_0000_0000;
        let lo = n % 0x1_0000_0000;
        let hihi = hi / 0x10000;
        let hilo = hi % 0x10000;
        let lohi = lo / 0x10000;
        let lolo = lo % 0x10000;
        out.push(m32 + 27);
        out.push((hihi / 0x100) as u8);
        out.push((hihi % 0x100) as u8);
        out.push((hilo / 0x100) as u8);
        out.push((hilo % 0x100) as u8);
        out.push((lohi / 0x100) as u8);
        out.push((lohi % 0x100) as u8);
        out.push((lolo / 0x100) as u8);
        out.push((lolo % 0x100) as u8);
        assert(final(out)@ =~= old(out)@ + spec_header(major, n as nat));
    }
}

/// Parses an item header, exactly as [`spec_parse_header`] does.
pub fn parse_header(b: &[u8], pos: usize) -> (r: Option<(u8, u64, usize)>)
    ensures
        r matches Some(t) ==> spec_parse_header(b@, pos as int) == Some((t.0, t.1 as nat, t.2 as int))
            && pos < t.2 <= b@.len() && t.0 < 8,
        r is None ==> spec_parse_header(b@, pos as int) is None,
{
    if pos >= b.len() {
        return None;
    }
    let ib = b[pos];
    let major: u8 = ib / 32;
    let ai: u8 = ib % 32;
    if ai < 24 {
        Some((major, ai as u64, pos + 1))
    } else if ai == 24 {
        if b.len() - pos >= 2 {
            Some((major, b[pos + 1] as u64, pos + 2))
        } else {
            None
        }
    } else if ai == 25 {
        if b.len() - pos >= 3 {
            let v: u64 = (b[pos + 1] as u64) * 0x100 + (b[pos + 2] as u64);
            Some((major, v, pos + 3))
        } else {
            None
        }
    } else if ai == 26 {
        if b.len() - pos >= 5 {
            let v16a: u64 = (b[pos + 1] as u64) * 0x100 + (b[pos + 2] as u64);
            let v16b: u64 = (b[pos + 3] as u64) * 0x100 + (b[pos + 4] as u64);
            let v: u64 = v16a * 0x10000 + v16b;
            Some((major, v, pos + 5))
        } else {
            None
        }
    } else if ai == 27 {
        if b.len() - pos >= 9 {
            let v16a: u64 = (b[pos + 1] as u64) * 0x100 + (b[pos + 2] as u64);
            let v16b: u64 = (b[pos + 3] as u64) * 0x100 + (b[pos + 4] as u64);
            let v16c: u64 = (b[pos + 5] as u64) * 0x100 + (b[pos + 6] as u64);
            let v16d: u64 = (b[pos + 7] as u64) * 0x100 + (b[pos + 8] as u64);
            let v32a: u64 = v16a * 0x10000 + v16b;
            let v32b: u64 = v16c * 0x10000 + v16d;
            let v: u64 = v32a * 0x1_0000_0000 + v32b;
            proof {
                assert(v32a < 0x1_0000_0000);
                assert(v32a * 0x1_0000_0000 <= 0xffff_ffff * 0x1_0000_0000);
            }
            Some((major, v, pos + 9))
        } else {
            None
        }
    } else {
        None
    }
}

/// A text item: a major-3 header with the UTF-8 byte length, then the
/// UTF-8 bytes.
pub open spec fn spec_text(s: Seq<char>) -> Seq<u8> {
    spec_header(3, encode_utf8(s).len()) + encode_utf8(s)
}

/// The encoding above is only defined for arguments below 2^64.
pub open spec fn text_fits(s: Seq<char>) -> bool {
    encode_utf8(s).len() < 0x1_0000_0000_0000_0000
}

/// A byte-string item: a major-2 header with the length, then the bytes.
pub open spec fn spec_blob(d: Seq<u8>) -> Seq<u8> {
    spec_header(2, d.len()) + d
}

pub open spec fn blob_fits(d: Seq<u8>) -> bool {
    d.len() < 0x1_0000_0000_0000_0000
}

/// Parses a text item at `pos`: its decoded characters and the position
/// after it.
pub open spec fn spec_parse_text(b: Seq<u8>, pos: int) -> Option<(Seq<char>, int)> {
    match spec_parse_header(b, pos) {
        Some((major, n, p)) => if major == 3 && p + n <= b.len() && valid_utf8(
            b.subrange(p, p + n),
        ) {
            Some((decode_utf8(b.subrange(p, p + n)), p + n))
        } else {
            None
        },
        None => None,
    }
}

/// Parses a byte-string item at `pos`.
pub open spec fn spec_parse_blob(b: Seq<u8>, pos: int) -> Option<(Seq<u8>, int)> {
    match spec_parse_header(b, pos) {
        Some((major, n, p)) => if major == 2 && p + n <= b.len() {
            Some((b.subrange(p, p + n), p + n))
        } else {
            None
        },
        None => None,
    }
}

/// Parsing a text item at the place its encoding occupies yields the
/// encoded characters back.
pub proof fn lemma_parse_text(b: Seq<u8>, pos: int, s: Seq<char>)
    requires
        text_fits(s),
        0 <= pos,
        pos + spec_text(s).len() <= b.len(),
        b.subrange(pos, pos + spec_text(s).len()) == spec_text(s),
    ensures
        spec_parse_text(b, pos) == Some((s, pos + spec_text(s).len())),
{
    let e = encode_utf8(s);
    let h = spec_header(3, e.len());
    let hl = h.len() as int;
    let tl = spec_text(s).len() as int;
    let whole = b.subrange(pos, pos + tl);
    assert(whole == h + e);
    assert forall|k: int| 0 <= k < tl implies b[pos + k] == (h + e)[k] by {
        assert(whole[k] == b[pos + k]);
    }
    assert(b.subrange(pos, pos + hl) =~= h);
    lemma_parse_header(b, pos, 3, e.len());
    assert forall|k: int|
        0 <= k < e.len() implies b.subrange(pos + hl, pos + hl + e.len())[k] == e[k] by {
        assert(b[pos + (hl + k)] == (h + e)[hl + k]);
        assert((h + e)[hl + k] == e[k]);
    }
    assert(b.subrange(pos + hl, pos + hl + e.len()) =~= e);
    encode_utf8_valid_utf8(s);
    encode_utf8_decode_utf8(s);
}

/// Parsing a byte-string item at the place its encoding occupies yields
/// the encoded bytes back.
pub proof fn lemma_parse_blob(b: Seq<u8>, pos: int, d: Seq<u8>)
    requires
        blob_fits(d),
        0 <= pos,
        pos + spec_blob(d).len() <= b.len(),
        b.subrange(pos, pos + spec_blob(d).len()) == spec_blob(d),
    ensures
        spec_parse_blob(b, pos) == Some((d, pos + spec_blob(d).len())),
{
    let h = spec_header(2, d.len());
    let hl = h.len() as int;
    let tl = spec_blob(d).len() as int;
    let whole = b.subrange(pos, pos + tl);
    assert(whole == h + d);
    assert forall|k: int| 0 <= k < tl implies b[pos + k] == (h + d)[k] by {
        assert(whole[k] == b[pos + k]);
    }
    assert(b.subrange(pos, pos + hl) =~= h);
    lemma_parse_header(b, pos, 2, d.len());
    assert forall|k: int|
        0 <= k < d.len() implies b.subrange(pos + hl, pos + hl + d.len())[k] == d[k] by {
        assert(b[pos + (hl + k)] == (h + d)[hl + k]);
        assert((h + d)[hl + k] == d[k]);
    }
    assert(b.subrange(pos + hl, pos + hl + d.len()) =~= d);
}

/// Appends the text item for `s` to `out`.
pub fn encode_text_into(out: &mut Vec<u8>, s: &str)
    ensures
        final(out)@ == old(out)@ + spec_text(s@),
{
    let bytes = s.as_bytes();
    let ghost mid = out@ + spec_header(3, encode_utf8(s@).len());
    encode_header_into(out, 3, bytes.len() as u64);
    let n = bytes.len();
    let mut i: usize = 0;
    while i < n
        invariant
            0 <= i <= n,
            n == bytes@.len(),
            bytes@ == encode_utf8(s@),
            out@ =~= mid + bytes@.take(i as int),
        decreases n - i,
    {
        out.push(bytes[i]);
        i = i + 1;
    }
    assert(out@ =~= old(out)@ + spec_text(s@));
}

/// Appends the byte-string item for `d` to `out`.
pub fn encode_blob_into(out: &mut Vec<u8>, d: &[u8])
    ensures
        final(out)@ == old(out)@ + spec_blob(d@),
{
    let ghost mid = out@ + spec_header(2, d@.len());
    encode_header_into(out, 2, d.len() as u64);
    let n = d.len();
    let mut i: usize = 0;
    while i < n
        invariant
            0 <= i <= n,
            n == d@.len(),
            out@ =~= mid + d@.take(i as int),
        decreases n - i,
    {
        out.push(d[i]);
        i = i + 1;
    }
    assert(out@ =~= old(out)@ + spec_blob(d@));
}

/// Parses a text item, exactly as [`spec_parse_text`] does.
pub fn parse_text(b: &[u8], pos: usize) -> (r: Option<(String, usize)>)
    ensures
        r matches Some(t) ==> spec_parse_text(b@, pos as int) == Some((t.0@, t.1 as int)) && pos
            < t.1 <= b@.len(),
        r is None ==> spec_parse_text(b@, pos as int) is None,
{
    match parse_header(b, pos) {
        Some((major, n, p)) => {
            if major != 3 {
                return None;
            }
            if n > (b.len() - p) as u64 {
                return None;
            }
            let count = n as usize;
            let blen = b.len();
            let mut payload: Vec<u8> = Vec::new();
            let mut i: usize = 0;
            while i < count
                invariant
                    0 <= i <= count,
                    p + count <= blen,
                    blen == b@.len(),
                    payload@ =~= b@.subrange(p as int, p + i),
                decreases count - i,
            {
                payload.push(b[p + i]);
                i = i + 1;
            }
            assert(payload@ =~= b@.subrange(p as int, p + count));
            match bytes_to_string(payload) {
                Some(s) => Some((s, p + count)),
                None => None,
            }
        },
        None => None,
    }
}

/// Parses a byte-string item, exactly as [`spec_parse_blob`] does.
pub fn parse_blob(b: &[u8], pos: usize) -> (r: Option<(Vec<u8>, usize)>)
    ensures
        r matches Some(t) ==> spec_parse_blob(b@, pos as int) == Some((t.0@, t.1 as int)) && pos
            < t.1 <= b@.len(),
        r is None ==> spec_parse_blob(b@, pos as int) is None,
{
    match parse_header(b, pos) {
        Some((major, n, p)) => {
            if major != 2 {
                return None;
            }
            if n > (b.len() - p) as u64 {
                return None;
            }
            let count = n as usize;
            let blen = b.len();
            let mut payload: Vec<u8> = Vec::new();
            let mut i: usize = 0;
            while i < count
                invariant
                    0 <= i <= count,
                    p + count <= blen,
                    blen == b@.len(),
                    payload@ =~= b@.subrange(p as int, p + i),
                decreases count - i,
            {
                payload.push(b[p + i]);
                i = i + 1;
            }
            assert(payload@ =~= b@.subrange(p as int, p + count));
            Some((payload, p + count))
        },
        None => None,
    }
}

/// Splitting a matched concatenation: if the bytes at `pos` are `x + y`,
/// then `x` sits at `pos` and `y` right after it.
pub proof fn lemma_split2(b: Seq<u8>, pos: int, x: Seq<u8>, y: Seq<u8>)
    requires
        0 <= pos,
        pos + x.len() + y.len() <= b.len(),
        b.subrange(pos, pos + x.len() + y.len()) == x + y,
    ensures
        b.subrange(pos, pos + x.len()) == x,
        b.subrange(pos + x.len(), pos + x.len() + y.len()) == y,
{
    let whole = b.subrange(pos, pos + x.len() + y.len());
    assert forall|k: int| 0 <= k < x.len() + y.len() implies b[pos + k] == (x + y)[k] by {
        assert(whole[k] == b[pos + k]);
    }
    assert forall|k: int| 0 <= k < x.len() implies b.subrange(pos, pos + x.len())[k] == x[k] by {
        assert(b[pos + k] == (x + y)[k]);
        assert((x + y)[k] == x[k]);
    }
    assert(b.subrange(pos, pos + x.len()) =~= x);
    assert forall|k: int|
        0 <= k < y.len() implies b.subrange(pos + x.len(), pos + x.len() + y.len())[k] == y[k] by {
        assert(b[pos + (x.len() + k)] == (x + y)[x.len() + k]);
        assert((x + y)[x.len() + k] == y[k]);
    }
    assert(b.subrange(pos + x.len(), pos + x.len() + y.len()) =~= y);
}

/// The back-to-back text items for a sequence of strings.
pub open spec fn spec_texts(items: Seq<Seq<char>>) -> Seq<u8>
    decreases items.len(),
{
    if items.len() == 0 {
        Seq::empty()
    } else {
        spec_text(items[0]) + spec_texts(items.drop_first())
    }
}

pub open spec fn texts_fit(items: Seq<Seq<char>>) -> bool {
    forall|i: int| 0 <= i < items.len() ==> text_fits(#[trigger] items[i])
}

/// A text array: a major-4 header with the count, then the text items.
pub open spec fn spec_text_array(items: Seq<Seq<char>>) -> Seq<u8> {
    spec_header(4, items.len()) + spec_texts(items)
}

pub open spec fn text_array_fits(items: Seq<Seq<char>>) -> bool {
    texts_fit(items) && items.len() < 0x1_0000_0000_0000_0000
}

/// Appending one string extends the text-item run at its end.
pub proof fn lemma_texts_snoc(items: Seq<Seq<char>>, x: Seq<char>)
    ensures
        spec_texts(items.push(x)) == spec_texts(items) + spec_text(x),
    decreases items.len(),
{
    if items.len() == 0 {
        assert(items.push(x)[0] == x);
        assert(items.push(x).drop_first() =~= Seq::<Seq<char>>::empty());
        assert(spec_texts(items.push(x)) == spec_text(x) + spec_texts(
            items.push(x).drop_first(),
        ));
        assert(spec_texts(Seq::<Seq<char>>::empty()) == Seq::<u8>::empty());
        assert(spec_text(x) + Seq::<u8>::empty() =~= spec_text(x));
        assert(Seq::<u8>::empty() + spec_text(x) =~= spec_text(x));
        assert(spec_texts(items.push(x)) =~= spec_texts(items) + spec_text(x));
    } else {
        assert(items.push(x)[0] == items[0]);
        assert(items.push(x).drop_first() =~= items.drop_first().push(x));
        lemma_texts_snoc(items.drop_first(), x);
        assert(spec_texts(items.push(x)) =~= spec_texts(items) + spec_text(x));
    }
}

/// Parses `count` back-to-back text items starting at `pos`.
pub open spec fn spec_parse_texts(b: Seq<u8>, pos: int, count: nat) -> Option<(Seq<Seq<char>>, int)>
    decreases count,
{
    if count == 0 {
        Some((Seq::empty(), pos))
    } else {
        match spec_parse_text(b, pos) {
            Some((s, p)) => match spec_parse_texts(b, p, (count - 1) as nat) {
                Some((rest, e)) => Some((seq![s] + rest, e)),
                None => None,
            },
            None => None,
        }
    }
}

/// Parses a text array at `pos`.
pub open spec fn spec_parse_text_array(b: Seq<u8>, pos: int) -> Option<(Seq<Seq<char>>, int)> {
    match spec_parse_header(b, pos) {
        Some((major, n, p)) => if major == 4 {
            spec_parse_texts(b, p, n)
        } else {
            None
        },
        None => None,
    }
}

/// Parsing the text items at the place their encodings occupy yields the
/// encoded strings back.
pub proof fn lemma_parse_texts(b: Seq<u8>, pos: int, items: Seq<Seq<char>>)
    requires
        texts_fit(items),
        0 <= pos,
        pos + spec_texts(items).len() <= b.len(),
        b.subrange(pos, pos + spec_texts(items).len()) == spec_texts(items),
    ensures
        spec_parse_texts(b, pos, items.len()) == Some((items, pos + spec_texts(items).len())),
    decreases items.len(),
{
    if items.len() > 0 {
        let t0 = spec_text(items[0]);
        let rest = spec_texts(items.drop_first());
        lemma_split2(b, pos, t0, rest);
        lemma_parse_text(b, pos, items[0]);
        lemma_parse_texts(b, pos + t0.len(), items.drop_first());
        assert(seq![items[0]] + items.drop_first() =~= items);
    }
}

/// Parsing a text array at the place its encoding occupies yields the
/// encoded strings back.
pub proof fn lemma_parse_text_array(b: Seq<u8>, pos: int, items: Seq<Seq<char>>)
    requires
        text_array_fits(items),
        0 <= pos,
        pos + spec_text_array(items).len() <= b.len(),
        b.subrange(pos, pos + spec_text_array(items).len()) == spec_text_array(items),
    ensures
        spec_parse_text_array(b, pos) == Some((items, pos + spec_text_array(items).len())),
{
    let h = spec_header(4, items.len());
    lemma_split2(b, pos, h, spec_texts(items));
    lemma_parse_header(b, pos, 4, items.len());
    lemma_parse_texts(b, pos + h.len(), items);
}

/// Appends the text array for `items` to `out`.
pub fn encode_text_array_into(out: &mut Vec<u8>, items: &Vec<String>)
    ensures
        final(out)@ == old(out)@ + spec_text_array(items.deep_view()),
{
    let ghost dv = items.deep_view();
    encode_header_into(out, 4, items.len() as u64);
    let ghost mid = out@;
    let n = items.len();
    let mut i: usize = 0;
    while i < n
        invariant
            0 <= i <= n,
            n == items@.len(),
            dv == items.deep_view(),
            dv.len() == n,
            forall|j: int| 0 <= j < n ==> items@[j]@ == dv[j],
            out@ =~= mid + spec_texts(dv.take(i as int)),
        decreases n - i,
    {
        encode_text_into(out, items[i].as_str());
        proof {
            assert(dv.take(i + 1) =~= dv.take(i as int).push(dv[i as int]));
            lemma_texts_snoc(dv.take(i as int), dv[i as int]);
            assert(out@ =~= mid + spec_texts(dv.take(i + 1)));
        }
        i = i + 1;
    }
    proof {
        assert(dv.take(n as int) =~= dv);
        assert(out@ =~= old(out)@ + spec_text_array(dv));
    }
}

/// Lifts a prefix onto a parse-run result.
pub open spec fn opt_prepend(prefix: Seq<Seq<char>>, o: Option<(Seq<Seq<char>>, int)>) -> Option<
    (Seq<Seq<char>>, int),
> {
    match o {
        Some((s, e)) => Some((prefix + s, e)),
        None => None,
    }
}

/// Parses a text array, exactly as [`spec_parse_text_array`] does.
pub fn parse_text_array(b: &[u8], pos: usize) -> (r: Option<(Vec<String>, usize)>)
    ensures
        r matches Some(t) ==> spec_parse_text_array(b@, pos as int) == Some((
            t.0.deep_view(),
            t.1 as int,
        )) && pos < t.1 <= b@.len(),
        r is None ==> spec_parse_text_array(b@, pos as int) is None,
{
    match parse_header(b, pos) {
        Some((major, n, p0)) => {
            if major != 4 {
                return None;
            }
            let mut acc: Vec<String> = Vec::new();
            let mut cur: usize = p0;
            let mut k: u64 = 0;
            while k < n
                invariant
                    0 <= k <= n,
                    pos < p0 <= cur <= b@.len(),
                    acc.deep_view().len() == k,
                    spec_parse_header(b@, pos as int) == Some((4u8, n as nat, p0 as int)),
                    spec_parse_texts(b@, p0 as int, n as nat) == opt_prepend(
                        acc.deep_view(),
                        spec_parse_texts(b@, cur as int, (n - k) as nat),
                    ),
                decreases n - k,
            {
                let ghost acc0 = acc.deep_view();
                match parse_text(b, cur) {
                    Some((s, p2)) => {
                        proof {
                            assert(spec_parse_text(b@, cur as int) == Some((s@, p2 as int)));
                        }
                        acc.push(s);
                        proof {
                            assert(acc.deep_view() =~= acc0.push(s@));
                            assert(acc0.push(s@) =~= acc0 + seq![s@]);
                            assert forall|o: Option<(Seq<Seq<char>>, int)>| true implies opt_prepend(
                                acc0,
                                opt_prepend(seq![s@], o),
                            ) == opt_prepend(acc0 + seq![s@], o) by {
                                match o {
                                    Some(t) => {
                                        assert(acc0 + (seq![s@] + t.0) =~= (acc0 + seq![s@])
                                            + t.0);
                                    },
                                    None => {
                                    },
                                }
                            }
                        }
                        cur = p2;
                        k = k + 1;
                    },
                    None => {
                        proof {
                            assert(spec_parse_texts(b@, cur as int, (n - k) as nat) is None);
                        }
                        return None;
                    },
                }
            }
            proof {
                assert(spec_parse_texts(b@, cur as int, 0) == Some((
                    Seq::<Seq<char>>::empty(),
                    cur as int,
                )));
                assert(acc.deep_view() + Seq::<Seq<char>>::empty() =~= acc.deep_view());
            }
            Some((acc, cur))
        },
        None => None,
    }
}

} // verus!
