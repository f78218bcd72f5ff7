//! The overlay transport's control-channel grammar: the commands the
//! daemon issues, the reply lines it reads, and the persisted key file. The
//! sockets themselves live outside the library; every line arrives here as
//! a plain string.

use vstd::prelude::*;
use vstd::string::StringExecFns;
use vstd::string::StrSliceExecFns;
use vstd::utf8::*;

use crate::cbor::lemma_parse_header;
use crate::cbor::lemma_parse_text;
use crate::cbor::lemma_split2;
use crate::cbor::spec_header;
use crate::cbor::spec_parse_header;
use crate::cbor::spec_parse_text;
use crate::cbor::spec_text;
use crate::cbor::text_fits;
use crate::cbor::encode_header_into;
use crate::cbor::encode_text_into;
use crate::cbor::parse_header;
use crate::cbor::parse_text;
use crate::error::TrackerError;
use crate::text::bytes_to_string;
use crate::text::spec_decimal;
use crate::text::str_eq;
use crate::text::u16_to_string;

verus! {

/// The authentication command: `AUTHENTICATE "<password>"\r\n`.
pub fn authenticate_cmd(password: &str) -> (r: String)
    ensures
        r@ == "AUTHENTICATE \""@ + password@ + "\"\r\n"@,
{
    let mut s = String::from_str("AUTHENTICATE \"");
    s.append(password);
    s.append("\"\r\n");
    s
}

/// The bootstrap-phase query.
pub fn getinfo_bootstrap_cmd() -> (r: String)
    ensures
        r@ == "GETINFO status/bootstrap-phase\r\n"@,
{
    String::from_str("GETINFO status/bootstrap-phase\r\n")
}

/// The command removing a published endpoint: `DEL_ONION <service_id>\r\n`.
pub fn del_onion_cmd(service_id: &str) -> (r: String)
    ensures
        r@ == "DEL_ONION "@ + service_id@ + "\r\n"@,
{
    let mut s = String::from_str("DEL_ONION ");
    s.append(service_id);
    s.append("\r\n");
    s
}

/// The command publishing a hidden endpoint: with a persisted key the key
/// re-binds the endpoint, without one a fresh key is requested.
pub fn add_onion_cmd(key: Option<&String>, port: u16) -> (r: String)
    ensures
        key matches Some(k) ==> r@ == "ADD_ONION "@ + k@ + " Flags=Detach Port="@ + decode_utf8(
            spec_decimal(port as nat),
        ) + ",127.0.0.1:"@ + decode_utf8(spec_decimal(port as nat)) + "\r\n"@,
        key is None ==> r@ == "ADD_ONION NEW:BEST"@ + " Flags=Detach Port="@ + decode_utf8(
            spec_decimal(port as nat),
        ) + ",127.0.0.1:"@ + decode_utf8(spec_decimal(port as nat)) + "\r\n"@,
{
    let port_s = u16_to_string(port);
    let mut s = match key {
        Some(k) => {
            let mut t = String::from_str("ADD_ONION ");
            t.append(k.as_str());
            t
        },
        None => String::from_str("ADD_ONION NEW:BEST"),
    };
    s.append(" Flags=Detach Port=");
    s.append(port_s.as_str());
    s.append(",127.0.0.1:");
    s.append(port_s.as_str());
    s.append("\r\n");
    s
}

/// Byte-sequence prefix.
pub open spec fn starts_with(b: Seq<u8>, prefix: Seq<u8>) -> bool {
    b.len() >= prefix.len() && b.subrange(0, prefix.len() as int) == prefix
}

/// Prefix test on byte slices.
pub fn bytes_starts_with(b: &[u8], prefix: &[u8]) -> (r: bool)
    ensures
        r == starts_with(b@, prefix@),
{
    let m = prefix.len();
    if b.len() < m {
        return false;
    }
    let mut i: usize = 0;
    while i < m
        invariant
            0 <= i <= m,
            m == prefix@.len(),
            m <= b@.len(),
            forall|j: int| 0 <= j < i ==> b@[j] == prefix@[j],
        decreases m - i,
    {
        if b[i] != prefix[i] {
            assert(b@.subrange(0, m as int)[i as int] != prefix@[i as int]);
            return false;
        }
        i = i + 1;
    }
    assert(b@.subrange(0, m as int) =~= prefix@);
    true
}

/// The needle occurs at position `i`.
pub open spec fn contains_at(b: Seq<u8>, p: Seq<u8>, i: int) -> bool {
    0 <= i && i + p.len() <= b.len() && b.subrange(i, i + p.len()) == p
}

/// The needle occurs somewhere.
pub open spec fn contains_seq(b: Seq<u8>, p: Seq<u8>) -> bool {
    exists|i: int| contains_at(b, p, i)
}

/// Substring search on byte slices.
pub fn bytes_contains(b: &[u8], p: &[u8]) -> (r: bool)
    ensures
        r == contains_seq(b@, p@),
{
    let n = b.len();
    let m = p.len();
    if m > n {
        assert forall|i: int| !contains_at(b@, p@, i) by {}
        return false;
    }
    if m == 0 {
        assert(b@.subrange(0, 0) =~= p@);
        assert(contains_at(b@, p@, 0));
        return true;
    }
    let mut i: usize = 0;
    while i <= n - m
        invariant
            0 <= i <= n - m + 1,
            1 <= m <= n,
            n == b@.len(),
            m == p@.len(),
            forall|q: int| 0 <= q < i ==> !contains_at(b@, p@, q),
        decreases n - i,
    {
        let mut k: usize = 0;
        let mut hit = true;
        while k < m
            invariant
                0 <= k <= m,
                0 <= i <= n - m,
                m <= n,
                n == b@.len(),
                m == p@.len(),
                hit ==> forall|j: int| 0 <= j < k ==> b@[i + j] == p@[j],
                !hit ==> !contains_at(b@, p@, i as int),
            decreases m - k,
        {
            if b[i + k] != p[k] {
                proof {
                    if contains_at(b@, p@, i as int) {
                        assert(b@.subrange(i as int, i + p@.len())[k as int] == p@[k as int]);
                    }
                }
                hit = false;
                k = m;
            } else {
                k = k + 1;
            }
        }
        if hit {
            assert(b@.subrange(i as int, i + p@.len()) =~= p@);
            assert(contains_at(b@, p@, i as int));
            return true;
        }
        i = i + 1;
    }
    assert forall|q: int| !contains_at(b@, p@, q) by {
        if 0 <= q && q + p@.len() <= b@.len() {
            assert(q < i);
        }
    }
    false
}

/// A successful control reply line begins with `250`.
pub fn auth_ok(line: &str) -> (r: bool)
    ensures
        r == starts_with(encode_utf8(line@), encode_utf8("250"@)),
{
    bytes_starts_with(line.as_bytes(), "250".as_bytes())
}

/// The overlay is fully bootstrapped when the status line carries
/// `PROGRESS=100`.
pub fn bootstrap_ready(line: &str) -> (r: bool)
    ensures
        r == contains_seq(encode_utf8(line@), encode_utf8("PROGRESS=100"@)),
{
    bytes_contains(line.as_bytes(), "PROGRESS=100".as_bytes())
}

/// ASCII whitespace, as trimmed from reply-line payloads.
pub open spec fn is_ws(b: u8) -> bool {
    b == 0x20 || b == 0x09 || b == 0x0a || b == 0x0d
}

pub open spec fn spec_trim_start(b: Seq<u8>) -> Seq<u8>
    decreases b.len(),
{
    if b.len() > 0 && is_ws(b[0]) {
        spec_trim_start(b.drop_first())
    } else {
        b
    }
}

pub open spec fn spec_trim_end(b: Seq<u8>) -> Seq<u8>
    decreases b.len(),
{
    if b.len() > 0 && is_ws(b.last()) {
        spec_trim_end(b.drop_last())
    } else {
        b
    }
}

/// ASCII-whitespace trim at both ends.
pub open spec fn spec_trim(b: Seq<u8>) -> Seq<u8> {
    spec_trim_end(spec_trim_start(b))
}

/// Trims ASCII whitespace from both ends of a byte slice.
pub fn trim_bytes(v: &[u8]) -> (r: Vec<u8>)
    ensures
        r@ == spec_trim(v@),
{
    let n = v.len();
    assert(v@.skip(0) =~= v@);
    let mut i: usize = 0;
    while i < n && (v[i] == 0x20 || v[i] == 0x09 || v[i] == 0x0a || v[i] == 0x0d)
        invariant
            0 <= i <= n,
            n == v@.len(),
            spec_trim_start(v@) == spec_trim_start(v@.skip(i as int)),
        decreases n - i,
    {
        proof {
            assert(v@.skip(i as int)[0] == v@[i as int]);
            assert(v@.skip(i as int).drop_first() =~= v@.skip(i + 1));
        }
        i = i + 1;
    }
    proof {
        if i < n {
            assert(v@.skip(i as int)[0] == v@[i as int]);
        }
        assert(spec_trim_start(v@) == v@.skip(i as int));
        assert(v@.skip(i as int) =~= v@.subrange(i as int, n as int));
    }
    let mut j: usize = n;
    while j > i && (v[j - 1] == 0x20 || v[j - 1] == 0x09 || v[j - 1] == 0x0a || v[j - 1] == 0x0d)
        invariant
            i <= j <= n,
            n == v@.len(),
            spec_trim_start(v@) == v@.skip(i as int),
            spec_trim_end(v@.skip(i as int)) == spec_trim_end(v@.subrange(i as int, j as int)),
        decreases j,
    {
        proof {
            let cur = v@.subrange(i as int, j as int);
            assert(cur.last() == v@[j - 1]);
            assert(cur.drop_last() =~= v@.subrange(i as int, j - 1));
        }
        j = j - 1;
    }
    proof {
        let cur = v@.subrange(i as int, j as int);
        if j > i {
            assert(cur.last() == v@[j - 1]);
        }
        assert(spec_trim_end(cur) == cur);
        assert(v@.skip(i as int) =~= v@.subrange(i as int, n as int));
    }
    let mut out: Vec<u8> = Vec::new();
    let mut k: usize = i;
    while k < j
        invariant
            i <= k <= j <= n,
            n == v@.len(),
            out@ =~= v@.subrange(i as int, k as int),
        decreases j - k,
    {
        out.push(v[k]);
        k = k + 1;
    }
    assert(out@ =~= v@.subrange(i as int, j as int));
    out
}

/// The payload of a `250-ServiceID=` line: everything after the prefix,
/// whitespace-trimmed.
pub open spec fn spec_line_payload(l: Seq<char>, prefix: Seq<char>) -> Option<Seq<u8>> {
    let lb = encode_utf8(l);
    let pb = encode_utf8(prefix);
    if starts_with(lb, pb) {
        Some(spec_trim(lb.skip(pb.len() as int)))
    } else {
        None
    }
}

/// Extracts the trimmed payload of a line with the given prefix.
fn parse_prefixed_line(line: &str, prefix: &str) -> (r: Option<Vec<u8>>)
    ensures
        r matches Some(v) ==> spec_line_payload(line@, prefix@) == Some(v@),
        r is None ==> spec_line_payload(line@, prefix@) is None,
{
    let lb = line.as_bytes();
    let pb = prefix.as_bytes();
    if !bytes_starts_with(lb, pb) {
        return None;
    }
    let n = lb.len();
    let m = pb.len();
    let mut rest: Vec<u8> = Vec::new();
    let mut k: usize = m;
    while k < n
        invariant
            m <= k <= n,
            n == lb@.len(),
            rest@ =~= lb@.subrange(m as int, k as int),
        decreases n - k,
    {
        rest.push(lb[k]);
        k = k + 1;
    }
    assert(rest@ =~= lb@.skip(m as int));
    Some(trim_bytes(rest.as_slice()))
}

/// The first `250-ServiceID=` payload among the reply lines.
pub open spec fn first_service_id(lines: Seq<Seq<char>>) -> Option<Seq<u8>>
    decreases lines.len(),
{
    if lines.len() == 0 {
        None
    } else {
        match spec_line_payload(lines[0], "250-ServiceID="@) {
            Some(s) => Some(s),
            None => first_service_id(lines.drop_first()),
        }
    }
}

/// The first `250-PrivateKey=` payload among the reply lines.
pub open spec fn first_private_key(lines: Seq<Seq<char>>) -> Option<Seq<u8>>
    decreases lines.len(),
{
    if lines.len() == 0 {
        None
    } else {
        match spec_line_payload(lines[0], "250-PrivateKey="@) {
            Some(s) => Some(s),
            None => first_private_key(lines.drop_first()),
        }
    }
}

/// Scans an `ADD_ONION` reply: the hostname is the service identifier with
/// `.onion` appended; the private key is the persisted one when a key was
/// provided, else the one the reply carries. Missing lines are a fatal
/// bootstrap error.
pub fn scan_control_reply(lines: &Vec<String>, provided_key: Option<&String>) -> (r: Result<
    (String, String),
    TrackerError,
>)
    ensures
        r matches Ok(p) ==> ({
            let dv = lines.deep_view();
            &&& first_service_id(dv) matches Some(sid) && encode_utf8(p.0@) == sid + encode_utf8(
                ".onion"@,
            )
            &&& match provided_key {
                Some(k) => p.1@ == k@,
                None => first_private_key(dv) matches Some(pk) && encode_utf8(p.1@) == pk,
            }
        }),
        r is Ok <==> ({
            let dv = lines.deep_view();
            &&& first_service_id(dv) matches Some(sid) && valid_utf8(sid + encode_utf8(".onion"@))
            &&& match provided_key {
                Some(_) => true,
                None => first_private_key(dv) matches Some(pk) && valid_utf8(pk),
            }
        }),
        r matches Err(e) ==> e is General,
{
    let ghost dv = lines.deep_view();
    let n = lines.len();
    proof {
        assert(dv.skip(0) =~= dv);
    }
    let mut sid: Option<Vec<u8>> = None;
    let mut key: Option<Vec<u8>> = None;
    let mut i: usize = 0;
    while i < n
        invariant
            0 <= i <= n,
            n == lines@.len(),
            dv == lines.deep_view(),
            dv.len() == n,
            forall|j: int| 0 <= j < n ==> lines@[j]@ == dv[j],
            match sid {
                Some(v) => first_service_id(dv) == Some(v@),
                None => first_service_id(dv) == first_service_id(dv.skip(i as int)),
            },
            match key {
                Some(v) => first_private_key(dv) == Some(v@),
                None => first_private_key(dv) == first_private_key(dv.skip(i as int)),
            },
        decreases n - i,
    {
        proof {
            assert(dv.skip(i as int)[0] == dv[i as int]);
            assert(dv.skip(i as int).drop_first() =~= dv.skip(i + 1));
        }
        if matches!(sid, None) {
            match parse_prefixed_line(lines[i].as_str(), "250-ServiceID=") {
                Some(v) => {
                    sid = Some(v);
                },
                None => {
                },
            }
        }
        if matches!(key, None) {
            match parse_prefixed_line(lines[i].as_str(), "250-PrivateKey=") {
                Some(v) => {
                    key = Some(v);
                },
                None => {
                },
            }
        }
        i = i + 1;
    }
    proof {
        if sid is None {
            assert(dv.skip(n as int) =~= Seq::<Seq<char>>::empty());
        }
        if key is None {
            assert(dv.skip(n as int) =~= Seq::<Seq<char>>::empty());
        }
    }
    let sid_bytes = match sid {
        Some(v) => v,
        None => {
            return Err(
                TrackerError::General(
                    String::from_str("Failed to retrieve ephemeral onion service details"),
                ),
            );
        },
    };
    let mut host_bytes = sid_bytes;
    let ghost sid_view = host_bytes@;
    let suffix = ".onion".as_bytes();
    let mut k: usize = 0;
    while k < suffix.len()
        invariant
            0 <= k <= suffix@.len(),
            suffix@ == encode_utf8(".onion"@),
            host_bytes@ =~= sid_view + suffix@.take(k as int),
        decreases suffix@.len() - k,
    {
        host_bytes.push(suffix[k]);
        k = k + 1;
    }
    assert(host_bytes@ =~= sid_view + encode_utf8(".onion"@));
    let hostname = match bytes_to_string(host_bytes) {
        Some(h) => h,
        None => {
            return Err(
                TrackerError::General(
                    String::from_str("Failed to retrieve ephemeral onion service details"),
                ),
            );
        },
    };
    proof {
        decode_utf8_encode_utf8(sid_view + encode_utf8(".onion"@));
    }
    let private_key = match provided_key {
        Some(k) => k.clone(),
        None => {
            match key {
                Some(v) => {
                    let ghost kv = v@;
                    match bytes_to_string(v) {
                        Some(s) => {
                            proof {
                                decode_utf8_encode_utf8(kv);
                            }
                            s
                        },
                        None => {
                            return Err(
                                TrackerError::General(
                                    String::from_str(
                                        "Failed to retrieve ephemeral onion service details",
                                    ),
                                ),
                            );
                        },
                    }
                },
                None => {
                    return Err(
                        TrackerError::General(
                            String::from_str("Failed to retrieve ephemeral onion service details"),
                        ),
                    );
                },
            }
        },
    };
    Ok((hostname, private_key))
}

/// Drops a final `.onion` from a hostname, for `DEL_ONION`.
pub fn strip_onion_suffix(host: &str) -> (r: String)
    ensures
        host@.len() >= 6 && host@.subrange(host@.len() - 6, host@.len() as int) == ".onion"@
            ==> r@ == host@.take(host@.len() - 6),
        !(host@.len() >= 6 && host@.subrange(host@.len() - 6, host@.len() as int) == ".onion"@)
            ==> r@ == host@,
{
    let n = host.unicode_len();
    if n < 6 {
        return host.to_owned();
    }
    let tail = host.substring_char(n - 6, n);
    if str_eq(tail, ".onion") {
        let head = host.substring_char(0, n - 6);
        head.to_owned()
    } else {
        host.to_owned()
    }
}

/// Whether a re-published endpoint reports the same identity that was
/// persisted: both the private key and the hostname must match.
pub fn restored_matches(
    stored_key: &String,
    stored_host: &String,
    key: &String,
    host: &String,
) -> (r: bool)
    ensures
        r == (stored_key@ == key@ && stored_host@ == host@),
{
    let a = str_eq(stored_key.as_str(), key.as_str());
    let b = str_eq(stored_host.as_str(), host.as_str());
    a && b
}

/// The persisted key file: an array of two text items,
/// `[private_key, hostname]`.
pub open spec fn spec_key_file(pk: Seq<char>, host: Seq<char>) -> Seq<u8> {
    spec_header(4, 2) + spec_text(pk) + spec_text(host)
}

/// Parses a whole buffer as a key file.
pub open spec fn spec_decode_key_file(b: Seq<u8>) -> Option<(Seq<char>, Seq<char>)> {
    match spec_parse_header(b, 0) {
        Some((major, n, p1)) => if major == 4 && n == 2 {
            match spec_parse_text(b, p1) {
                Some((pk, p2)) => match spec_parse_text(b, p2) {
                    Some((host, e)) => if e == b.len() {
                        Some((pk, host))
                    } else {
                        None
                    },
                    None => None,
                },
                None => None,
            }
        } else {
            None
        },
        None => None,
    }
}

/// Encodes the key file for `[private_key, hostname]`.
pub fn encode_key_file(private_key: &str, hostname: &str) -> (r: Vec<u8>)
    ensures
        r@ == spec_key_file(private_key@, hostname@),
{
    let mut out: Vec<u8> = Vec::new();
    encode_header_into(&mut out, 4, 2);
    encode_text_into(&mut out, private_key);
    encode_text_into(&mut out, hostname);
    assert(out@ =~= spec_key_file(private_key@, hostname@));
    out
}

/// Decodes a key file back to `(private_key, hostname)`.
pub fn decode_key_file(b: &[u8]) -> (r: Option<(String, String)>)
    ensures
        (r is Some) == (spec_decode_key_file(b@) is Some),
        r matches Some(p) ==> spec_decode_key_file(b@) == Some((p.0@, p.1@)),
{
    match parse_header(b, 0) {
        Some((major, n, p1)) => {
            if !(major == 4 && n == 2) {
                return None;
            }
            match parse_text(b, p1) {
                Some((pk, p2)) => {
                    match parse_text(b, p2) {
                        Some((host, e)) => {
                            if e == b.len() {
                                Some((pk, host))
                            } else {
                                None
                            }
                        },
                        None => None,
                    }
                },
                None => None,
            }
        },
        None => None,
    }
}

/// Writing `[private_key, hostname]` and re-reading yields equal strings.
#[verifier::rlimit(100)]
#[verifier::spinoff_prover]
pub proof fn lemma_key_file_round_trip(pk: Seq<char>, host: Seq<char>)
    requires
        text_fits(pk),
        text_fits(host),
    ensures
        spec_decode_key_file(spec_key_file(pk, host)) == Some((pk, host)),
{
    let b = spec_key_file(pk, host);
    assert(b.subrange(0, b.len() as int) =~= b);
    let p1 = spec_header(4, 2);
    let p2 = spec_text(pk);
    let p3 = spec_text(host);
    assert(b == p1 + p2 + p3);
    lemma_split2(b, 0, p1 + p2, p3);
    lemma_split2(b, 0, p1, p2);
    lemma_parse_header(b, 0, 4, 2);
    lemma_parse_text(b, p1.len() as int, pk);
    lemma_parse_text(b, (p1.len() + p2.len()) as int, host);
}

} // verus!
