//! The wire message types exchanged on the front-end socket. The maker's
//! fidelity proof is opaque to this daemon: it is carried as a byte blob and
//! stored verbatim if validation ever lands.

use vstd::prelude::*;
use vstd::utf8::*;

use crate::cbor::blob_fits;
use crate::cbor::lemma_parse_blob;
use crate::cbor::lemma_parse_header;
use crate::cbor::lemma_parse_text;
use crate::cbor::lemma_parse_text_array;
use crate::cbor::lemma_split2;
use crate::cbor::spec_be32;
use crate::cbor::spec_val32;
use crate::cbor::encode_blob_into;
use crate::cbor::encode_header_into;
use crate::cbor::encode_text_array_into;
use crate::cbor::encode_text_into;
use crate::cbor::parse_blob;
use crate::cbor::parse_header;
use crate::cbor::parse_text;
use crate::cbor::parse_text_array;
use crate::cbor::spec_blob;
use crate::cbor::spec_header;
use crate::cbor::spec_parse_blob;
use crate::cbor::spec_parse_header;
use crate::cbor::spec_parse_text;
use crate::cbor::spec_parse_text_array;
use crate::cbor::spec_text;
use crate::cbor::spec_text_array;
use crate::cbor::text_array_fits;
use crate::cbor::text_fits;
use crate::text::lemma_ascii_encode_len;
use crate::text::str_eq;

verus! {

/// Metadata a maker registers with: its URL and its fidelity-bond proof,
/// the latter an opaque byte blob.
#[derive(Debug)]
pub struct DnsMetadata {
    /// The maker's onion URL.
    pub url: String,
    /// Serialized proof of the maker's fidelity bond, carried verbatim.
    pub bond_proof: Vec<u8>,
}

/// The mathematical value of a [`DnsMetadata`].
pub struct DnsMetadataView {
    pub url: Seq<char>,
    pub bond_proof: Seq<u8>,
}

impl View for DnsMetadata {
    type V = DnsMetadataView;

    open spec fn view(&self) -> DnsMetadataView {
        DnsMetadataView { url: self.url@, bond_proof: self.bond_proof@ }
    }
}

/// A request read from a client connection.
#[derive(Debug)]
pub enum DnsRequest {
    /// A maker registering itself (reserved endpoint).
    Post { metadata: DnsMetadata },
    /// A taker fetching the active address list.
    Get,
    /// An unsolicited liveness receipt.
    Pong { address: String },
}

/// The mathematical value of a [`DnsRequest`].
pub enum DnsRequestView {
    Post { metadata: DnsMetadataView },
    Get,
    Pong { address: Seq<char> },
}

impl View for DnsRequest {
    type V = DnsRequestView;

    open spec fn view(&self) -> DnsRequestView {
        match self {
            DnsRequest::Post { metadata } => DnsRequestView::Post { metadata: metadata@ },
            DnsRequest::Get => DnsRequestView::Get,
            DnsRequest::Pong { address } => DnsRequestView::Pong { address: address@ },
        }
    }
}

/// A response written to a client connection.
#[derive(Debug)]
pub enum DnsResponse {
    /// The active maker addresses.
    Address { addresses: Vec<String> },
    /// A liveness probe.
    Ping,
}

/// The mathematical value of a [`DnsResponse`].
pub enum DnsResponseView {
    Address { addresses: Seq<Seq<char>> },
    Ping,
}

impl View for DnsResponse {
    type V = DnsResponseView;

    open spec fn view(&self) -> DnsResponseView {
        match self {
            DnsResponse::Address { addresses } => DnsResponseView::Address {
                addresses: addresses.deep_view(),
            },
            DnsResponse::Ping => DnsResponseView::Ping,
        }
    }
}

/// The ceiling on a framed message's declared payload length.
pub const MAX_MESSAGE_LEN: u32 = 65536;

/// The map-of-two-fields encoding of a metadata value: `url` as text,
/// `proof` as a byte string.
pub open spec fn spec_encode_metadata(m: DnsMetadataView) -> Seq<u8> {
    spec_header(5, 2) + spec_text("url"@) + spec_text(m.url) + spec_text("proof"@) + spec_blob(
        m.bond_proof,
    )
}

pub open spec fn metadata_fits(m: DnsMetadataView) -> bool {
    text_fits(m.url) && blob_fits(m.bond_proof)
}

/// Parses a metadata map at `pos`.
pub open spec fn spec_parse_metadata(b: Seq<u8>, pos: int) -> Option<(DnsMetadataView, int)> {
    match spec_parse_header(b, pos) {
        Some((major, n, p1)) => if major == 5 && n == 2 {
            match spec_parse_text(b, p1) {
                Some((k1, p2)) => if k1 == "url"@ {
                    match spec_parse_text(b, p2) {
                        Some((url, p3)) => match spec_parse_text(b, p3) {
                            Some((k2, p4)) => if k2 == "proof"@ {
                                match spec_parse_blob(b, p4) {
                                    Some((pr, p5)) => Some(
                                        (DnsMetadataView { url, bond_proof: pr }, p5),
                                    ),
                                    None => None,
                                }
                            } else {
                                None
                            },
                            None => None,
                        },
                        None => None,
                    }
                } else {
                    None
                },
                None => None,
            }
        } else {
            None
        },
        None => None,
    }
}

/// The encoding of a request: unit variants are their name as a text item;
/// a struct variant is a one-entry map from its name to the map of its
/// fields.
pub open spec fn spec_encode_request(v: DnsRequestView) -> Seq<u8> {
    match v {
        DnsRequestView::Get => spec_text("Get"@),
        DnsRequestView::Pong { address } => spec_header(5, 1) + spec_text("Pong"@) + spec_header(
            5,
            1,
        ) + spec_text("address"@) + spec_text(address),
        DnsRequestView::Post { metadata } => spec_header(5, 1) + spec_text("Post"@) + spec_header(
            5,
            1,
        ) + spec_text("metadata"@) + spec_encode_metadata(metadata),
    }
}

pub open spec fn request_fits(v: DnsRequestView) -> bool {
    match v {
        DnsRequestView::Get => true,
        DnsRequestView::Pong { address } => text_fits(address),
        DnsRequestView::Post { metadata } => metadata_fits(metadata),
    }
}

/// Parses a whole buffer as one request: the parse must consume every byte.
pub open spec fn spec_decode_request(b: Seq<u8>) -> Option<DnsRequestView> {
    match spec_parse_header(b, 0) {
        Some((major, n, p1)) => if major == 3 {
            match spec_parse_text(b, 0) {
                Some((s, e)) => if e == b.len() && s == "Get"@ {
                    Some(DnsRequestView::Get)
                } else {
                    None
                },
                None => None,
            }
        } else if major == 5 && n == 1 {
            match spec_parse_text(b, p1) {
                Some((name, p2)) => if name == "Pong"@ {
                    match spec_parse_header(b, p2) {
                        Some((m2, n2, p3)) => if m2 == 5 && n2 == 1 {
                            match spec_parse_text(b, p3) {
                                Some((f, p4)) => if f == "address"@ {
                                    match spec_parse_text(b, p4) {
                                        Some((addr, e)) => if e == b.len() {
                                            Some(DnsRequestView::Pong { address: addr })
                                        } else {
                                            None
                                        },
                                        None => None,
                                    }
                                } else {
                                    None
                                },
                                None => None,
                            }
                        } else {
                            None
                        },
                        None => None,
                    }
                } else if name == "Post"@ {
                    match spec_parse_header(b, p2) {
                        Some((m2, n2, p3)) => if m2 == 5 && n2 == 1 {
                            match spec_parse_text(b, p3) {
                                Some((f, p4)) => if f == "metadata"@ {
                                    match spec_parse_metadata(b, p4) {
                                        Some((m, e)) => if e == b.len() {
                                            Some(DnsRequestView::Post { metadata: m })
                                        } else {
                                            None
                                        },
                                        None => None,
                                    }
                                } else {
                                    None
                                },
                                None => None,
                            }
                        } else {
                            None
                        },
                        None => None,
                    }
                } else {
                    None
                },
                None => None,
            }
        } else {
            None
        },
        None => None,
    }
}

/// The encoding of a response, in the same scheme as requests.
pub open spec fn spec_encode_response(v: DnsResponseView) -> Seq<u8> {
    match v {
        DnsResponseView::Ping => spec_text("Ping"@),
        DnsResponseView::Address { addresses } => spec_header(5, 1) + spec_text("Address"@)
            + spec_header(5, 1) + spec_text("addresses"@) + spec_text_array(addresses),
    }
}

pub open spec fn response_fits(v: DnsResponseView) -> bool {
    match v {
        DnsResponseView::Ping => true,
        DnsResponseView::Address { addresses } => text_array_fits(addresses),
    }
}

/// Parses a whole buffer as one response: the parse must consume every
/// byte.
pub open spec fn spec_decode_response(b: Seq<u8>) -> Option<DnsResponseView> {
    match spec_parse_header(b, 0) {
        Some((major, n, p1)) => if major == 3 {
            match spec_parse_text(b, 0) {
                Some((s, e)) => if e == b.len() && s == "Ping"@ {
                    Some(DnsResponseView::Ping)
                } else {
                    None
                },
                None => None,
            }
        } else if major == 5 && n == 1 {
            match spec_parse_text(b, p1) {
                Some((name, p2)) => if name == "Address"@ {
                    match spec_parse_header(b, p2) {
                        Some((m2, n2, p3)) => if m2 == 5 && n2 == 1 {
                            match spec_parse_text(b, p3) {
                                Some((f, p4)) => if f == "addresses"@ {
                                    match spec_parse_text_array(b, p4) {
                                        Some((items, e)) => if e == b.len() {
                                            Some(DnsResponseView::Address { addresses: items })
                                        } else {
                                            None
                                        },
                                        None => None,
                                    }
                                } else {
                                    None
                                },
                                None => None,
                            }
                        } else {
                            None
                        },
                        None => None,
                    }
                } else {
                    None
                },
                None => None,
            }
        } else {
            None
        },
        None => None,
    }
}

/// Encodes one request.
pub fn encode_request(m: &DnsRequest) -> (r: Vec<u8>)
    ensures
        r@ == spec_encode_request(m@),
{
    let mut out: Vec<u8> = Vec::new();
    match m {
        DnsRequest::Get => {
            encode_text_into(&mut out, "Get");
            assert(out@ =~= spec_encode_request(m@));
        },
        DnsRequest::Pong { address } => {
            encode_header_into(&mut out, 5, 1);
            encode_text_into(&mut out, "Pong");
            encode_header_into(&mut out, 5, 1);
            encode_text_into(&mut out, "address");
            encode_text_into(&mut out, address.as_str());
            assert(out@ =~= spec_encode_request(m@));
        },
        DnsRequest::Post { metadata } => {
            encode_header_into(&mut out, 5, 1);
            encode_text_into(&mut out, "Post");
            encode_header_into(&mut out, 5, 1);
            encode_text_into(&mut out, "metadata");
            encode_header_into(&mut out, 5, 2);
            encode_text_into(&mut out, "url");
            encode_text_into(&mut out, metadata.url.as_str());
            encode_text_into(&mut out, "proof");
            encode_blob_into(&mut out, metadata.bond_proof.as_slice());
            assert(out@ =~= spec_encode_request(m@));
        },
    }
    out
}

/// Encodes one response.
pub fn encode_response(m: &DnsResponse) -> (r: Vec<u8>)
    ensures
        r@ == spec_encode_response(m@),
{
    let mut out: Vec<u8> = Vec::new();
    match m {
        DnsResponse::Ping => {
            encode_text_into(&mut out, "Ping");
            assert(out@ =~= spec_encode_response(m@));
        },
        DnsResponse::Address { addresses } => {
            encode_header_into(&mut out, 5, 1);
            encode_text_into(&mut out, "Address");
            encode_header_into(&mut out, 5, 1);
            encode_text_into(&mut out, "addresses");
            encode_text_array_into(&mut out, addresses);
            assert(out@ =~= spec_encode_response(m@));
        },
    }
    out
}

/// Parses a metadata map, exactly as [`spec_parse_metadata`] does.
fn parse_metadata(b: &[u8], pos: usize) -> (r: Option<(DnsMetadata, usize)>)
    ensures
        r matches Some(t) ==> spec_parse_metadata(b@, pos as int) == Some((t.0@, t.1 as int))
            && t.1 <= b@.len(),
        r is None ==> spec_parse_metadata(b@, pos as int) is None,
{
    match parse_header(b, pos) {
        Some((major, n, p1)) => {
            if !(major == 5 && n == 2) {
                return None;
            }
            match parse_text(b, p1) {
                Some((k1, p2)) => {
                    if !str_eq(k1.as_str(), "url") {
                        return None;
                    }
                    match parse_text(b, p2) {
                        Some((url, p3)) => {
                            match parse_text(b, p3) {
                                Some((k2, p4)) => {
                                    if !str_eq(k2.as_str(), "proof") {
                                        return None;
                                    }
                                    match parse_blob(b, p4) {
                                        Some((pr, p5)) => Some(
                                            (DnsMetadata { url, bond_proof: pr }, p5),
                                        ),
                                        None => None,
                                    }
                                },
                                None => None,
                            }
                        },
                        None => None,
                    }
                },
                None => None,
            }
        },
        None => None,
    }
}

/// Decodes a whole buffer as one request.
pub fn decode_request(b: &[u8]) -> (r: Option<DnsRequest>)
    ensures
        (r is Some) == (spec_decode_request(b@) is Some),
        r matches Some(m) ==> spec_decode_request(b@) == Some(m@),
{
    match parse_header(b, 0) {
        Some((major, n, p1)) => {
            if major == 3 {
                match parse_text(b, 0) {
                    Some((s, e)) => {
                        if e == b.len() && str_eq(s.as_str(), "Get") {
                            Some(DnsRequest::Get)
                        } else {
                            None
                        }
                    },
                    None => None,
                }
            } else if major == 5 && n == 1 {
                match parse_text(b, p1) {
                    Some((name, p2)) => {
                        if str_eq(name.as_str(), "Pong") {
                            match parse_header(b, p2) {
                                Some((m2, n2, p3)) => {
                                    if !(m2 == 5 && n2 == 1) {
                                        return None;
                                    }
                                    match parse_text(b, p3) {
                                        Some((f, p4)) => {
                                            if !str_eq(f.as_str(), "address") {
                                                return None;
                                            }
                                            match parse_text(b, p4) {
                                                Some((addr, e)) => {
                                                    if e == b.len() {
                                                        Some(DnsRequest::Pong { address: addr })
                                                    } else {
                                                        None
                                                    }
                                                },
                                                None => None,
                                            }
                                        },
                                        None => None,
                                    }
                                },
                                None => None,
                            }
                        } else if str_eq(name.as_str(), "Post") {
                            match parse_header(b, p2) {
                                Some((m2, n2, p3)) => {
                                    if !(m2 == 5 && n2 == 1) {
                                        return None;
                                    }
                                    match parse_text(b, p3) {
                                        Some((f, p4)) => {
                                            if !str_eq(f.as_str(), "metadata") {
                                                return None;
                                            }
                                            match parse_metadata(b, p4) {
                                                Some((meta, e)) => {
                                                    if e == b.len() {
                                                        Some(DnsRequest::Post { metadata: meta })
                                                    } else {
                                                        None
                                                    }
                                                },
                                                None => None,
                                            }
                                        },
                                        None => None,
                                    }
                                },
                                None => None,
                            }
                        } else {
                            None
                        }
                    },
                    None => None,
                }
            } else {
                None
            }
        },
        None => None,
    }
}

/// Decodes a whole buffer as one response.
pub fn decode_response(b: &[u8]) -> (r: Option<DnsResponse>)
    ensures
        (r is Some) == (spec_decode_response(b@) is Some),
        r matches Some(m) ==> spec_decode_response(b@) == Some(m@),
{
    match parse_header(b, 0) {
        Some((major, n, p1)) => {
            if major == 3 {
                match parse_text(b, 0) {
                    Some((s, e)) => {
                        if e == b.len() && str_eq(s.as_str(), "Ping") {
                            Some(DnsResponse::Ping)
                        } else {
                            None
                        }
                    },
                    None => None,
                }
            } else if major == 5 && n == 1 {
                match parse_text(b, p1) {
                    Some((name, p2)) => {
                        if !str_eq(name.as_str(), "Address") {
                            return None;
                        }
                        match parse_header(b, p2) {
                            Some((m2, n2, p3)) => {
                                if !(m2 == 5 && n2 == 1) {
                                    return None;
                                }
                                match parse_text(b, p3) {
                                    Some((f, p4)) => {
                                        if !str_eq(f.as_str(), "addresses") {
                                            return None;
                                        }
                                        match parse_text_array(b, p4) {
                                            Some((items, e)) => {
                                                if e == b.len() {
                                                    Some(DnsResponse::Address { addresses: items })
                                                } else {
                                                    None
                                                }
                                            },
                                            None => None,
                                        }
                                    },
                                    None => None,
                                }
                            },
                            None => None,
                        }
                    },
                    None => None,
                }
            } else {
                None
            }
        },
        None => None,
    }
}

/// Parsing a metadata map at the place its encoding occupies yields the
/// encoded value back.
#[verifier::rlimit(100)]
#[verifier::spinoff_prover]
proof fn lemma_metadata_round_trip_at(b: Seq<u8>, pos: int, m: DnsMetadataView)
    requires
        metadata_fits(m),
        0 <= pos,
        pos + spec_encode_metadata(m).len() <= b.len(),
        b.subrange(pos, pos + spec_encode_metadata(m).len()) == spec_encode_metadata(m),
    ensures
        spec_parse_metadata(b, pos) == Some((m, pos + spec_encode_metadata(m).len())),
{
    reveal_strlit("url");
    reveal_strlit("proof");
    assert(is_ascii_chars("url"@));
    assert(is_ascii_chars("proof"@));
    lemma_ascii_encode_len("url"@);
    lemma_ascii_encode_len("proof"@);
    let p1 = spec_header(5, 2);
    let p2 = spec_text("url"@);
    let p3 = spec_text(m.url);
    let p4 = spec_text("proof"@);
    let p5 = spec_blob(m.bond_proof);
    assert(spec_encode_metadata(m) == p1 + p2 + p3 + p4 + p5);
    lemma_split2(b, pos, p1 + p2 + p3 + p4, p5);
    lemma_split2(b, pos, p1 + p2 + p3, p4);
    lemma_split2(b, pos, p1 + p2, p3);
    lemma_split2(b, pos, p1, p2);
    lemma_parse_header(b, pos, 5, 2);
    lemma_parse_text(b, pos + p1.len(), "url"@);
    lemma_parse_text(b, pos + p1.len() + p2.len(), m.url);
    lemma_parse_text(b, pos + p1.len() + p2.len() + p3.len(), "proof"@);
    lemma_parse_blob(b, pos + p1.len() + p2.len() + p3.len() + p4.len(), m.bond_proof);
}

#[verifier::rlimit(100)]
#[verifier::spinoff_prover]
proof fn lemma_get_round_trip()
    ensures
        spec_decode_request(spec_encode_request(DnsRequestView::Get)) == Some(DnsRequestView::Get),
{
    let b = spec_encode_request(DnsRequestView::Get);
    assert(b.subrange(0, b.len() as int) =~= b);
    reveal_strlit("Get");
    assert(is_ascii_chars("Get"@));
    lemma_ascii_encode_len("Get"@);
    let e = encode_utf8("Get"@);
    let h = spec_header(3, e.len());
    assert(b == h + e);
    lemma_split2(b, 0, h, e);
    lemma_parse_header(b, 0, 3, e.len());
    lemma_parse_text(b, 0, "Get"@);
}

#[verifier::rlimit(100)]
#[verifier::spinoff_prover]
proof fn lemma_pong_round_trip(address: Seq<char>)
    requires
        text_fits(address),
    ensures
        spec_decode_request(spec_encode_request(DnsRequestView::Pong { address })) == Some(
            DnsRequestView::Pong { address },
        ),
{
    let b = spec_encode_request(DnsRequestView::Pong { address });
    assert(b.subrange(0, b.len() as int) =~= b);
    reveal_strlit("Pong");
    reveal_strlit("address");
    assert(is_ascii_chars("Pong"@));
    assert(is_ascii_chars("address"@));
    lemma_ascii_encode_len("Pong"@);
    lemma_ascii_encode_len("address"@);
    let p1 = spec_header(5, 1);
    let p2 = spec_text("Pong"@);
    let p3 = spec_header(5, 1);
    let p4 = spec_text("address"@);
    let p5 = spec_text(address);
    assert(b == p1 + p2 + p3 + p4 + p5);
    lemma_split2(b, 0, p1 + p2 + p3 + p4, p5);
    lemma_split2(b, 0, p1 + p2 + p3, p4);
    lemma_split2(b, 0, p1 + p2, p3);
    lemma_split2(b, 0, p1, p2);
    lemma_parse_header(b, 0, 5, 1);
    lemma_parse_text(b, p1.len() as int, "Pong"@);
    lemma_parse_header(b, (p1.len() + p2.len()) as int, 5, 1);
    lemma_parse_text(b, (p1.len() + p2.len() + p3.len()) as int, "address"@);
    lemma_parse_text(b, (p1.len() + p2.len() + p3.len() + p4.len()) as int, address);
}

#[verifier::rlimit(100)]
#[verifier::spinoff_prover]
proof fn lemma_post_parse_facts(metadata: DnsMetadataView)
    requires
        metadata_fits(metadata),
    ensures
        ({
            let b = spec_encode_request(DnsRequestView::Post { metadata });
            let o1 = spec_header(5, 1).len() as int;
            let o2 = o1 + spec_text("Post"@).len();
            let o3 = o2 + spec_header(5, 1).len();
            let o4 = o3 + spec_text("metadata"@).len();
            &&& spec_parse_header(b, 0) == Some((5u8, 1 as nat, o1))
            &&& spec_parse_text(b, o1) == Some(("Post"@, o2))
            &&& spec_parse_header(b, o2) == Some((5u8, 1 as nat, o3))
            &&& spec_parse_text(b, o3) == Some(("metadata"@, o4))
            &&& spec_parse_metadata(b, o4) == Some((metadata, b.len() as int))
            &&& "Post"@ != "Pong"@
        }),
{
    let b = spec_encode_request(DnsRequestView::Post { metadata });
    assert(b.subrange(0, b.len() as int) =~= b);
    reveal_strlit("Post");
    reveal_strlit("Pong");
    reveal_strlit("metadata");
    assert("Post"@ != "Pong"@) by {
        if "Post"@ == "Pong"@ {
            assert("Post"@[2] == "Pong"@[2]);
        }
    }
    assert(is_ascii_chars("Post"@));
    assert(is_ascii_chars("metadata"@));
    lemma_ascii_encode_len("Post"@);
    lemma_ascii_encode_len("metadata"@);
    let p1 = spec_header(5, 1);
    let p2 = spec_text("Post"@);
    let p3 = spec_header(5, 1);
    let p4 = spec_text("metadata"@);
    let p5 = spec_encode_metadata(metadata);
    assert(b == p1 + p2 + p3 + p4 + p5);
    lemma_split2(b, 0, p1 + p2 + p3 + p4, p5);
    lemma_split2(b, 0, p1 + p2 + p3, p4);
    lemma_split2(b, 0, p1 + p2, p3);
    lemma_split2(b, 0, p1, p2);
    lemma_parse_header(b, 0, 5, 1);
    lemma_parse_text(b, p1.len() as int, "Post"@);
    lemma_parse_header(b, (p1.len() + p2.len()) as int, 5, 1);
    lemma_parse_text(b, (p1.len() + p2.len() + p3.len()) as int, "metadata"@);
    lemma_metadata_round_trip_at(
        b,
        (p1.len() + p2.len() + p3.len() + p4.len()) as int,
        metadata,
    );
}

#[verifier::rlimit(100)]
#[verifier::spinoff_prover]
proof fn lemma_post_round_trip(metadata: DnsMetadataView)
    requires
        metadata_fits(metadata),
    ensures
        spec_decode_request(spec_encode_request(DnsRequestView::Post { metadata })) == Some(
            DnsRequestView::Post { metadata },
        ),
{
    lemma_post_parse_facts(metadata);
}

/// Encoding then decoding a request yields an equal value.
pub proof fn lemma_request_round_trip(v: DnsRequestView)
    requires
        request_fits(v),
    ensures
        spec_decode_request(spec_encode_request(v)) == Some(v),
{
    match v {
        DnsRequestView::Get => {
            lemma_get_round_trip();
        },
        DnsRequestView::Pong { address } => {
            lemma_pong_round_trip(address);
        },
        DnsRequestView::Post { metadata } => {
            lemma_post_round_trip(metadata);
        },
    }
}

/// Encoding then decoding a response yields an equal value.
#[verifier::rlimit(100)]
#[verifier::spinoff_prover]
pub proof fn lemma_response_round_trip(v: DnsResponseView)
    requires
        response_fits(v),
    ensures
        spec_decode_response(spec_encode_response(v)) == Some(v),
{
    let b = spec_encode_response(v);
    assert(b.subrange(0, b.len() as int) =~= b);
    match v {
        DnsResponseView::Ping => {
            reveal_strlit("Ping");
            assert(is_ascii_chars("Ping"@));
            lemma_ascii_encode_len("Ping"@);
            let e = encode_utf8("Ping"@);
            let h = spec_header(3, e.len());
            assert(b == h + e);
            lemma_split2(b, 0, h, e);
            lemma_parse_header(b, 0, 3, e.len());
            lemma_parse_text(b, 0, "Ping"@);
        },
        DnsResponseView::Address { addresses } => {
            reveal_strlit("Address");
            reveal_strlit("addresses");
            assert(is_ascii_chars("Address"@));
            assert(is_ascii_chars("addresses"@));
            lemma_ascii_encode_len("Address"@);
            lemma_ascii_encode_len("addresses"@);
            let p1 = spec_header(5, 1);
            let p2 = spec_text("Address"@);
            let p3 = spec_header(5, 1);
            let p4 = spec_text("addresses"@);
            let p5 = spec_text_array(addresses);
            assert(b == p1 + p2 + p3 + p4 + p5);
            lemma_split2(b, 0, p1 + p2 + p3 + p4, p5);
            lemma_split2(b, 0, p1 + p2 + p3, p4);
            lemma_split2(b, 0, p1 + p2, p3);
            lemma_split2(b, 0, p1, p2);
            lemma_parse_header(b, 0, 5, 1);
            lemma_parse_text(b, p1.len() as int, "Address"@);
            lemma_parse_header(b, (p1.len() + p2.len()) as int, 5, 1);
            lemma_parse_text(b, (p1.len() + p2.len() + p3.len()) as int, "addresses"@);
            lemma_parse_text_array(
                b,
                (p1.len() + p2.len() + p3.len() + p4.len()) as int,
                addresses,
            );
        },
    }
}

/// A frame: a four-byte big-endian length prefix, then the payload.
pub open spec fn spec_frame(payload: Seq<u8>) -> Seq<u8> {
    spec_be32(payload.len()) + payload
}

/// Frames a payload for the wire; a payload whose length cannot be carried
/// in the prefix is refused.
pub fn frame_message(payload: &[u8]) -> (r: Option<Vec<u8>>)
    ensures
        (r is Some) == (payload@.len() <= 0xffff_ffff),
        r matches Some(f) ==> f@ == spec_frame(payload@),
{
    if payload.len() as u64 > 0xffff_ffff {
        return None;
    }
    let n: u64 = payload.len() as u64;
    let hi: u64 = n / 0x10000;
    let lo: u64 = n % 0x10000;
    let mut out: Vec<u8> = Vec::new();
    out.push((hi / 0x100) as u8);
    out.push((hi % 0x100) as u8);
    out.push((lo / 0x100) as u8);
    out.push((lo % 0x100) as u8);
    assert(out@ =~= spec_be32(payload@.len() as nat));
    let ghost mid = out@;
    let count = payload.len();
    let mut i: usize = 0;
    while i < count
        invariant
            0 <= i <= count,
            count == payload@.len(),
            out@ =~= mid + payload@.take(i as int),
        decreases count - i,
    {
        out.push(payload[i]);
        i = i + 1;
    }
    assert(out@ =~= spec_frame(payload@));
    Some(out)
}

/// Reads a frame's length prefix: exactly four bytes, big-endian, and the
/// declared length must not exceed [`MAX_MESSAGE_LEN`].
pub fn parse_frame_length(b: &[u8]) -> (r: Option<usize>)
    ensures
        (r is Some) == (b@.len() == 4 && spec_val32(b@, 0) <= MAX_MESSAGE_LEN),
        r matches Some(n) ==> n == spec_val32(b@, 0),
{
    if b.len() != 4 {
        return None;
    }
    let v: u64 = ((b[0] as u64) * 0x100 + (b[1] as u64)) * 0x10000 + ((b[2] as u64) * 0x100 + (
    b[3] as u64));
    if v > MAX_MESSAGE_LEN as u64 {
        return None;
    }
    Some(v as usize)
}

} // verus!
