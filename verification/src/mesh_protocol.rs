//! Edge-to-Edge forwarding protocol (`sievetube-mesh/1`).
//!
//! Independent of the Connector protocol: it uses its own ALPN, requires mutual
//! TLS between Edges and has its own messages. An ingress Edge opens a
//! bidirectional stream, sends a [`ForwardRequest`] and waits for a
//! [`ForwardResponse`]; after acceptance the stream is a raw byte pipe to the
//! Connector attached to the receiving Edge.
//!
//! # Frame format
//! ```text
//! [4 bytes: length (big-endian u32)] [1 byte: tag] [N bytes: JSON]
//! ```

use bytes::{Bytes, BytesMut};
use vstd::prelude::*;
use vstd::string::*;
use vstd::utf8::*;
use crate::addr::SocketAddr;
use crate::buffer;
use crate::config::Protocol;
use crate::error::{ErrorView, SieveTubeError};
use crate::hostname;
use crate::positional;
use crate::positional::{from_be, to_be};
use crate::protocol;
use crate::protocol::hex_byte_text;
use crate::text;
use crate::text::{decimal_text, from_utf8, same_text};

verus! {

pub const MESH_VERSION: u16 = 1;

/// Maximum control frame size; forwarding metadata is small.
pub const MAX_MESH_FRAME: u32 = 8192;

/// Maximum length of identifiers carried in mesh messages.
pub const MAX_ID_LEN: usize = 256;

/// Tag of a frame that carries a [`ForwardRequest`].
pub const TAG_FORWARD_REQUEST: u8 = 0x10;

/// Tag of a frame that carries a [`ForwardResponse`].
pub const TAG_FORWARD_RESPONSE: u8 = 0x11;

/// The application protocol that Edges announce to each other.
pub fn mesh_alpn() -> (r: Vec<u8>)
    ensures
        r@ == encode_utf8("sievetube-mesh/1"@),
{
    vstd::slice::slice_to_vec("sievetube-mesh/1".as_bytes())
}

/// Sent by the ingress Edge on a new bidirectional stream.
#[derive(Debug, PartialEq, Eq)]
pub struct ForwardRequest {
    pub version: u16,
    /// Must equal the authenticated peer identity
    pub ingress_edge_id: String,
    pub tenant_id: String,
    pub hostname: String,
    pub protocol: Protocol,
    /// Client address observed by the ingress Edge (trusted as peer metadata)
    pub client_addr: SocketAddr,
    pub request_id: u64,
    /// Remaining forwarding hops; the receiver only delivers locally
    pub hops_remaining: u8,
    /// Connector registration generation the route was advertised for
    pub connection_generation: u64,
}

/// Whether an identifier is neither empty nor too long.
pub open spec fn id_fits(id: Seq<char>) -> bool {
    0 < id.len() && encode_utf8(id).len() <= MAX_ID_LEN
}

/// Whether a hostname is its own normal form.
pub open spec fn is_normal(name: Seq<char>) -> bool {
    hostname::normalized(name, false, false) == Ok::<Seq<char>, Seq<char>>(name)
}

/// Why a request is rejected before any authorization.
pub open spec fn request_fault(r: ForwardRequest) -> Option<RejectReason> {
    if r.version != MESH_VERSION {
        Some(RejectReason::UnsupportedVersion)
    } else if r.hops_remaining == 0 {
        Some(RejectReason::HopLimit)
    } else if !(id_fits(r.ingress_edge_id@) && id_fits(r.tenant_id@) && id_fits(r.hostname@)
        && is_normal(r.hostname@)) {
        Some(RejectReason::Invalid)
    } else {
        None
    }
}

fn check_id(id: &str) -> (r: bool)
    ensures
        r == id_fits(id@),
{
    !id.is_empty() && id.as_bytes().len() <= MAX_ID_LEN
}

impl ForwardRequest {
    /// Structural checks every receiver performs before authorization.
    pub fn validate(&self) -> (r: Result<(), RejectReason>)
        ensures
            match r {
                Ok(_) => request_fault(*self) is None,
                Err(reason) => request_fault(*self) == Some(reason),
            },
    {
        if self.version != MESH_VERSION {
            return Err(RejectReason::UnsupportedVersion);
        }
        if self.hops_remaining == 0 {
            return Err(RejectReason::HopLimit);
        }
        let ids_ok: bool = check_id(self.ingress_edge_id.as_str()) && check_id(
            self.tenant_id.as_str(),
        ) && check_id(self.hostname.as_str());
        let hostname_ok: bool = match hostname::normalize_hostname(self.hostname.as_str()) {
            Ok(h) => same_text(h.as_str(), self.hostname.as_str()),
            Err(_) => false,
        };
        if !ids_ok || !hostname_ok {
            return Err(RejectReason::Invalid);
        }
        Ok(())
    }
}

#[derive(Debug, Clone, Copy, PartialEq, Eq, Structural)]
pub enum RejectReason {
    UnsupportedVersion,
    HopLimit,
    NotAuthorized,
    NoRoute,
    Overloaded,
    Invalid,
}

/// The name of a reason.
pub open spec fn reason_name(reason: RejectReason) -> Seq<char> {
    match reason {
        RejectReason::UnsupportedVersion => "unsupported_version"@,
        RejectReason::HopLimit => "hop_limit"@,
        RejectReason::NotAuthorized => "not_authorized"@,
        RejectReason::NoRoute => "no_route"@,
        RejectReason::Overloaded => "overloaded"@,
        RejectReason::Invalid => "invalid"@,
    }
}

impl RejectReason {
    /// Whether another candidate Edge may be tried. Nothing was forwarded yet.
    pub fn retryable(self) -> (r: bool)
        ensures
            r == (self == RejectReason::NoRoute || self == RejectReason::Overloaded),
    {
        match self {
            RejectReason::NoRoute => true,
            RejectReason::Overloaded => true,
            _ => false,
        }
    }

    pub fn as_str(self) -> (r: &'static str)
        ensures
            r@ == reason_name(self),
    {
        match self {
            RejectReason::UnsupportedVersion => "unsupported_version",
            RejectReason::HopLimit => "hop_limit",
            RejectReason::NotAuthorized => "not_authorized",
            RejectReason::NoRoute => "no_route",
            RejectReason::Overloaded => "overloaded",
            RejectReason::Invalid => "invalid",
        }
    }
}

#[derive(Debug, Clone, Copy, PartialEq, Eq, Structural)]
pub struct ForwardResponse {
    pub accepted: bool,
    pub reject: Option<RejectReason>,
}

impl ForwardResponse {
    pub fn accept() -> (r: Self)
        ensures
            r == (ForwardResponse { accepted: true, reject: None }),
    {
        ForwardResponse { accepted: true, reject: None }
    }

    pub fn reject(reason: RejectReason) -> (r: Self)
        ensures
            r == (ForwardResponse { accepted: false, reject: Some(reason) }),
    {
        ForwardResponse { accepted: false, reject: Some(reason) }
    }
}

/// The bytes of a mesh frame with the given tag and payload.
pub fn write_frame(tag: u8, payload: &[u8]) -> (r: Result<Vec<u8>, SieveTubeError>)
    ensures
        match r {
            Ok(bytes) => 1 + payload.len() <= MAX_MESH_FRAME && bytes@ == protocol::frame_of(
                tag,
                payload@,
            ),
            Err(e) => 1 + payload.len() > MAX_MESH_FRAME && e@ == ErrorView::Protocol(
                "mesh frame too large"@,
            ),
        },
{
    if payload.len() >= MAX_MESH_FRAME as usize {
        return Err(SieveTubeError::Protocol("mesh frame too large".to_owned()));
    }
    let mut bytes: Vec<u8> = to_be(1 + payload.len() as u64, 4);
    bytes.push(tag);
    bytes.extend_from_slice(payload);
    assert(bytes@ =~= protocol::frame_of(tag, payload@));
    Ok(bytes)
}

/// Checks a frame's length field: how many bytes are to be read after it.
pub fn check_frame_len(len: u32) -> (r: Result<usize, SieveTubeError>)
    ensures
        match r {
            Ok(n) => n == len && 1 <= len <= MAX_MESH_FRAME,
            Err(e) => !(1 <= len <= MAX_MESH_FRAME) && e@ == ErrorView::Protocol(
                "invalid mesh frame length "@ + text::decimal(len as nat),
            ),
        },
{
    if len == 0 || len > MAX_MESH_FRAME {
        return Err(
            SieveTubeError::Protocol(
                "invalid mesh frame length ".to_owned().concat(decimal_text(len as u64).as_str()),
            ),
        );
    }
    Ok(len as usize)
}

/// Checks a frame's tag.
pub fn check_frame_tag(tag: u8, expected: u8) -> (r: Result<(), SieveTubeError>)
    ensures
        match r {
            Ok(_) => tag == expected,
            Err(e) => tag != expected && e@ == ErrorView::Protocol(
                "unexpected mesh frame tag 0x"@ + protocol::hex_byte(tag),
            ),
        },
{
    if tag != expected {
        return Err(
            SieveTubeError::Protocol(
                "unexpected mesh frame tag 0x".to_owned().concat(hex_byte_text(tag).as_str()),
            ),
        );
    }
    Ok(())
}

/// What a mesh frame at the beginning of `data` holds: its payload; `Err(None)`
/// where `data` ends too early, `Err` with words where it is not acceptable.
pub open spec fn parsed_frame(data: Seq<u8>, expected: u8) -> Result<Seq<u8>, Option<Seq<char>>> {
    let len = positional::be_value(data.take(4));
    if data.len() < 4 {
        Err(None)
    } else if !(1 <= len <= MAX_MESH_FRAME) {
        Err(Some("invalid mesh frame length "@ + text::decimal(len)))
    } else if data.len() < 5 {
        Err(None)
    } else if data[4] != expected {
        Err(Some("unexpected mesh frame tag 0x"@ + protocol::hex_byte(data[4])))
    } else if data.len() < 4 + len {
        Err(None)
    } else {
        Ok(data.subrange(5, 4 + len as int))
    }
}

/// Takes a mesh frame with the expected tag from the beginning of `data`: its
/// payload. `Ok(None)` where more bytes are needed.
pub fn read_frame(data: &[u8], expected: u8) -> (r: Result<Option<Vec<u8>>, SieveTubeError>)
    ensures
        match r {
            Ok(Some(payload)) => parsed_frame(data@, expected) == Ok::<
                Seq<u8>,
                Option<Seq<char>>,
            >(payload@),
            Ok(None) => parsed_frame(data@, expected) == Err::<Seq<u8>, Option<Seq<char>>>(None),
            Err(e) => parsed_frame(data@, expected) is Err && parsed_frame(data@, expected)->Err_0
                is Some && e@ == ErrorView::Protocol(parsed_frame(data@, expected)->Err_0->0),
        },
{
    if data.len() < 4 {
        return Ok(None);
    }
    assert(data@.subrange(0, 4) == data@.take(4));
    let len: u64 = from_be(data, 0, 4);
    assert(len <= 0xffff_ffff) by {
        reveal_with_fuel(positional::weight, 5);
    }
    let len: usize = match check_frame_len(len as u32) {
        Ok(len) => len,
        Err(e) => {
            return Err(e);
        },
    };
    if data.len() < 5 {
        return Ok(None);
    }
    match check_frame_tag(data[4], expected) {
        Ok(_) => {},
        Err(e) => {
            return Err(e);
        },
    }
    if data.len() - 4 < len {
        return Ok(None);
    }
    Ok(Some(vstd::slice::slice_to_vec(vstd::slice::slice_subrange(data, 5, 4 + len))))
}

/// A mesh frame is read back as it was written, whatever follows it; with
/// another tag it is refused.
pub proof fn law_mesh_frame_reads_back(tag: u8, payload: Seq<u8>, rest: Seq<u8>, expected: u8)
    requires
        1 + payload.len() <= MAX_MESH_FRAME,
    ensures
        tag == expected ==> parsed_frame(protocol::frame_of(tag, payload) + rest, expected) == Ok::<
            Seq<u8>,
            Option<Seq<char>>,
        >(payload),
        tag != expected ==> parsed_frame(protocol::frame_of(tag, payload) + rest, expected) == Err::<
            Seq<u8>,
            Option<Seq<char>>,
        >(Some("unexpected mesh frame tag 0x"@ + protocol::hex_byte(tag))),
{
    let data = protocol::frame_of(tag, payload) + rest;
    let len: nat = 1 + payload.len();
    reveal_with_fuel(positional::weight, 5);
    positional::law_be_bytes_read_back(len, 4);
    assert(data.take(4) =~= positional::be_bytes(len, 4));
    assert(data[4] == tag);
    assert(data.subrange(5, 4 + len as int) =~= payload);
}

/// Version of the datagram header.
pub const DATAGRAM_VERSION: u8 = 1;

#[derive(Debug, Clone, Copy, PartialEq, Eq, Structural)]
pub enum MeshDatagramKind {
    Request,
    Reply,
}

/// The byte that stands for a kind.
pub open spec fn datagram_kind_byte(kind: MeshDatagramKind) -> u8 {
    match kind {
        MeshDatagramKind::Request => 1,
        MeshDatagramKind::Reply => 2,
    }
}

/// Header of a UDP payload forwarded between Edges. Replies are matched on the
/// ingress Edge by `request_id`, and carry `ingress_edge_id` so that a reply can
/// never be delivered through a different ingress.
///
/// ```text
/// [1: version][1: kind][8: request_id][8: connection_generation]
/// [2: len][ingress_edge_id][2: len][tenant_id][2: len][hostname][payload]
/// ```
#[derive(Debug, PartialEq, Eq)]
pub struct MeshDatagramHeader {
    pub kind: MeshDatagramKind,
    pub request_id: u64,
    pub connection_generation: u64,
    pub ingress_edge_id: String,
    pub tenant_id: String,
    pub hostname: String,
}

/// A [`MeshDatagramHeader`] by the values that it holds.
#[verifier::ext_equal]
pub struct HeaderView {
    pub kind: MeshDatagramKind,
    pub request_id: u64,
    pub connection_generation: u64,
    pub ingress_edge_id: Seq<char>,
    pub tenant_id: Seq<char>,
    pub hostname: Seq<char>,
}

impl View for MeshDatagramHeader {
    type V = HeaderView;

    open spec fn view(&self) -> HeaderView {
        HeaderView {
            kind: self.kind,
            request_id: self.request_id,
            connection_generation: self.connection_generation,
            ingress_edge_id: self.ingress_edge_id@,
            tenant_id: self.tenant_id@,
            hostname: self.hostname@,
        }
    }
}

/// How many bytes a header takes.
pub open spec fn header_len(h: HeaderView) -> nat {
    24 + encode_utf8(h.ingress_edge_id).len() + encode_utf8(h.tenant_id).len() + encode_utf8(
        h.hostname,
    ).len()
}

/// A field: its length in two bytes, then its bytes.
pub open spec fn field_of(s: Seq<char>) -> Seq<u8> {
    positional::be_bytes(encode_utf8(s).len(), 2) + encode_utf8(s)
}

/// A header with its payload.
pub open spec fn datagram_of(h: HeaderView, payload: Seq<u8>) -> Seq<u8> {
    seq![DATAGRAM_VERSION, datagram_kind_byte(h.kind)] + positional::be_bytes(
        h.request_id as nat,
        8,
    ) + positional::be_bytes(h.connection_generation as nat, 8) + field_of(h.ingress_edge_id)
        + field_of(h.tenant_id) + field_of(h.hostname) + payload
}

/// What is said of a field that is too long.
pub open spec fn too_long(what: Seq<char>, len: nat) -> Seq<char> {
    "mesh datagram "@ + what + " of "@ + text::decimal(len) + " bytes exceeds 256"@
}

/// The first field that is too long to be sent.
pub open spec fn header_fault(h: HeaderView) -> Option<Seq<char>> {
    if encode_utf8(h.ingress_edge_id).len() > MAX_ID_LEN {
        Some(too_long("ingress_edge_id"@, encode_utf8(h.ingress_edge_id).len()))
    } else if encode_utf8(h.tenant_id).len() > MAX_ID_LEN {
        Some(too_long("tenant_id"@, encode_utf8(h.tenant_id).len()))
    } else if encode_utf8(h.hostname).len() > MAX_ID_LEN {
        Some(too_long("hostname"@, encode_utf8(h.hostname).len()))
    } else {
        None
    }
}

fn check_field(what: &str, field: &str) -> (r: Result<(), SieveTubeError>)
    ensures
        match r {
            Ok(_) => encode_utf8(field@).len() <= MAX_ID_LEN,
            Err(e) => encode_utf8(field@).len() > MAX_ID_LEN && e@ == ErrorView::Protocol(
                too_long(what@, encode_utf8(field@).len()),
            ),
        },
{
    let len: usize = field.as_bytes().len();
    if len > MAX_ID_LEN {
        let mut m: String = "mesh datagram ".to_owned();
        m.append(what);
        m.append(" of ");
        m.append(decimal_text(len as u64).as_str());
        m.append(" bytes exceeds 256");
        return Err(SieveTubeError::Protocol(m));
    }
    Ok(())
}

fn put_field(buf: &mut BytesMut, field: &str)
    requires
        encode_utf8(field@).len() <= MAX_ID_LEN,
        buffer::filled(*old(buf)).len() + 2 + encode_utf8(field@).len() <= isize::MAX,
    ensures
        buffer::filled(*final(buf)) == buffer::filled(*old(buf)) + field_of(field@),
{
    let bytes: &[u8] = field.as_bytes();
    let ghost before = buffer::filled(*buf);
    buf.extend_from_slice(to_be(bytes.len() as u64, 2).as_slice());
    buf.extend_from_slice(bytes);
    assert(buffer::filled(*buf) =~= before + field_of(field@));
}

/// The words for a datagram that cannot be read.
pub open spec fn invalid_datagram(what: Seq<char>) -> Seq<char> {
    "invalid mesh datagram: "@ + what
}

fn invalid(what: &str) -> (r: SieveTubeError)
    ensures
        r@ == ErrorView::Protocol(invalid_datagram(what@)),
{
    SieveTubeError::Protocol("invalid mesh datagram: ".to_owned().concat(what))
}

/// The field at the beginning of `data` and what follows it.
pub open spec fn parsed_field(data: Seq<u8>) -> Result<(Seq<u8>, Seq<u8>), Seq<char>> {
    let len = positional::be_value(data.take(2)) as int;
    if data.len() < 2 {
        Err("truncated field"@)
    } else if len > MAX_ID_LEN || data.len() < 2 + len {
        Err("field length"@)
    } else if !valid_utf8(data.subrange(2, 2 + len)) {
        Err("field encoding"@)
    } else {
        Ok((data.subrange(2, 2 + len), data.skip(2 + len)))
    }
}

/// Three fields and what follows them.
pub open spec fn parsed_fields(data: Seq<u8>) -> Result<
    (Seq<u8>, Seq<u8>, Seq<u8>, Seq<u8>),
    Seq<char>,
> {
    match parsed_field(data) {
        Err(e) => Err(e),
        Ok((a, rest)) => match parsed_field(rest) {
            Err(e) => Err(e),
            Ok((b, rest)) => match parsed_field(rest) {
                Err(e) => Err(e),
                Ok((c, rest)) => Ok((a, b, c, rest)),
            },
        },
    }
}

/// Header and payload of a mesh datagram, or what is wrong with it.
pub open spec fn parsed_datagram(data: Seq<u8>) -> Result<(HeaderView, Seq<u8>), Seq<char>> {
    if data.len() < 18 {
        Err("truncated header"@)
    } else if data[0] != DATAGRAM_VERSION {
        Err("unsupported version"@)
    } else if data[1] != 1 && data[1] != 2 {
        Err("unknown kind"@)
    } else {
        match parsed_fields(data.skip(18)) {
            Err(e) => Err(e),
            Ok((a, b, c, payload)) => Ok(
                (
                    HeaderView {
                        kind: if data[1] == 1 {
                            MeshDatagramKind::Request
                        } else {
                            MeshDatagramKind::Reply
                        },
                        request_id: positional::be_value(data.subrange(2, 10)) as u64,
                        connection_generation: positional::be_value(data.subrange(10, 18)) as u64,
                        ingress_edge_id: decode_utf8(a),
                        tenant_id: decode_utf8(b),
                        hostname: decode_utf8(c),
                    },
                    payload,
                ),
            ),
        }
    }
}

fn take_field(data: &[u8]) -> (r: Result<(String, &[u8]), SieveTubeError>)
    ensures
        match r {
            Ok((field, rest)) => {
                &&& parsed_field(data@) is Ok
                &&& parsed_field(data@)->Ok_0.0 == encode_utf8(field@)
                &&& parsed_field(data@)->Ok_0.1 == rest@
                &&& decode_utf8(parsed_field(data@)->Ok_0.0) == field@
            },
            Err(e) => parsed_field(data@) is Err && e@ == ErrorView::Protocol(
                invalid_datagram(parsed_field(data@)->Err_0),
            ),
        },
{
    if data.len() < 2 {
        return Err(invalid("truncated field"));
    }
    assert(data@.subrange(0, 2) == data@.take(2));
    let len: u64 = from_be(data, 0, 2);
    assert(len <= 0xffff) by {
        reveal_with_fuel(positional::weight, 3);
    }
    let len: usize = len as usize;
    if len > MAX_ID_LEN || data.len() - 2 < len {
        return Err(invalid("field length"));
    }
    match from_utf8(vstd::slice::slice_subrange(data, 2, 2 + len)) {
        None => Err(invalid("field encoding")),
        Some(field) => {
            let rest: &[u8] = vstd::slice::slice_subrange(data, 2 + len, data.len());
            assert(rest@ == data@.skip(2 + len));
            proof {
                encode_utf8_decode_utf8(field@);
            }
            Ok((field, rest))
        },
    }
}

impl MeshDatagramHeader {
    pub fn encoded_len(&self) -> (r: usize)
        requires
            header_len(self@) <= usize::MAX,
        ensures
            r == header_len(self@),
    {
        1 + 1 + 8 + 8 + 6 + self.ingress_edge_id.as_str().as_bytes().len()
            + self.tenant_id.as_str().as_bytes().len() + self.hostname.as_str().as_bytes().len()
    }

    /// Encode the header followed by `payload`.
    ///
    /// A field longer than [`MAX_ID_LEN`] is an error rather than truncated: a
    /// shortened hostname or tenant id would address something else on the
    /// receiving side, and cutting inside a multi-byte character would make the
    /// datagram undecodable.
    pub fn encode(&self, payload: &[u8]) -> (r: Result<Bytes, SieveTubeError>)
        requires
            792 + payload.len() <= isize::MAX,
        ensures
            match r {
                Ok(bytes) => header_fault(self@) is None && buffer::contents(bytes) == datagram_of(
                    self@,
                    payload@,
                ),
                Err(e) => header_fault(self@) is Some && e@ == ErrorView::Protocol(
                    header_fault(self@)->0,
                ),
            },
    {
        match check_field("ingress_edge_id", self.ingress_edge_id.as_str()) {
            Ok(_) => {},
            Err(e) => {
                return Err(e);
            },
        }
        match check_field("tenant_id", self.tenant_id.as_str()) {
            Ok(_) => {},
            Err(e) => {
                return Err(e);
            },
        }
        match check_field("hostname", self.hostname.as_str()) {
            Ok(_) => {},
            Err(e) => {
                return Err(e);
            },
        }
        let mut buf: BytesMut = BytesMut::with_capacity(self.encoded_len() + payload.len());
        let mut start: Vec<u8> = Vec::new();
        start.push(DATAGRAM_VERSION);
        start.push(
            match self.kind {
                MeshDatagramKind::Request => 1,
                MeshDatagramKind::Reply => 2,
            },
        );
        assert(start@ =~= seq![DATAGRAM_VERSION, datagram_kind_byte(self.kind)]);
        buf.extend_from_slice(start.as_slice());
        buf.extend_from_slice(to_be(self.request_id, 8).as_slice());
        buf.extend_from_slice(to_be(self.connection_generation, 8).as_slice());
        proof {
            positional::lemma_be_bytes_len(self.request_id as nat, 8);
            positional::lemma_be_bytes_len(self.connection_generation as nat, 8);
            positional::lemma_be_bytes_len(encode_utf8(self.ingress_edge_id@).len(), 2);
            positional::lemma_be_bytes_len(encode_utf8(self.tenant_id@).len(), 2);
            positional::lemma_be_bytes_len(encode_utf8(self.hostname@).len(), 2);
        }
        put_field(&mut buf, self.ingress_edge_id.as_str());
        put_field(&mut buf, self.tenant_id.as_str());
        put_field(&mut buf, self.hostname.as_str());
        buf.extend_from_slice(payload);
        let ghost all = buffer::filled(buf);
        assert(all =~= datagram_of(self@, payload@));
        Ok(buf.freeze())
    }

    pub fn decode(data: &[u8]) -> (r: Result<(Self, &[u8]), SieveTubeError>)
        ensures
            match r {
                Ok((header, payload)) => {
                    &&& parsed_datagram(data@) == Ok::<(HeaderView, Seq<u8>), Seq<char>>(
                        (header@, payload@),
                    )
                    &&& header_fault(header@) is None
                    &&& payload@.len() <= data@.len()
                },
                Err(e) => parsed_datagram(data@) is Err && e@ == ErrorView::Protocol(
                    invalid_datagram(parsed_datagram(data@)->Err_0),
                ),
            },
    {
        if data.len() < 18 {
            return Err(invalid("truncated header"));
        }
        if data[0] != DATAGRAM_VERSION {
            return Err(invalid("unsupported version"));
        }
        let kind: MeshDatagramKind = match data[1] {
            1 => MeshDatagramKind::Request,
            2 => MeshDatagramKind::Reply,
            _ => {
                return Err(invalid("unknown kind"));
            },
        };
        let request_id: u64 = from_be(data, 2, 8);
        let connection_generation: u64 = from_be(data, 10, 8);
        let rest: &[u8] = vstd::slice::slice_subrange(data, 18, data.len());
        assert(rest@ == data@.skip(18));
        let (ingress_edge_id, rest) = match take_field(rest) {
            Ok(x) => x,
            Err(e) => {
                return Err(e);
            },
        };
        let (tenant_id, rest) = match take_field(rest) {
            Ok(x) => x,
            Err(e) => {
                return Err(e);
            },
        };
        let (hostname, rest) = match take_field(rest) {
            Ok(x) => x,
            Err(e) => {
                return Err(e);
            },
        };
        Ok(
            (
                MeshDatagramHeader {
                    kind,
                    request_id,
                    connection_generation,
                    ingress_edge_id,
                    tenant_id,
                    hostname,
                },
                rest,
            ),
        )
    }
}

proof fn lemma_field_reads_back(s: Seq<char>, rest: Seq<u8>)
    requires
        encode_utf8(s).len() <= MAX_ID_LEN,
    ensures
        parsed_field(field_of(s) + rest) == Ok::<(Seq<u8>, Seq<u8>), Seq<char>>(
            (encode_utf8(s), rest),
        ),
        decode_utf8(encode_utf8(s)) == s,
        field_of(s).len() == 2 + encode_utf8(s).len(),
{
    let data = field_of(s) + rest;
    let bytes = encode_utf8(s);
    reveal_with_fuel(positional::weight, 3);
    positional::law_be_bytes_read_back(bytes.len(), 2);
    encode_utf8_valid_utf8(s);
    encode_utf8_decode_utf8(s);
    assert(data.take(2) =~= positional::be_bytes(bytes.len(), 2));
    assert(data.subrange(2, 2 + bytes.len() as int) =~= bytes);
    assert(data.skip(2 + bytes.len() as int) =~= rest);
}

/// A mesh datagram is read back as it was written, and its header takes exactly
/// the announced number of bytes.
pub proof fn law_mesh_datagram_reads_back(h: HeaderView, payload: Seq<u8>)
    requires
        header_fault(h) is None,
    ensures
        parsed_datagram(datagram_of(h, payload)) == Ok::<(HeaderView, Seq<u8>), Seq<char>>(
            (h, payload),
        ),
        datagram_of(h, payload).len() == header_len(h) + payload.len(),
{
    let data = datagram_of(h, payload);
    let c = field_of(h.hostname) + payload;
    let b = field_of(h.tenant_id) + c;
    let a = field_of(h.ingress_edge_id) + b;
    lemma_field_reads_back(h.ingress_edge_id, b);
    lemma_field_reads_back(h.tenant_id, c);
    lemma_field_reads_back(h.hostname, payload);
    reveal_with_fuel(positional::weight, 9);
    positional::law_be_bytes_read_back(h.request_id as nat, 8);
    positional::law_be_bytes_read_back(h.connection_generation as nat, 8);
    assert(data.subrange(2, 10) =~= positional::be_bytes(h.request_id as nat, 8));
    assert(data.subrange(10, 18) =~= positional::be_bytes(h.connection_generation as nat, 8));
    assert(data.skip(18) =~= a);
}

proof fn lemma_field_writes_back(data: Seq<u8>)
    requires
        parsed_field(data) is Ok,
    ensures
        ({
            let (bytes, rest) = parsed_field(data)->Ok_0;
            &&& encode_utf8(decode_utf8(bytes)) == bytes
            &&& bytes.len() <= MAX_ID_LEN
            &&& field_of(decode_utf8(bytes)) + rest == data
        }),
{
    let (bytes, rest) = parsed_field(data)->Ok_0;
    decode_utf8_encode_utf8(bytes);
    positional::law_be_value_writes_back(data.take(2));
    assert(field_of(decode_utf8(bytes)) + rest =~= data);
}

proof fn lemma_fields_write_back(data: Seq<u8>)
    requires
        parsed_fields(data) is Ok,
    ensures
        ({
            let (a, b, c, rest) = parsed_fields(data)->Ok_0;
            &&& a.len() <= MAX_ID_LEN && encode_utf8(decode_utf8(a)) == a
            &&& b.len() <= MAX_ID_LEN && encode_utf8(decode_utf8(b)) == b
            &&& c.len() <= MAX_ID_LEN && encode_utf8(decode_utf8(c)) == c
            &&& field_of(decode_utf8(a)) + (field_of(decode_utf8(b)) + (field_of(decode_utf8(c))
                + rest)) == data
        }),
{
    let b = parsed_field(data)->Ok_0.1;
    let c = parsed_field(b)->Ok_0.1;
    lemma_field_writes_back(data);
    lemma_field_writes_back(b);
    lemma_field_writes_back(c);
}

proof fn lemma_datagram_in_parts(h: HeaderView, payload: Seq<u8>, start: Seq<u8>)
    requires
        start == seq![DATAGRAM_VERSION, datagram_kind_byte(h.kind)] + positional::be_bytes(
            h.request_id as nat,
            8,
        ) + positional::be_bytes(h.connection_generation as nat, 8),
    ensures
        datagram_of(h, payload) == start + (field_of(h.ingress_edge_id) + (field_of(h.tenant_id) + (
        field_of(h.hostname) + payload))),
{
    assert(datagram_of(h, payload) =~= start + (field_of(h.ingress_edge_id) + (field_of(h.tenant_id)
        + (field_of(h.hostname) + payload))));
}

proof fn lemma_payload_ends_datagram(h: HeaderView, payload: Seq<u8>)
    requires
        header_fault(h) is None,
    ensures
        datagram_of(h, payload).skip(header_len(h) as int) == payload,
{
    law_mesh_datagram_reads_back(h, payload);
    assert(datagram_of(h, payload).skip(header_len(h) as int) =~= payload);
}

proof fn lemma_start_writes_back(data: Seq<u8>, kind: MeshDatagramKind)
    requires
        data.len() >= 18,
        data[0] == DATAGRAM_VERSION,
        data[1] == datagram_kind_byte(kind),
    ensures
        positional::be_value(data.subrange(2, 10)) <= u64::MAX,
        positional::be_value(data.subrange(10, 18)) <= u64::MAX,
        data.take(18) == seq![DATAGRAM_VERSION, datagram_kind_byte(kind)] + positional::be_bytes(
            positional::be_value(data.subrange(2, 10)),
            8,
        ) + positional::be_bytes(positional::be_value(data.subrange(10, 18)), 8),
{
    reveal_with_fuel(positional::weight, 9);
    positional::law_be_value_writes_back(data.subrange(2, 10));
    positional::law_be_value_writes_back(data.subrange(10, 18));
    assert(data.take(18) =~= seq![DATAGRAM_VERSION, datagram_kind_byte(kind)] + data.subrange(2, 10)
        + data.subrange(10, 18));
}

/// What is read of a mesh datagram is written back to the same bytes, and its payload
/// is what follows the header: a datagram has one form only.
pub proof fn law_mesh_datagram_writes_back(data: Seq<u8>)
    requires
        parsed_datagram(data) is Ok,
    ensures
        header_fault(parsed_datagram(data)->Ok_0.0) is None,
        datagram_of(parsed_datagram(data)->Ok_0.0, parsed_datagram(data)->Ok_0.1) == data,
        parsed_datagram(data)->Ok_0.1 == data.skip(
            header_len(parsed_datagram(data)->Ok_0.0) as int,
        ),
{
    let (h, payload) = parsed_datagram(data)->Ok_0;
    lemma_fields_write_back(data.skip(18));
    lemma_start_writes_back(data, h.kind);
    lemma_datagram_in_parts(h, payload, data.take(18));
    assert(data =~= data.take(18) + data.skip(18));
    lemma_payload_ends_datagram(h, payload);
}

proof fn lemma_datagram_grows(h: HeaderView, payload: Seq<u8>, more: Seq<u8>)
    ensures
        datagram_of(h, payload + more) == datagram_of(h, payload) + more,
{
    assert(datagram_of(h, payload + more) =~= datagram_of(h, payload) + more);
}

proof fn lemma_read_header_is_whole(h: HeaderView, payload: Seq<u8>, part: Seq<u8>, more: Seq<u8>)
    requires
        header_fault(h) is None,
        part + more == datagram_of(h, payload),
        parsed_datagram(part) is Ok,
    ensures
        part.len() >= header_len(h),
{
    let (other, rest) = parsed_datagram(part)->Ok_0;
    law_mesh_datagram_writes_back(part);
    lemma_datagram_grows(other, rest, more);
    law_mesh_datagram_reads_back(h, payload);
    law_mesh_datagram_reads_back(other, rest);
    law_mesh_datagram_reads_back(other, rest + more);
}

/// A mesh datagram that ends inside its header is refused; one that ends with its
/// header is read with an empty payload.
pub proof fn law_mesh_datagram_is_read_whole(h: HeaderView, payload: Seq<u8>, k: nat)
    requires
        header_fault(h) is None,
        k <= header_len(h),
    ensures
        k < header_len(h) ==> parsed_datagram(datagram_of(h, payload).take(k as int)) is Err,
        k == header_len(h) ==> parsed_datagram(datagram_of(h, payload).take(k as int)) == Ok::<
            (HeaderView, Seq<u8>),
            Seq<char>,
        >((h, Seq::empty())),
{
    let data = datagram_of(h, payload);
    let part = data.take(k as int);
    let more = data.skip(k as int);
    law_mesh_datagram_reads_back(h, payload);
    assert(part + more =~= data);
    if k == header_len(h) {
        law_mesh_datagram_reads_back(h, Seq::empty());
        lemma_datagram_grows(h, Seq::empty(), payload);
        assert(Seq::<u8>::empty() + payload =~= payload);
        assert(part =~= datagram_of(h, Seq::empty()));
    } else if parsed_datagram(part) is Ok {
        lemma_read_header_is_whole(h, payload, part, more);
    }
}

/// A forwarded request is valid if and only if it is of this version, may go one hop more,
/// and names its Edge, its tenant and a hostname in normal form, each in at most 256 bytes.
/// The first of these that fails is the reason given.
pub proof fn law_valid_requests_are_complete(
    request: ForwardRequest,
    name: &str,
    normal: Result<String, hostname::HostnameError>,
    r: Result<(), RejectReason>,
)
    requires
        call_ensures(ForwardRequest::validate, (&request,), r),
        name@ == request.hostname@,
        call_ensures(hostname::normalize_hostname, (name,), normal),
    ensures
        ({
            let named = 0 < request.ingress_edge_id@.len() && encode_utf8(
                request.ingress_edge_id@,
            ).len() <= 256 && 0 < request.tenant_id@.len() && encode_utf8(request.tenant_id@).len()
                <= 256 && 0 < request.hostname@.len() && encode_utf8(request.hostname@).len() <= 256
                && normal is Ok && normal->Ok_0@ == request.hostname@;
            &&& r is Ok == (request.version == 1 && request.hops_remaining > 0 && named)
            &&& request.version != 1 ==> r == Err::<(), RejectReason>(
                RejectReason::UnsupportedVersion,
            )
            &&& request.version == 1 && request.hops_remaining == 0 ==> r == Err::<
                (),
                RejectReason,
            >(RejectReason::HopLimit)
            &&& request.version == 1 && request.hops_remaining > 0 && !named ==> r == Err::<
                (),
                RejectReason,
            >(RejectReason::Invalid)
        }),
{
}

/// Another Edge may be tried only where this one has no route or no room. The names of any
/// two reasons differ.
pub proof fn law_reasons_are_told_apart(
    a: RejectReason,
    b: RejectReason,
    x: &'static str,
    y: &'static str,
    retry: bool,
)
    requires
        call_ensures(RejectReason::as_str, (a,), x),
        call_ensures(RejectReason::as_str, (b,), y),
        call_ensures(RejectReason::retryable, (a,), retry),
    ensures
        x@ == y@ ==> a == b,
        retry == (a is NoRoute || a is Overloaded),
{
    reveal_strlit("unsupported_version");
    reveal_strlit("hop_limit");
    reveal_strlit("not_authorized");
    reveal_strlit("no_route");
    reveal_strlit("overloaded");
    reveal_strlit("invalid");
    assert("unsupported_version"@.len() == 19);
    assert("hop_limit"@.len() == 9);
    assert("not_authorized"@.len() == 14);
    assert("no_route"@.len() == 8);
    assert("overloaded"@.len() == 10);
    assert("invalid"@.len() == 7);
}

/// An answer that accepts gives no reason, and one that rejects gives its reason.
pub proof fn law_answers_accept_or_give_a_reason(
    reason: RejectReason,
    yes: ForwardResponse,
    no: ForwardResponse,
)
    requires
        call_ensures(ForwardResponse::accept, (), yes),
        call_ensures(ForwardResponse::reject, (reason,), no),
    ensures
        yes.accepted && yes.reject is None,
        !no.accepted && no.reject == Some(reason),
{
}

/// A frame that was written is read back under its own tag and under no other, whatever
/// follows it. A part of it is never taken for the whole.
pub proof fn law_written_frames_are_read_back(
    tag: u8,
    payload: &[u8],
    written: Result<Vec<u8>, SieveTubeError>,
    data: &[u8],
    rest: Seq<u8>,
    expected: u8,
    r: Result<Option<Vec<u8>>, SieveTubeError>,
    part: &[u8],
    n: int,
    early: Result<Option<Vec<u8>>, SieveTubeError>,
)
    requires
        call_ensures(write_frame, (tag, payload), written),
        written is Ok ==> data@ == written->Ok_0@ + rest,
        call_ensures(read_frame, (data, expected), r),
        written is Ok ==> 0 <= n < written->Ok_0@.len() && part@ == written->Ok_0@.take(n),
        call_ensures(read_frame, (part, tag), early),
    ensures
        written is Ok == (payload@.len() < 8192),
        written is Ok ==> {
            &&& written->Ok_0@.len() == 5 + payload@.len()
            &&& written->Ok_0@[0] * 0x1000000 + written->Ok_0@[1] * 0x10000 + written->Ok_0@[2]
                * 0x100 + written->Ok_0@[3] == 1 + payload@.len()
            &&& written->Ok_0@[4] == tag
            &&& tag == expected ==> (r matches Ok(Some(p)) && p@ == payload@)
            &&& tag != expected ==> r is Err
            &&& early matches Ok(None)
        },
{
    if written is Ok {
        let bytes = written->Ok_0@;
        let len: nat = 1 + payload@.len();
        law_mesh_frame_reads_back(tag, payload@, rest, expected);
        reveal_with_fuel(positional::weight, 5);
        positional::law_be_bytes_read_back(len, 4);
        let head = positional::be_bytes(len, 4);
        assert(bytes.take(4) =~= head);
        protocol::lemma_four_bytes(head);
        assert(head[0] == bytes[0] && head[1] == bytes[1] && head[2] == bytes[2] && head[3]
            == bytes[3]);
        if n >= 4 {
            assert(part@.take(4) =~= head);
            if n >= 5 {
                assert(part@[4] == tag);
            }
        }
    }
}

/// A datagram is encoded if and only if none of its texts is longer than 256 bytes. It says
/// its version and kind first and is decoded to the same header and payload, and its header is
/// as long as said.
pub proof fn law_encoded_mesh_datagrams_are_decoded(
    header: MeshDatagramHeader,
    payload: &[u8],
    encoded: Result<Bytes, SieveTubeError>,
    data: &[u8],
    r: Result<(MeshDatagramHeader, &[u8]), SieveTubeError>,
    len: usize,
)
    requires
        792 + payload@.len() <= isize::MAX,
        header_len(header@) <= usize::MAX,
        call_ensures(MeshDatagramHeader::encode, (&header, payload), encoded),
        encoded is Ok ==> data@ == buffer::contents(encoded->Ok_0),
        call_ensures(MeshDatagramHeader::decode, (data,), r),
        call_ensures(MeshDatagramHeader::encoded_len, (&header,), len),
    ensures
        encoded is Ok == (encode_utf8(header.ingress_edge_id@).len() <= 256 && encode_utf8(
            header.tenant_id@,
        ).len() <= 256 && encode_utf8(header.hostname@).len() <= 256),
        encoded is Ok ==> {
            &&& data@.len() == len + payload@.len()
            &&& data@[0] == 1
            &&& data@[1] == if header.kind is Request {
                1int
            } else {
                2
            }
            &&& r is Ok
            &&& r->Ok_0.0.kind == header.kind
            &&& r->Ok_0.0.request_id == header.request_id
            &&& r->Ok_0.0.connection_generation == header.connection_generation
            &&& r->Ok_0.0.ingress_edge_id@ == header.ingress_edge_id@
            &&& r->Ok_0.0.tenant_id@ == header.tenant_id@
            &&& r->Ok_0.0.hostname@ == header.hostname@
            &&& r->Ok_0.1@ == payload@
        },
{
    if encoded is Ok {
        law_mesh_datagram_reads_back(header@, payload@);
        assert(r->Ok_0.0@ == header@);
    }
}

/// A frame between Edges is at least one byte and at most 8 KiB long, and has the tag that is
/// expected.
pub proof fn law_mesh_frames_are_bounded(
    len: u32,
    tag: u8,
    expected: u8,
    r: Result<usize, SieveTubeError>,
    s: Result<(), SieveTubeError>,
)
    requires
        call_ensures(check_frame_len, (len,), r),
        call_ensures(check_frame_tag, (tag, expected), s),
    ensures
        r is Ok == (1 <= len <= 8192),
        r matches Ok(n) ==> n == len,
        s is Ok == (tag == expected),
{
}

} // verus!
