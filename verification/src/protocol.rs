//! Wire protocol for communication between Edge and Connector over QUIC.
//!
//! # Frame format
//! ```text
//! [4 bytes: length of what follows (big-endian u32)] [1 byte: message tag] [N bytes: JSON payload]
//! ```
//!
//! # Handshake flow
//! 1. The Connector opens a unidirectional QUIC stream and sends an AuthRequest.
//! 2. The Edge replies on a unidirectional stream with an AuthResponse.
//! 3. For each inbound connection, the Edge opens a bidirectional QUIC stream,
//!    sends a ConnectRequest, and the stream becomes a raw byte pipe.

use bytes::{Bytes, BytesMut};
use vstd::prelude::*;
use vstd::string::*;
use vstd::utf8::*;
use crate::addr::SocketAddr;
use crate::buffer;
use crate::config::Protocol;
use crate::error::{ErrorView, SieveTubeError};
use crate::positional;
use crate::positional::{from_be, to_be};
use crate::text;
use crate::text::{decimal_text, digits_text, from_utf8};

verus! {

/// Largest control frame, tag byte counted.
pub const MAX_FRAME_SIZE: u32 = 65536;

/// The application protocol that both ends announce in the TLS handshake.
pub fn alpn_protocol() -> (r: Vec<u8>)
    ensures
        r@ == encode_utf8("sievetube/1"@),
{
    vstd::slice::slice_to_vec("sievetube/1".as_bytes())
}

/// The protocols that a Connector can serve for a hostname.
#[derive(Debug)]
pub struct ServiceAdvertisement {
    pub hostname: String,
    pub protocols: Vec<Protocol>,
}

/// Sent by the Connector to authenticate.
#[derive(Debug)]
pub struct AuthRequest {
    pub jwt: String,
    /// What the ingress rules can serve; `None` from a Connector that does not say.
    pub services: Option<Vec<ServiceAdvertisement>>,
}

/// Sent by the Edge in response to an AuthRequest.
#[derive(Debug)]
pub struct AuthResponse {
    pub ok: bool,
    pub reason: Option<String>,
}

/// Sent by the Edge at the start of each new bidirectional stream.
/// After this frame, the stream is a raw byte pipe.
#[derive(Debug)]
pub struct ConnectRequest {
    pub request_id: u64,
    pub hostname: String,
    pub protocol: Protocol,
    pub client_addr: SocketAddr,
}

#[derive(Debug)]
pub enum Message {
    AuthRequest(AuthRequest),
    AuthResponse(AuthResponse),
    ConnectRequest(ConnectRequest),
    /// Sent by a Connector that shuts down: it takes no new streams.
    GoingAway,
}

/// The kinds of message, which the tag byte tells apart.
#[derive(Debug, Clone, Copy, PartialEq, Eq, Structural)]
pub enum MessageKind {
    AuthRequest,
    AuthResponse,
    ConnectRequest,
    GoingAway,
}

/// The tag byte of a kind.
pub open spec fn tag_of(kind: MessageKind) -> u8 {
    match kind {
        MessageKind::AuthRequest => 1,
        MessageKind::AuthResponse => 2,
        MessageKind::ConnectRequest => 3,
        MessageKind::GoingAway => 4,
    }
}

/// The kind with the given tag byte.
pub open spec fn kind_of(tag: u8) -> Option<MessageKind> {
    if tag == 1 {
        Some(MessageKind::AuthRequest)
    } else if tag == 2 {
        Some(MessageKind::AuthResponse)
    } else if tag == 3 {
        Some(MessageKind::ConnectRequest)
    } else if tag == 4 {
        Some(MessageKind::GoingAway)
    } else {
        None
    }
}

/// Two hexadecimal digits.
pub open spec fn hex_byte(b: u8) -> Seq<char> {
    if b < 16 {
        "0"@ + text::digits_of(b as nat, 16)
    } else {
        text::digits_of(b as nat, 16)
    }
}

/// A byte in two hexadecimal digits.
pub fn hex_byte_text(b: u8) -> (r: String)
    ensures
        r@ == hex_byte(b),
{
    if b < 16 {
        "0".to_owned().concat(digits_text(b as u64, 16).as_str())
    } else {
        digits_text(b as u64, 16)
    }
}

impl MessageKind {
    pub fn tag(self) -> (r: u8)
        ensures
            r == tag_of(self),
    {
        match self {
            MessageKind::AuthRequest => 1,
            MessageKind::AuthResponse => 2,
            MessageKind::ConnectRequest => 3,
            MessageKind::GoingAway => 4,
        }
    }

    /// The kind with the given tag byte.
    pub fn from_tag(tag: u8) -> (r: Result<MessageKind, SieveTubeError>)
        ensures
            match r {
                Ok(kind) => kind_of(tag) == Some(kind),
                Err(e) => kind_of(tag) is None && e@ == ErrorView::Protocol(
                    "unknown message tag: 0x"@ + hex_byte(tag),
                ),
            },
    {
        if tag == 1 {
            Ok(MessageKind::AuthRequest)
        } else if tag == 2 {
            Ok(MessageKind::AuthResponse)
        } else if tag == 3 {
            Ok(MessageKind::ConnectRequest)
        } else if tag == 4 {
            Ok(MessageKind::GoingAway)
        } else {
            Err(
                SieveTubeError::Protocol(
                    "unknown message tag: 0x".to_owned().concat(hex_byte_text(tag).as_str()),
                ),
            )
        }
    }
}

/// The kind of a message.
pub open spec fn message_kind(m: Message) -> MessageKind {
    match m {
        Message::AuthRequest(_) => MessageKind::AuthRequest,
        Message::AuthResponse(_) => MessageKind::AuthResponse,
        Message::ConnectRequest(_) => MessageKind::ConnectRequest,
        Message::GoingAway => MessageKind::GoingAway,
    }
}

impl Message {
    pub fn kind(&self) -> (r: MessageKind)
        ensures
            r == message_kind(*self),
    {
        match self {
            Message::AuthRequest(_) => MessageKind::AuthRequest,
            Message::AuthResponse(_) => MessageKind::AuthResponse,
            Message::ConnectRequest(_) => MessageKind::ConnectRequest,
            Message::GoingAway => MessageKind::GoingAway,
        }
    }
}

/// A frame: length, tag, payload.
pub open spec fn frame_of(tag: u8, payload: Seq<u8>) -> Seq<u8> {
    positional::be_bytes(1 + payload.len(), 4) + seq![tag] + payload
}

/// The bytes that carry a message of the given kind with the given payload.
pub fn write_message(kind: MessageKind, payload: &[u8]) -> (r: Result<Vec<u8>, SieveTubeError>)
    ensures
        match r {
            Ok(bytes) => 1 + payload.len() <= MAX_FRAME_SIZE && bytes@ == frame_of(
                tag_of(kind),
                payload@,
            ),
            Err(e) => 1 + payload.len() > MAX_FRAME_SIZE && e@ == ErrorView::Protocol(
                "frame too large"@,
            ),
        },
{
    if payload.len() >= MAX_FRAME_SIZE as usize {
        return Err(SieveTubeError::Protocol("frame too large".to_owned()));
    }
    let mut bytes: Vec<u8> = to_be(1 + payload.len() as u64, 4);
    bytes.push(kind.tag());
    bytes.extend_from_slice(payload);
    assert(bytes@ =~= frame_of(tag_of(kind), payload@));
    Ok(bytes)
}

/// How many bytes follow a frame's length field, tag byte counted.
pub open spec fn frame_len(len: nat) -> Result<nat, Seq<char>> {
    if len > MAX_FRAME_SIZE {
        Err("frame too large: "@ + text::decimal(len) + " bytes"@)
    } else if len < 1 {
        Err("empty frame"@)
    } else {
        Ok(len)
    }
}

/// Checks a frame's length field: how many bytes are to be read after it.
pub fn check_frame_len(len: u32) -> (r: Result<usize, SieveTubeError>)
    ensures
        match r {
            Ok(n) => frame_len(len as nat) == Ok::<nat, Seq<char>>(n as nat),
            Err(e) => frame_len(len as nat) is Err && e@ == ErrorView::Protocol(
                frame_len(len as nat)->Err_0,
            ),
        },
{
    if len > MAX_FRAME_SIZE {
        let mut m: String = "frame too large: ".to_owned();
        m.append(decimal_text(len as u64).as_str());
        m.append(" bytes");
        return Err(SieveTubeError::Protocol(m));
    }
    if len < 1 {
        return Err(SieveTubeError::Protocol("empty frame".to_owned()));
    }
    Ok(len as usize)
}

/// What a frame at the beginning of `data` holds: `Ok` with kind and payload;
/// `Err(None)` where `data` ends too early, `Err` with words where the frame is
/// not acceptable.
pub open spec fn parsed_frame(data: Seq<u8>) -> Result<
    (MessageKind, Seq<u8>),
    Option<Seq<char>>,
> {
    if data.len() < 4 {
        Err(None)
    } else {
        match frame_len(positional::be_value(data.take(4))) {
            Err(e) => Err(Some(e)),
            Ok(len) => if data.len() < 4 + len {
                Err(None)
            } else {
                match kind_of(data[4]) {
                    Some(kind) => Ok((kind, data.subrange(5, 4 + len as int))),
                    None => Err(Some("unknown message tag: 0x"@ + hex_byte(data[4]))),
                }
            },
        }
    }
}

/// Takes a frame from the beginning of `data`: kind and payload. `Ok(None)`
/// where more bytes are needed.
pub fn read_message(data: &[u8]) -> (r: Result<Option<(MessageKind, Vec<u8>)>, SieveTubeError>)
    ensures
        match r {
            Ok(Some((kind, payload))) => parsed_frame(data@) == Ok::<
                (MessageKind, Seq<u8>),
                Option<Seq<char>>,
            >((kind, payload@)),
            Ok(None) => parsed_frame(data@) == Err::<(MessageKind, Seq<u8>), Option<Seq<char>>>(
                None,
            ),
            Err(e) => parsed_frame(data@) is Err && parsed_frame(data@)->Err_0 is Some && e@
                == ErrorView::Protocol(parsed_frame(data@)->Err_0->0),
        },
{
    if data.len() < 4 {
        return Ok(None);
    }
    assert(data@.subrange(0, 4) == data@.take(4));
    let len: u64 = from_be(data, 0, 4);
    assert(len <= 0xffff_ffff) by {
        reveal_with_fuel(positional::weight, 5);
    }
    let len: usize = match check_frame_len(len as u32) {
        Ok(len) => len,
        Err(e) => {
            return Err(e);
        },
    };
    if data.len() - 4 < len {
        return Ok(None);
    }
    match MessageKind::from_tag(data[4]) {
        Ok(kind) => {
            let payload: &[u8] = vstd::slice::slice_subrange(data, 5, 4 + len);
            Ok(Some((kind, vstd::slice::slice_to_vec(payload))))
        },
        Err(e) => Err(e),
    }
}

/// A frame is read back as it was written, whatever follows it.
pub proof fn law_frame_reads_back(kind: MessageKind, payload: Seq<u8>, rest: Seq<u8>)
    requires
        1 + payload.len() <= MAX_FRAME_SIZE,
    ensures
        parsed_frame(frame_of(tag_of(kind), payload) + rest) == Ok::<
            (MessageKind, Seq<u8>),
            Option<Seq<char>>,
        >((kind, payload)),
{
    let data = frame_of(tag_of(kind), payload) + rest;
    let len: nat = 1 + payload.len();
    reveal_with_fuel(positional::weight, 5);
    positional::law_be_bytes_read_back(len, 4);
    assert(data.take(4) =~= positional::be_bytes(len, 4));
    assert(data[4] == tag_of(kind));
    assert(data.subrange(5, 4 + len as int) =~= payload);
}

/// Header prefixed to each QUIC datagram for UDP forwarding.
/// Format: [8 bytes: request_id] [2 bytes: hostname_len] [hostname_len bytes: hostname] [payload]
#[derive(Debug)]
pub struct DatagramHeader {
    pub request_id: u64,
    pub hostname: String,
}

/// A datagram: request id, length of the hostname (modulo 2^16), hostname, payload.
pub open spec fn datagram_of(request_id: nat, hostname: Seq<char>, payload: Seq<u8>) -> Seq<u8> {
    positional::be_bytes(request_id, 8) + positional::be_bytes(encode_utf8(hostname).len(), 2)
        + encode_utf8(hostname) + payload
}

/// Request id, hostname bytes and payload of a datagram.
pub open spec fn parsed_datagram(data: Seq<u8>) -> Option<(nat, Seq<u8>, Seq<u8>)> {
    if data.len() < 10 {
        None
    } else {
        let len = positional::be_value(data.subrange(8, 10)) as int;
        if data.len() < 10 + len || !valid_utf8(data.subrange(10, 10 + len)) {
            None
        } else {
            Some(
                (
                    positional::be_value(data.subrange(0, 8)),
                    data.subrange(10, 10 + len),
                    data.skip(10 + len),
                ),
            )
        }
    }
}

impl DatagramHeader {
    pub fn encode(&self, payload: &[u8]) -> (r: Bytes)
        requires
            10 + encode_utf8(self.hostname@).len() + payload.len() <= isize::MAX,
        ensures
            buffer::contents(r) == datagram_of(self.request_id as nat, self.hostname@, payload@),
    {
        let hostname_bytes: &[u8] = self.hostname.as_str().as_bytes();
        let mut buf: BytesMut = BytesMut::with_capacity(
            8 + 2 + hostname_bytes.len() + payload.len(),
        );
        buf.extend_from_slice(to_be(self.request_id, 8).as_slice());
        buf.extend_from_slice(to_be(hostname_bytes.len() as u64, 2).as_slice());
        buf.extend_from_slice(hostname_bytes);
        buf.extend_from_slice(payload);
        let ghost all = buffer::filled(buf);
        assert(all =~= datagram_of(self.request_id as nat, self.hostname@, payload@));
        buf.freeze()
    }

    pub fn decode(data: &[u8]) -> (r: Option<(Self, &[u8])>)
        ensures
            match r {
                Some((header, payload)) => parsed_datagram(data@) == Some(
                    (header.request_id as nat, encode_utf8(header.hostname@), payload@),
                ),
                None => parsed_datagram(data@) is None,
            },
    {
        if data.len() < 10 {
            return None;
        }
        let request_id: u64 = from_be(data, 0, 8);
        let len: u64 = from_be(data, 8, 2);
        assert(len <= 0xffff) by {
            reveal_with_fuel(positional::weight, 3);
        }
        let hostname_len: usize = len as usize;
        if data.len() - 10 < hostname_len {
            return None;
        }
        match from_utf8(vstd::slice::slice_subrange(data, 10, 10 + hostname_len)) {
            None => None,
            Some(hostname) => {
                let payload: &[u8] = vstd::slice::slice_subrange(
                    data,
                    10 + hostname_len,
                    data.len(),
                );
                assert(payload@ == data@.skip(10 + hostname_len));
                Some((DatagramHeader { request_id, hostname }, payload))
            },
        }
    }
}

/// A datagram is read back as it was written, as long as its hostname is at
/// most 65535 bytes long.
pub proof fn law_datagram_reads_back(request_id: nat, hostname: Seq<char>, payload: Seq<u8>)
    requires
        request_id <= u64::MAX,
        encode_utf8(hostname).len() <= 65535,
    ensures
        parsed_datagram(datagram_of(request_id, hostname, payload)) == Some(
            (request_id, encode_utf8(hostname), payload),
        ),
{
    let data = datagram_of(request_id, hostname, payload);
    let name = encode_utf8(hostname);
    reveal_with_fuel(positional::weight, 9);
    positional::law_be_bytes_read_back(request_id, 8);
    positional::law_be_bytes_read_back(name.len(), 2);
    encode_utf8_valid_utf8(hostname);
    assert(data.subrange(0, 8) =~= positional::be_bytes(request_id, 8));
    assert(data.subrange(8, 10) =~= positional::be_bytes(name.len(), 2));
    assert(data.subrange(10, 10 + name.len() as int) =~= name);
    assert(data.skip(10 + name.len() as int) =~= payload);
}

/// A message that was written is read back: from its own bytes, whatever follows them, with
/// the kind and the payload that it was written with. Its length comes first, the highest
/// byte first, and any part of it is not enough.
pub proof fn law_written_messages_are_read_back(
    kind: MessageKind,
    payload: &[u8],
    written: Result<Vec<u8>, SieveTubeError>,
    data: &[u8],
    rest: Seq<u8>,
    r: Result<Option<(MessageKind, Vec<u8>)>, SieveTubeError>,
    part: &[u8],
    n: int,
    early: Result<Option<(MessageKind, Vec<u8>)>, SieveTubeError>,
)
    requires
        call_ensures(write_message, (kind, payload), written),
        written is Ok ==> data@ == written->Ok_0@ + rest,
        call_ensures(read_message, (data,), r),
        written is Ok ==> 0 <= n < written->Ok_0@.len() && part@ == written->Ok_0@.take(n),
        call_ensures(read_message, (part,), early),
    ensures
        written is Ok == (payload@.len() < 65536),
        written is Ok ==> {
            &&& written->Ok_0@.len() == 5 + payload@.len()
            &&& written->Ok_0@[0] * 0x1000000 + written->Ok_0@[1] * 0x10000 + written->Ok_0@[2]
                * 0x100 + written->Ok_0@[3] == 1 + payload@.len()
            &&& written->Ok_0@.skip(5) == payload@
            &&& r matches Ok(Some((k, p))) && k == kind && p@ == payload@
            &&& early matches Ok(None)
        },
{
    if written is Ok {
        let bytes = written->Ok_0@;
        let len: nat = 1 + payload@.len();
        law_frame_reads_back(kind, payload@, rest);
        reveal_with_fuel(positional::weight, 5);
        positional::law_be_bytes_read_back(len, 4);
        let head = positional::be_bytes(len, 4);
        assert(bytes.take(4) =~= head);
        assert(bytes.skip(5) =~= payload@);
        lemma_four_bytes(head);
        assert(head[0] == bytes[0] && head[1] == bytes[1] && head[2] == bytes[2] && head[3]
            == bytes[3]);
        if n >= 4 {
            assert(part@.take(4) =~= head);
        }
    }
}

/// The value of four bytes, the highest first.
pub proof fn lemma_four_bytes(bytes: Seq<u8>)
    requires
        bytes.len() == 4,
    ensures
        positional::be_value(bytes) == bytes[0] * 0x1000000 + bytes[1] * 0x10000 + bytes[2] * 0x100
            + bytes[3],
{
    let ds = positional::byte_values(bytes);
    reveal_with_fuel(positional::value, 5);
    assert(ds.len() == 4);
    let d3 = ds.drop_last();
    let d2 = d3.drop_last();
    let d1 = d2.drop_last();
    assert(d1.drop_last() =~= Seq::empty());
    assert(d1.last() == bytes[0] && d2.last() == bytes[1] && d3.last() == bytes[2] && ds.last()
        == bytes[3]);
}

/// Every kind of message has a tag of its own, from 1 up to 4, and no other tag is known.
pub proof fn law_tags_tell_kinds_apart(
    kind: MessageKind,
    tag: u8,
    back: Result<MessageKind, SieveTubeError>,
    other: u8,
    r: Result<MessageKind, SieveTubeError>,
)
    requires
        call_ensures(MessageKind::tag, (kind,), tag),
        call_ensures(MessageKind::from_tag, (tag,), back),
        call_ensures(MessageKind::from_tag, (other,), r),
    ensures
        back == Ok::<MessageKind, SieveTubeError>(kind),
        1 <= tag <= 4,
        r is Ok == (1 <= other <= 4),
        r is Ok && r->Ok_0 == kind ==> other == tag,
        kind is AuthRequest ==> tag == 1,
        kind is AuthResponse ==> tag == 2,
        kind is ConnectRequest ==> tag == 3,
{
}

/// A datagram that was encoded is decoded to the same request, hostname and payload.
pub proof fn law_encoded_datagrams_are_decoded(
    header: DatagramHeader,
    payload: &[u8],
    bytes: Bytes,
    data: &[u8],
    r: Option<(DatagramHeader, &[u8])>,
)
    requires
        10 + encode_utf8(header.hostname@).len() + payload@.len() <= isize::MAX,
        encode_utf8(header.hostname@).len() <= 65535,
        call_ensures(DatagramHeader::encode, (&header, payload), bytes),
        data@ == buffer::contents(bytes),
        call_ensures(DatagramHeader::decode, (data,), r),
    ensures
        data@.len() == 10 + encode_utf8(header.hostname@).len() + payload@.len(),
        r is Some,
        (r->0).0.request_id == header.request_id,
        (r->0).0.hostname@ == header.hostname@,
        (r->0).1@ == payload@,
{
    law_datagram_reads_back(header.request_id as nat, header.hostname@, payload@);
    positional::lemma_be_bytes_len(header.request_id as nat, 8);
    positional::lemma_be_bytes_len(encode_utf8(header.hostname@).len(), 2);
    encode_utf8_decode_utf8(header.hostname@);
    encode_utf8_decode_utf8((r->0).0.hostname@);
}

/// A frame is at least one byte and at most 64 KiB long.
pub proof fn law_frames_are_bounded(len: u32, r: Result<usize, SieveTubeError>)
    requires
        call_ensures(check_frame_len, (len,), r),
    ensures
        r is Ok == (1 <= len <= 65536),
        r matches Ok(n) ==> n == len,
{
}

} // verus!
