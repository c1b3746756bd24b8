//! The packet codec: the logical packet type and its exact on-wire byte
//! layout, `length (i32 le) | id (i32 le) | type (i32 le) | payload | 0x00 0x00`.

use vstd::prelude::*;
use vstd::bytes::{
    spec_u32_from_le_bytes, spec_u32_to_le_bytes, u32_from_le_bytes, u32_to_le_bytes,
    lemma_auto_spec_u32_to_from_le_bytes,
};
use vstd::utf8::{decode_utf8, encode_utf8, valid_utf8};
use vstd::slice::{slice_subrange, slice_to_vec};
use crate::Error;
use crate::stream::ByteStream;

verus! {

/// The kind of a protocol packet.
///
/// Two wire codes are overloaded: code 3 is always `Authentication`; code 2
/// means `Message` in a request and `AuthenticationResponse` in a reply, and
/// is only disambiguated by decode context. Any other code is preserved in
/// `Unknown`.
#[derive(Debug, Clone, Copy, PartialEq, Eq, Ord, PartialOrd, Hash, Structural)]
pub enum PacketType {
    Authentication,
    AuthenticationResponse,
    Message,
    Response,
    Unknown(i32),
}

/// The wire code written for a packet type.
pub open spec fn spec_type_code(t: PacketType) -> i32 {
    match t {
        PacketType::Authentication => 3,
        PacketType::AuthenticationResponse => 2,
        PacketType::Message => 2,
        PacketType::Response => 0,
        PacketType::Unknown(value) => value,
    }
}

/// The packet type read from a wire code; `response` tells whether the
/// ambiguous code 2 stands in a reply (`AuthenticationResponse`) or in a
/// request (`Message`).
pub open spec fn spec_parse_type(value: i32, response: bool) -> PacketType {
    if value == 3 {
        PacketType::Authentication
    } else if value == 2 && response {
        PacketType::AuthenticationResponse
    } else if value == 2 {
        PacketType::Message
    } else if value == 0 {
        PacketType::Response
    } else {
        PacketType::Unknown(value)
    }
}

impl PacketType {
    /// Reads a packet type from its wire code.
    pub fn parse(value: i32, response: bool) -> (t: Self)
        ensures
            t == spec_parse_type(value, response),
    {
        match value {
            3 => PacketType::Authentication,
            2 if response => PacketType::AuthenticationResponse,
            2 => PacketType::Message,
            0 => PacketType::Response,
            _ => PacketType::Unknown(value),
        }
    }

    /// The wire code of this packet type.
    pub fn format(&self) -> (code: i32)
        ensures
            code == spec_type_code(*self),
    {
        match self {
            PacketType::Authentication => 3,
            PacketType::AuthenticationResponse => 2,
            PacketType::Message => 2,
            PacketType::Response => 0,
            PacketType::Unknown(value) => *value,
        }
    }
}

/// The unsigned 32-bit value with the same two's-complement bit pattern as `x`.
pub open spec fn spec_u32_of_i32(x: i32) -> u32 {
    if x >= 0 {
        x as u32
    } else {
        (x + 0x1_0000_0000int) as u32
    }
}

/// The signed 32-bit value with the same two's-complement bit pattern as `u`.
pub open spec fn spec_i32_of_u32(u: u32) -> i32 {
    if u < 0x8000_0000 {
        u as i32
    } else {
        (u - 0x1_0000_0000int) as i32
    }
}

/// The four-byte little-endian encoding of a signed 32-bit integer.
pub open spec fn spec_i32_to_le_bytes(x: i32) -> Seq<u8> {
    spec_u32_to_le_bytes(spec_u32_of_i32(x))
}

/// The signed 32-bit integer read from four little-endian bytes.
pub open spec fn spec_i32_from_le_bytes(s: Seq<u8>) -> i32
    recommends
        s.len() == 4,
{
    spec_i32_of_u32(spec_u32_from_le_bytes(s))
}

/// Reading four little-endian bytes recovers the integer they encode.
pub proof fn lemma_i32_le_bytes_roundtrip(x: i32)
    ensures
        spec_i32_to_le_bytes(x).len() == 4,
        spec_i32_from_le_bytes(spec_i32_to_le_bytes(x)) == x,
{
    lemma_auto_spec_u32_to_from_le_bytes();
    let u = spec_u32_of_i32(x);
    assert(spec_u32_to_le_bytes(u).len() == 4);
    assert(spec_u32_from_le_bytes(spec_u32_to_le_bytes(u)) == u);
    if x >= 0 {
        assert(u < 0x8000_0000);
        assert(spec_i32_of_u32(u) == x);
    } else {
        assert(u >= 0x8000_0000);
        assert(spec_i32_of_u32(u) == x);
    }
}

/// Four little-endian bytes are recovered from the integer they encode.
pub proof fn lemma_i32_le_bytes_complete(s: Seq<u8>)
    requires
        s.len() == 4,
    ensures
        spec_i32_to_le_bytes(spec_i32_from_le_bytes(s)) == s,
{
    lemma_auto_spec_u32_to_from_le_bytes();
    let u = spec_u32_from_le_bytes(s);
    assert(spec_u32_to_le_bytes(u).len() == 4);
    if u < 0x8000_0000 {
        assert(spec_u32_of_i32(spec_i32_of_u32(u)) == u);
    } else {
        assert(spec_u32_of_i32(spec_i32_of_u32(u)) == u);
    }
    assert(spec_u32_to_le_bytes(spec_u32_from_le_bytes(s)) == s);
}

fn u32_of_i32(x: i32) -> (u: u32)
    ensures
        u == spec_u32_of_i32(x),
{
    if x >= 0 {
        x as u32
    } else {
        ((x as i64) + 0x1_0000_0000i64) as u32
    }
}

fn i32_of_u32(u: u32) -> (x: i32)
    ensures
        x == spec_i32_of_u32(u),
{
    if u < 0x8000_0000 {
        u as i32
    } else {
        ((u as i64) - 0x1_0000_0000i64) as i32
    }
}

fn i32_to_le_bytes(x: i32) -> (s: Vec<u8>)
    ensures
        s@ == spec_i32_to_le_bytes(x),
        s@.len() == 4,
{
    let s = u32_to_le_bytes(u32_of_i32(x));
    proof {
        lemma_auto_spec_u32_to_from_le_bytes();
    }
    s
}

fn i32_from_le_bytes(s: &[u8]) -> (x: i32)
    requires
        s@.len() == 4,
    ensures
        x == spec_i32_from_le_bytes(s@),
{
    i32_of_u32(u32_from_le_bytes(s))
}

/// One framed protocol message: header fields plus the text payload.
///
/// `length` is derived, never independently set: it counts the bytes that
/// follow the length field on the wire, `4 (id) + 4 (type) + payload + 2
/// (terminator)`.
#[derive(Debug, Clone, PartialEq, Eq, Ord, PartialOrd, Hash)]
pub struct Packet {
    pub id: i32,
    pub length: i32,
    pub packet_type: PacketType,
    pub payload: String,
}

/// The exact wire bytes of a packet: `length | id | type code | payload
/// bytes | two zero terminator bytes`, integers in little-endian order.
pub open spec fn spec_encode(p: Packet) -> Seq<u8> {
    spec_i32_to_le_bytes(p.length) + spec_i32_to_le_bytes(p.id)
        + spec_i32_to_le_bytes(spec_type_code(p.packet_type)) + encode_utf8(p.payload@)
        + seq![0u8, 0u8]
}

/// The wire bytes of the request packet that carries `payload` under the
/// sequence id `id`: what [`spec_encode`] yields for a freshly constructed,
/// well-formed packet, phrased over the payload text alone.
pub open spec fn spec_request_bytes(id: i32, packet_type: PacketType, payload: Seq<char>) -> Seq<
    u8,
> {
    spec_i32_to_le_bytes((10 + encode_utf8(payload).len()) as i32) + spec_i32_to_le_bytes(id)
        + spec_i32_to_le_bytes(spec_type_code(packet_type)) + encode_utf8(payload)
        + seq![0u8, 0u8]
}

/// The payload bytes of a whole frame: what lies between the 12 header bytes
/// and the 2 terminator bytes.
pub open spec fn payload_section(bytes: Seq<u8>) -> Seq<u8> {
    bytes.subrange(12, bytes.len() - 2)
}

/// What it means for a whole frame `bytes` (length field included) to decode
/// to the packet `p`, in reply context: every field of `p` is determined by
/// `bytes`, and the terminator bytes are ignored, not validated.
pub open spec fn decodes_to(bytes: Seq<u8>, p: Packet) -> bool {
    &&& bytes.len() >= 14
    &&& p.length == spec_i32_from_le_bytes(bytes.subrange(0, 4))
    &&& bytes.len() == 4 + p.length
    &&& p.id == spec_i32_from_le_bytes(bytes.subrange(4, 8))
    &&& p.packet_type == spec_parse_type(spec_i32_from_le_bytes(bytes.subrange(8, 12)), true)
    &&& valid_utf8(payload_section(bytes))
    &&& p.payload@ == decode_utf8(payload_section(bytes))
}

/// The packet `p` as a reply decoder sees it: the same fields, with the
/// type read back from its own wire code in reply context (so `Message`
/// becomes `AuthenticationResponse`; every other type is unchanged).
pub open spec fn reply_form(p: Packet) -> Packet {
    Packet { packet_type: spec_parse_type(spec_type_code(p.packet_type), true), ..p }
}

impl Packet {
    /// A packet whose `length` field is consistent with its payload.
    pub open spec fn wf(self) -> bool {
        self.length == 10 + encode_utf8(self.payload@).len()
    }

    /// The packet that `new` constructs.
    pub open spec fn spec_new(id: i32, packet_type: PacketType, payload: String) -> Packet {
        Packet {
            id,
            length: (10 + encode_utf8(payload@).len()) as i32,
            packet_type,
            payload,
        }
    }

    /// Constructs a packet, computing `length` from the payload's byte count.
    pub fn new(id: i32, packet_type: PacketType, payload: String) -> (packet: Self)
        requires
            encode_utf8(payload@).len() <= 0x7fff_ffff - 10,
        ensures
            packet == Self::spec_new(id, packet_type, payload),
            packet.wf(),
    {
        let length = 10 + payload.as_str().as_bytes().len() as i32;
        Packet { id, length, packet_type, payload }
    }

    /// Whether this packet signals failure: the protocol convention is that
    /// the server echoes a negative id (-1) on authentication failure.
    pub fn is_error(&self) -> (r: bool)
        ensures
            r == (self.id < 0),
    {
        self.id < 0
    }

    /// Serializes this packet into its exact wire bytes.
    pub fn encode(&self) -> (out: Vec<u8>)
        requires
            self.wf(),
        ensures
            out@ == spec_encode(*self),
    {
        let mut out = i32_to_le_bytes(self.length);
        let mut id_bytes = i32_to_le_bytes(self.id);
        let mut code_bytes = i32_to_le_bytes(self.packet_type.format());
        out.append(&mut id_bytes);
        out.append(&mut code_bytes);
        let mut payload_bytes = vstd::slice::slice_to_vec(self.payload.as_str().as_bytes());
        out.append(&mut payload_bytes);
        out.push(0x00);
        out.push(0x00);
        proof {
            assert(out@ =~= spec_encode(*self));
        }
        out
    }
}

/// Relies on `String::from_utf8`: it returns the decoded text exactly when
/// the bytes are a valid UTF-8 encoding, and fails on any other bytes.
#[verifier::external_body]
fn string_from_utf8(bytes: Vec<u8>) -> (r: Result<String, Error>)
    ensures
        match r {
            Ok(s) => valid_utf8(bytes@) && s@ == decode_utf8(bytes@),
            Err(e) => e == Error::MalformedPayload && !valid_utf8(bytes@),
        },
{
    match String::from_utf8(bytes) {
        Ok(s) => Ok(s),
        Err(_) => Err(Error::MalformedPayload),
    }
}

impl Packet {
    /// Parses the body of a frame: the `length` field has already been read
    /// and `body` holds exactly the `length` bytes that followed it (id,
    /// type, payload, two terminator bytes). Fails with a data-integrity
    /// error exactly when the payload bytes are not valid UTF-8 text; the
    /// terminator bytes are discarded without validation.
    pub fn decode_body(length: i32, body: &[u8]) -> (r: Result<Packet, Error>)
        requires
            10 <= length,
            body@.len() == length as int,
        ensures
            match r {
                Ok(p) => decodes_to(spec_i32_to_le_bytes(length) + body@, p) && p.length
                    == length,
                Err(e) => e == Error::MalformedPayload && !valid_utf8(
                    body@.subrange(8, body@.len() - 2),
                ),
            },
    {
        let n = body.len();
        let id = i32_from_le_bytes(slice_subrange(body, 0, 4));
        let code = i32_from_le_bytes(slice_subrange(body, 4, 8));
        let packet_type = PacketType::parse(code, true);
        let payload_bytes = slice_to_vec(slice_subrange(body, 8, n - 2));
        match string_from_utf8(payload_bytes) {
            Ok(payload) => {
                let p = Packet { id, length, packet_type, payload };
                proof {
                    let frame = spec_i32_to_le_bytes(length) + body@;
                    lemma_i32_le_bytes_roundtrip(length);
                    assert(frame.subrange(0, 4) =~= spec_i32_to_le_bytes(length));
                    assert(frame.subrange(4, 8) =~= body@.subrange(0, 4));
                    assert(frame.subrange(8, 12) =~= body@.subrange(4, 8));
                    assert(payload_section(frame) =~= body@.subrange(8, body@.len() - 2));
                }
                Ok(p)
            },
            Err(e) => Err(e),
        }
    }
}

impl Packet {
    /// Serializes this packet and writes it fully, with a flush, to `io`.
    pub fn write_to_io<T: ByteStream>(&self, io: &mut T) -> (r: Result<(), Error>)
        requires
            self.wf(),
        ensures
            final(io).inbuf() == old(io).inbuf(),
            match r {
                Ok(()) => final(io).outbuf() == old(io).outbuf() + spec_encode(*self),
                Err(e) => e == Error::Io,
            },
    {
        let bytes = self.encode();
        match io.write_all(bytes.as_slice()) {
            Ok(()) => {},
            Err(e) => {
                return Err(e);
            },
        }
        match io.flush() {
            Ok(()) => Ok(()),
            Err(e) => Err(e),
        }
    }

    /// Reads one frame from `io` and decodes it in reply context: the four
    /// length bytes first, then exactly `length` more. The `length` field is
    /// trusted as the peer sent it, except that a value below the 10 header
    /// and terminator bytes, which no packet can produce, is rejected as
    /// malformed rather than read.
    pub fn read_from_io<T: ByteStream>(io: &mut T) -> (r: Result<Packet, Error>)
        ensures
            final(io).outbuf() == old(io).outbuf(),
            match r {
                Ok(p) => exists|c: Seq<u8>|
                    old(io).inbuf() == c + final(io).inbuf() && #[trigger] decodes_to(c, p),
                Err(e) => e == Error::Io || e == Error::MalformedPayload,
            },
    {
        let len_bytes = match io.read_exact(4) {
            Ok(v) => v,
            Err(e) => {
                return Err(e);
            },
        };
        let length = i32_from_le_bytes(len_bytes.as_slice());
        if length < 10 {
            return Err(Error::MalformedPayload);
        }
        let body = match io.read_exact(length as usize) {
            Ok(v) => v,
            Err(e) => {
                return Err(e);
            },
        };
        match Packet::decode_body(length, body.as_slice()) {
            Ok(p) => {
                proof {
                    lemma_i32_le_bytes_complete(len_bytes@);
                    let c = len_bytes@ + body@;
                    assert(old(io).inbuf() =~= c + io.inbuf());
                    assert(decodes_to(c, p));
                }
                Ok(p)
            },
            Err(e) => Err(e),
        }
    }
}

/// The frame-by-frame reading of `bytes` as the packets `ps`: `bytes`
/// splits into consecutive whole frames that decode, in order, to exactly
/// the packets of `ps`.
pub open spec fn frames_decode(bytes: Seq<u8>, ps: Seq<Packet>) -> bool
    decreases ps.len(),
{
    if ps.len() == 0 {
        bytes.len() == 0
    } else {
        exists|c: Seq<u8>, rest: Seq<u8>|
            {
                &&& bytes == #[trigger] (c + rest)
                &&& decodes_to(c, ps[0])
                &&& frames_decode(rest, ps.drop_first())
            }
    }
}

/// Reading one more frame extends a frame-by-frame reading by its packet.
pub proof fn lemma_frames_decode_snoc(a: Seq<u8>, ps: Seq<Packet>, c: Seq<u8>, p: Packet)
    requires
        frames_decode(a, ps),
        decodes_to(c, p),
    ensures
        frames_decode(a + c, ps.push(p)),
    decreases ps.len(),
{
    if ps.len() == 0 {
        assert(a + c =~= c + Seq::<u8>::empty());
        assert(ps.push(p).drop_first() =~= Seq::<Packet>::empty());
        assert(frames_decode(Seq::<u8>::empty(), ps.push(p).drop_first()));
        assert(decodes_to(c, ps.push(p)[0]));
    } else {
        let (c0, rest) = choose|c0: Seq<u8>, rest: Seq<u8>|
            {
                &&& a == #[trigger] (c0 + rest)
                &&& decodes_to(c0, ps[0])
                &&& frames_decode(rest, ps.drop_first())
            };
        lemma_frames_decode_snoc(rest, ps.drop_first(), c, p);
        assert(a + c =~= c0 + (rest + c));
        assert(ps.push(p).drop_first() =~= ps.drop_first().push(p));
        assert(decodes_to(c0, ps.push(p)[0]));
        assert(frames_decode(rest + c, ps.push(p).drop_first()));
    }
}

/// The frame-by-frame reading of `bytes` as the reply payloads `v`: `bytes`
/// splits into consecutive whole frames whose payloads are exactly the
/// elements of `v`, in order.
pub open spec fn frames_payloads(bytes: Seq<u8>, v: Seq<String>) -> bool
    decreases v.len(),
{
    if v.len() == 0 {
        bytes.len() == 0
    } else {
        exists|c: Seq<u8>, rest: Seq<u8>, p: Packet|
            {
                &&& bytes == #[trigger] (c + rest)
                &&& #[trigger] decodes_to(c, p)
                &&& p.payload == v[0]
                &&& frames_payloads(rest, v.drop_first())
            }
    }
}

/// Reading one more frame extends a frame-by-frame reading by its payload.
pub proof fn lemma_frames_payloads_snoc(a: Seq<u8>, v: Seq<String>, c: Seq<u8>, p: Packet)
    requires
        frames_payloads(a, v),
        decodes_to(c, p),
    ensures
        frames_payloads(a + c, v.push(p.payload)),
    decreases v.len(),
{
    if v.len() == 0 {
        let w = v.push(p.payload);
        assert(a + c =~= c + Seq::<u8>::empty());
        assert(w.drop_first() =~= Seq::<String>::empty());
        assert(frames_payloads(Seq::<u8>::empty(), w.drop_first()));
        assert(decodes_to(c, p) && p.payload == w[0]);
    } else {
        let (c0, rest, p0) = choose|c0: Seq<u8>, rest: Seq<u8>, p0: Packet|
            {
                &&& a == #[trigger] (c0 + rest)
                &&& #[trigger] decodes_to(c0, p0)
                &&& p0.payload == v[0]
                &&& frames_payloads(rest, v.drop_first())
            };
        lemma_frames_payloads_snoc(rest, v.drop_first(), c, p);
        let w = v.push(p.payload);
        assert(a + c =~= c0 + (rest + c));
        assert(w.drop_first() =~= v.drop_first().push(p.payload));
        assert(decodes_to(c0, p0) && p0.payload == w[0]);
        assert(frames_payloads(rest + c, w.drop_first()));
    }
}

/// Round trip, encode side: the wire bytes of a well-formed packet decode,
/// in reply context, to the same packet up to the reply reading of its type.
pub proof fn lemma_encode_decodes(p: Packet)
    requires
        p.wf(),
    ensures
        spec_encode(p).len() == 4 + p.length,
        decodes_to(spec_encode(p), reply_form(p)),
{
    broadcast use vstd::utf8::encode_utf8_valid_utf8, vstd::utf8::encode_utf8_decode_utf8;

    lemma_i32_le_bytes_roundtrip(p.length);
    lemma_i32_le_bytes_roundtrip(p.id);
    lemma_i32_le_bytes_roundtrip(spec_type_code(p.packet_type));
    let b = spec_encode(p);
    assert(b.subrange(0, 4) =~= spec_i32_to_le_bytes(p.length));
    assert(b.subrange(4, 8) =~= spec_i32_to_le_bytes(p.id));
    assert(b.subrange(8, 12) =~= spec_i32_to_le_bytes(spec_type_code(p.packet_type)));
    assert(payload_section(b) =~= encode_utf8(p.payload@));
}

/// Round trip: for every well-formed packet whose type reads back as itself
/// in reply context (every type but `Message`, whose wire code 2 is reread
/// as `AuthenticationResponse`, and the `Unknown` codes 0, 2 and 3 that a
/// decoder claims for the named types), decoding the encoded bytes yields
/// the identical packet.
pub proof fn lemma_round_trip(p: Packet)
    requires
        p.wf(),
        spec_parse_type(spec_type_code(p.packet_type), true) == p.packet_type,
    ensures
        decodes_to(spec_encode(p), p),
{
    lemma_encode_decodes(p);
    assert(reply_form(p) == p);
}

/// A frame decodes to at most one packet: every field is determined.
pub proof fn lemma_decode_deterministic(bytes: Seq<u8>, p: Packet, q: Packet)
    requires
        decodes_to(bytes, p),
        decodes_to(bytes, q),
    ensures
        p.id == q.id,
        p.length == q.length,
        p.packet_type == q.packet_type,
        p.payload@ == q.payload@,
{
}

/// Length invariant: in every decoded frame the `length` field equals
/// `10 + byte_length(payload)`.
pub proof fn lemma_length_invariant(bytes: Seq<u8>, p: Packet)
    requires
        decodes_to(bytes, p),
    ensures
        p.length == 10 + encode_utf8(p.payload@).len(),
{
    broadcast use vstd::utf8::decode_utf8_encode_utf8;

    assert(payload_section(bytes).len() == p.length - 10);
    assert(encode_utf8(decode_utf8(payload_section(bytes))) == payload_section(bytes));
}

} // verus!
