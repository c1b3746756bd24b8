//! A client-side implementation of the Source RCON protocol: a packet codec
//! for the length-prefixed binary wire format, and a connection state machine
//! that drives authentication and command execution over any ordered duplex
//! byte stream.

pub mod packet;
pub mod stream;

use vstd::prelude::*;
use vstd::utf8::encode_utf8;

use crate::packet::{
    decodes_to, frames_decode, frames_payloads, lemma_frames_decode_snoc,
    lemma_frames_payloads_snoc, spec_encode, spec_request_bytes, Packet, PacketType,
};
use crate::stream::ByteStream;

verus! {

/// An error that can occur when communicating with the server.
#[derive(Debug, Clone, Copy, PartialEq, Eq, Structural)]
pub enum Error {
    /// A transport failure on the underlying byte stream.
    Io,
    /// The server reported a credential failure via a negative packet id.
    Authentication,
    /// A payload exceeded the configured maximum size; nothing was sent.
    PayloadSize,
    /// A decoded payload was not valid UTF-8 text.
    MalformedPayload,
}

/// The immutable configuration a connection is constructed with.
#[derive(Debug, Clone, Copy, PartialEq, Eq, Structural)]
pub struct ConnectionConfig {
    /// The value the sequence-id generator resets to on overflow.
    pub default_packet_id: i32,
    /// The largest payload byte length a command or password may have.
    pub max_payload_size: usize,
    /// Whether a command reply may span several packets, ended by an
    /// empty-payload packet.
    pub multiple_responses: bool,
}

impl Default for ConnectionConfig {
    /// The default configuration: sequence ids reset to 0, payloads are
    /// capped at 4086 bytes (one full frame within a 4 KiB buffer), and
    /// replies are single-packet.
    fn default() -> (c: Self)
        ensures
            c.default_packet_id == 0,
            c.max_payload_size == 4086,
            !c.multiple_responses,
    {
        ConnectionConfig {
            default_packet_id: 0,
            max_payload_size: 4086,
            multiple_responses: false,
        }
    }
}

/// One step of the sequence-id generator: the id after `current`.
pub open spec fn spec_next_packet_id(current: i32, default_id: i32) -> i32 {
    if current == 0x7fff_ffff {
        default_id
    } else {
        (current + 1) as i32
    }
}

/// Advances a sequence id by checked increment: when the increment would
/// leave the signed 32-bit range, the generator resets to `default_id`
/// instead of wrapping through arithmetic overflow.
pub fn next_packet_id(current: i32, default_id: i32) -> (next: i32)
    ensures
        next == spec_next_packet_id(current, default_id),
{
    match current.checked_add(1) {
        Some(next) => next,
        None => default_id,
    }
}

/// The shape of a reply payload sequence: a single payload, or, in
/// multi-response mode, one or more payloads of which exactly the last is
/// the empty terminator.
pub open spec fn response_shape(v: Seq<String>, multi: bool) -> bool {
    if multi {
        &&& v.len() >= 1
        &&& v[v.len() - 1]@.len() == 0
        &&& forall|i: int| 0 <= i < v.len() - 1 ==> (#[trigger] v[i]@).len() > 0
    } else {
        v.len() == 1
    }
}

/// What a successful reply reception guarantees: the payloads have the
/// configured shape and were read, frame by frame and in order, from the
/// front of the unread bytes, leaving the rest unread.
pub open spec fn replies_consumed(pre: Seq<u8>, post: Seq<u8>, v: Seq<String>, multi: bool) -> bool {
    &&& response_shape(v, multi)
    &&& exists|c: Seq<u8>| pre == c + post && #[trigger] frames_payloads(c, v)
}

/// What finding the authentication reply guarantees: the unread bytes
/// began with whole frames that all decode to packets of other types (the
/// skipped echoes), followed by the frame of the first
/// `AuthenticationResponse` packet, whose id's sign is the verdict.
pub open spec fn auth_reply_consumed(pre: Seq<u8>, post: Seq<u8>, accepted: bool) -> bool {
    exists|c1: Seq<u8>, c2: Seq<u8>, ps: Seq<Packet>, p: Packet|
        {
            &&& pre == #[trigger] (c1 + c2) + post
            &&& #[trigger] frames_decode(c1, ps)
            &&& forall|i: int|
                0 <= i < ps.len() ==> (#[trigger] ps[i]).packet_type
                    != PacketType::AuthenticationResponse
            &&& #[trigger] decodes_to(c2, p)
            &&& p.packet_type == PacketType::AuthenticationResponse
            &&& (p.id >= 0 <==> accepted)
        }
}

/// A connection to an RCON server over any [`ByteStream`] transport: one
/// stream handle and a sequence-id generator, driving the authentication
/// handshake and command execution, strictly one request at a time.
#[derive(Debug)]
pub struct Connection<T> {
    pub io: T,
    pub default_packet_id: i32,
    pub current_packet_id: i32,
    pub max_payload_size: usize,
    pub multiple_responses: bool,
}

impl<T> Connection<T> {
    /// The payload cap leaves every packet length representable as a
    /// signed 32-bit integer.
    pub open spec fn wf(self) -> bool {
        self.max_payload_size + 10 <= 0x7fff_ffff
    }

    /// The configuration of `other` is that of `self`.
    pub open spec fn same_config(self, other: Self) -> bool {
        &&& other.default_packet_id == self.default_packet_id
        &&& other.max_payload_size == self.max_payload_size
        &&& other.multiple_responses == self.multiple_responses
    }

    /// Constructs a connection over `io`. Sequence ids start at 0 and reset
    /// to the configured default on overflow.
    pub fn new(io: T, config: ConnectionConfig) -> (c: Self)
        requires
            config.max_payload_size + 10 <= 0x7fff_ffff,
        ensures
            c.wf(),
            c.io == io,
            c.default_packet_id == config.default_packet_id,
            c.current_packet_id == 0,
            c.max_payload_size == config.max_payload_size,
            c.multiple_responses == config.multiple_responses,
    {
        Connection {
            io,
            default_packet_id: config.default_packet_id,
            current_packet_id: 0,
            max_payload_size: config.max_payload_size,
            multiple_responses: config.multiple_responses,
        }
    }

    /// Returns the current sequence id and advances the generator.
    pub fn new_packet_id(&mut self) -> (id: i32)
        ensures
            id == old(self).current_packet_id,
            final(self).current_packet_id == spec_next_packet_id(
                old(self).current_packet_id,
                old(self).default_packet_id,
            ),
            final(self).io == old(self).io,
            old(self).same_config(*final(self)),
    {
        let id = self.current_packet_id;
        self.current_packet_id = next_packet_id(self.current_packet_id, self.default_packet_id);
        id
    }
}

impl<T: ByteStream> Connection<T> {
    /// Builds a request packet carrying `payload` under the next sequence
    /// id and writes it, fully and flushed, to the stream. A payload larger
    /// than the configured cap is rejected before any I/O and before the id
    /// advances.
    pub fn send(&mut self, packet_type: PacketType, payload: String) -> (r: Result<(), Error>)
        requires
            old(self).wf(),
        ensures
            final(self).wf(),
            old(self).same_config(*final(self)),
            final(self).io.inbuf() == old(self).io.inbuf(),
            match r {
                Ok(()) => {
                    &&& encode_utf8(payload@).len() <= old(self).max_payload_size
                    &&& final(self).current_packet_id == spec_next_packet_id(
                        old(self).current_packet_id,
                        old(self).default_packet_id,
                    )
                    &&& final(self).io.outbuf() == old(self).io.outbuf() + spec_request_bytes(
                        old(self).current_packet_id,
                        packet_type,
                        payload@,
                    )
                },
                Err(e) => {
                    &&& (e == Error::PayloadSize <==> encode_utf8(payload@).len() > old(
                        self,
                    ).max_payload_size)
                    &&& (e == Error::PayloadSize ==> *final(self) == *old(self))
                    &&& (e == Error::Io || e == Error::PayloadSize)
                },
            },
    {
        if payload.as_str().as_bytes().len() > self.max_payload_size {
            return Err(Error::PayloadSize);
        }
        let id = self.new_packet_id();
        let packet = Packet::new(id, packet_type, payload);
        proof {
            assert(spec_encode(packet) =~= spec_request_bytes(id, packet_type, payload@));
        }
        self.send_packet(packet)
    }

    fn send_packet(&mut self, packet: Packet) -> (r: Result<(), Error>)
        requires
            packet.wf(),
        ensures
            old(self).same_config(*final(self)),
            final(self).current_packet_id == old(self).current_packet_id,
            final(self).io.inbuf() == old(self).io.inbuf(),
            match r {
                Ok(()) => final(self).io.outbuf() == old(self).io.outbuf() + spec_encode(packet),
                Err(e) => e == Error::Io,
            },
    {
        packet.write_to_io(&mut self.io)
    }

    fn receive_packet(&mut self) -> (r: Result<Packet, Error>)
        ensures
            old(self).same_config(*final(self)),
            final(self).current_packet_id == old(self).current_packet_id,
            final(self).io.outbuf() == old(self).io.outbuf(),
            match r {
                Ok(p) => exists|c: Seq<u8>|
                    old(self).io.inbuf() == c + final(self).io.inbuf() && #[trigger] decodes_to(
                        c,
                        p,
                    ),
                Err(e) => e == Error::Io || e == Error::MalformedPayload,
            },
    {
        Packet::read_from_io(&mut self.io)
    }

    /// Receives one packet's payload from the stream.
    pub fn recieve_single_response(&mut self) -> (r: Result<String, Error>)
        ensures
            old(self).same_config(*final(self)),
            final(self).current_packet_id == old(self).current_packet_id,
            final(self).io.outbuf() == old(self).io.outbuf(),
            match r {
                Ok(s) => exists|c: Seq<u8>, p: Packet|
                    {
                        &&& old(self).io.inbuf() == c + final(self).io.inbuf()
                        &&& #[trigger] decodes_to(c, p)
                        &&& s == p.payload
                    },
                Err(e) => e == Error::Io || e == Error::MalformedPayload,
            },
    {
        match self.receive_packet() {
            Ok(packet) => {
                let ghost gp = packet;
                let ghost c = choose|c: Seq<u8>|
                    old(self).io.inbuf() == c + self.io.inbuf() && #[trigger] decodes_to(c, gp);
                proof {
                    assert(old(self).io.inbuf() == c + self.io.inbuf() && decodes_to(c, gp));
                }
                Ok(packet.payload)
            },
            Err(e) => Err(e),
        }
    }

    /// Receives payloads until the empty terminator payload arrives; the
    /// terminator itself is kept as the trailing element. An unbounded
    /// stream of non-empty payloads keeps this call reading: termination is
    /// the peer's obligation.
    pub fn recieve_multi_response(&mut self) -> (r: Result<Vec<String>, Error>)
        ensures
            old(self).same_config(*final(self)),
            final(self).current_packet_id == old(self).current_packet_id,
            final(self).io.outbuf() == old(self).io.outbuf(),
            match r {
                Ok(v) => replies_consumed(
                    old(self).io.inbuf(),
                    final(self).io.inbuf(),
                    v@,
                    true,
                ),
                Err(e) => e == Error::Io || e == Error::MalformedPayload,
            },
    {
        let mut responses: Vec<String> = Vec::new();
        let mut done = false;
        let ghost in0: Seq<u8> = self.io.inbuf();
        let ghost mut consumed: Seq<u8> = Seq::empty();
        proof {
            assert(in0 =~= consumed + self.io.inbuf());
        }
        while !done
            invariant
                old(self).same_config(*self),
                self.current_packet_id == old(self).current_packet_id,
                self.io.outbuf() == old(self).io.outbuf(),
                in0 == old(self).io.inbuf(),
                in0 == consumed + self.io.inbuf(),
                frames_payloads(consumed, responses@),
                !done ==> forall|i: int|
                    0 <= i < responses@.len() ==> (#[trigger] responses@[i]@).len() > 0,
                done ==> response_shape(responses@, true),
            decreases self.io.inbuf().len(),
        {
            let ghost pre = self.io.inbuf();
            match self.recieve_single_response() {
                Ok(response) => {
                    let ghost (c, p) = choose|c: Seq<u8>, p: Packet|
                        {
                            &&& pre == c + self.io.inbuf()
                            &&& #[trigger] decodes_to(c, p)
                            &&& response == p.payload
                        };
                    proof {
                        assert(pre == c + self.io.inbuf() && decodes_to(c, p) && response
                            == p.payload);
                        lemma_frames_payloads_snoc(consumed, responses@, c, p);
                        consumed = consumed + c;
                        assert(in0 =~= consumed + self.io.inbuf());
                    }
                    let empty = response.as_str().is_empty();
                    responses.push(response);
                    if empty {
                        done = true;
                    }
                },
                Err(e) => {
                    return Err(e);
                },
            }
        }
        proof {
            assert(old(self).io.inbuf() == consumed + self.io.inbuf() && frames_payloads(
                consumed,
                responses@,
            ));
            assert(replies_consumed(old(self).io.inbuf(), self.io.inbuf(), responses@, true));
        }
        Ok(responses)
    }

    /// Receives a command reply per the configured mode: one payload, or,
    /// in multi-response mode, payloads up to and including the empty
    /// terminator.
    pub fn recieve(&mut self) -> (r: Result<Vec<String>, Error>)
        ensures
            old(self).same_config(*final(self)),
            final(self).current_packet_id == old(self).current_packet_id,
            final(self).io.outbuf() == old(self).io.outbuf(),
            match r {
                Ok(v) => replies_consumed(
                    old(self).io.inbuf(),
                    final(self).io.inbuf(),
                    v@,
                    old(self).multiple_responses,
                ),
                Err(e) => e == Error::Io || e == Error::MalformedPayload,
            },
    {
        if self.multiple_responses {
            self.recieve_multi_response()
        } else {
            let ghost pre = self.io.inbuf();
            match self.recieve_single_response() {
                Ok(response) => {
                    let ghost (c, p) = choose|c: Seq<u8>, p: Packet|
                        {
                            &&& pre == c + self.io.inbuf()
                            &&& #[trigger] decodes_to(c, p)
                            &&& response == p.payload
                        };
                    proof {
                        assert(pre == c + self.io.inbuf() && decodes_to(c, p) && response
                            == p.payload);
                        lemma_frames_payloads_snoc(Seq::<u8>::empty(), Seq::<String>::empty(), c, p);
                        assert(Seq::<u8>::empty() + c =~= c);
                        assert(Seq::<String>::empty().push(p.payload) =~= seq![p.payload]);
                    }
                    let r = vec![response];
                    proof {
                        assert(r@ =~= seq![p.payload]);
                        assert(frames_payloads(c, r@));
                        assert(replies_consumed(old(self).io.inbuf(), self.io.inbuf(), r@, false));
                    }
                    Ok(r)
                },
                Err(e) => Err(e),
            }
        }
    }

    /// Authenticates with the server: sends one `Authentication` packet
    /// carrying the password, then reads packets, skipping every packet
    /// that is not an `AuthenticationResponse`, until the response arrives;
    /// a negative id in it means the server refused the credentials. A
    /// transport or decode failure while waiting ends the call with that
    /// error, and an oversized password is rejected before any I/O: both
    /// are this library's documented choices where the protocol leaves the
    /// behaviour open.
    pub fn authenticate(&mut self, password: &str) -> (r: Result<(), Error>)
        requires
            old(self).wf(),
        ensures
            final(self).wf(),
            old(self).same_config(*final(self)),
            match r {
                Ok(()) => {
                    &&& final(self).io.outbuf() == old(self).io.outbuf() + spec_request_bytes(
                        old(self).current_packet_id,
                        PacketType::Authentication,
                        password@,
                    )
                    &&& final(self).current_packet_id == spec_next_packet_id(
                        old(self).current_packet_id,
                        old(self).default_packet_id,
                    )
                    &&& auth_reply_consumed(
                        old(self).io.inbuf(),
                        final(self).io.inbuf(),
                        true,
                    )
                },
                Err(e) => {
                    &&& (e == Error::Authentication ==> {
                        &&& final(self).io.outbuf() == old(self).io.outbuf() + spec_request_bytes(
                            old(self).current_packet_id,
                            PacketType::Authentication,
                            password@,
                        )
                        &&& auth_reply_consumed(
                            old(self).io.inbuf(),
                            final(self).io.inbuf(),
                            false,
                        )
                    })
                    &&& (e == Error::PayloadSize <==> encode_utf8(password@).len() > old(
                        self,
                    ).max_payload_size)
                    &&& (e == Error::PayloadSize ==> *final(self) == *old(self))
                },
            },
    {
        match self.send(PacketType::Authentication, password.to_owned()) {
            Ok(()) => {},
            Err(e) => {
                return Err(e);
            },
        }
        let ghost in0: Seq<u8> = self.io.inbuf();
        let ghost out1: Seq<u8> = self.io.outbuf();
        let ghost mut consumed: Seq<u8> = Seq::empty();
        let ghost mut skipped: Seq<Packet> = Seq::empty();
        proof {
            assert(in0 =~= consumed + self.io.inbuf());
        }
        loop
            invariant
                self.wf(),
                old(self).same_config(*self),
                encode_utf8(password@).len() <= old(self).max_payload_size,
                in0 == old(self).io.inbuf(),
                in0 == consumed + self.io.inbuf(),
                frames_decode(consumed, skipped),
                forall|i: int|
                    0 <= i < skipped.len() ==> (#[trigger] skipped[i]).packet_type
                        != PacketType::AuthenticationResponse,
                self.io.outbuf() == out1,
                out1 == old(self).io.outbuf() + spec_request_bytes(
                    old(self).current_packet_id,
                    PacketType::Authentication,
                    password@,
                ),
                self.current_packet_id == spec_next_packet_id(
                    old(self).current_packet_id,
                    old(self).default_packet_id,
                ),
            decreases self.io.inbuf().len(),
        {
            let ghost pre = self.io.inbuf();
            match self.receive_packet() {
                Ok(packet) => {
                    let ghost c2 = choose|c: Seq<u8>|
                        pre == c + self.io.inbuf() && #[trigger] decodes_to(c, packet);
                    proof {
                        assert(pre == c2 + self.io.inbuf() && decodes_to(c2, packet));
                        assert(in0 =~= (consumed + c2) + self.io.inbuf());
                    }
                    match packet.packet_type {
                        PacketType::AuthenticationResponse => {
                            proof {
                                assert(old(self).io.inbuf() == consumed + c2 + self.io.inbuf()
                                    && decodes_to(c2, packet));
                                assert(auth_reply_consumed(
                                    old(self).io.inbuf(),
                                    self.io.inbuf(),
                                    packet.id >= 0,
                                ));
                            }
                            if packet.is_error() {
                                return Err(Error::Authentication);
                            }
                            return Ok(());
                        },
                        _ => {
                            proof {
                                lemma_frames_decode_snoc(consumed, skipped, c2, packet);
                                consumed = consumed + c2;
                                skipped = skipped.push(packet);
                            }
                        },
                    }
                },
                Err(e) => {
                    return Err(e);
                },
            }
        }
    }

    /// Executes a command on the server: a command whose byte length
    /// exceeds the configured cap is rejected before any I/O, so oversized
    /// commands never touch the wire; otherwise one `Message` packet is
    /// sent and the reply is received per the configured mode.
    pub fn execute_command(&mut self, command: &str) -> (r: Result<Vec<String>, Error>)
        requires
            old(self).wf(),
        ensures
            final(self).wf(),
            old(self).same_config(*final(self)),
            match r {
                Ok(v) => {
                    &&& encode_utf8(command@).len() <= old(self).max_payload_size
                    &&& final(self).io.outbuf() == old(self).io.outbuf() + spec_request_bytes(
                        old(self).current_packet_id,
                        PacketType::Message,
                        command@,
                    )
                    &&& final(self).current_packet_id == spec_next_packet_id(
                        old(self).current_packet_id,
                        old(self).default_packet_id,
                    )
                    &&& replies_consumed(
                        old(self).io.inbuf(),
                        final(self).io.inbuf(),
                        v@,
                        old(self).multiple_responses,
                    )
                },
                Err(e) => {
                    &&& (e == Error::PayloadSize <==> encode_utf8(command@).len() > old(
                        self,
                    ).max_payload_size)
                    &&& (e == Error::PayloadSize ==> *final(self) == *old(self))
                    &&& e != Error::Authentication
                },
            },
    {
        if command.as_bytes().len() > self.max_payload_size {
            return Err(Error::PayloadSize);
        }
        match self.send(PacketType::Message, command.to_owned()) {
            Ok(()) => {},
            Err(e) => {
                return Err(e);
            },
        }
        self.recieve()
    }
}

} // verus!
