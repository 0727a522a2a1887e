//! The packet that opens every connection.
use vstd::prelude::*;

use crate::error::ProtocolError;

use vstd::utf8::encode_utf8;

use super::data::{
    lemma_string_at, lemma_ushort_at, lemma_varint_at, read_string, read_ushort, read_varint, string_bytes, string_decode, ushort_bytes,
    ushort_decode, varint_bytes, varint_decode, write_string, write_ushort, write_varint,
};
use super::{Packet, ProxyboundPacket, RawPacket};

verus! {

/// The first packet a client sends: the protocol version, the address and
/// port it dialled, and the phase it asks for next (1 status, 2 login).
#[derive(Clone, Debug)]
pub struct HandshakePacket {
    pub protocol: u32,
    pub server_address: String,
    pub port: u16,
    pub next_state: u32,
}

/// The fields that a handshake payload holds, in order, or the first error.
pub open spec fn handshake_decode(b: Seq<u8>) -> Result<(u32, Seq<char>, u16, u32), ProtocolError> {
    match varint_decode(b, 0) {
        Err(e) => Err(e),
        Ok((protocol, n1)) => match string_decode(b, n1 as int) {
            Err(e) => Err(e),
            Ok((address, n2)) => match ushort_decode(b, (n1 + n2) as int) {
                Err(e) => Err(e),
                Ok(port) => match varint_decode(b, (n1 + n2 + 2) as int) {
                    Err(e) => Err(e),
                    Ok((next_state, _)) => Ok((protocol, address, port, next_state)),
                },
            },
        },
    }
}

impl Packet for HandshakePacket {
    open spec fn spec_id() -> u32 {
        0x00
    }

    open spec fn spec_payload(&self) -> Seq<u8> {
        varint_bytes(self.protocol) + string_bytes(self.server_address@) + ushort_bytes(self.port)
            + varint_bytes(self.next_state)
    }

    open spec fn spec_decode_error(payload: Seq<u8>) -> Option<ProtocolError> {
        match handshake_decode(payload) {
            Err(e) => Some(e),
            Ok(_) => None,
        }
    }

    open spec fn spec_decodes_to(payload: Seq<u8>, p: Self) -> bool {
        handshake_decode(payload) == Ok::<(u32, Seq<char>, u16, u32), ProtocolError>(
            (p.protocol, p.server_address@, p.port, p.next_state),
        )
    }

    fn id() -> (r: u32) {
        0x00
    }

    fn write_to(&self, buffer: &mut Vec<u8>) {
        write_varint(buffer, self.protocol);
        write_string(buffer, self.server_address.as_str());
        write_ushort(buffer, self.port);
        write_varint(buffer, self.next_state);
        assert(final(buffer)@ =~= old(buffer)@ + self.spec_payload());
    }

    fn read_from(packet: &RawPacket) -> (r: Result<Self, ProtocolError>) {
        if packet.1 != 0x00 {
            return Err(ProtocolError::IdMismatch);
        }
        let buffer = &packet.2;
        let mut position: usize = 0;
        let protocol = match read_varint(buffer.as_slice(), &mut position) {
            Ok(v) => v,
            Err(e) => return Err(e),
        };
        let server_address = match read_string(buffer.as_slice(), &mut position) {
            Ok(v) => v,
            Err(e) => return Err(e),
        };
        let port = match read_ushort(buffer, &mut position) {
            Ok(v) => v,
            Err(e) => return Err(e),
        };
        let next_state = match read_varint(buffer.as_slice(), &mut position) {
            Ok(v) => v,
            Err(e) => return Err(e),
        };
        Ok(HandshakePacket { protocol, server_address, port, next_state })
    }
}

impl ProxyboundPacket for HandshakePacket {

}

/// A handshake reads back as written, where its address encodes in fewer
/// than `2^32` bytes.
pub proof fn lemma_handshake_round_trip(p: HandshakePacket)
    requires
        encode_utf8(p.server_address@).len() < 0x1_0000_0000,
    ensures
        HandshakePacket::spec_decode_error(p.spec_payload()) is None,
        HandshakePacket::spec_decodes_to(p.spec_payload(), p),
{
    let a = varint_bytes(p.protocol);
    let s = string_bytes(p.server_address@);
    let u = ushort_bytes(p.port);
    let n = varint_bytes(p.next_state);
    let b = p.spec_payload();
    assert(b =~= a + s + u + n);
    let i1 = a.len() as int;
    let i2 = i1 + s.len();
    let i3 = i2 + 2;
    assert(b.subrange(0, i1) =~= a);
    assert(b.subrange(i1, i2) =~= s);
    assert(b.subrange(i2, i3) =~= u);
    assert(b.subrange(i3, i3 + n.len()) =~= n);
    lemma_varint_at(b, 0, p.protocol);
    lemma_string_at(b, i1, p.server_address@);
    lemma_ushort_at(b, i2, p.port);
    lemma_varint_at(b, i3, p.next_state);
}

} // verus!
