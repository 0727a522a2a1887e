//! Packets of the login phase.
use vstd::prelude::*;

use crate::error::ProtocolError;
use crate::player::PlayerInfo;

use vstd::utf8::encode_utf8;

use super::data::{
    lemma_string_at, lemma_uuid_bytes_value, read_string, read_uuid, string_bytes, string_decode, uuid_bytes, uuid_decode, write_string,
    write_uuid,
};
use super::{Packet, PlayerboundPacket, ProxyboundPacket, RawPacket};

verus! {

/// Sent to a player to refuse the login, with a reason given as JSON text.
#[derive(Clone, Debug)]
pub struct LoginDisconnectPacket {
    /// The reason, as a JSON text component.
    pub reason: String,
}

impl Packet for LoginDisconnectPacket {
    open spec fn spec_id() -> u32 {
        0x00
    }

    open spec fn spec_payload(&self) -> Seq<u8> {
        string_bytes(self.reason@)
    }

    open spec fn spec_decode_error(payload: Seq<u8>) -> Option<ProtocolError> {
        match string_decode(payload, 0) {
            Err(e) => Some(e),
            Ok(_) => None,
        }
    }

    open spec fn spec_decodes_to(payload: Seq<u8>, p: Self) -> bool {
        string_decode(payload, 0) is Ok && string_decode(payload, 0)->Ok_0.0 == p.reason@
    }

    fn id() -> (r: u32) {
        0x00
    }

    fn write_to(&self, buffer: &mut Vec<u8>) {
        write_string(buffer, self.reason.as_str());
    }

    fn read_from(packet: &RawPacket) -> (r: Result<Self, ProtocolError>) {
        if packet.1 != 0x00 {
            return Err(ProtocolError::IdMismatch);
        }
        let mut position: usize = 0;
        match read_string(packet.2.as_slice(), &mut position) {
            Ok(reason) => Ok(LoginDisconnectPacket { reason }),
            Err(e) => Err(e),
        }
    }
}

impl PlayerboundPacket for LoginDisconnectPacket {

}

/// The first login packet of a player: its name and UUID.
#[derive(Clone, Debug)]
pub struct LoginStartPacket {
    pub username: String,
    pub uuid: u128,
}

/// The name and UUID that a login-start payload holds, or the first error.
pub open spec fn login_start_decode(b: Seq<u8>) -> Result<(Seq<char>, u128), ProtocolError> {
    match string_decode(b, 0) {
        Err(e) => Err(e),
        Ok((name, n)) => match uuid_decode(b, n as int) {
            Err(e) => Err(e),
            Ok(uuid) => Ok((name, uuid)),
        },
    }
}

impl Packet for LoginStartPacket {
    open spec fn spec_id() -> u32 {
        0x00
    }

    open spec fn spec_payload(&self) -> Seq<u8> {
        string_bytes(self.username@) + uuid_bytes(self.uuid)
    }

    open spec fn spec_decode_error(payload: Seq<u8>) -> Option<ProtocolError> {
        match login_start_decode(payload) {
            Err(e) => Some(e),
            Ok(_) => None,
        }
    }

    open spec fn spec_decodes_to(payload: Seq<u8>, p: Self) -> bool {
        login_start_decode(payload) == Ok::<(Seq<char>, u128), ProtocolError>(
            (p.username@, p.uuid),
        )
    }

    fn id() -> (r: u32) {
        0x00
    }

    fn write_to(&self, buffer: &mut Vec<u8>) {
        write_string(buffer, self.username.as_str());
        write_uuid(buffer, self.uuid);
        assert(final(buffer)@ =~= old(buffer)@ + self.spec_payload());
    }

    fn read_from(packet: &RawPacket) -> (r: Result<Self, ProtocolError>) {
        if packet.1 != 0x00 {
            return Err(ProtocolError::IdMismatch);
        }
        let mut position: usize = 0;
        let username = match read_string(packet.2.as_slice(), &mut position) {
            Ok(v) => v,
            Err(e) => return Err(e),
        };
        let uuid = match read_uuid(packet.2.as_slice(), &mut position) {
            Ok(v) => v,
            Err(e) => return Err(e),
        };
        Ok(LoginStartPacket { username, uuid })
    }
}

impl PlayerboundPacket for LoginStartPacket {

}

impl ProxyboundPacket for LoginStartPacket {

}

impl LoginStartPacket {
    /// The player identity that this packet announces.
    pub fn as_player_info(&self) -> (r: PlayerInfo)
        ensures
            r.username@ == self.username@,
            r.uuid == self.uuid,
    {
        PlayerInfo { username: self.username.clone(), uuid: self.uuid }
    }
}

/// Tells a client that login has finished. It carries no payload here.
#[derive(Clone, Copy, Debug)]
pub struct LoginSuccessPacket {}

impl Packet for LoginSuccessPacket {
    open spec fn spec_id() -> u32 {
        0x02
    }

    open spec fn spec_payload(&self) -> Seq<u8> {
        Seq::empty()
    }

    open spec fn spec_decode_error(payload: Seq<u8>) -> Option<ProtocolError> {
        None
    }

    open spec fn spec_decodes_to(payload: Seq<u8>, p: Self) -> bool {
        true
    }

    fn id() -> (r: u32) {
        0x02
    }

    fn write_to(&self, buffer: &mut Vec<u8>) {
        assert(old(buffer)@ + Seq::<u8>::empty() =~= old(buffer)@);
    }

    fn read_from(packet: &RawPacket) -> (r: Result<Self, ProtocolError>) {
        if packet.1 != 0x02 {
            return Err(ProtocolError::IdMismatch);
        }
        Ok(LoginSuccessPacket {})
    }
}

impl PlayerboundPacket for LoginSuccessPacket {

}

/// A login start reads back as written, where the name encodes in fewer
/// than `2^32` bytes.
pub proof fn lemma_login_start_round_trip(p: LoginStartPacket)
    requires
        encode_utf8(p.username@).len() < 0x1_0000_0000,
    ensures
        LoginStartPacket::spec_decode_error(p.spec_payload()) is None,
        LoginStartPacket::spec_decodes_to(p.spec_payload(), p),
{
    let s = string_bytes(p.username@);
    let u = uuid_bytes(p.uuid);
    let b = p.spec_payload();
    let n = s.len() as int;
    assert(b.subrange(0, n) =~= s);
    assert(b.subrange(n, n + 16) =~= u);
    lemma_string_at(b, 0, p.username@);
    lemma_uuid_bytes_value(p.uuid);
}

} // verus!
