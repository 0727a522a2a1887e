//! Packets of the play phase.
use vstd::prelude::*;

use crate::error::ProtocolError;

use super::data::{bool_byte, copy_range, push_all, write_bool};
use super::{Packet, PlayerboundPacket, RawPacket};

verus! {

/// A chat line from the system. The text is a network-NBT text component,
/// carried as its encoded bytes; the flag shows it above the hotbar instead.
#[derive(Clone, Debug)]
pub struct SystemChatMessagePacket {
    /// The NBT-encoded text component, without a name tag.
    pub text: Vec<u8>,
    pub overlay: bool,
}

impl Packet for SystemChatMessagePacket {
    open spec fn spec_id() -> u32 {
        0x73
    }

    open spec fn spec_payload(&self) -> Seq<u8> {
        self.text@.push(bool_byte(self.overlay))
    }

    open spec fn spec_decode_error(payload: Seq<u8>) -> Option<ProtocolError> {
        if payload.len() == 0 {
            Some(ProtocolError::ShortBuffer)
        } else {
            None
        }
    }

    open spec fn spec_decodes_to(payload: Seq<u8>, p: Self) -> bool {
        &&& p.text@ == payload.drop_last()
        &&& p.overlay == (payload.last() != 0)
    }

    fn id() -> (r: u32) {
        0x73
    }

    fn write_to(&self, buffer: &mut Vec<u8>) {
        push_all(buffer, self.text.as_slice());
        write_bool(buffer, self.overlay);
    }

    fn read_from(packet: &RawPacket) -> (r: Result<Self, ProtocolError>) {
        if packet.1 != 0x73 {
            return Err(ProtocolError::IdMismatch);
        }
        let payload = &packet.2;
        let n = payload.len();
        if n == 0 {
            return Err(ProtocolError::ShortBuffer);
        }
        let text = copy_range(payload.as_slice(), 0, n - 1);
        Ok(SystemChatMessagePacket { text, overlay: payload[n - 1] != 0 })
    }
}

impl PlayerboundPacket for SystemChatMessagePacket {

}

} // verus!
