//! Packets of the configuration phase.
use vstd::prelude::*;
use vstd::string::StringExecFns;

use crate::error::ProtocolError;
use crate::player::ConnectionState;
use crate::server::PluginChannel;

use super::data::{copy_range, read_string, string_bytes, string_decode, write_string};
use super::{Packet, PlayerboundPacket, RawPacket};

verus! {

/// A plugin message: the channel name, then the channel's own data.
#[derive(Clone, Debug)]
pub struct PlayerConfigurationPluginMessagePacket<T: PluginChannel> {
    pub data: T,
}

/// Where the channel's data starts in a plugin-message payload whose channel
/// name is `channel`, or the error met before it.
pub open spec fn plugin_message_data_start(payload: Seq<u8>, channel: Seq<char>) -> Result<
    nat,
    ProtocolError,
> {
    match string_decode(payload, 0) {
        Err(e) => Err(e),
        Ok((name, n)) => if name == channel {
            Ok(n)
        } else {
            Err(ProtocolError::IdMismatch)
        },
    }
}

impl<T: PluginChannel> Packet for PlayerConfigurationPluginMessagePacket<T> {
    open spec fn spec_id() -> u32 {
        0x01
    }

    open spec fn spec_payload(&self) -> Seq<u8> {
        string_bytes(T::spec_channel()) + self.data.spec_data()
    }

    open spec fn spec_decode_error(payload: Seq<u8>) -> Option<ProtocolError> {
        match plugin_message_data_start(payload, T::spec_channel()) {
            Err(e) => Some(e),
            Ok(n) => T::spec_decode_error(payload.subrange(n as int, payload.len() as int)),
        }
    }

    open spec fn spec_decodes_to(payload: Seq<u8>, p: Self) -> bool {
        match plugin_message_data_start(payload, T::spec_channel()) {
            Err(_) => false,
            Ok(n) => T::spec_decodes_to(payload.subrange(n as int, payload.len() as int), p.data),
        }
    }

    fn id() -> (r: u32) {
        0x01
    }

    fn write_to(&self, buffer: &mut Vec<u8>) {
        let channel = T::id();
        write_string(buffer, channel.as_str());
        self.data.write_to(buffer);
        assert(final(buffer)@ =~= old(buffer)@ + self.spec_payload());
    }

    fn read_from(packet: &RawPacket) -> (r: Result<Self, ProtocolError>) {
        if packet.1 != 0x01 {
            return Err(ProtocolError::IdMismatch);
        }
        let payload = packet.2.as_slice();
        let mut position: usize = 0;
        proof {
            super::data::lemma_varint_decode_within(payload@, 0, 0, 0);
        }
        let channel_name = match read_string(payload, &mut position) {
            Ok(v) => v,
            Err(e) => return Err(e),
        };
        if channel_name != T::id() {
            return Err(ProtocolError::IdMismatch);
        }
        let rest = copy_range(payload, position, payload.len());
        match T::read_from(rest.as_slice()) {
            Ok(data) => Ok(PlayerConfigurationPluginMessagePacket { data }),
            Err(e) => Err(e),
        }
    }
}

impl<T: PluginChannel> PlayerboundPacket for PlayerConfigurationPluginMessagePacket<T> {

}

/// The `minecraft:brand` channel: a free-form server name.
#[derive(Clone, Debug)]
pub struct BrandChannel {
    pub brand: String,
}

impl PluginChannel for BrandChannel {
    open spec fn spec_channel() -> Seq<char> {
        "minecraft:brand"@
    }

    open spec fn spec_data(&self) -> Seq<u8> {
        string_bytes(self.brand@)
    }

    open spec fn spec_decode_error(data: Seq<u8>) -> Option<ProtocolError> {
        match string_decode(data, 0) {
            Err(e) => Some(e),
            Ok(_) => None,
        }
    }

    open spec fn spec_decodes_to(data: Seq<u8>, c: Self) -> bool {
        string_decode(data, 0) is Ok && string_decode(data, 0)->Ok_0.0 == c.brand@
    }

    fn id() -> (r: String) {
        "minecraft:brand".to_owned()
    }

    fn write_to(&self, buffer: &mut Vec<u8>) {
        write_string(buffer, self.brand.as_str());
    }

    fn read_from(buffer: &[u8]) -> (r: Result<Self, ProtocolError>) {
        let mut position: usize = 0;
        match read_string(buffer, &mut position) {
            Ok(brand) => Ok(BrandChannel { brand }),
            Err(e) => Err(e),
        }
    }
}

/// The tag that the proxy appends to a backend's brand.
pub open spec fn brand_suffix() -> Seq<char> {
    " (rustyproxy)"@
}

/// Rewrites a backend's brand as the player will see it: for a plugin
/// message on `minecraft:brand` sent during configuration, the same message
/// with the brand tagged; for any other frame, `None`.
pub fn rewrite_brand(packet: &RawPacket, phase: ConnectionState) -> (r: Option<
    PlayerConfigurationPluginMessagePacket<BrandChannel>,
>)
    ensures
        r is Some <==> phase == ConnectionState::Configuration && packet.1 == 0x01
            && PlayerConfigurationPluginMessagePacket::<BrandChannel>::spec_decode_error(
            packet.2@,
        ) is None,
        r is Some ==> exists|b: BrandChannel|
            PlayerConfigurationPluginMessagePacket::<BrandChannel>::spec_decodes_to(
                packet.2@,
                PlayerConfigurationPluginMessagePacket { data: b },
            ) && r->0.data.brand@ == b.brand@ + brand_suffix(),
{
    if phase != ConnectionState::Configuration {
        return None;
    }
    match PlayerConfigurationPluginMessagePacket::<BrandChannel>::read_from(packet) {
        Ok(message) => {
            let mut brand = message.data.brand.clone();
            proof {
                reveal_strlit(" (rustyproxy)");
            }
            brand.append(" (rustyproxy)");
            Some(PlayerConfigurationPluginMessagePacket { data: BrandChannel { brand } })
        },
        Err(_) => None,
    }
}

} // verus!
