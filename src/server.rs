//! The backends that the proxy forwards to, and the plugin channels that
//! travel between them and the players.
use vstd::prelude::*;

use crate::error::ProtocolError;

verus! {

/// A backend: its display name, its host and its port.
#[derive(Clone, Debug)]
pub struct ProxiedServer {
    pub address: String,
    pub port: u16,
    pub name: String,
}

impl ProxiedServer {
    pub fn new(name: String, address: String, port: u16) -> (r: ProxiedServer)
        ensures
            r.name == name,
            r.address == address,
            r.port == port,
    {
        ProxiedServer { address, port, name }
    }
}

/// A plugin channel: its name, and how its data is written and read.
pub trait PluginChannel: Sized {
    /// The channel name, such as `minecraft:brand`.
    spec fn spec_channel() -> Seq<char>;

    /// The bytes that `write_to` appends.
    spec fn spec_data(&self) -> Seq<u8>;

    /// The error that reading `data` meets, if any.
    spec fn spec_decode_error(data: Seq<u8>) -> Option<ProtocolError>;

    /// Whether `c` is what `data` reads as.
    spec fn spec_decodes_to(data: Seq<u8>, c: Self) -> bool;

    fn id() -> (r: String)
        ensures
            r@ == Self::spec_channel(),
    ;

    fn write_to(&self, buffer: &mut Vec<u8>)
        ensures
            final(buffer)@ == old(buffer)@ + self.spec_data(),
    ;

    fn read_from(buffer: &[u8]) -> (r: Result<Self, ProtocolError>)
        ensures
            match Self::spec_decode_error(buffer@) {
                Some(e) => r == Err::<Self, ProtocolError>(e),
                None => r is Ok && Self::spec_decodes_to(buffer@, r->Ok_0),
            },
    ;
}

} // verus!
