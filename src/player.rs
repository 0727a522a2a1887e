//! The per-connection state: who the player is, which phase each side of the
//! link is in, and the decisions taken on each frame a backend sends.
use vstd::prelude::*;

use crate::error::ProtocolError;
use crate::event::EventResult;
use crate::packet::data::{push_all, read_varint, varint_decode};
use crate::packet::handshake::HandshakePacket;
use crate::packet::login::LoginStartPacket;
use crate::packet::{
    encode_packet, frame_bytes, frame_decode, Packet, RawPacket, read_packet_from_bytes,
};
use crate::server::ProxiedServer;

verus! {

/// The identity a player announced at login.
#[derive(Clone, Debug)]
pub struct PlayerInfo {
    pub username: String,
    pub uuid: u128,
}

/// How a connection attempt ended.
#[derive(Clone, Copy, Debug, PartialEq, Eq, Structural)]
pub enum ConnectionResult {
    Success,
    Disconnected,
    Error,
}

/// Why the forwarding loop stopped.
#[derive(Clone, Copy, Debug, PartialEq, Eq, Structural)]
pub enum TrafficForwardingResult {
    ServerDisconnectedPlayer,
    PlayerDisconnected,
    ServerErrored,
    PlayerErrored,
    ServerKickedPlayer,
}

/// The protocol phase of one side of a connection; it decides what a packet
/// id means.
#[derive(Clone, Copy, Debug, PartialEq, Eq, Structural)]
pub enum ConnectionState {
    Handshake,
    Login,
    Configuration,
    Play,
}

/// The place of a phase in the order Handshake, Login, Configuration, Play.
pub open spec fn phase_rank(s: ConnectionState) -> int {
    match s {
        ConnectionState::Handshake => 0,
        ConnectionState::Login => 1,
        ConnectionState::Configuration => 2,
        ConnectionState::Play => 3,
    }
}

/// Login: Set Compression.
pub const SET_COMPRESSION_ID: u32 = 0x03;

/// Login: Login Success; Configuration: Finish Configuration.
pub const PHASE_DONE_ID: u32 = 0x02;

/// Play: Disconnect.
pub const PLAY_DISCONNECT_ID: u32 = 0x1D;

/// The backend phase after it sent a frame with `id` in phase `phase`.
pub open spec fn next_phase(phase: ConnectionState, id: u32) -> ConnectionState {
    if id == PHASE_DONE_ID && phase == ConnectionState::Login {
        ConnectionState::Configuration
    } else if id == PHASE_DONE_ID && phase == ConnectionState::Configuration {
        ConnectionState::Play
    } else {
        phase
    }
}

/// The compression threshold after the backend sent `id` with `payload` in
/// phase `phase`: Set Compression during login sets it to the VarInt it
/// carries (where that VarInt reads).
pub open spec fn next_threshold(
    phase: ConnectionState,
    threshold: u32,
    id: u32,
    payload: Seq<u8>,
) -> u32 {
    if id == SET_COMPRESSION_ID && phase == ConnectionState::Login {
        match varint_decode(payload, 0) {
            Ok((t, _)) => t,
            Err(_) => threshold,
        }
    } else {
        threshold
    }
}

/// Whether a frame with `id` in phase `phase` is the backend kicking the
/// player.
pub open spec fn is_kick(phase: ConnectionState, id: u32) -> bool {
    id == PLAY_DISCONNECT_ID && phase == ConnectionState::Play
}

/// The phases that the backend link goes through as frames with `ids`
/// arrive, starting from `phase`: one entry before each frame and one after
/// the last.
pub open spec fn phase_trace(phase: ConnectionState, ids: Seq<u32>) -> Seq<ConnectionState>
    decreases ids.len(),
{
    if ids.len() == 0 {
        seq![phase]
    } else {
        seq![phase] + phase_trace(next_phase(phase, ids[0]), ids.subrange(1, ids.len() as int))
    }
}

/// A frame moves the backend phase forward by at most one step, never back.
pub proof fn lemma_next_phase_step(phase: ConnectionState, id: u32)
    ensures
        phase_rank(phase) <= phase_rank(next_phase(phase, id)) <= phase_rank(phase) + 1,
        phase_rank(next_phase(phase, id)) <= 3,
        phase != ConnectionState::Handshake ==> next_phase(phase, id) != ConnectionState::Handshake,
{
}

/// The backend phases seen across any run of frames, starting at login, go
/// through Login, Configuration and Play in that order, skipping none: they
/// form a prefix of that list, each held for one or more frames.
pub proof fn lemma_phase_trace_monotone(ids: Seq<u32>)
    ensures
        phase_trace(ConnectionState::Login, ids).len() == ids.len() + 1,
        phase_trace(ConnectionState::Login, ids)[0] == ConnectionState::Login,
        forall|i: int|
            0 <= i < phase_trace(ConnectionState::Login, ids).len() ==> 1 <= phase_rank(
                #[trigger] phase_trace(ConnectionState::Login, ids)[i],
            ) <= 3,
        forall|i: int, j: int|
            0 <= i <= j < phase_trace(ConnectionState::Login, ids).len() ==> phase_rank(
                #[trigger] phase_trace(ConnectionState::Login, ids)[i],
            ) <= phase_rank(#[trigger] phase_trace(ConnectionState::Login, ids)[j]),
        forall|i: int|
            0 <= i < ids.len() ==> phase_rank(
                #[trigger] phase_trace(ConnectionState::Login, ids)[i + 1],
            ) <= phase_rank(phase_trace(ConnectionState::Login, ids)[i]) + 1,
{
    lemma_phase_trace_from(ConnectionState::Login, ids);
}

proof fn lemma_phase_trace_from(phase: ConnectionState, ids: Seq<u32>)
    requires
        phase != ConnectionState::Handshake,
    ensures
        phase_trace(phase, ids).len() == ids.len() + 1,
        phase_trace(phase, ids)[0] == phase,
        forall|i: int|
            0 <= i < phase_trace(phase, ids).len() ==> phase_rank(phase) <= phase_rank(
                #[trigger] phase_trace(phase, ids)[i],
            ) <= 3,
        forall|i: int, j: int|
            0 <= i <= j < phase_trace(phase, ids).len() ==> phase_rank(
                #[trigger] phase_trace(phase, ids)[i],
            ) <= phase_rank(#[trigger] phase_trace(phase, ids)[j]),
        forall|i: int|
            0 <= i < ids.len() ==> phase_rank(#[trigger] phase_trace(phase, ids)[i + 1])
                <= phase_rank(phase_trace(phase, ids)[i]) + 1,
    decreases ids.len(),
{
    if ids.len() > 0 {
        let next = next_phase(phase, ids[0]);
        let tail = ids.subrange(1, ids.len() as int);
        lemma_next_phase_step(phase, ids[0]);
        lemma_phase_trace_from(next, tail);
        let t = phase_trace(phase, ids);
        let u = phase_trace(next, tail);
        assert(t =~= seq![phase] + u);
        assert forall|i: int| 0 <= i < t.len() implies phase_rank(phase) <= phase_rank(
            #[trigger] t[i],
        ) <= 3 by {
            if i > 0 {
                assert(t[i] == u[i - 1]);
            }
        }
        assert forall|i: int, j: int| 0 <= i <= j < t.len() implies phase_rank(#[trigger] t[i])
            <= phase_rank(#[trigger] t[j]) by {
            if i > 0 {
                assert(t[i] == u[i - 1]);
                assert(t[j] == u[j - 1]);
            } else if j > 0 {
                assert(t[j] == u[j - 1]);
            }
        }
        assert forall|i: int| 0 <= i < ids.len() implies phase_rank(#[trigger] t[i + 1])
            <= phase_rank(t[i]) + 1 by {
            assert(t[i + 1] == u[i]);
            if i > 0 {
                assert(t[i] == u[i - 1]);
                assert(tail[i - 1] == ids[i]);
            } else {
                assert(u[0] == next);
            }
        }
    }
}

/// Whether the length prefix at the start of `b` is no VarInt, so that no
/// frame boundary can be found.
pub open spec fn prefix_malformed(b: Seq<u8>) -> bool {
    varint_decode(b, 0) == Err::<(u32, nat), ProtocolError>(ProtocolError::VarintOverflow)
}

/// The number of bytes that the whole frame at the start of `b` takes, prefix
/// included, or `None` while it is not complete.
pub open spec fn frame_extent(b: Seq<u8>) -> Option<nat> {
    match varint_decode(b, 0) {
        Err(_) => None,
        Ok((l, n)) => if n + l <= b.len() {
            Some((n + l) as nat)
        } else {
            None
        },
    }
}

/// What to do with the next frame that a backend sent.
#[derive(Debug)]
pub enum ServerFrame {
    /// No complete frame is buffered yet.
    NeedMore,
    /// The backend kicked the player: stop forwarding, do not pass the frame on.
    Kick,
    /// Pass `bytes` on to the player unchanged; `packet` is the frame as
    /// parsed, for the listeners, where it parsed.
    Deliver { bytes: Vec<u8>, packet: Option<RawPacket> },
}

/// Whether `r` delivers the bytes `b` with the parsed frame `p`.
pub open spec fn delivers(r: ServerFrame, b: Seq<u8>, p: Option<(u32, u32, Seq<u8>)>) -> bool {
    match r {
        ServerFrame::Deliver { bytes, packet } => {
            &&& bytes@ == b
            &&& match (packet, p) {
                (None, None) => true,
                (Some(x), Some(y)) => x.0 == y.0 && x.1 == y.1 && x.2@ == y.2,
                _ => false,
            }
        },
        _ => false,
    }
}

/// The proxy's view of the link to a backend while frames are forwarded:
/// the backend's phase, the compression threshold it imposed, and the bytes
/// it sent that do not make a whole frame yet.
pub struct BackendLink {
    pub state: ConnectionState,
    pub compression_threshold: u32,
    pub pending: Vec<u8>,
}

impl BackendLink {
    /// A link that was just opened: the backend is in the login phase and
    /// frames are not compressed.
    pub fn new() -> (r: BackendLink)
        ensures
            r.state == ConnectionState::Login,
            r.compression_threshold == 0,
            r.pending@ == Seq::<u8>::empty(),
    {
        BackendLink {
            state: ConnectionState::Login,
            compression_threshold: 0,
            pending: Vec::new(),
        }
    }

    /// Buffers bytes read from the backend.
    pub fn receive(&mut self, bytes: &[u8])
        ensures
            final(self).pending@ == old(self).pending@ + bytes@,
            final(self).state == old(self).state,
            final(self).compression_threshold == old(self).compression_threshold,
    {
        push_all(&mut self.pending, bytes);
    }

    /// Takes the next whole frame out of the buffered bytes and decides what
    /// becomes of it, tracking Set Compression and the phase changes. A frame
    /// that does not parse is still delivered, unparsed; where no frame
    /// boundary can be found, all buffered bytes are delivered as they are.
    pub fn next_server_frame(&mut self) -> (r: ServerFrame)
        ensures
            if prefix_malformed(old(self).pending@) {
                &&& delivers(r, old(self).pending@, None)
                &&& final(self).pending@ == Seq::<u8>::empty()
                &&& final(self).state == old(self).state
                &&& final(self).compression_threshold == old(self).compression_threshold
            } else {
                match frame_extent(old(self).pending@) {
                None => {
                    &&& r is NeedMore
                    &&& final(self).pending@ == old(self).pending@
                    &&& final(self).state == old(self).state
                    &&& final(self).compression_threshold == old(self).compression_threshold
                },
                Some(k) => {
                    let frame = old(self).pending@.subrange(0, k as int);
                    &&& final(self).pending@ == old(self).pending@.subrange(
                        k as int,
                        old(self).pending@.len() as int,
                    )
                    &&& match frame_decode(frame, old(self).compression_threshold) {
                        Err(_) => {
                            &&& delivers(r, frame, None)
                            &&& final(self).state == old(self).state
                            &&& final(self).compression_threshold
                                == old(self).compression_threshold
                        },
                        Ok((l, id, p)) => {
                            &&& final(self).state == next_phase(old(self).state, id)
                            &&& final(self).compression_threshold == next_threshold(
                                old(self).state,
                                old(self).compression_threshold,
                                id,
                                p,
                            )
                            &&& if is_kick(old(self).state, id) {
                                r is Kick
                            } else {
                                delivers(r, frame, Some((l, id, p)))
                            }
                        },
                    }
                },
            }
            },
    {
        let mut pos: usize = 0;
        proof {
            crate::packet::data::lemma_varint_decode_within(self.pending@, 0, 0, 0);
        }
        let n = self.pending.len();
        let k: usize = match read_varint(self.pending.as_slice(), &mut pos) {
            Err(ProtocolError::VarintOverflow) => {
                let bytes = crate::packet::data::copy_range(self.pending.as_slice(), 0, n);
                self.pending = Vec::new();
                assert(bytes@ =~= old(self).pending@);
                return ServerFrame::Deliver { bytes, packet: None };
            },
            Err(_) => return ServerFrame::NeedMore,
            Ok(l) => {
                if l as usize > n - pos {
                    return ServerFrame::NeedMore;
                }
                pos + l as usize
            },
        };
        let bytes = crate::packet::data::copy_range(self.pending.as_slice(), 0, k);
        self.pending = crate::packet::data::copy_range(self.pending.as_slice(), k, n);
        match read_packet_from_bytes(bytes.as_slice(), self.compression_threshold) {
            Err(_) => ServerFrame::Deliver { bytes, packet: None },
            Ok((l, id, payload)) => {
                proof {
                    assert(bytes@ + Seq::<u8>::empty() =~= bytes@);
                }
                let phase = self.state;
                if id == SET_COMPRESSION_ID && phase == ConnectionState::Login {
                    let mut p: usize = 0;
                    if let Ok(t) = read_varint(payload.as_slice(), &mut p) {
                        self.compression_threshold = t;
                    }
                }
                if id == PHASE_DONE_ID && phase == ConnectionState::Login {
                    self.state = ConnectionState::Configuration;
                } else if id == PHASE_DONE_ID && phase == ConnectionState::Configuration {
                    self.state = ConnectionState::Play;
                }
                if id == PLAY_DISCONNECT_ID && phase == ConnectionState::Play {
                    ServerFrame::Kick
                } else {
                    ServerFrame::Deliver { bytes, packet: Some((l, id, payload)) }
                }
            },
        }
    }
}

/// Whether a frame is passed on to the player after the listeners of
/// `ServerSentPacket` answered `result`: only `Stop` holds it back.
pub fn should_forward(result: Option<EventResult>) -> (r: bool)
    ensures
        r == (result != Some(EventResult::Stop)),
{
    match result {
        Some(EventResult::Stop) => false,
        _ => true,
    }
}

/// What the forwarding loop observed on one of its two sockets.
#[derive(Clone, Copy, Debug, PartialEq, Eq, Structural)]
pub enum TrafficEvent {
    /// This many bytes were read from the player (0: end of stream).
    PlayerRead(usize),
    /// Reading from the player failed.
    PlayerReadFailed,
    /// Writing to the backend failed; `broken_pipe` tells whether the error
    /// kind was a broken pipe.
    BackendWriteFailed { broken_pipe: bool },
    /// This many bytes were read from the backend (0: end of stream).
    BackendRead(usize),
    /// Reading from the backend failed.
    BackendReadFailed,
    /// Writing to the player failed.
    PlayerWriteFailed { broken_pipe: bool },
}

/// Whether forwarding stops on `event`, and why. A write error other than a
/// broken pipe does not stop it.
pub fn traffic_outcome(event: TrafficEvent) -> (r: Option<TrafficForwardingResult>)
    ensures
        r == match event {
            TrafficEvent::PlayerRead(n) => if n == 0 {
                Some(TrafficForwardingResult::PlayerDisconnected)
            } else {
                None
            },
            TrafficEvent::PlayerReadFailed => Some(TrafficForwardingResult::PlayerErrored),
            TrafficEvent::BackendWriteFailed { broken_pipe } => if broken_pipe {
                Some(TrafficForwardingResult::PlayerErrored)
            } else {
                None
            },
            TrafficEvent::BackendRead(n) => if n == 0 {
                Some(TrafficForwardingResult::ServerDisconnectedPlayer)
            } else {
                None
            },
            TrafficEvent::BackendReadFailed => Some(TrafficForwardingResult::ServerErrored),
            TrafficEvent::PlayerWriteFailed { broken_pipe } => if broken_pipe {
                Some(TrafficForwardingResult::ServerDisconnectedPlayer)
            } else {
                None
            },
        },
{
    match event {
        TrafficEvent::PlayerRead(n) => if n == 0 {
            Some(TrafficForwardingResult::PlayerDisconnected)
        } else {
            None
        },
        TrafficEvent::PlayerReadFailed => Some(TrafficForwardingResult::PlayerErrored),
        TrafficEvent::BackendWriteFailed { broken_pipe } => if broken_pipe {
            Some(TrafficForwardingResult::PlayerErrored)
        } else {
            None
        },
        TrafficEvent::BackendRead(n) => if n == 0 {
            Some(TrafficForwardingResult::ServerDisconnectedPlayer)
        } else {
            None
        },
        TrafficEvent::BackendReadFailed => Some(TrafficForwardingResult::ServerErrored),
        TrafficEvent::PlayerWriteFailed { broken_pipe } => if broken_pipe {
            Some(TrafficForwardingResult::ServerDisconnectedPlayer)
        } else {
            None
        },
    }
}

/// Whether connecting to a backend goes on after the listeners of
/// `PlayerJoinedServer` answered `result`: `Stop` aborts it.
pub fn join_server_verdict(result: Option<EventResult>) -> (r: Result<(), ProtocolError>)
    ensures
        r is Err <==> result == Some(EventResult::Stop),
        r is Err ==> r->Err_0 == ProtocolError::ConnectionAborted,
{
    match result {
        Some(EventResult::Stop) => Err(ProtocolError::ConnectionAborted),
        _ => Ok(()),
    }
}

/// The protocol version that the proxy announces to backends.
pub const BACKEND_PROTOCOL_VERSION: u32 = 769;

/// The handshake that the proxy sends a backend on the player's behalf: it
/// asks for the login phase at the backend's own address and port.
pub fn backend_handshake(server: &ProxiedServer) -> (r: HandshakePacket)
    ensures
        r.protocol == BACKEND_PROTOCOL_VERSION,
        r.server_address@ == server.address@,
        r.port == server.port,
        r.next_state == 2,
{
    HandshakePacket {
        protocol: BACKEND_PROTOCOL_VERSION,
        server_address: server.address.clone(),
        port: server.port,
        next_state: 2,
    }
}

/// The bytes that open a backend session: the handshake, then the player's
/// login start, both uncompressed.
pub fn backend_login_frames(server: &ProxiedServer, info: &PlayerInfo) -> (r: Result<
    Vec<u8>,
    ProtocolError,
>)
    ensures
        r is Ok ==> ({
            let h = HandshakePacket {
                protocol: BACKEND_PROTOCOL_VERSION,
                server_address: server.address,
                port: server.port,
                next_state: 2,
            };
            let l = LoginStartPacket { username: info.username, uuid: info.uuid };
            &&& frame_bytes(0, h.spec_payload(), 0) is Some
            &&& frame_bytes(0, l.spec_payload(), 0) is Some
            &&& r->Ok_0@ == frame_bytes(0, h.spec_payload(), 0)->0 + frame_bytes(
                0,
                l.spec_payload(),
                0,
            )->0
        }),
        r is Err ==> r->Err_0 == ProtocolError::FrameTooLarge,
        r is Ok <==> ({
            let h = HandshakePacket {
                protocol: BACKEND_PROTOCOL_VERSION,
                server_address: server.address,
                port: server.port,
                next_state: 2,
            };
            let l = LoginStartPacket { username: info.username, uuid: info.uuid };
            &&& frame_bytes(0, h.spec_payload(), 0) is Some
            &&& frame_bytes(0, l.spec_payload(), 0) is Some
        }),
{
    let handshake = backend_handshake(server);
    let login = LoginStartPacket { username: info.username.clone(), uuid: info.uuid };
    proof {
        assert(handshake.spec_payload() == (HandshakePacket {
            protocol: BACKEND_PROTOCOL_VERSION,
            server_address: server.address,
            port: server.port,
            next_state: 2,
        }).spec_payload());
        assert(login.spec_payload() == (LoginStartPacket {
            username: info.username,
            uuid: info.uuid,
        }).spec_payload());
    }
    let mut out = match encode_packet(&handshake, 0) {
        Ok(f) => f,
        Err(e) => return Err(e),
    };
    let second = match encode_packet(&login, 0) {
        Ok(f) => f,
        Err(e) => return Err(e),
    };
    push_all(&mut out, second.as_slice());
    Ok(out)
}

} // verus!
