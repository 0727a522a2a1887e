//! Packet framing: the length prefix, the optional zlib layer, and the
//! packet id in front of the payload.
use vstd::prelude::*;

use crate::error::ProtocolError;

use self::data::{copy_range, push_all, varint_bytes, varint_decode, varint_size, write_varint};

pub mod configuration;
pub mod data;
pub mod handshake;
pub mod login;
pub mod play;

verus! {

/// One frame as read: its declared length, its packet id, and the payload
/// that follows the id (after inflation, where the frame was compressed).
pub type RawPacket = (u32, u32, Vec<u8>);

/// The zlib stream that flate2's encoder makes of `data` at the default level.
pub uninterp spec fn zlib_compress(data: Seq<u8>) -> Seq<u8>;

/// What flate2's decoder inflates `data` to, or `None` where it fails.
pub uninterp spec fn zlib_inflate(data: Seq<u8>) -> Option<Seq<u8>>;

/// Relies on `flate2::write::ZlibEncoder` at `Compression::default()`,
/// writing into a `Vec`: it does not fail (the `Vec` takes every write, and
/// the compressor errs only on bad parameters), its output depends on the
/// input alone, and it inflates back to the input.
#[verifier::external_body]
fn compress(data: &[u8]) -> (r: Option<Vec<u8>>)
    ensures
        r is Some,
        r is Some ==> r->0@ == zlib_compress(data@),
        r is Some ==> zlib_inflate(r->0@) == Some(data@),
{
    let mut encoder = flate2::write::ZlibEncoder::new(Vec::new(), flate2::Compression::default());
    match std::io::Write::write_all(&mut encoder, data) {
        Ok(()) => encoder.finish().ok(),
        Err(_) => None,
    }
}

/// Relies on `flate2::read::ZlibDecoder` read to the end: the inflated bytes
/// of the zlib stream at the start of `data` (bytes after the end of that
/// stream are ignored), or `None` where the stream is corrupt or truncated.
#[verifier::external_body]
fn inflate(data: &[u8]) -> (r: Option<Vec<u8>>)
    ensures
        r is Some <==> zlib_inflate(data@) is Some,
        r is Some ==> r->0@ == zlib_inflate(data@)->0,
{
    let mut out = Vec::new();
    match std::io::Read::read_to_end(&mut flate2::read::ZlibDecoder::new(data), &mut out) {
        Ok(_) => Some(out),
        Err(_) => None,
    }
}

/// The packet id followed by the payload: what a frame carries.
pub open spec fn inner_bytes(id: u32, payload: Seq<u8>) -> Seq<u8> {
    varint_bytes(id) + payload
}

/// The frame that carries `id` and `payload` under compression threshold
/// `threshold` (0: no compression), or `None` where a length does not fit in
/// a VarInt.
pub open spec fn frame_bytes(id: u32, payload: Seq<u8>, threshold: u32) -> Option<Seq<u8>> {
    let inner = inner_bytes(id, payload);
    let u = inner.len();
    if u >= 0x1_0000_0000 {
        None
    } else if threshold == 0 {
        Some(varint_bytes(u as u32) + inner)
    } else if u >= threshold {
        let c = zlib_compress(inner);
        let total = varint_bytes(u as u32).len() + c.len();
        if total >= 0x1_0000_0000 {
            None
        } else {
            Some(varint_bytes(total as u32) + varint_bytes(u as u32) + c)
        }
    } else if u + 1 >= 0x1_0000_0000 {
        None
    } else {
        Some(varint_bytes((u + 1) as u32) + seq![0u8] + inner)
    }
}

/// Encodes one frame carrying `id` and `payload`. Under a nonzero threshold,
/// an id and payload of at least `threshold` bytes are compressed; shorter
/// ones go inline behind a zero data length.
pub fn encode_frame(id: u32, payload: &[u8], threshold: u32) -> (r: Result<Vec<u8>, ProtocolError>)
    ensures
        r is Ok ==> frame_bytes(id, payload@, threshold) == Some(r->Ok_0@),
        r is Ok <==> frame_bytes(id, payload@, threshold) is Some,
        r is Err ==> r->Err_0 == ProtocolError::FrameTooLarge,
        r is Ok && threshold > 0 && inner_bytes(id, payload@).len() >= threshold ==> zlib_inflate(
            zlib_compress(inner_bytes(id, payload@)),
        ) == Some(inner_bytes(id, payload@)),
        r is Ok ==> frame_decode(r->Ok_0@, threshold) == Ok::<(u32, u32, Seq<u8>), ProtocolError>(
            (frame_declared_len(id, payload@, threshold) as u32, id, payload@),
        ),
{
    let mut inner: Vec<u8> = Vec::new();
    write_varint(&mut inner, id);
    push_all(&mut inner, payload);
    assert(inner@ =~= inner_bytes(id, payload@));
    let u: usize = inner.len();
    if u as u64 >= 0x1_0000_0000 {
        return Err(ProtocolError::FrameTooLarge);
    }
    let u32_len: u32 = u as u32;
    let mut frame: Vec<u8> = Vec::new();
    if threshold == 0 {
        write_varint(&mut frame, u32_len);
        push_all(&mut frame, inner.as_slice());
    } else if u32_len >= threshold {
        let c = compress(inner.as_slice()).unwrap();
        if c.len() as u64 >= 0x1_0000_0000 {
            return Err(ProtocolError::FrameTooLarge);
        }
        let total: u64 = varint_size(u32_len) as u64 + c.len() as u64;
        if total >= 0x1_0000_0000 {
            return Err(ProtocolError::FrameTooLarge);
        }
        write_varint(&mut frame, total as u32);
        write_varint(&mut frame, u32_len);
        push_all(&mut frame, c.as_slice());
        proof {
            lemma_frame_decode_encoded(id, payload@, threshold, seq![]);
            assert(frame@ + seq![] =~= frame@);
        }
        return Ok(frame);
    } else {
        if u32_len as u64 + 1 >= 0x1_0000_0000 {
            return Err(ProtocolError::FrameTooLarge);
        }
        write_varint(&mut frame, u32_len + 1);
        write_varint(&mut frame, 0);
        push_all(&mut frame, inner.as_slice());
        assert(varint_bytes(0) =~= seq![0u8]);
    }
    proof {
        lemma_frame_decode_encoded(id, payload@, threshold, seq![]);
        assert(frame@ + seq![] =~= frame@);
    }
    Ok(frame)
}

/// The packet id and payload that `b` carries: a VarInt id, then the payload.
pub open spec fn id_payload_decode(b: Seq<u8>) -> Result<(u32, Seq<u8>), ProtocolError> {
    match varint_decode(b, 0) {
        Ok((id, n)) => Ok((id, b.subrange(n as int, b.len() as int))),
        Err(e) => Err(e),
    }
}

/// The packet id and payload that a frame body (the bytes after the length
/// prefix) carries under threshold `threshold`.
pub open spec fn body_decode(body: Seq<u8>, threshold: u32) -> Result<(u32, Seq<u8>), ProtocolError> {
    if threshold == 0 {
        id_payload_decode(body)
    } else {
        match varint_decode(body, 0) {
            Err(e) => Err(e),
            Ok((d, n)) => {
                let rest = body.subrange(n as int, body.len() as int);
                if d >= threshold {
                    match zlib_inflate(rest) {
                        Some(x) => id_payload_decode(x),
                        None => Err(ProtocolError::DecompressError),
                    }
                } else {
                    id_payload_decode(rest)
                }
            },
        }
    }
}

/// The frame at the start of `b`: its declared length, id and payload.
pub open spec fn frame_decode(b: Seq<u8>, threshold: u32) -> Result<(u32, u32, Seq<u8>), ProtocolError> {
    match varint_decode(b, 0) {
        Err(e) => Err(e),
        Ok((l, n)) => if l == 0 {
            Err(ProtocolError::ZeroLength)
        } else if n + l > b.len() {
            Err(ProtocolError::ShortFrame)
        } else {
            match body_decode(b.subrange(n as int, n + l), threshold) {
                Ok((id, p)) => Ok((l, id, p)),
                Err(e) => Err(e),
            }
        },
    }
}

/// Reads a VarInt id at the start of `b` and copies the rest as the payload.
fn decode_id_payload(b: &[u8]) -> (r: Result<(u32, Vec<u8>), ProtocolError>)
    ensures
        match id_payload_decode(b@) {
            Ok((id, p)) => r is Ok && r->Ok_0.0 == id && r->Ok_0.1@ == p,
            Err(e) => r == Err::<(u32, Vec<u8>), ProtocolError>(e),
        },
{
    let mut pos: usize = 0;
    proof {
        data::lemma_varint_decode_within(b@, 0, 0, 0);
    }
    match data::read_varint(b, &mut pos) {
        Ok(id) => Ok((id, copy_range(b, pos, b.len()))),
        Err(e) => Err(e),
    }
}

/// Decodes the body of one frame (the bytes after its length prefix) into its
/// packet id and payload, inflating it where its data length reaches the
/// threshold.
pub fn decode_frame_body(body: &[u8], threshold: u32) -> (r: Result<(u32, Vec<u8>), ProtocolError>)
    ensures
        match body_decode(body@, threshold) {
            Ok((id, p)) => r is Ok && r->Ok_0.0 == id && r->Ok_0.1@ == p,
            Err(e) => r == Err::<(u32, Vec<u8>), ProtocolError>(e),
        },
{
    if threshold == 0 {
        return decode_id_payload(body);
    }
    let mut pos: usize = 0;
    proof {
        data::lemma_varint_decode_within(body@, 0, 0, 0);
    }
    let d = match data::read_varint(body, &mut pos) {
        Ok(d) => d,
        Err(e) => return Err(e),
    };
    let rest = copy_range(body, pos, body.len());
    if d >= threshold {
        match inflate(rest.as_slice()) {
            Some(x) => decode_id_payload(x.as_slice()),
            None => Err(ProtocolError::DecompressError),
        }
    } else {
        decode_id_payload(rest.as_slice())
    }
}

/// Decodes the frame at the start of `slice`; bytes after it are left alone.
pub fn read_packet_from_bytes(slice: &[u8], compression_threshold: u32) -> (r: Result<
    RawPacket,
    ProtocolError,
>)
    ensures
        match frame_decode(slice@, compression_threshold) {
            Ok((l, id, p)) => r is Ok && r->Ok_0.0 == l && r->Ok_0.1 == id && r->Ok_0.2@ == p,
            Err(e) => r == Err::<RawPacket, ProtocolError>(e),
        },
{
    let mut pos: usize = 0;
    proof {
        data::lemma_varint_decode_within(slice@, 0, 0, 0);
    }
    let l = match data::read_varint(slice, &mut pos) {
        Ok(l) => l,
        Err(e) => return Err(e),
    };
    if l == 0 {
        return Err(ProtocolError::ZeroLength);
    }
    if l as usize > slice.len() - pos {
        return Err(ProtocolError::ShortFrame);
    }
    let body = copy_range(slice, pos, pos + l as usize);
    match decode_frame_body(body.as_slice(), compression_threshold) {
        Ok((id, payload)) => Ok((l, id, payload)),
        Err(e) => Err(e),
    }
}

/// The length that the prefix of the frame for `id` and `payload` declares.
pub open spec fn frame_declared_len(id: u32, payload: Seq<u8>, threshold: u32) -> nat {
    let inner = inner_bytes(id, payload);
    let u = inner.len();
    if threshold == 0 {
        u
    } else if u >= threshold {
        varint_bytes(u as u32).len() + zlib_compress(inner).len()
    } else {
        u + 1
    }
}

/// The id and payload come back out of `inner_bytes`.
proof fn lemma_id_payload(id: u32, payload: Seq<u8>)
    ensures
        id_payload_decode(inner_bytes(id, payload)) == Ok::<(u32, Seq<u8>), ProtocolError>(
            (id, payload),
        ),
{
    let e = varint_bytes(id);
    data::lemma_varint_round_trip(id, payload);
    assert((e + payload).subrange(e.len() as int, (e + payload).len() as int) =~= payload);
}

/// Decoding an encoded frame, with any bytes after it, gives back its
/// declared length, id and payload. Under compression this rests on the
/// compressed bytes inflating back, which the encoder checks when it runs.
proof fn lemma_frame_decode_encoded(id: u32, payload: Seq<u8>, threshold: u32, rest: Seq<u8>)
    requires
        frame_bytes(id, payload, threshold) is Some,
        threshold > 0 && inner_bytes(id, payload).len() >= threshold ==> zlib_inflate(
            zlib_compress(inner_bytes(id, payload)),
        ) == Some(inner_bytes(id, payload)),
    ensures
        frame_decode(frame_bytes(id, payload, threshold)->0 + rest, threshold) == Ok::<
            (u32, u32, Seq<u8>),
            ProtocolError,
        >((frame_declared_len(id, payload, threshold) as u32, id, payload)),
{
    let inner = inner_bytes(id, payload);
    let u = inner.len();
    let f = frame_bytes(id, payload, threshold)->0;
    let l = frame_declared_len(id, payload, threshold);
    let lv = varint_bytes(l as u32);
    let body = f.subrange(lv.len() as int, f.len() as int);
    lemma_id_payload(id, payload);
    data::lemma_varint_len(l as u32);
    assert(f =~= lv + body);
    assert(body.len() == l);
    data::lemma_varint_round_trip(l as u32, body + rest);
    assert(f + rest =~= lv + (body + rest));
    assert((f + rest).subrange(lv.len() as int, (lv.len() + l) as int) =~= body);
    if threshold == 0 {
        assert(body =~= inner);
    } else if u >= threshold {
        let uv = varint_bytes(u as u32);
        let c = zlib_compress(inner);
        assert(body =~= uv + c);
        data::lemma_varint_round_trip(u as u32, c);
        assert(body.subrange(uv.len() as int, body.len() as int) =~= c);
    } else {
        assert(varint_bytes(0) =~= seq![0u8]);
        assert(body =~= varint_bytes(0) + inner);
        data::lemma_varint_round_trip(0, inner);
        assert(body.subrange(1, body.len() as int) =~= inner);
    }
}

/// Uncompressed frames: decoding the frame for `id` and `payload` gives the
/// length `varint_size(id) + len(payload)`, the id and the payload.
pub proof fn lemma_uncompressed_round_trip(id: u32, payload: Seq<u8>, rest: Seq<u8>)
    requires
        varint_bytes(id).len() + payload.len() < 0x1_0000_0000,
    ensures
        frame_bytes(id, payload, 0) is Some,
        frame_decode(frame_bytes(id, payload, 0)->0 + rest, 0) == Ok::<
            (u32, u32, Seq<u8>),
            ProtocolError,
        >(((varint_bytes(id).len() + payload.len()) as u32, id, payload)),
{
    lemma_frame_decode_encoded(id, payload, 0, rest);
}

/// Compressed frames below the threshold: the data length written is zero,
/// and decoding gives back the id and payload without inflating anything.
pub proof fn lemma_below_threshold_round_trip(
    id: u32,
    payload: Seq<u8>,
    threshold: u32,
    rest: Seq<u8>,
)
    requires
        threshold > 0,
        varint_bytes(id).len() + payload.len() < threshold,
    ensures
        frame_bytes(id, payload, threshold) is Some,
        ({
            let f = frame_bytes(id, payload, threshold)->0;
            let n = varint_bytes((varint_bytes(id).len() + payload.len() + 1) as u32).len();
            &&& f[n as int] == 0
            &&& f.subrange((n + 1) as int, f.len() as int) == inner_bytes(id, payload)
        }),
        frame_decode(frame_bytes(id, payload, threshold)->0 + rest, threshold) == Ok::<
            (u32, u32, Seq<u8>),
            ProtocolError,
        >(((varint_bytes(id).len() + payload.len() + 1) as u32, id, payload)),
{
    let inner = inner_bytes(id, payload);
    let f = frame_bytes(id, payload, threshold)->0;
    let lv = varint_bytes((inner.len() + 1) as u32);
    assert(f =~= lv + seq![0u8] + inner);
    assert(f.subrange((lv.len() + 1) as int, f.len() as int) =~= inner);
    lemma_frame_decode_encoded(id, payload, threshold, rest);
}

/// A typed packet: a fixed id per phase, a payload encoding, and a decoder
/// that checks the id of a frame before reading its payload.
pub trait Packet: Sized {
    /// The packet id.
    spec fn spec_id() -> u32;

    /// The payload bytes that `write_to` appends.
    spec fn spec_payload(&self) -> Seq<u8>;

    /// The error that decoding `payload` meets, if any.
    spec fn spec_decode_error(payload: Seq<u8>) -> Option<ProtocolError>;

    /// Whether `p` is the packet that `payload` decodes to.
    spec fn spec_decodes_to(payload: Seq<u8>, p: Self) -> bool;

    fn id() -> (r: u32)
        ensures
            r == Self::spec_id(),
    ;

    fn write_to(&self, buffer: &mut Vec<u8>)
        ensures
            final(buffer)@ == old(buffer)@ + self.spec_payload(),
    ;

    /// Decodes a frame that was read as a `RawPacket`: a frame with another id
    /// is refused with `IdMismatch`.
    fn read_from(packet: &RawPacket) -> (r: Result<Self, ProtocolError>)
        ensures
            packet.1 != Self::spec_id() ==> r == Err::<Self, ProtocolError>(
                ProtocolError::IdMismatch,
            ),
            packet.1 == Self::spec_id() ==> match Self::spec_decode_error(packet.2@) {
                Some(e) => r == Err::<Self, ProtocolError>(e),
                None => r is Ok && Self::spec_decodes_to(packet.2@, r->Ok_0),
            },
    ;
}

/// A packet that the proxy receives from a player.
pub trait ProxyboundPacket: Packet {

}

/// A packet that the proxy sends toward a player.
pub trait PlayerboundPacket: Packet {

}

/// Encodes `packet` as one frame under threshold `compression_threshold`.
pub fn encode_packet<P: Packet>(packet: &P, compression_threshold: u32) -> (r: Result<
    Vec<u8>,
    ProtocolError,
>)
    ensures
        r is Ok ==> frame_bytes(P::spec_id(), packet.spec_payload(), compression_threshold) == Some(
            r->Ok_0@,
        ),
        r is Ok ==> frame_decode(r->Ok_0@, compression_threshold) == Ok::<
            (u32, u32, Seq<u8>),
            ProtocolError,
        >(
            (
                frame_declared_len(P::spec_id(), packet.spec_payload(), compression_threshold) as u32,
                P::spec_id(),
                packet.spec_payload(),
            ),
        ),
        r is Ok <==> frame_bytes(P::spec_id(), packet.spec_payload(), compression_threshold) is Some,
        r is Err ==> r->Err_0 == ProtocolError::FrameTooLarge,
        r is Ok && compression_threshold > 0 && inner_bytes(P::spec_id(), packet.spec_payload()).len()
            >= compression_threshold ==> zlib_inflate(
            zlib_compress(inner_bytes(P::spec_id(), packet.spec_payload())),
        ) == Some(inner_bytes(P::spec_id(), packet.spec_payload())),
{
    let mut payload: Vec<u8> = Vec::new();
    packet.write_to(&mut payload);
    assert(payload@ =~= packet.spec_payload());
    encode_frame(P::id(), payload.as_slice(), compression_threshold)
}

/// Compressed frames at or above the threshold: the frame is the VarInt of
/// `varint_size(U) + len(C)`, the VarInt of `U`, then `C`, where `U` is the
/// length of the id and payload and `C` their zlib stream. That decoding it
/// gives back the id and payload, with `U` as the data length, is part of
/// what `encode_frame` ensures.
pub proof fn lemma_above_threshold_layout(id: u32, payload: Seq<u8>, threshold: u32)
    requires
        threshold > 0,
        varint_bytes(id).len() + payload.len() >= threshold,
        frame_bytes(id, payload, threshold) is Some,
    ensures
        ({
            let inner = inner_bytes(id, payload);
            let u = inner.len() as u32;
            let c = zlib_compress(inner);
            &&& u == varint_bytes(id).len() + payload.len()
            &&& frame_bytes(id, payload, threshold)->0 == varint_bytes(
                (varint_bytes(u).len() + c.len()) as u32,
            ) + varint_bytes(u) + c
            &&& frame_declared_len(id, payload, threshold) == varint_bytes(u).len() + c.len()
        }),
{
}

/// The longest frame body the proxy accepts: what a three-byte VarInt holds,
/// the protocol's own limit.
pub const MAX_FRAME_LENGTH: u32 = 0x1F_FFFF;

/// Whether a frame declaring `length` bytes is accepted before its bytes are
/// read.
pub fn check_frame_length(length: u32) -> (r: Result<(), ProtocolError>)
    ensures
        r is Ok <==> length <= MAX_FRAME_LENGTH,
        r is Err ==> r->Err_0 == ProtocolError::FrameTooLarge,
{
    if length > MAX_FRAME_LENGTH {
        Err(ProtocolError::FrameTooLarge)
    } else {
        Ok(())
    }
}

} // verus!
