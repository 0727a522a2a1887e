use rustyproxy::error::ProtocolError;
use rustyproxy::packet::configuration::{BrandChannel, PlayerConfigurationPluginMessagePacket};
use rustyproxy::packet::data::{
    read_bool, read_string, read_ushort, read_uuid, read_varint, varint_size, write_bool,
    write_string, write_ushort, write_uuid, write_varint,
};
use rustyproxy::packet::handshake::HandshakePacket;
use rustyproxy::packet::login::{LoginDisconnectPacket, LoginStartPacket, LoginSuccessPacket};
use rustyproxy::packet::play::SystemChatMessagePacket;
use std::io::Read;

use rustyproxy::packet::{
    check_frame_length, decode_frame_body, encode_frame, encode_packet, read_packet_from_bytes, Packet,
    MAX_FRAME_LENGTH,
};

fn varint(v: u32) -> Vec<u8> {
    let mut b = Vec::new();
    write_varint(&mut b, v);
    b
}

#[test]
fn varint_boundaries_round_trip() {
    let cases: [(u32, usize); 10] = [
        (0, 1),
        (127, 1),
        (128, 2),
        (16383, 2),
        (16384, 3),
        (2097151, 3),
        (2097152, 4),
        (268435455, 4),
        (268435456, 5),
        (u32::MAX, 5),
    ];
    for (v, size) in cases {
        let b = varint(v);
        assert_eq!(b.len(), size);
        assert_eq!(varint_size(v), size);
        let mut pos = 0usize;
        assert_eq!(read_varint(&b, &mut pos), Ok(v));
        assert_eq!(pos, size);
    }
}

#[test]
fn varint_exact_bytes() {
    assert_eq!(varint(300), vec![0xAC, 0x02]);
    assert_eq!(varint(u32::MAX), vec![0xFF, 0xFF, 0xFF, 0xFF, 0x0F]);
}

#[test]
fn varint_short_buffer_and_overflow() {
    let mut pos = 0usize;
    assert_eq!(read_varint(&[0x80, 0x80], &mut pos), Err(ProtocolError::ShortBuffer));
    assert_eq!(pos, 0);
    let mut pos = 0usize;
    assert_eq!(
        read_varint(&[0x80, 0x80, 0x80, 0x80, 0x80, 0x01], &mut pos),
        Err(ProtocolError::VarintOverflow)
    );
    assert_eq!(pos, 0);
    let mut pos = 0usize;
    assert_eq!(read_varint(&[], &mut pos), Err(ProtocolError::ShortBuffer));
}

#[test]
fn varint_reads_from_position() {
    let b = vec![0x05, 0xAC, 0x02, 0x07];
    let mut pos = 1usize;
    assert_eq!(read_varint(&b, &mut pos), Ok(300));
    assert_eq!(pos, 3);
}

#[test]
fn string_round_trip() {
    for s in ["", "a", "minecraft:brand", "héllo wörld ✓", "§cKick"] {
        let mut b = Vec::new();
        write_string(&mut b, s);
        assert_eq!(b.len(), varint_size(s.len() as u32) + s.len());
        let mut pos = 0usize;
        assert_eq!(read_string(&b, &mut pos).unwrap(), s);
        assert_eq!(pos, b.len());
    }
}

#[test]
fn string_long_round_trip() {
    let s = "x".repeat(1 << 20);
    let mut b = Vec::new();
    write_string(&mut b, &s);
    let mut pos = 0usize;
    assert_eq!(read_string(&b, &mut pos).unwrap(), s);
}

#[test]
fn string_errors() {
    let mut pos = 0usize;
    assert_eq!(read_string(&[0x03, b'a', b'b'], &mut pos), Err(ProtocolError::ShortBuffer));
    assert_eq!(pos, 0);
    let mut pos = 0usize;
    assert_eq!(read_string(&[0x02, 0xC3, 0x28], &mut pos), Err(ProtocolError::BadUtf8));
    assert_eq!(pos, 0);
}

#[test]
fn ushort_bool_uuid() {
    let mut b = Vec::new();
    write_ushort(&mut b, 25565);
    assert_eq!(b, vec![0x63, 0xDD]);
    let mut pos = 0usize;
    assert_eq!(read_ushort(&b, &mut pos), Ok(25565));
    assert_eq!(pos, 2);
    assert_eq!(read_ushort(&b, &mut pos), Err(ProtocolError::ShortBuffer));

    let mut b = Vec::new();
    write_bool(&mut b, true);
    write_bool(&mut b, false);
    b.push(7);
    assert_eq!(&b[..2], &[1, 0]);
    let mut pos = 0usize;
    assert_eq!(read_bool(&b, &mut pos), Ok(true));
    assert_eq!(read_bool(&b, &mut pos), Ok(false));
    assert_eq!(read_bool(&b, &mut pos), Ok(true));
    assert_eq!(read_bool(&b, &mut pos), Err(ProtocolError::ShortBuffer));

    let u: u128 = 0x0011_2233_4455_6677_8899_aabb_ccdd_eeff;
    let mut b = Vec::new();
    write_uuid(&mut b, u);
    assert_eq!(b[0], 0x00);
    assert_eq!(b[1], 0x11);
    assert_eq!(b[15], 0xff);
    let mut pos = 0usize;
    assert_eq!(read_uuid(&b, &mut pos), Ok(u));
    assert_eq!(pos, 16);
    let mut pos = 1usize;
    assert_eq!(read_uuid(&b, &mut pos), Err(ProtocolError::ShortBuffer));
}

#[test]
fn uncompressed_frame_round_trip() {
    let payload = vec![1u8, 2, 3, 4];
    let frame = encode_frame(0x2A, &payload, 0).unwrap();
    assert_eq!(frame, vec![5, 0x2A, 1, 2, 3, 4]);
    let (len, id, data) = read_packet_from_bytes(&frame, 0).unwrap();
    assert_eq!(len, 5);
    assert_eq!(id, 0x2A);
    assert_eq!(data, payload);
}

#[test]
fn compressed_frame_below_threshold() {
    let payload = vec![9u8; 10];
    let frame = encode_frame(0x01, &payload, 128).unwrap();
    assert_eq!(frame[0] as usize, 1 + 1 + payload.len());
    assert_eq!(frame[1], 0);
    assert_eq!(frame[2], 0x01);
    let (len, id, data) = read_packet_from_bytes(&frame, 128).unwrap();
    assert_eq!(len as usize, 12);
    assert_eq!(id, 0x01);
    assert_eq!(data, payload);
}

#[test]
fn compressed_frame_above_threshold() {
    let payload: Vec<u8> = (0..600u32).map(|i| (i % 7) as u8).collect();
    let frame = encode_frame(0x10, &payload, 256).unwrap();
    let mut pos = 0usize;
    let total = read_varint(&frame, &mut pos).unwrap() as usize;
    assert_eq!(total, frame.len() - pos);
    let data_len = read_varint(&frame, &mut pos).unwrap();
    assert_eq!(data_len as usize, 1 + payload.len());
    assert!(frame.len() < payload.len());
    let (len, id, data) = read_packet_from_bytes(&frame, 256).unwrap();
    assert_eq!(len as usize, total);
    assert_eq!(id, 0x10);
    assert_eq!(data, payload);
}

#[test]
fn nonzero_data_length_below_threshold_is_inline() {
    // data length 3 < threshold 64: the rest is read as it stands
    let body = vec![3u8, 0x05, 0xAA, 0xBB];
    let (id, data) = decode_frame_body(&body, 64).unwrap();
    assert_eq!(id, 5);
    assert_eq!(data, vec![0xAA, 0xBB]);
}

#[test]
fn frame_errors() {
    assert_eq!(read_packet_from_bytes(&[0x00], 0), Err(ProtocolError::ZeroLength));
    assert_eq!(read_packet_from_bytes(&[0x05, 0x01, 0x02], 0), Err(ProtocolError::ShortFrame));
    assert_eq!(read_packet_from_bytes(&[0x80], 0), Err(ProtocolError::ShortBuffer));
    assert_eq!(
        read_packet_from_bytes(&[0x80, 0x80, 0x80, 0x80, 0x80, 0x00], 0),
        Err(ProtocolError::VarintOverflow)
    );
    // data length 200 >= threshold 100, but the rest is not zlib
    assert_eq!(
        read_packet_from_bytes(&[0x04, 0xC8, 0x01, 0x00, 0x00], 100),
        Err(ProtocolError::DecompressError)
    );
}

#[test]
fn frame_followed_by_more_bytes() {
    let mut bytes = encode_frame(0x03, &[0x80, 0x01], 0).unwrap();
    bytes.extend_from_slice(&[0xFF, 0xFF]);
    let (len, id, data) = read_packet_from_bytes(&bytes, 0).unwrap();
    assert_eq!((len, id, data), (3, 3, vec![0x80, 0x01]));
}

#[test]
fn handshake_round_trip() {
    let h = HandshakePacket {
        protocol: 769,
        server_address: "localhost".to_owned(),
        port: 25565,
        next_state: 2,
    };
    let frame = encode_packet(&h, 0).unwrap();
    let raw = read_packet_from_bytes(&frame, 0).unwrap();
    assert_eq!(raw.1, HandshakePacket::id());
    let back = HandshakePacket::read_from(&raw).unwrap();
    assert_eq!(back.protocol, 769);
    assert_eq!(back.server_address, "localhost");
    assert_eq!(back.port, 25565);
    assert_eq!(back.next_state, 2);
}

#[test]
fn id_mismatch_leaves_frame_intact() {
    let frame = encode_packet(&LoginSuccessPacket {}, 0).unwrap();
    let raw = read_packet_from_bytes(&frame, 0).unwrap();
    assert_eq!(
        HandshakePacket::read_from(&raw).unwrap_err(),
        ProtocolError::IdMismatch
    );
    let again = read_packet_from_bytes(&frame, 0).unwrap();
    assert_eq!(again.1, 0x02);
    assert!(LoginSuccessPacket::read_from(&again).is_ok());
}

#[test]
fn login_start_round_trip_and_player_info() {
    let p = LoginStartPacket { username: "a".to_owned(), uuid: 0 };
    let frame = encode_packet(&p, 0).unwrap();
    assert_eq!(frame, {
        let mut v = vec![19u8, 0x00, 0x01, b'a'];
        v.extend_from_slice(&[0u8; 16]);
        v
    });
    let raw = read_packet_from_bytes(&frame, 0).unwrap();
    let back = LoginStartPacket::read_from(&raw).unwrap();
    let info = back.as_player_info();
    assert_eq!(info.username, "a");
    assert_eq!(info.uuid, 0);
}

#[test]
fn login_start_short_uuid() {
    let raw = (4u32, 0u32, vec![0x01, b'a', 0x00]);
    assert_eq!(LoginStartPacket::read_from(&raw).unwrap_err(), ProtocolError::ShortBuffer);
}

#[test]
fn login_disconnect_round_trip() {
    let p = LoginDisconnectPacket { reason: "{\"text\":\"bye\"}".to_owned() };
    let frame = encode_packet(&p, 0).unwrap();
    let raw = read_packet_from_bytes(&frame, 0).unwrap();
    assert_eq!(raw.1, 0x00);
    assert_eq!(LoginDisconnectPacket::read_from(&raw).unwrap().reason, "{\"text\":\"bye\"}");
}

#[test]
fn system_chat_round_trip() {
    let p = SystemChatMessagePacket { text: vec![0x08, 0x00, 0x02, b'h', b'i'], overlay: true };
    let frame = encode_packet(&p, 0).unwrap();
    let raw = read_packet_from_bytes(&frame, 0).unwrap();
    assert_eq!(raw.1, 0x73);
    let back = SystemChatMessagePacket::read_from(&raw).unwrap();
    assert_eq!(back.text, p.text);
    assert!(back.overlay);
    let empty = (1u32, 0x73u32, Vec::new());
    assert_eq!(SystemChatMessagePacket::read_from(&empty).unwrap_err(), ProtocolError::ShortBuffer);
}

#[test]
fn brand_message_round_trip() {
    let p = PlayerConfigurationPluginMessagePacket { data: BrandChannel { brand: "vanilla".to_owned() } };
    let frame = encode_packet(&p, 0).unwrap();
    let raw = read_packet_from_bytes(&frame, 0).unwrap();
    assert_eq!(raw.1, 0x01);
    let back = PlayerConfigurationPluginMessagePacket::<BrandChannel>::read_from(&raw).unwrap();
    assert_eq!(back.data.brand, "vanilla");

    let mut other = Vec::new();
    write_string(&mut other, "minecraft:other");
    write_string(&mut other, "x");
    let raw = (0u32, 0x01u32, other);
    assert_eq!(
        PlayerConfigurationPluginMessagePacket::<BrandChannel>::read_from(&raw).unwrap_err(),
        ProtocolError::IdMismatch
    );
}

#[test]
fn large_packet_compressed_through_encode_packet() {
    let p = LoginDisconnectPacket { reason: "y".repeat(1000) };
    let frame = encode_packet(&p, 256).unwrap();
    assert!(frame.len() < 1000);
    let raw = read_packet_from_bytes(&frame, 256).unwrap();
    assert_eq!(LoginDisconnectPacket::read_from(&raw).unwrap().reason, "y".repeat(1000));
}

#[test]
fn compressed_block_inflates_to_id_and_payload() {
    let payload = vec![0x42u8; 300];
    let frame = encode_frame(0x05, &payload, 64).unwrap();
    let mut pos = 0usize;
    read_varint(&frame, &mut pos).unwrap();
    let data_len = read_varint(&frame, &mut pos).unwrap();
    let mut inflated = Vec::new();
    flate2::read::ZlibDecoder::new(&frame[pos..]).read_to_end(&mut inflated).unwrap();
    assert_eq!(inflated.len(), data_len as usize);
    assert_eq!(inflated[0], 0x05);
    assert_eq!(&inflated[1..], &payload[..]);
}

#[test]
fn frame_length_cap() {
    assert_eq!(check_frame_length(MAX_FRAME_LENGTH), Ok(()));
    assert_eq!(check_frame_length(MAX_FRAME_LENGTH + 1), Err(ProtocolError::FrameTooLarge));
    assert_eq!(MAX_FRAME_LENGTH, 2097151);
}
