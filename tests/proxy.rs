use rustyproxy::error::ProtocolError;
use rustyproxy::event::{combine_answers, dispatch_answer, EventKind, EventResult, ListenerTable};
use rustyproxy::packet::configuration::{rewrite_brand, BrandChannel, PlayerConfigurationPluginMessagePacket};
use rustyproxy::packet::data::{write_string, write_varint};
use rustyproxy::packet::handshake::HandshakePacket;
use rustyproxy::packet::login::LoginStartPacket;
use rustyproxy::packet::{encode_frame, encode_packet, read_packet_from_bytes, Packet};
use rustyproxy::player::{
    backend_login_frames, join_server_verdict, should_forward, traffic_outcome, BackendLink,
    ConnectionState, PlayerInfo, ServerFrame, TrafficEvent, TrafficForwardingResult,
};
use rustyproxy::server::ProxiedServer;
use rustyproxy::{
    after_handshake, join_proxy_proceeds, kick_notice_owed, new_instance, HandshakeDecision,
    ProxyConfiguration,
};

fn frame(id: u32, payload: &[u8], threshold: u32) -> Vec<u8> {
    encode_frame(id, payload, threshold).unwrap()
}

#[test]
fn last_non_none_answer_wins() {
    let answers = vec![Some(EventResult::Continue), None, Some(EventResult::Stop)];
    assert_eq!(combine_answers(&answers), Some(EventResult::Stop));
    let answers = vec![Some(EventResult::Stop), None, Some(EventResult::Continue), None];
    assert_eq!(combine_answers(&answers), Some(EventResult::Continue));
    let none: Vec<Option<EventResult>> = vec![None, None];
    assert_eq!(combine_answers(&none), None);
}

#[test]
fn lazy_answers_are_discarded() {
    let lazy = vec![false, true, false];
    let a = vec![Some(EventResult::Stop), Some(EventResult::Continue), None];
    let b = vec![Some(EventResult::Stop), None, None];
    assert_eq!(dispatch_answer(&lazy, &a), Some(EventResult::Stop));
    assert_eq!(dispatch_answer(&lazy, &b), Some(EventResult::Stop));
    let all_lazy = vec![true, true];
    let c = vec![Some(EventResult::Stop), Some(EventResult::Stop)];
    assert_eq!(dispatch_answer(&all_lazy, &c), None);
}

#[test]
fn listener_table_keeps_order_per_kind() {
    let mut table = ListenerTable::new();
    assert_eq!(table.listen(EventKind::ServerSentPacket, false), 0);
    assert_eq!(table.listen(EventKind::PlayerJoinedProxy, true), 1);
    assert_eq!(table.listen(EventKind::ServerSentPacket, true), 2);
    assert_eq!(table.listen(EventKind::ServerSentPacket, false), 3);
    assert_eq!(table.listeners_for(EventKind::ServerSentPacket), vec![(0, false), (2, true), (3, false)]);
    assert_eq!(table.listeners_for(EventKind::PlayerJoinedProxy), vec![(1, true)]);
    assert!(table.listeners_for(EventKind::PlayerLeftProxy).is_empty());
}

#[test]
fn no_servers_rejects_login() {
    assert_eq!(after_handshake(2, false), HandshakeDecision::RejectNoServers);
    assert_eq!(after_handshake(2, true), HandshakeDecision::Login);
    assert_eq!(after_handshake(1, false), HandshakeDecision::Close);
    assert_eq!(after_handshake(1, true), HandshakeDecision::Close);
    let config = ProxyConfiguration { proxy_port: 25565, address: None, servers: None };
    let instance = new_instance(config);
    assert!(!instance.has_servers());
    assert_eq!(instance.bind_address(), "0.0.0.0");
}

#[test]
fn set_compression_then_login_success() {
    let mut link = BackendLink::new();
    let mut bytes = Vec::new();
    let mut threshold = Vec::new();
    write_varint(&mut threshold, 128);
    bytes.extend(frame(0x03, &threshold, 0));
    bytes.extend(frame(0x02, &[], 128));
    link.receive(&bytes);
    match link.next_server_frame() {
        ServerFrame::Deliver { packet: Some((_, id, _)), .. } => assert_eq!(id, 0x03),
        other => panic!("unexpected {:?}", other),
    }
    assert_eq!(link.compression_threshold, 128);
    assert_eq!(link.state, ConnectionState::Login);
    match link.next_server_frame() {
        ServerFrame::Deliver { bytes, packet: Some((_, id, data)) } => {
            assert_eq!(id, 0x02);
            assert!(data.is_empty());
            assert_eq!(bytes, frame(0x02, &[], 128));
        }
        other => panic!("unexpected {:?}", other),
    }
    assert_eq!(link.state, ConnectionState::Configuration);
    assert!(matches!(link.next_server_frame(), ServerFrame::NeedMore));
    // a large frame under the new threshold is compressed and still parsed
    let big = vec![5u8; 1000];
    link.receive(&frame(0x07, &big, 128));
    match link.next_server_frame() {
        ServerFrame::Deliver { packet: Some((_, id, data)), .. } => {
            assert_eq!(id, 0x07);
            assert_eq!(data, big);
        }
        other => panic!("unexpected {:?}", other),
    }
}

#[test]
fn phases_advance_in_order() {
    let mut link = BackendLink::new();
    let mut seen = vec![link.state];
    for id in [0x01u32, 0x02, 0x05, 0x02, 0x02, 0x03] {
        link.receive(&frame(id, &[0], 0));
        let _ = link.next_server_frame();
        if *seen.last().unwrap() != link.state {
            seen.push(link.state);
        }
    }
    assert_eq!(seen, vec![ConnectionState::Login, ConnectionState::Configuration, ConnectionState::Play]);
}

#[test]
fn partial_frames_wait_for_more() {
    let mut link = BackendLink::new();
    let f = frame(0x04, &[1, 2, 3], 0);
    link.receive(&f[..2]);
    assert!(matches!(link.next_server_frame(), ServerFrame::NeedMore));
    link.receive(&f[2..]);
    match link.next_server_frame() {
        ServerFrame::Deliver { bytes, packet: Some((4, 4, data)) } => {
            assert_eq!(bytes, f);
            assert_eq!(data, vec![1, 2, 3]);
        }
        other => panic!("unexpected {:?}", other),
    }
    assert!(link.pending.is_empty());
}

#[test]
fn malformed_prefix_is_passed_through() {
    let mut link = BackendLink::new();
    let junk = vec![0xFFu8, 0xFF, 0xFF, 0xFF, 0xFF, 0x01];
    link.receive(&junk);
    match link.next_server_frame() {
        ServerFrame::Deliver { bytes, packet: None } => assert_eq!(bytes, junk),
        other => panic!("unexpected {:?}", other),
    }
    assert!(link.pending.is_empty());
}

#[test]
fn server_kick_in_play() {
    let mut link = BackendLink::new();
    link.state = ConnectionState::Play;
    link.receive(&frame(0x1D, &[0x01], 0));
    assert!(matches!(link.next_server_frame(), ServerFrame::Kick));
    assert!(kick_notice_owed(TrafficForwardingResult::ServerKickedPlayer));
    assert!(!kick_notice_owed(TrafficForwardingResult::ServerErrored));
    // outside play, 0x1D is an ordinary frame
    let mut link = BackendLink::new();
    link.state = ConnectionState::Configuration;
    link.receive(&frame(0x1D, &[0x01], 0));
    assert!(matches!(link.next_server_frame(), ServerFrame::Deliver { .. }));
}

#[test]
fn brand_rewrite_and_stop() {
    let mut payload = Vec::new();
    write_string(&mut payload, "minecraft:brand");
    write_string(&mut payload, "vanilla");
    let raw = read_packet_from_bytes(&frame(0x01, &payload, 0), 0).unwrap();
    let rewritten = rewrite_brand(&raw, ConnectionState::Configuration).unwrap();
    assert_eq!(rewritten.data.brand, "vanilla (rustyproxy)");
    assert!(rewrite_brand(&raw, ConnectionState::Play).is_none());
    let out = encode_packet(&rewritten, 0).unwrap();
    let back = read_packet_from_bytes(&out, 0).unwrap();
    let msg = PlayerConfigurationPluginMessagePacket::<BrandChannel>::read_from(&back).unwrap();
    assert_eq!(msg.data.brand, "vanilla (rustyproxy)");
    assert!(!should_forward(Some(EventResult::Stop)));
    assert!(should_forward(Some(EventResult::Continue)));
    assert!(should_forward(None));
}

#[test]
fn join_veto() {
    assert!(!join_proxy_proceeds(Some(EventResult::Stop)));
    assert!(join_proxy_proceeds(Some(EventResult::Continue)));
    assert!(join_proxy_proceeds(None));
    assert_eq!(join_server_verdict(Some(EventResult::Stop)), Err(ProtocolError::ConnectionAborted));
    assert_eq!(join_server_verdict(None), Ok(()));
}

#[test]
fn two_listeners_add_servers() {
    let config = ProxyConfiguration {
        proxy_port: 25577,
        address: Some("127.0.0.1".to_owned()),
        servers: Some(vec![(
            "lobby".to_owned(),
            ProxiedServer::new("Lobby".to_owned(), "10.0.0.1".to_owned(), 25565),
        )]),
    };
    let mut instance = new_instance(config);
    assert_eq!(instance.bind_address(), "127.0.0.1");
    instance.insert_server("local".to_owned(), ProxiedServer::new("Localhost".to_owned(), "0.0.0.0".to_owned(), 25565));
    instance.insert_server("other".to_owned(), ProxiedServer::new("Other".to_owned(), "10.0.0.2".to_owned(), 25566));
    assert_eq!(instance.servers.len(), 3);
    instance.insert_server("local".to_owned(), ProxiedServer::new("Local 2".to_owned(), "0.0.0.0".to_owned(), 25570));
    assert_eq!(instance.servers.len(), 3);
    let names: Vec<&str> = instance.servers.iter().map(|(k, _)| k.as_str()).collect();
    assert!(names.contains(&"lobby") && names.contains(&"local") && names.contains(&"other"));
    let local = instance.servers.iter().find(|(k, _)| k == "local").unwrap();
    assert_eq!(local.1.port, 25570);
}

#[test]
fn server_selection_policy() {
    let config = ProxyConfiguration {
        proxy_port: 25577,
        address: None,
        servers: Some(vec![(
            "lobby".to_owned(),
            ProxiedServer::new("Lobby".to_owned(), "10.0.0.1".to_owned(), 25565),
        )]),
    };
    let mut instance = new_instance(config);
    assert_eq!(instance.select_server(&"anything".to_owned()), Some(0));
    instance.insert_server("b".to_owned(), ProxiedServer::new("B".to_owned(), "b.example".to_owned(), 1));
    let b = instance.select_server(&"b.example".to_owned()).unwrap();
    assert_eq!(instance.servers[b].0, "b");
    assert_eq!(instance.select_server(&"nowhere".to_owned()), None);
}

#[test]
fn backend_session_opening() {
    let server = ProxiedServer::new("Lobby".to_owned(), "10.0.0.1".to_owned(), 25565);
    let info = PlayerInfo { username: "a".to_owned(), uuid: 0 };
    let bytes = backend_login_frames(&server, &info).unwrap();
    let first = read_packet_from_bytes(&bytes, 0).unwrap();
    let h = HandshakePacket::read_from(&first).unwrap();
    assert_eq!(h.protocol, 769);
    assert_eq!(h.server_address, "10.0.0.1");
    assert_eq!(h.port, 25565);
    assert_eq!(h.next_state, 2);
    let first_len = encode_packet(&h, 0).unwrap().len();
    let second = read_packet_from_bytes(&bytes[first_len..], 0).unwrap();
    let l = LoginStartPacket::read_from(&second).unwrap();
    assert_eq!(l.username, "a");
    assert_eq!(l.uuid, 0);
}

#[test]
fn traffic_outcomes() {
    assert_eq!(traffic_outcome(TrafficEvent::PlayerRead(0)), Some(TrafficForwardingResult::PlayerDisconnected));
    assert_eq!(traffic_outcome(TrafficEvent::PlayerRead(10)), None);
    assert_eq!(traffic_outcome(TrafficEvent::PlayerReadFailed), Some(TrafficForwardingResult::PlayerErrored));
    assert_eq!(
        traffic_outcome(TrafficEvent::BackendWriteFailed { broken_pipe: true }),
        Some(TrafficForwardingResult::PlayerErrored)
    );
    assert_eq!(traffic_outcome(TrafficEvent::BackendWriteFailed { broken_pipe: false }), None);
    assert_eq!(traffic_outcome(TrafficEvent::BackendRead(0)), Some(TrafficForwardingResult::ServerDisconnectedPlayer));
    assert_eq!(traffic_outcome(TrafficEvent::BackendReadFailed), Some(TrafficForwardingResult::ServerErrored));
    assert_eq!(
        traffic_outcome(TrafficEvent::PlayerWriteFailed { broken_pipe: true }),
        Some(TrafficForwardingResult::ServerDisconnectedPlayer)
    );
}

#[test]
fn new_instance_keeps_configuration() {
    let config = ProxyConfiguration {
        proxy_port: 25577,
        address: Some("127.0.0.1".to_owned()),
        servers: Some(vec![
            ("lobby".to_owned(), ProxiedServer::new("Lobby".to_owned(), "10.0.0.1".to_owned(), 25565)),
            ("game".to_owned(), ProxiedServer::new("Game".to_owned(), "10.0.0.2".to_owned(), 25566)),
        ]),
    };
    let instance = new_instance(config);
    assert_eq!(instance.config.proxy_port, 25577);
    assert_eq!(instance.config.address.as_deref(), Some("127.0.0.1"));
    let kept = instance.config.servers.as_ref().unwrap();
    assert_eq!(kept.len(), 2);
    assert_eq!(kept[1].0, "game");
    assert_eq!(instance.servers.len(), 2);
    assert_eq!(instance.servers[0].0, "lobby");
    assert_eq!(instance.servers[0].1.name, "Lobby");
    assert_eq!(instance.servers[1].0, "game");
    assert_eq!(instance.servers[1].1.address, "10.0.0.2");
    assert_eq!(instance.servers[1].1.port, 25566);
}
