use project_neon::client::ClientError;
use project_neon::client::ClientEvent;
use project_neon::client::NeonClient;
use project_neon::client::DEFAULT_PING_INTERVAL_MS;
use project_neon::codec::ConnectAccept;
use project_neon::codec::ConnectDeny;
use project_neon::codec::NeonPacket;
use project_neon::codec::PacketPayload;
use project_neon::codec::PacketTypeEntry;
use project_neon::codec::PacketTypeRegistry;
use project_neon::codec::Pong;
use project_neon::codec::SessionConfig;

fn accept(assigned: u8, session_id: u32) -> NeonPacket {
    NeonPacket {
        packet_type: 0x02,
        sequence: 1,
        client_id: assigned,
        destination_id: assigned,
        payload: PacketPayload::ConnectAccept(ConnectAccept {
            assigned_client_id: assigned,
            session_id,
        }),
    }
}

#[test]
fn connect_request_carries_name_and_session() {
    let client = NeonClient::new(b"alice".to_vec());
    let packet = client.build_connect_request(42, None);
    assert_eq!(packet.packet_type, 0x01);
    assert_eq!(packet.client_id, 0);
    assert_eq!(packet.destination_id, 1);
    match &packet.payload {
        PacketPayload::ConnectRequest(req) => {
            assert_eq!(req.desired_name, b"alice".to_vec());
            assert_eq!(req.target_session_id, 42);
            assert_eq!(req.game_identifier, None);
        }
        other => panic!("unexpected payload {:?}", other),
    }
}

#[test]
fn matching_accept_records_ids_and_echoes() {
    let mut client = NeonClient::new(b"alice".to_vec());
    let echo = client.process_connect_response(&accept(2, 42), 42).unwrap();
    assert_eq!(client.client_id(), Some(2));
    assert_eq!(client.session_id(), Some(42));
    assert_eq!(echo.packet_type, 0x02);
    assert_eq!(echo.sequence, 2);
    assert_eq!(echo.client_id, 2);
    assert_eq!(echo.destination_id, 1);
}

#[test]
fn mismatched_session_fails_without_echo() {
    let mut client = NeonClient::new(b"alice".to_vec());
    match client.process_connect_response(&accept(2, 43), 42) {
        Err(ClientError::SessionMismatch) => {}
        other => panic!("unexpected result {:?}", other),
    }
    assert_eq!(client.client_id(), None);
    assert_eq!(client.session_id(), None);
}

#[test]
fn deny_fails_with_the_carried_reason() {
    let mut client = NeonClient::new(b"bob".to_vec());
    let deny = NeonPacket {
        packet_type: 0x03,
        sequence: 1,
        client_id: 0,
        destination_id: 0,
        payload: PacketPayload::ConnectDeny(ConnectDeny {
            reason: b"Name 'bob' is already in use".to_vec(),
        }),
    };
    match client.process_connect_response(&deny, 42) {
        Err(ClientError::Denied(reason)) => {
            assert_eq!(reason, b"Name 'bob' is already in use".to_vec());
        }
        other => panic!("unexpected result {:?}", other),
    }
}

#[test]
fn unexpected_handshake_packet_is_a_protocol_violation() {
    let mut client = NeonClient::new(b"alice".to_vec());
    let stray = NeonPacket {
        packet_type: 0x0C,
        sequence: 1,
        client_id: 1,
        destination_id: 0,
        payload: PacketPayload::Pong(Pong { original_timestamp: 5 }),
    };
    match client.process_connect_response(&stray, 42) {
        Err(ClientError::ProtocolViolation) => {}
        other => panic!("unexpected result {:?}", other),
    }
}

fn connected_client() -> NeonClient {
    let mut client = NeonClient::new(b"alice".to_vec());
    client.process_connect_response(&accept(2, 42), 42).unwrap();
    client
}

#[test]
fn pong_yields_the_round_trip_time() {
    let client = connected_client();
    let pong = NeonPacket {
        packet_type: 0x0C,
        sequence: 10,
        client_id: 1,
        destination_id: 2,
        payload: PacketPayload::Pong(Pong { original_timestamp: 1000 }),
    };
    let (event, ack) = client.handle_incoming(&pong, 1035);
    match event {
        ClientEvent::Pong { rtt_ms, timestamp } => {
            assert_eq!(rtt_ms, 35);
            assert_eq!(timestamp, 1035);
        }
        other => panic!("unexpected event {:?}", other),
    }
    assert!(ack.is_none());
}

#[test]
fn config_is_surfaced_and_acknowledged() {
    let client = connected_client();
    let config = NeonPacket {
        packet_type: 0x04,
        sequence: 2,
        client_id: 2,
        destination_id: 2,
        payload: PacketPayload::SessionConfig(SessionConfig {
            version: 1,
            tick_rate: 60,
            max_packet_size: 1024,
        }),
    };
    let (event, ack) = client.handle_incoming(&config, 7);
    match event {
        ClientEvent::Config(c) => {
            assert_eq!(c.version, 1);
            assert_eq!(c.tick_rate, 60);
            assert_eq!(c.max_packet_size, 1024);
        }
        other => panic!("unexpected event {:?}", other),
    }
    let ack = ack.expect("config must be acknowledged");
    assert_eq!(ack.packet_type, 0x0E);
    assert_eq!(ack.client_id, 2);
    assert_eq!(ack.destination_id, 1);
    match &ack.payload {
        PacketPayload::Ack(a) => assert_eq!(a.acknowledged_sequences, vec![2]),
        other => panic!("unexpected payload {:?}", other),
    }
}

#[test]
fn registry_is_surfaced() {
    let client = connected_client();
    let registry = NeonPacket {
        packet_type: 0x05,
        sequence: 3,
        client_id: 2,
        destination_id: 2,
        payload: PacketPayload::PacketTypeRegistry(PacketTypeRegistry {
            entries: vec![PacketTypeEntry {
                packet_id: 0x10,
                name: b"GamePacket".to_vec(),
                description: b"Application-defined packet".to_vec(),
            }],
        }),
    };
    let (event, ack) = client.handle_incoming(&registry, 0);
    match event {
        ClientEvent::Registry(entries) => {
            assert_eq!(entries.len(), 1);
            assert_eq!(entries[0].packet_id, 0x10);
            assert_eq!(entries[0].name, b"GamePacket".to_vec());
        }
        other => panic!("unexpected event {:?}", other),
    }
    assert!(ack.is_none());
}

#[test]
fn wrong_destination_is_reported_and_discarded() {
    let client = connected_client();
    let misrouted = NeonPacket {
        packet_type: 0x0C,
        sequence: 10,
        client_id: 1,
        destination_id: 5,
        payload: PacketPayload::Pong(Pong { original_timestamp: 0 }),
    };
    let (event, ack) = client.handle_incoming(&misrouted, 0);
    match event {
        ClientEvent::WrongDestination { my_id, dest_id } => {
            assert_eq!(my_id, 2);
            assert_eq!(dest_id, 5);
        }
        other => panic!("unexpected event {:?}", other),
    }
    assert!(ack.is_none());
}

#[test]
fn auto_ping_follows_the_interval() {
    let mut client = connected_client();
    assert!(client.should_send_ping(0));
    let packet = client.send_ping(1000).unwrap();
    assert_eq!(packet.packet_type, 0x0B);
    assert_eq!(packet.client_id, 2);
    assert!(!client.should_send_ping(1000 + DEFAULT_PING_INTERVAL_MS - 1));
    assert!(client.should_send_ping(1000 + DEFAULT_PING_INTERVAL_MS));
    client.set_auto_ping(false);
    assert!(!client.should_send_ping(1_000_000));
    client.set_auto_ping(true);
    client.set_ping_interval(100);
    assert!(client.should_send_ping(1100));
}

#[test]
fn ping_before_admission_is_refused() {
    let mut client = NeonClient::new(b"alice".to_vec());
    match client.send_ping(0) {
        Err(ClientError::NotConnected) => {}
        other => panic!("unexpected result {:?}", other),
    }
}
