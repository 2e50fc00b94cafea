use project_neon::codec::decode_datagram;
use project_neon::codec::CorePacketType;
use project_neon::codec::encode_packet;
use project_neon::codec::Ack;
use project_neon::codec::ConnectAccept;
use project_neon::codec::ConnectDeny;
use project_neon::codec::ConnectRequest;
use project_neon::codec::DecodeError;
use project_neon::codec::NeonPacket;
use project_neon::codec::PacketHeader;
use project_neon::codec::PacketPayload;
use project_neon::codec::PacketTypeEntry;
use project_neon::codec::PacketTypeRegistry;
use project_neon::codec::Ping;
use project_neon::codec::Pong;
use project_neon::codec::SessionConfig;
use project_neon::codec::MAX_DATAGRAM_LEN;
use project_neon::codec::OPCODE_CONNECT_REQUEST;
use project_neon::codec::OPCODE_PING;

fn datagram(packet: &NeonPacket) -> Vec<u8> {
    encode_packet(packet)
}

#[test]
fn header_round_trip() {
    let header = PacketHeader {
        magic: 0x4E45,
        version: 1,
        packet_type: 0x0B,
        sequence: 0x1234,
        client_id: 7,
        destination_id: 1,
    };
    let bytes = header.to_bytes();
    assert_eq!(bytes.len(), 8);
    // magic "NE" little-endian, then version, opcode, sequence, ids
    assert_eq!(bytes, vec![0x45, 0x4E, 1, 0x0B, 0x34, 0x12, 7, 1]);
    let parsed = PacketHeader::from_bytes(&bytes).unwrap();
    assert_eq!(parsed, header);
}

#[test]
fn short_datagram_is_malformed_header() {
    let bytes: Vec<u8> = vec![0x45, 0x4E, 1, 0x0B, 0, 0, 0];
    assert_eq!(decode_datagram(&bytes).unwrap_err(), DecodeError::MalformedHeader);
}

#[test]
fn bad_magic_is_rejected() {
    let bytes: Vec<u8> = vec![0x00, 0x4E, 1, 0x0B, 0, 0, 0, 1];
    assert_eq!(decode_datagram(&bytes).unwrap_err(), DecodeError::MalformedHeader);
}

#[test]
fn version_mismatch_is_rejected() {
    let bytes: Vec<u8> = vec![0x45, 0x4E, 2, 0x0B, 0, 0, 0, 1];
    assert_eq!(decode_datagram(&bytes).unwrap_err(), DecodeError::MalformedHeader);
}

#[test]
fn oversized_datagram_is_rejected() {
    let mut bytes: Vec<u8> = vec![0x45, 0x4E, 1, 0x10, 0, 0, 2, 1];
    bytes.resize(MAX_DATAGRAM_LEN + 1, 0);
    assert_eq!(decode_datagram(&bytes).unwrap_err(), DecodeError::MalformedHeader);
    let mut exact: Vec<u8> = vec![0x45, 0x4E, 1, 0x10, 0, 0, 2, 1];
    exact.resize(MAX_DATAGRAM_LEN, 0);
    assert!(decode_datagram(&exact).is_ok());
}

#[test]
fn short_connect_request_body_is_rejected() {
    // 8-byte header plus a 5-byte body: one short of the 6-byte minimum.
    let mut bytes: Vec<u8> = vec![0x45, 0x4E, 1, OPCODE_CONNECT_REQUEST, 0, 0, 0, 1];
    bytes.extend_from_slice(&[1, 42, 0, 0, 0]);
    assert_eq!(decode_datagram(&bytes).unwrap_err(), DecodeError::MalformedPayload);
}

#[test]
fn short_ping_body_is_rejected() {
    let mut bytes: Vec<u8> = vec![0x45, 0x4E, 1, OPCODE_PING, 0, 0, 2, 1];
    bytes.extend_from_slice(&[1, 2, 3, 4, 5, 6, 7]);
    assert_eq!(decode_datagram(&bytes).unwrap_err(), DecodeError::MalformedPayload);
}

#[test]
fn ping_encodes_little_endian() {
    let packet = NeonPacket {
        packet_type: 0x0B,
        sequence: 10,
        client_id: 2,
        destination_id: 1,
        payload: PacketPayload::Ping(Ping { timestamp: 0x0102030405060708 }),
    };
    let bytes = datagram(&packet);
    assert_eq!(
        bytes,
        vec![
            0x45, 0x4E, 1, 0x0B, 10, 0, 2, 1, 0x08, 0x07, 0x06, 0x05, 0x04, 0x03, 0x02, 0x01,
        ]
    );
}

#[test]
fn fixed_width_bodies_round_trip() {
    let cases = vec![
        NeonPacket {
            packet_type: 0x0B,
            sequence: 10,
            client_id: 2,
            destination_id: 1,
            payload: PacketPayload::Ping(Ping { timestamp: u64::MAX }),
        },
        NeonPacket {
            packet_type: 0x0C,
            sequence: 10,
            client_id: 1,
            destination_id: 2,
            payload: PacketPayload::Pong(Pong { original_timestamp: 1699999999123 }),
        },
        NeonPacket {
            packet_type: 0x02,
            sequence: 1,
            client_id: 2,
            destination_id: 2,
            payload: PacketPayload::ConnectAccept(ConnectAccept {
                assigned_client_id: 2,
                session_id: 42,
            }),
        },
        NeonPacket {
            packet_type: 0x04,
            sequence: 2,
            client_id: 2,
            destination_id: 2,
            payload: PacketPayload::SessionConfig(SessionConfig {
                version: 1,
                tick_rate: 60,
                max_packet_size: 1024,
            }),
        },
    ];
    for packet in &cases {
        let bytes = datagram(packet);
        let decoded = decode_datagram(&bytes).unwrap();
        let reencoded = datagram(&decoded);
        assert_eq!(reencoded, bytes);
    }
}

#[test]
fn connect_request_round_trips_with_and_without_game_id() {
    for game_identifier in [None, Some(0xCAFEBABEu32)] {
        let packet = NeonPacket {
            packet_type: 0x01,
            sequence: 1,
            client_id: 0,
            destination_id: 1,
            payload: PacketPayload::ConnectRequest(ConnectRequest {
                client_version: 1,
                desired_name: b"alice".to_vec(),
                target_session_id: 42,
                game_identifier,
            }),
        };
        let bytes = datagram(&packet);
        let decoded = decode_datagram(&bytes).unwrap();
        match &decoded.payload {
            PacketPayload::ConnectRequest(req) => {
                assert_eq!(req.desired_name, b"alice".to_vec());
                assert_eq!(req.target_session_id, 42);
                assert_eq!(req.game_identifier, game_identifier);
            }
            other => panic!("unexpected payload {:?}", other),
        }
        assert_eq!(datagram(&decoded), bytes);
    }
}

#[test]
fn deny_reason_takes_the_rest_of_the_datagram() {
    let packet = NeonPacket {
        packet_type: 0x03,
        sequence: 1,
        client_id: 1,
        destination_id: 0,
        payload: PacketPayload::ConnectDeny(ConnectDeny {
            reason: b"Name 'bob' is already in use".to_vec(),
        }),
    };
    let bytes = datagram(&packet);
    let decoded = decode_datagram(&bytes).unwrap();
    match &decoded.payload {
        PacketPayload::ConnectDeny(d) => {
            assert_eq!(d.reason, b"Name 'bob' is already in use".to_vec());
        }
        other => panic!("unexpected payload {:?}", other),
    }
    assert_eq!(datagram(&decoded), bytes);
}

#[test]
fn registry_round_trips() {
    let packet = NeonPacket {
        packet_type: 0x05,
        sequence: 3,
        client_id: 2,
        destination_id: 2,
        payload: PacketPayload::PacketTypeRegistry(PacketTypeRegistry {
            entries: vec![
                PacketTypeEntry {
                    packet_id: 0x10,
                    name: b"GamePacket".to_vec(),
                    description: b"Application-defined packet".to_vec(),
                },
                PacketTypeEntry {
                    packet_id: 0x11,
                    name: b"Chat".to_vec(),
                    description: b"".to_vec(),
                },
            ],
        }),
    };
    let bytes = datagram(&packet);
    let decoded = decode_datagram(&bytes).unwrap();
    assert_eq!(datagram(&decoded), bytes);
    match &decoded.payload {
        PacketPayload::PacketTypeRegistry(reg) => {
            assert_eq!(reg.entries.len(), 2);
            assert_eq!(reg.entries[0].name, b"GamePacket".to_vec());
            assert_eq!(reg.entries[1].packet_id, 0x11);
        }
        other => panic!("unexpected payload {:?}", other),
    }
}

#[test]
fn empty_registry_body_is_rejected() {
    // Opcode 0x05 demands at least its count byte.
    let bytes: Vec<u8> = vec![0x45, 0x4E, 1, 0x05, 3, 0, 2, 2];
    assert_eq!(decode_datagram(&bytes).unwrap_err(), DecodeError::MalformedPayload);
}

#[test]
fn empty_ack_body_is_rejected() {
    // Opcode 0x0E demands at least its count byte.
    let bytes: Vec<u8> = vec![0x45, 0x4E, 1, 0x0E, 0, 0, 2, 1];
    assert_eq!(decode_datagram(&bytes).unwrap_err(), DecodeError::MalformedPayload);
}

#[test]
fn truncated_registry_is_rejected() {
    // Count says one entry but the bytes end inside the name.
    let mut bytes: Vec<u8> = vec![0x45, 0x4E, 1, 0x05, 3, 0, 2, 2];
    bytes.extend_from_slice(&[1, 0x10, 5, b'G', b'a']);
    assert_eq!(decode_datagram(&bytes).unwrap_err(), DecodeError::MalformedPayload);
}

#[test]
fn ack_round_trips_and_tolerates_truncation() {
    let packet = NeonPacket {
        packet_type: 0x0E,
        sequence: 0,
        client_id: 2,
        destination_id: 1,
        payload: PacketPayload::Ack(Ack { acknowledged_sequences: vec![2, 7, 0xFFFF] }),
    };
    let bytes = datagram(&packet);
    let decoded = decode_datagram(&bytes).unwrap();
    assert_eq!(datagram(&decoded), bytes);
    match &decoded.payload {
        PacketPayload::Ack(a) => assert_eq!(a.acknowledged_sequences, vec![2, 7, 0xFFFF]),
        other => panic!("unexpected payload {:?}", other),
    }
    // A count larger than the bytes allow keeps only the complete pairs.
    let mut short: Vec<u8> = vec![0x45, 0x4E, 1, 0x0E, 0, 0, 2, 1];
    short.extend_from_slice(&[3, 2, 0, 7]);
    let decoded = decode_datagram(&short).unwrap();
    match &decoded.payload {
        PacketPayload::Ack(a) => assert_eq!(a.acknowledged_sequences, vec![2]),
        other => panic!("unexpected payload {:?}", other),
    }
}

#[test]
fn game_packets_are_opaque() {
    let packet = NeonPacket {
        packet_type: 0x7F,
        sequence: 9,
        client_id: 2,
        destination_id: 1,
        payload: PacketPayload::GamePacket(vec![0xDE, 0xAD, 0xBE, 0xEF]),
    };
    let bytes = datagram(&packet);
    let decoded = decode_datagram(&bytes).unwrap();
    assert_eq!(datagram(&decoded), bytes);
    match &decoded.payload {
        PacketPayload::GamePacket(d) => assert_eq!(d, &vec![0xDE, 0xAD, 0xBE, 0xEF]),
        other => panic!("unexpected payload {:?}", other),
    }
}

#[test]
fn core_packet_types_map_to_their_opcodes() {
    let expected = [
        (CorePacketType::ConnectRequest, 0x01u8),
        (CorePacketType::ConnectAccept, 0x02),
        (CorePacketType::ConnectDeny, 0x03),
        (CorePacketType::SessionConfig, 0x04),
        (CorePacketType::PacketTypeRegistry, 0x05),
        (CorePacketType::Ping, 0x0B),
        (CorePacketType::Pong, 0x0C),
        (CorePacketType::DisconnectNotice, 0x0D),
        (CorePacketType::Ack, 0x0E),
    ];
    for (kind, opcode) in expected {
        assert_eq!(kind.opcode(), opcode);
    }
}
