use project_neon::codec::ConnectAccept;
use project_neon::codec::ConnectRequest;
use project_neon::codec::NeonPacket;
use project_neon::codec::PacketPayload;
use project_neon::codec::Ping;
use project_neon::relay::DropReason;
use project_neon::relay::Endpoint;
use project_neon::relay::RelayAction;
use project_neon::relay::RelayNode;
use project_neon::relay::PEER_TIMEOUT_MS;

fn ep(ip: u128, port: u16) -> Endpoint {
    Endpoint { ip, port }
}

fn host_registration(session_id: u32) -> NeonPacket {
    NeonPacket {
        packet_type: 0x02,
        sequence: 0,
        client_id: 1,
        destination_id: 1,
        payload: PacketPayload::ConnectAccept(ConnectAccept {
            assigned_client_id: 1,
            session_id,
        }),
    }
}

fn join_request(name: &[u8], session_id: u32) -> NeonPacket {
    NeonPacket {
        packet_type: 0x01,
        sequence: 1,
        client_id: 0,
        destination_id: 1,
        payload: PacketPayload::ConnectRequest(ConnectRequest {
            client_version: 1,
            desired_name: name.to_vec(),
            target_session_id: session_id,
            game_identifier: None,
        }),
    }
}

fn client_echo(assigned_id: u8, session_id: u32) -> NeonPacket {
    NeonPacket {
        packet_type: 0x02,
        sequence: 2,
        client_id: assigned_id,
        destination_id: 1,
        payload: PacketPayload::ConnectAccept(ConnectAccept {
            assigned_client_id: assigned_id,
            session_id,
        }),
    }
}

fn ping(client_id: u8, dest_id: u8, timestamp: u64) -> NeonPacket {
    NeonPacket {
        packet_type: 0x0B,
        sequence: 10,
        client_id,
        destination_id: dest_id,
        payload: PacketPayload::Ping(Ping { timestamp }),
    }
}

#[test]
fn host_registration_creates_a_session() {
    let mut relay = RelayNode::new();
    let host = ep(10, 7000);
    match relay.handle_packet(host_registration(42), host, 0) {
        RelayAction::HostRegistered(42) => {}
        other => panic!("unexpected action {:?}", other),
    }
    assert_eq!(relay.session_count(), 1);
    assert_eq!(relay.total_client_count(), 1);
}

#[test]
fn join_request_without_host_is_dropped() {
    let mut relay = RelayNode::new();
    let client = ep(20, 6000);
    match relay.handle_packet(join_request(b"alice", 99), client, 0) {
        RelayAction::Dropped(DropReason::UnknownSession(99)) => {}
        other => panic!("unexpected action {:?}", other),
    }
    assert_eq!(relay.session_count(), 0);
}

#[test]
fn join_request_is_forwarded_to_the_host() {
    let mut relay = RelayNode::new();
    let host = ep(10, 7000);
    let client = ep(20, 6000);
    relay.handle_packet(host_registration(42), host, 0);
    match relay.handle_packet(join_request(b"alice", 42), client, 1) {
        RelayAction::Deliver(out) => {
            assert_eq!(out.dest, host);
            assert_eq!(out.packet.packet_type, 0x01);
            assert_eq!(out.packet.client_id, 0);
            assert_eq!(out.packet.destination_id, 1);
        }
        other => panic!("unexpected action {:?}", other),
    }
}

#[test]
fn host_accept_is_routed_to_the_waiting_client() {
    let mut relay = RelayNode::new();
    let host = ep(10, 7000);
    let client = ep(20, 6000);
    relay.handle_packet(host_registration(42), host, 0);
    relay.handle_packet(join_request(b"alice", 42), client, 1);
    // The host answers with the grant for client id 2.
    let grant = NeonPacket {
        packet_type: 0x02,
        sequence: 1,
        client_id: 2,
        destination_id: 2,
        payload: PacketPayload::ConnectAccept(ConnectAccept {
            assigned_client_id: 2,
            session_id: 42,
        }),
    };
    match relay.handle_packet(grant, host, 2) {
        RelayAction::Deliver(out) => {
            assert_eq!(out.dest, client);
            assert_eq!(out.packet.packet_type, 0x02);
            assert_eq!(out.packet.destination_id, 2);
        }
        other => panic!("unexpected action {:?}", other),
    }
    // The client's registration echo installs it in the peer table.
    match relay.handle_packet(client_echo(2, 42), client, 3) {
        RelayAction::ClientRegistered(42, 2) => {}
        other => panic!("unexpected action {:?}", other),
    }
    assert_eq!(relay.total_client_count(), 2);
}

#[test]
fn traffic_is_forwarded_to_the_addressed_peer() {
    let mut relay = RelayNode::new();
    let host = ep(10, 7000);
    let client = ep(20, 6000);
    relay.handle_packet(host_registration(42), host, 0);
    relay.handle_packet(client_echo(2, 42), client, 1);
    // Client pings the host.
    match relay.handle_packet(ping(2, 1, 555), client, 2) {
        RelayAction::Deliver(out) => {
            assert_eq!(out.dest, host);
            assert_eq!(out.packet.packet_type, 0x0B);
        }
        other => panic!("unexpected action {:?}", other),
    }
}

#[test]
fn unknown_sender_traffic_is_dropped() {
    let mut relay = RelayNode::new();
    let stranger = ep(99, 9999);
    match relay.handle_packet(ping(2, 1, 555), stranger, 0) {
        RelayAction::Dropped(DropReason::UnknownSender) => {}
        other => panic!("unexpected action {:?}", other),
    }
}

#[test]
fn missing_destination_is_dropped() {
    let mut relay = RelayNode::new();
    let host = ep(10, 7000);
    relay.handle_packet(host_registration(42), host, 0);
    match relay.handle_packet(ping(1, 5, 555), host, 1) {
        RelayAction::Dropped(DropReason::DestinationNotFound(5)) => {}
        other => panic!("unexpected action {:?}", other),
    }
}

#[test]
fn silent_clients_age_out_but_hosts_stay() {
    let mut relay = RelayNode::new();
    let host = ep(10, 7000);
    let client = ep(20, 6000);
    relay.handle_packet(host_registration(42), host, 0);
    relay.handle_packet(client_echo(2, 42), client, 0);
    assert_eq!(relay.total_client_count(), 2);
    // Just before the timeout the client survives.
    relay.session_manager.cleanup_dead_connections(PEER_TIMEOUT_MS - 1);
    assert_eq!(relay.total_client_count(), 2);
    // At the timeout it is evicted; the host remains, so the session does.
    relay.session_manager.cleanup_dead_connections(PEER_TIMEOUT_MS);
    assert_eq!(relay.total_client_count(), 1);
    assert_eq!(relay.session_count(), 1);
    // A packet for the evicted client is now dropped.
    match relay.handle_packet(ping(1, 2, 9), host, PEER_TIMEOUT_MS + 1) {
        RelayAction::Dropped(DropReason::DestinationNotFound(2)) => {}
        other => panic!("unexpected action {:?}", other),
    }
}

#[test]
fn activity_refreshes_the_liveness_stamp() {
    let mut relay = RelayNode::new();
    let host = ep(10, 7000);
    let client = ep(20, 6000);
    relay.handle_packet(host_registration(42), host, 0);
    relay.handle_packet(client_echo(2, 42), client, 0);
    // Traffic from the client at 10 s refreshes its stamp, so it survives
    // the sweep at 20 s.
    relay.handle_packet(ping(2, 1, 0), client, 10_000);
    relay.session_manager.cleanup_dead_connections(20_000);
    assert_eq!(relay.total_client_count(), 2);
    // Without further traffic the sweep at 25 s evicts it.
    relay.session_manager.cleanup_dead_connections(25_000);
    assert_eq!(relay.total_client_count(), 1);
}

#[test]
fn client_only_sessions_disappear_when_empty() {
    let mut relay = RelayNode::new();
    let client = ep(20, 6000);
    // A stray registration echo creates a session without a host.
    relay.handle_packet(client_echo(2, 7), client, 0);
    assert_eq!(relay.session_count(), 1);
    relay.session_manager.cleanup_dead_connections(PEER_TIMEOUT_MS);
    assert_eq!(relay.session_count(), 0);
    assert_eq!(relay.total_client_count(), 0);
}

#[test]
fn deny_without_a_pending_connection_is_dropped() {
    let mut relay = RelayNode::new();
    let host = ep(10, 7000);
    relay.handle_packet(host_registration(42), host, 0);
    let deny = NeonPacket {
        packet_type: 0x03,
        sequence: 1,
        client_id: 1,
        destination_id: 0,
        payload: PacketPayload::ConnectDeny(project_neon::codec::ConnectDeny {
            reason: b"nope".to_vec(),
        }),
    };
    match relay.handle_packet(deny, host, 0) {
        RelayAction::Dropped(DropReason::NoPendingConnection) => {}
        other => panic!("unexpected action {:?}", other),
    }
}

#[test]
fn packets_are_never_forwarded_back_to_the_sender() {
    let mut relay = RelayNode::new();
    let host = ep(10, 7000);
    relay.handle_packet(host_registration(42), host, 0);
    // The host addresses itself: same session, destination id 1.
    match relay.handle_packet(ping(1, 1, 5), host, 0) {
        RelayAction::Dropped(DropReason::SelfDelivery) => {}
        other => panic!("unexpected action {:?}", other),
    }
}

#[test]
fn opcode_and_body_disagreement_is_dropped() {
    let mut relay = RelayNode::new();
    // A join-request opcode carrying a ping body cannot come out of the
    // decoder; a hand-built one is dropped without touching any table.
    let odd = NeonPacket {
        packet_type: 0x01,
        sequence: 1,
        client_id: 0,
        destination_id: 1,
        payload: PacketPayload::Ping(Ping { timestamp: 1 }),
    };
    match relay.handle_packet(odd, ep(20, 6000), 0) {
        RelayAction::Dropped(DropReason::PayloadMismatch) => {}
        other => panic!("unexpected action {:?}", other),
    }
    assert_eq!(relay.session_count(), 0);
}
