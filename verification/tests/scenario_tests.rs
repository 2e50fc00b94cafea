//! End-to-end exchanges: relay, host and client state machines wired
//! together through the wire codec, with a simulated clock.

use project_neon::client::ClientError;
use project_neon::client::ClientEvent;
use project_neon::client::NeonClient;
use project_neon::codec::decode_datagram;
use project_neon::codec::encode_packet;
use project_neon::codec::NeonPacket;
use project_neon::codec::PacketPayload;
use project_neon::host::registration_packet;
use project_neon::host::HostResponse;
use project_neon::host::NeonHost;
use project_neon::host::ACK_TIMEOUT_MS;
use project_neon::relay::DropReason;
use project_neon::relay::Endpoint;
use project_neon::relay::RelayAction;
use project_neon::relay::RelayNode;
use project_neon::relay::PEER_TIMEOUT_MS;

/// Carries a packet over the simulated wire: encode at the sender, decode
/// at the receiver, as a UDP datagram would.
fn wire(packet: &NeonPacket) -> NeonPacket {
    let bytes = encode_packet(packet);
    decode_datagram(&bytes).expect("a freshly encoded datagram must decode")
}

fn relay_deliver(action: RelayAction) -> (NeonPacket, Endpoint) {
    match action {
        RelayAction::Deliver(out) => (wire(&out.packet), out.dest),
        other => panic!("expected a delivery, got {:?}", other),
    }
}

const HOST_ADDR: Endpoint = Endpoint { ip: 0x7F000001, port: 7001 };
const CLIENT_A: Endpoint = Endpoint { ip: 0x7F000001, port: 6001 };
const CLIENT_B: Endpoint = Endpoint { ip: 0x7F000001, port: 6002 };

/// Brings a host for `session` online at the relay.
fn start_host(relay: &mut RelayNode, session: u32, now: u64) -> NeonHost {
    let host = NeonHost::new(session);
    let action = relay.handle_packet(wire(&registration_packet(host.session_id())), HOST_ADDR, now);
    assert!(matches!(action, RelayAction::HostRegistered(s) if s == session));
    host
}

/// Runs the full admission of `client` into `session` and returns the
/// packets the host produced after the grant (config and registry),
/// already carried to the client.
fn run_admission(
    relay: &mut RelayNode,
    host: &mut NeonHost,
    client: &mut NeonClient,
    client_addr: Endpoint,
    session: u32,
    now: u64,
) -> Vec<NeonPacket> {
    // Client -> relay: join request.
    let request = client.build_connect_request(session, None);
    let (at_host, dest) = relay_deliver(relay.handle_packet(wire(&request), client_addr, now));
    assert_eq!(dest, HOST_ADDR);
    // Host decides.
    let req = match at_host.payload {
        PacketPayload::ConnectRequest(r) => r,
        other => panic!("host expected a join request, got {:?}", other),
    };
    let (accept, follow_ups) = match host.handle_connect_request(req, now) {
        HostResponse::Admitted { accept, config, registry, .. } => (accept, vec![config, registry]),
        other => panic!("expected admission, got {:?}", other),
    };
    // Host -> relay -> client: the grant.
    let (at_client, dest) = relay_deliver(relay.handle_packet(wire(&accept), HOST_ADDR, now));
    assert_eq!(dest, client_addr);
    // Client handshake decision plus registration echo.
    let echo = client.process_connect_response(&at_client, session).unwrap();
    let action = relay.handle_packet(wire(&echo), client_addr, now);
    assert!(matches!(action, RelayAction::ClientRegistered(s, _) if s == session));
    // Host -> relay -> client: config and registry.
    let mut delivered = Vec::new();
    for packet in &follow_ups {
        let (at_client, dest) = relay_deliver(relay.handle_packet(wire(packet), HOST_ADDR, now));
        assert_eq!(dest, client_addr);
        delivered.push(at_client);
    }
    delivered
}

#[test]
fn single_client_happy_path() {
    let mut relay = RelayNode::new();
    let mut host = start_host(&mut relay, 42, 0);
    let mut alice = NeonClient::new(b"alice".to_vec());

    let delivered = run_admission(&mut relay, &mut host, &mut alice, CLIENT_A, 42, 0);
    assert_eq!(alice.client_id(), Some(2));
    assert_eq!(alice.session_id(), Some(42));

    // The client sees the config, acknowledges it, and the host clears
    // its pending slot.
    assert_eq!(host.pending_acks.len(), 1);
    let mut acked = false;
    for packet in &delivered {
        let (event, ack) = alice.handle_incoming(packet, 10);
        if let ClientEvent::Config(c) = &event {
            assert_eq!((c.version, c.tick_rate, c.max_packet_size), (1, 60, 1024));
            let ack = ack.expect("config must be acknowledged");
            let (at_host, dest) = relay_deliver(relay.handle_packet(wire(&ack), CLIENT_A, 10));
            assert_eq!(dest, HOST_ADDR);
            match at_host.payload {
                PacketPayload::Ack(a) => host.handle_ack(at_host.client_id, &a),
                other => panic!("host expected an ack, got {:?}", other),
            }
            acked = true;
        }
    }
    assert!(acked);
    assert!(host.pending_acks.is_empty());

    // Pings now round-trip with the original timestamp.
    let ping = alice.send_ping(500).unwrap();
    let (at_host, _) = relay_deliver(relay.handle_packet(wire(&ping), CLIENT_A, 500));
    let pong = match at_host.payload {
        PacketPayload::Ping(p) => {
            project_neon::host::handle_ping(at_host.sequence, at_host.client_id, p)
        }
        other => panic!("host expected a ping, got {:?}", other),
    };
    let (at_client, dest) = relay_deliver(relay.handle_packet(wire(&pong), HOST_ADDR, 500));
    assert_eq!(dest, CLIENT_A);
    let (event, _) = alice.handle_incoming(&at_client, 530);
    match event {
        ClientEvent::Pong { rtt_ms, .. } => assert_eq!(rtt_ms, 30),
        other => panic!("unexpected event {:?}", other),
    }
}

#[test]
fn name_collision_is_denied_and_the_first_client_stays() {
    let mut relay = RelayNode::new();
    let mut host = start_host(&mut relay, 42, 0);
    let mut bob_a = NeonClient::new(b"bob".to_vec());
    run_admission(&mut relay, &mut host, &mut bob_a, CLIENT_A, 42, 0);
    assert_eq!(bob_a.client_id(), Some(2));

    // A second "bob" asks to join.
    let mut bob_b = NeonClient::new(b"bob".to_vec());
    let request = bob_b.build_connect_request(42, None);
    let (at_host, _) = relay_deliver(relay.handle_packet(wire(&request), CLIENT_B, 1));
    let req = match at_host.payload {
        PacketPayload::ConnectRequest(r) => r,
        other => panic!("host expected a join request, got {:?}", other),
    };
    let deny = match host.handle_connect_request(req, 1) {
        HostResponse::Deny(deny) => deny,
        other => panic!("expected a refusal, got {:?}", other),
    };
    let (at_client, dest) = relay_deliver(relay.handle_packet(wire(&deny), HOST_ADDR, 1));
    assert_eq!(dest, CLIENT_B);
    match bob_b.process_connect_response(&at_client, 42) {
        Err(ClientError::Denied(reason)) => {
            assert_eq!(reason, b"Name 'bob' is already in use".to_vec());
        }
        other => panic!("unexpected result {:?}", other),
    }
    // The relay keeps its host mapping and the first client stays live.
    assert_eq!(relay.session_count(), 1);
    assert_eq!(relay.total_client_count(), 2);
    assert_eq!(host.client_count(), 1);
}

#[test]
fn wrong_session_request_is_dropped_and_times_out() {
    let mut relay = RelayNode::new();
    let _host = start_host(&mut relay, 42, 0);
    let client = NeonClient::new(b"alice".to_vec());
    let request = client.build_connect_request(99, None);
    // The relay knows no session 99: the request is dropped and nothing
    // ever reaches the client, whose blocking read then times out.
    match relay.handle_packet(wire(&request), CLIENT_A, 0) {
        RelayAction::Dropped(DropReason::UnknownSession(99)) => {}
        other => panic!("unexpected action {:?}", other),
    }
    let outcome: Result<(), ClientError> = Err(ClientError::HandshakeTimeout);
    assert!(matches!(outcome, Err(ClientError::HandshakeTimeout)));
}

#[test]
fn liveness_timeout_evicts_a_silent_client() {
    let mut relay = RelayNode::new();
    let mut host = start_host(&mut relay, 42, 0);
    let mut alice = NeonClient::new(b"alice".to_vec());
    run_admission(&mut relay, &mut host, &mut alice, CLIENT_A, 42, 0);
    alice.set_auto_ping(false);
    assert_eq!(relay.total_client_count(), 2);

    // 15 s pass without traffic from the client; the sweep evicts it.
    relay.session_manager.cleanup_dead_connections(PEER_TIMEOUT_MS);
    assert_eq!(relay.total_client_count(), 1);

    // Subsequent host-to-client packets are dropped.
    let stray = project_neon::host::session_config_packet(2);
    match relay.handle_packet(wire(&stray), HOST_ADDR, PEER_TIMEOUT_MS + 1) {
        RelayAction::Dropped(DropReason::DestinationNotFound(2)) => {}
        other => panic!("unexpected action {:?}", other),
    }
}

#[test]
fn config_is_retransmitted_until_acknowledged() {
    let mut relay = RelayNode::new();
    let mut host = start_host(&mut relay, 42, 0);
    let mut alice = NeonClient::new(b"alice".to_vec());
    // Admission at t=0; the two first config copies are "lost" (dropped
    // by this test instead of being carried to the client).
    run_admission(&mut relay, &mut host, &mut alice, CLIENT_A, 42, 0);
    assert_eq!(host.pending_acks.len(), 1);

    // t=2 s: first retransmit; lost as well.
    let resent = host.check_pending_acks(ACK_TIMEOUT_MS);
    assert_eq!(resent.len(), 1);
    // t=4 s: second retransmit; this copy arrives.
    let resent = host.check_pending_acks(2 * ACK_TIMEOUT_MS);
    assert_eq!(resent.len(), 1);
    let (at_client, dest) =
        relay_deliver(relay.handle_packet(wire(&resent[0]), HOST_ADDR, 2 * ACK_TIMEOUT_MS));
    assert_eq!(dest, CLIENT_A);
    let (event, ack) = alice.handle_incoming(&at_client, 2 * ACK_TIMEOUT_MS);
    assert!(matches!(event, ClientEvent::Config(_)));
    let ack = ack.expect("config must be acknowledged");
    assert_eq!(at_client.sequence, 2);

    // The ack travels back and clears the pending slot within the 6 s
    // admission-to-ack budget.
    let (at_host, _) =
        relay_deliver(relay.handle_packet(wire(&ack), CLIENT_A, 2 * ACK_TIMEOUT_MS + 1));
    match at_host.payload {
        PacketPayload::Ack(a) => host.handle_ack(at_host.client_id, &a),
        other => panic!("host expected an ack, got {:?}", other),
    }
    assert!(host.pending_acks.is_empty());
    let later = host.check_pending_acks(3 * ACK_TIMEOUT_MS);
    assert!(later.is_empty());
}

#[test]
fn misreported_session_id_fails_the_handshake() {
    let mut relay = RelayNode::new();
    let mut host = start_host(&mut relay, 42, 0);
    let _ = &mut host;
    let mut alice = NeonClient::new(b"alice".to_vec());
    let request = alice.build_connect_request(42, None);
    relay_deliver(relay.handle_packet(wire(&request), CLIENT_A, 0));

    // The host misreports session 43 in its grant.
    let bad_grant = project_neon::host::connect_accept_packet(2, 43);
    // No host owns session 43, so the relay does not treat this as an
    // admission answer: the dual-role opcode makes it register the sender
    // as a client of session 43 instead, and nothing reaches the waiting
    // client, whose pending entry is stranded.
    let action = relay.handle_packet(wire(&bad_grant), HOST_ADDR, 0);
    assert!(matches!(action, RelayAction::ClientRegistered(43, 2)));
    // Had the mismatched grant reached the client, the handshake would
    // fail without a registration echo (the client-side law); here the
    // client never joined either way.
    let mut probe = NeonClient::new(b"probe".to_vec());
    match probe.process_connect_response(&wire(&bad_grant), 42) {
        Err(ClientError::SessionMismatch) => {}
        other => panic!("unexpected result {:?}", other),
    }
    assert_eq!(probe.client_id(), None);
    assert_eq!(alice.client_id(), None);
    // The stray session holds no host, so the sweep removes it, and the
    // stranded pending entry never routes anything afterwards.
    relay.session_manager.cleanup_dead_connections(PEER_TIMEOUT_MS);
    assert_eq!(relay.session_count(), 1);
    assert_eq!(relay.total_client_count(), 1);
}
