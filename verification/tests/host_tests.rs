use project_neon::codec::Ack;
use project_neon::codec::ConnectRequest;
use project_neon::codec::PacketPayload;
use project_neon::codec::Ping;
use project_neon::host::handle_ping;
use project_neon::host::registration_packet;
use project_neon::host::HostResponse;
use project_neon::host::NeonHost;
use project_neon::host::ACK_TIMEOUT_MS;
use project_neon::host::MAX_ATTEMPTS;

fn request(name: &[u8], session_id: u32) -> ConnectRequest {
    ConnectRequest {
        client_version: 1,
        desired_name: name.to_vec(),
        target_session_id: session_id,
        game_identifier: None,
    }
}

#[test]
fn registration_packet_uses_the_host_id() {
    let packet = registration_packet(42);
    assert_eq!(packet.packet_type, 0x02);
    assert_eq!(packet.client_id, 1);
    match &packet.payload {
        PacketPayload::ConnectAccept(a) => {
            assert_eq!(a.assigned_client_id, 1);
            assert_eq!(a.session_id, 42);
        }
        other => panic!("unexpected payload {:?}", other),
    }
}

#[test]
fn admission_assigns_ids_from_two_upward() {
    let mut host = NeonHost::new(42);
    match host.handle_connect_request(request(b"alice", 42), 0) {
        HostResponse::Admitted { assigned_id, accept, config, registry } => {
            assert_eq!(assigned_id, 2);
            assert_eq!(accept.packet_type, 0x02);
            assert_eq!(accept.client_id, 2);
            assert_eq!(config.packet_type, 0x04);
            assert_eq!(config.sequence, 2);
            assert_eq!(registry.packet_type, 0x05);
        }
        other => panic!("unexpected response {:?}", other),
    }
    match host.handle_connect_request(request(b"carol", 42), 1) {
        HostResponse::Admitted { assigned_id, .. } => assert_eq!(assigned_id, 3),
        other => panic!("unexpected response {:?}", other),
    }
    assert_eq!(host.client_count(), 2);
}

#[test]
fn wrong_session_is_ignored() {
    let mut host = NeonHost::new(42);
    match host.handle_connect_request(request(b"alice", 99), 0) {
        HostResponse::Ignored => {}
        other => panic!("unexpected response {:?}", other),
    }
    assert_eq!(host.client_count(), 0);
}

#[test]
fn duplicate_name_is_denied_with_a_reason() {
    let mut host = NeonHost::new(42);
    host.handle_connect_request(request(b"bob", 42), 0);
    match host.handle_connect_request(request(b"bob", 42), 1) {
        HostResponse::Deny(deny) => match &deny.payload {
            PacketPayload::ConnectDeny(d) => {
                assert_eq!(d.reason, b"Name 'bob' is already in use".to_vec());
            }
            other => panic!("unexpected payload {:?}", other),
        },
        other => panic!("unexpected response {:?}", other),
    }
    assert_eq!(host.client_count(), 1);
}

#[test]
fn exhausted_id_space_is_refused() {
    let mut host = NeonHost::new(42);
    // Ids 2..=255 can be handed out; afterwards admission is refused.
    host.next_client_id = 256;
    match host.handle_connect_request(request(b"late", 42), 0) {
        HostResponse::Deny(deny) => match &deny.payload {
            PacketPayload::ConnectDeny(d) => {
                assert_eq!(d.reason, b"Session is full".to_vec());
            }
            other => panic!("unexpected payload {:?}", other),
        },
        other => panic!("unexpected response {:?}", other),
    }
    assert_eq!(host.client_count(), 0);
}

#[test]
fn ack_clears_the_pending_send() {
    let mut host = NeonHost::new(42);
    host.handle_connect_request(request(b"alice", 42), 0);
    assert_eq!(host.pending_acks.len(), 1);
    host.handle_ack(2, &Ack { acknowledged_sequences: vec![2] });
    assert_eq!(host.pending_acks.len(), 0);
}

#[test]
fn unrelated_ack_changes_nothing() {
    let mut host = NeonHost::new(42);
    host.handle_connect_request(request(b"alice", 42), 0);
    // Wrong sequence number.
    host.handle_ack(2, &Ack { acknowledged_sequences: vec![9] });
    assert_eq!(host.pending_acks.len(), 1);
    // Wrong client id.
    host.handle_ack(3, &Ack { acknowledged_sequences: vec![2] });
    assert_eq!(host.pending_acks.len(), 1);
}

#[test]
fn duplicate_ack_has_no_effect() {
    let mut host = NeonHost::new(42);
    host.handle_connect_request(request(b"alice", 42), 0);
    host.handle_ack(2, &Ack { acknowledged_sequences: vec![2] });
    assert_eq!(host.pending_acks.len(), 0);
    let clients_before = host.client_count();
    host.handle_ack(2, &Ack { acknowledged_sequences: vec![2] });
    assert_eq!(host.pending_acks.len(), 0);
    assert_eq!(host.client_count(), clients_before);
}

#[test]
fn overdue_config_is_retransmitted_and_restamped() {
    let mut host = NeonHost::new(42);
    host.handle_connect_request(request(b"alice", 42), 0);
    // Before the timeout nothing is resent.
    let resent = host.check_pending_acks(ACK_TIMEOUT_MS - 1);
    assert!(resent.is_empty());
    // At the timeout the stored packet goes out again.
    let resent = host.check_pending_acks(ACK_TIMEOUT_MS);
    assert_eq!(resent.len(), 1);
    assert_eq!(resent[0].packet_type, 0x04);
    assert_eq!(resent[0].sequence, 2);
    assert_eq!(host.pending_acks[0].retry_count, 1);
    assert_eq!(host.pending_acks[0].sent_at, ACK_TIMEOUT_MS);
    // And again one timeout later.
    let resent = host.check_pending_acks(2 * ACK_TIMEOUT_MS);
    assert_eq!(resent.len(), 1);
    assert_eq!(host.pending_acks[0].retry_count, 2);
}

#[test]
fn attempt_ceiling_evicts_the_pending_send() {
    let mut host = NeonHost::new(42);
    // Admission at t=0 is the first attempt.
    host.handle_connect_request(request(b"alice", 42), 0);
    let mut now = 0u64;
    for expected_retry in 1..MAX_ATTEMPTS {
        now += ACK_TIMEOUT_MS;
        let resent = host.check_pending_acks(now);
        assert_eq!(resent.len(), 1);
        assert_eq!(host.pending_acks[0].retry_count, expected_retry);
    }
    // Five attempts have gone out; the next overdue pass declares the
    // send exhausted without retransmitting a sixth copy.
    now += ACK_TIMEOUT_MS;
    let resent = host.check_pending_acks(now);
    assert!(resent.is_empty());
    assert!(host.pending_acks.is_empty());
    // Exhaustion is declared within the ceiling-times-timeout budget.
    assert_eq!(now, MAX_ATTEMPTS as u64 * ACK_TIMEOUT_MS);
    assert_eq!(now, 10_000);
}

#[test]
fn ping_is_answered_with_the_same_timestamp() {
    let pong = handle_ping(77, 2, Ping { timestamp: 123456789 });
    assert_eq!(pong.packet_type, 0x0C);
    assert_eq!(pong.sequence, 77);
    assert_eq!(pong.client_id, 1);
    assert_eq!(pong.destination_id, 2);
    match &pong.payload {
        PacketPayload::Pong(p) => assert_eq!(p.original_timestamp, 123456789),
        other => panic!("unexpected payload {:?}", other),
    }
}
