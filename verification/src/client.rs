//! Client: the join handshake and the steady-state packet dispatch.
//!
//! A client owns a display name. It joins a session through the relay,
//! records its assigned id, answers the session configuration with an
//! acknowledgement, and keeps itself alive with periodic pings. The
//! socket, the clock and the callbacks live outside; every decision here
//! is a pure function from state and packet to events and packets to send.

use vstd::prelude::*;

use crate::codec::clone_bytes;
use crate::codec::clone_entry;
use crate::codec::Ack;
use crate::codec::ConnectAccept;
use crate::codec::ConnectRequest;
use crate::codec::NeonPacket;
use crate::codec::NeonPacketView;
use crate::codec::PacketPayload;
use crate::codec::PacketPayloadView;
use crate::codec::PacketTypeEntry;
use crate::codec::Ping;
use crate::codec::SessionConfig;
use crate::codec::OPCODE_ACK;
use crate::codec::OPCODE_CONNECT_ACCEPT;
use crate::codec::OPCODE_CONNECT_REQUEST;
use crate::codec::OPCODE_PING;

verus! {

/// Default milliseconds between automatic pings.
pub const DEFAULT_PING_INTERVAL_MS: u64 = 5000;

/// Milliseconds the blocking handshake read may wait before the connect
/// call fails with a timeout.
pub const HANDSHAKE_TIMEOUT_MS: u64 = 10000;

/// Why a connect call failed.
#[derive(Debug, Clone)]
pub enum ClientError {
    /// The accept named a session other than the requested one.
    SessionMismatch,
    /// The host refused the join; the reason bytes are attached.
    Denied(Vec<u8>),
    /// The relay answered the handshake with an unexpected packet.
    ProtocolViolation,
    /// No answer arrived within [`HANDSHAKE_TIMEOUT_MS`].
    HandshakeTimeout,
    /// The operation needs a completed handshake.
    NotConnected,
}

/// What one received packet means to the application.
#[derive(Debug)]
pub enum ClientEvent {
    /// A probe came back; the round-trip time and the present clock.
    Pong { rtt_ms: u64, timestamp: u64 },
    /// The session configuration arrived (it is acknowledged alongside).
    Config(SessionConfig),
    /// The opcode catalogue arrived.
    Registry(Vec<PacketTypeEntry>),
    /// A packet of an unhandled kind arrived.
    Unhandled { packet_type: u8, from_client_id: u8 },
    /// A packet addressed to another id arrived and is discarded.
    WrongDestination { my_id: u8, dest_id: u8 },
}

/// The client's state: its name, its ids once admitted, and the automatic
/// ping schedule.
#[derive(Debug)]
pub struct NeonClient {
    pub name: Vec<u8>,
    pub client_id: Option<u8>,
    pub session_id: Option<u32>,
    pub auto_ping: bool,
    pub ping_interval_ms: u64,
    pub last_ping_ms: Option<u64>,
}

/// Mathematical image of a [`NeonClient`].
pub ghost struct NeonClientView {
    pub name: Seq<u8>,
    pub client_id: Option<u8>,
    pub session_id: Option<u32>,
    pub auto_ping: bool,
    pub ping_interval_ms: u64,
    pub last_ping_ms: Option<u64>,
}

impl View for NeonClient {
    type V = NeonClientView;

    open spec fn view(&self) -> NeonClientView {
        NeonClientView {
            name: self.name@,
            client_id: self.client_id,
            session_id: self.session_id,
            auto_ping: self.auto_ping,
            ping_interval_ms: self.ping_interval_ms,
            last_ping_ms: self.last_ping_ms,
        }
    }
}

/// The join request a client sends to the relay.
pub open spec fn spec_connect_request_packet(
    name: Seq<u8>,
    session_id: u32,
    game_identifier: Option<u32>,
) -> NeonPacketView {
    NeonPacketView {
        packet_type: OPCODE_CONNECT_REQUEST,
        sequence: 1,
        client_id: 0,
        destination_id: 1,
        payload: PacketPayloadView::ConnectRequest(
            crate::codec::ConnectRequestView {
                client_version: 1,
                desired_name: name,
                target_session_id: session_id,
                game_identifier,
            },
        ),
    }
}

/// The registration echo: the accepted client repeats the grant under its
/// own id, which installs it in the relay's peer table.
pub open spec fn spec_registration_echo(accept: ConnectAccept) -> NeonPacketView {
    NeonPacketView {
        packet_type: OPCODE_CONNECT_ACCEPT,
        sequence: 2,
        client_id: accept.assigned_client_id,
        destination_id: 1,
        payload: PacketPayloadView::ConnectAccept(accept),
    }
}

/// The probe a client sends to the host.
pub open spec fn spec_ping_packet(client_id: u8, now_ms: u64) -> NeonPacketView {
    NeonPacketView {
        packet_type: OPCODE_PING,
        sequence: 10,
        client_id,
        destination_id: 1,
        payload: PacketPayloadView::Ping(Ping { timestamp: now_ms }),
    }
}

/// The acknowledgement a client sends for one received sequence number.
pub open spec fn spec_ack_packet(client_id: u8, sequence: u16) -> NeonPacketView {
    NeonPacketView {
        packet_type: OPCODE_ACK,
        sequence: 0,
        client_id,
        destination_id: 1,
        payload: PacketPayloadView::Ack(
            crate::codec::AckView { acknowledged_sequences: seq![sequence] },
        ),
    }
}

/// Builds the acknowledgement for one received sequence number.
pub fn ack_packet(client_id: u8, sequence: u16) -> (r: NeonPacket)
    ensures
        r@ == spec_ack_packet(client_id, sequence),
{
    let mut acknowledged_sequences: Vec<u16> = Vec::new();
    acknowledged_sequences.push(sequence);
    proof {
        assert(acknowledged_sequences@ =~= seq![sequence]);
    }
    NeonPacket {
        packet_type: OPCODE_ACK,
        sequence: 0,
        client_id,
        destination_id: 1,
        payload: PacketPayload::Ack(Ack { acknowledged_sequences }),
    }
}

impl NeonClient {
    /// A client with the given display name, not yet joined, with
    /// automatic ping on at the default interval.
    pub fn new(name: Vec<u8>) -> (r: NeonClient)
        ensures
            r@.name == name@,
            r@.client_id is None,
            r@.session_id is None,
            r@.auto_ping == true,
            r@.ping_interval_ms == DEFAULT_PING_INTERVAL_MS,
            r@.last_ping_ms is None,
    {
        NeonClient {
            name,
            client_id: None,
            session_id: None,
            auto_ping: true,
            ping_interval_ms: DEFAULT_PING_INTERVAL_MS,
            last_ping_ms: None,
        }
    }

    /// Turns the automatic ping on or off.
    pub fn set_auto_ping(&mut self, enabled: bool)
        ensures
            final(self)@ == (NeonClientView { auto_ping: enabled, ..old(self)@ }),
    {
        self.auto_ping = enabled;
    }

    /// Sets the automatic ping interval in milliseconds.
    pub fn set_ping_interval(&mut self, interval_ms: u64)
        ensures
            final(self)@ == (NeonClientView { ping_interval_ms: interval_ms, ..old(self)@ }),
    {
        self.ping_interval_ms = interval_ms;
    }

    /// The assigned client id, or `None` before admission.
    pub fn client_id(&self) -> (r: Option<u8>)
        ensures
            r == self@.client_id,
    {
        self.client_id
    }

    /// The joined session id, or `None` before admission.
    pub fn session_id(&self) -> (r: Option<u32>)
        ensures
            r == self@.session_id,
    {
        self.session_id
    }

    /// The client's display name.
    pub fn name(&self) -> (r: &Vec<u8>)
        ensures
            r@ == self@.name,
    {
        &self.name
    }

    /// Builds the join request for `session_id`.
    pub fn build_connect_request(&self, session_id: u32, game_identifier: Option<u32>) -> (r:
        NeonPacket)
        ensures
            r@ == spec_connect_request_packet(self@.name, session_id, game_identifier),
    {
        NeonPacket {
            packet_type: OPCODE_CONNECT_REQUEST,
            sequence: 1,
            client_id: 0,
            destination_id: 1,
            payload: PacketPayload::ConnectRequest(
                ConnectRequest {
                    client_version: 1,
                    desired_name: clone_bytes(&self.name),
                    target_session_id: session_id,
                    game_identifier,
                },
            ),
        }
    }

    /// The handshake decision on the relay's answer: an accept for the
    /// requested session is taken (the ids are recorded and the
    /// registration echo to send comes back), an accept for another
    /// session fails the connect with a mismatch and sends no echo, a
    /// deny fails it with the carried reason, and anything else is a
    /// protocol violation.
    pub fn process_connect_response(&mut self, packet: &NeonPacket, requested_session_id: u32)
        -> (r: Result<NeonPacket, ClientError>)
        ensures
            ({
                let c0 = old(self)@;
                let cf = final(self)@;
                match packet.payload {
                    PacketPayload::ConnectAccept(a) => {
                        if a.session_id != requested_session_id {
                            cf == c0 && r matches Err(ClientError::SessionMismatch)
                        } else {
                            &&& cf == (NeonClientView {
                                client_id: Some(a.assigned_client_id),
                                session_id: Some(a.session_id),
                                ..c0
                            })
                            &&& r matches Ok(echo) && echo@ == spec_registration_echo(a)
                        }
                    },
                    PacketPayload::ConnectDeny(d) => cf == c0 && (r matches Err(
                        ClientError::Denied(reason),
                    ) && reason@ == d.reason@),
                    _ => cf == c0 && r matches Err(ClientError::ProtocolViolation),
                }
            }),
    {
        match &packet.payload {
            PacketPayload::ConnectAccept(a) => {
                if a.session_id != requested_session_id {
                    return Err(ClientError::SessionMismatch);
                }
                self.client_id = Some(a.assigned_client_id);
                self.session_id = Some(a.session_id);
                Ok(NeonPacket {
                    packet_type: OPCODE_CONNECT_ACCEPT,
                    sequence: 2,
                    client_id: a.assigned_client_id,
                    destination_id: 1,
                    payload: PacketPayload::ConnectAccept(*a),
                })
            },
            PacketPayload::ConnectDeny(d) => Err(ClientError::Denied(clone_bytes(&d.reason))),
            _ => Err(ClientError::ProtocolViolation),
        }
    }

    /// Steady-state dispatch of one received packet: packets for another
    /// destination are discarded with a notice, a pong yields the
    /// round-trip time, the session configuration is surfaced and
    /// acknowledged towards the host, the opcode catalogue is surfaced,
    /// and anything else is reported unhandled.
    pub fn handle_incoming(&self, packet: &NeonPacket, now_ms: u64) -> (r: (
        ClientEvent,
        Option<NeonPacket>,
    ))
        requires
            self@.client_id is Some,
        ensures
            ({
                let my_id = self@.client_id->0;
                let (event, ack) = r;
                if packet.destination_id != my_id {
                    &&& event matches ClientEvent::WrongDestination { my_id: m, dest_id: d } && m
                        == my_id && d == packet.destination_id
                    &&& ack is None
                } else {
                    match packet.payload {
                        PacketPayload::Pong(p) => {
                            &&& event matches ClientEvent::Pong { rtt_ms, timestamp } && rtt_ms
                                == (if now_ms >= p.original_timestamp {
                                (now_ms - p.original_timestamp) as u64
                            } else {
                                0u64
                            }) && timestamp == now_ms
                            &&& ack is None
                        },
                        PacketPayload::SessionConfig(c) => {
                            &&& event matches ClientEvent::Config(cfg) && cfg == c
                            &&& ack matches Some(a) && a@ == spec_ack_packet(
                                my_id,
                                packet.sequence,
                            )
                        },
                        PacketPayload::PacketTypeRegistry(reg) => {
                            &&& event matches ClientEvent::Registry(entries)
                                && entries@.map_values(|e: PacketTypeEntry| e@)
                                == reg.entries@.map_values(|e: PacketTypeEntry| e@)
                            &&& ack is None
                        },
                        _ => {
                            &&& event matches ClientEvent::Unhandled {
                                packet_type: t,
                                from_client_id: f,
                            } && t == packet.packet_type && f == packet.client_id
                            &&& ack is None
                        },
                    }
                }
            }),
    {
        let my_id = match self.client_id {
            Some(id) => id,
            None => {
                proof {
                    assert(false);
                }
                0
            },
        };
        if packet.destination_id != my_id {
            return (
                ClientEvent::WrongDestination { my_id, dest_id: packet.destination_id },
                None,
            );
        }
        match &packet.payload {
            PacketPayload::Pong(p) => {
                let rtt_ms: u64 = if now_ms >= p.original_timestamp {
                    now_ms - p.original_timestamp
                } else {
                    0
                };
                (ClientEvent::Pong { rtt_ms, timestamp: now_ms }, None)
            },
            PacketPayload::SessionConfig(c) => {
                (ClientEvent::Config(*c), Some(ack_packet(my_id, packet.sequence)))
            },
            PacketPayload::PacketTypeRegistry(reg) => {
                let mut entries: Vec<PacketTypeEntry> = Vec::new();
                let mut i: usize = 0;
                while i < reg.entries.len()
                    invariant
                        i <= reg.entries@.len(),
                        entries@.len() == i,
                        forall|k: int|
                            0 <= k < i ==> (#[trigger] entries@[k])@ == reg.entries@[k]@,
                    decreases reg.entries@.len() - i,
                {
                    entries.push(clone_entry(&reg.entries[i]));
                    i = i + 1;
                }
                proof {
                    assert(entries@.map_values(|e: PacketTypeEntry| e@)
                        =~= reg.entries@.map_values(|e: PacketTypeEntry| e@));
                }
                (ClientEvent::Registry(entries), None)
            },
            _ => {
                (
                    ClientEvent::Unhandled {
                        packet_type: packet.packet_type,
                        from_client_id: packet.client_id,
                    },
                    None,
                )
            },
        }
    }

    /// Whether the automatic ping is due at `now_ms`.
    pub fn should_send_ping(&self, now_ms: u64) -> (r: bool)
        ensures
            r == (self@.auto_ping && self@.client_id is Some && match self@.last_ping_ms {
                Some(t) => now_ms - t >= self@.ping_interval_ms,
                None => true,
            }),
    {
        if !self.auto_ping {
            return false;
        }
        if self.client_id.is_none() {
            return false;
        }
        match self.last_ping_ms {
            Some(t) => now_ms >= t && now_ms - t >= self.ping_interval_ms,
            None => true,
        }
    }

    /// Builds a probe stamped `now_ms` and records it as the last ping;
    /// before admission this fails with [`ClientError::NotConnected`].
    pub fn send_ping(&mut self, now_ms: u64) -> (r: Result<NeonPacket, ClientError>)
        ensures
            match old(self)@.client_id {
                Some(id) => {
                    &&& final(self)@ == (NeonClientView {
                        last_ping_ms: Some(now_ms),
                        ..old(self)@
                    })
                    &&& r matches Ok(p) && p@ == spec_ping_packet(id, now_ms)
                },
                None => final(self)@ == old(self)@ && r matches Err(ClientError::NotConnected),
            },
    {
        let id = match self.client_id {
            Some(id) => id,
            None => {
                return Err(ClientError::NotConnected);
            },
        };
        self.last_ping_ms = Some(now_ms);
        Ok(NeonPacket {
            packet_type: OPCODE_PING,
            sequence: 10,
            client_id: id,
            destination_id: 1,
            payload: PacketPayload::Ping(Ping { timestamp: now_ms }),
        })
    }
}

} // verus!
