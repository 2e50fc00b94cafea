//! Host: session ownership, client admission by name, and reliable
//! delivery of the session configuration.
//!
//! The host owns one session id. It admits clients whose desired name is
//! free, assigns client ids from 2 upward, answers liveness probes, and
//! retransmits the session configuration until the client acknowledges it
//! or the attempt ceiling is reached. Every decision is a pure state
//! transition; the packets to send come back as values.

use vstd::prelude::*;

use crate::codec::bytes_eq;
use crate::codec::clone_bytes;
use crate::codec::clone_packet;
use crate::codec::Ack;
use crate::codec::ConnectAccept;
use crate::codec::ConnectRequest;
use crate::codec::NeonPacket;
use crate::codec::NeonPacketView;
use crate::codec::PacketPayload;
use crate::codec::PacketPayloadView;
use crate::codec::PacketTypeEntry;
use crate::codec::PacketTypeRegistry;
use crate::codec::Ping;
use crate::codec::Pong;
use crate::codec::SessionConfig;
use crate::codec::OPCODE_CONNECT_ACCEPT;
use crate::codec::OPCODE_CONNECT_DENY;
use crate::codec::OPCODE_GAME_BASE;
use crate::codec::OPCODE_PACKET_TYPE_REGISTRY;
use crate::codec::OPCODE_PONG;
use crate::codec::OPCODE_SESSION_CONFIG;
use crate::seq_lemmas::lemma_filter_push;
use crate::seq_lemmas::lemma_map_values_push;

verus! {

/// Milliseconds after a reliable send before it is retransmitted.
pub const ACK_TIMEOUT_MS: u64 = 2000;

/// Total transmissions allowed for one reliable send before it is
/// declared exhausted; the first send counts as the first attempt.
pub const MAX_ATTEMPTS: u8 = 5;

/// The client id every host holds within its own session.
pub const HOST_CLIENT_ID: u8 = 1;

/// First client id handed out to an admitted client.
pub const FIRST_CLIENT_ID: u16 = 2;

/// One admitted client: its assigned id and its unique display name.
#[derive(Debug, Clone)]
pub struct ClientRecord {
    pub client_id: u8,
    pub name: Vec<u8>,
}

/// Mathematical image of a [`ClientRecord`].
pub ghost struct ClientRecordView {
    pub client_id: u8,
    pub name: Seq<u8>,
}

impl View for ClientRecord {
    type V = ClientRecordView;

    open spec fn view(&self) -> ClientRecordView {
        ClientRecordView { client_id: self.client_id, name: self.name@ }
    }
}

/// One reliable send awaiting acknowledgement: the packet to repeat, its
/// sequence number, when it was last sent, and how often it was resent.
#[derive(Debug, Clone)]
pub struct PendingAck {
    pub client_id: u8,
    pub packet: NeonPacket,
    pub sequence: u16,
    pub sent_at: u64,
    pub retry_count: u8,
}

/// Mathematical image of a [`PendingAck`].
pub ghost struct PendingAckView {
    pub client_id: u8,
    pub packet: NeonPacketView,
    pub sequence: u16,
    pub sent_at: u64,
    pub retry_count: u8,
}

impl View for PendingAck {
    type V = PendingAckView;

    open spec fn view(&self) -> PendingAckView {
        PendingAckView {
            client_id: self.client_id,
            packet: self.packet@,
            sequence: self.sequence,
            sent_at: self.sent_at,
            retry_count: self.retry_count,
        }
    }
}

/// The host's state: its session id, the admitted clients by id and name,
/// the next id to hand out, and the reliable sends in flight.
#[derive(Debug)]
pub struct NeonHost {
    pub client_id: u8,
    pub session_id: u32,
    pub connected_clients: Vec<ClientRecord>,
    pub next_client_id: u16,
    pub pending_acks: Vec<PendingAck>,
}

/// Mathematical image of a [`NeonHost`].
pub ghost struct NeonHostView {
    pub client_id: u8,
    pub session_id: u32,
    pub connected_clients: Seq<ClientRecordView>,
    pub next_client_id: u16,
    pub pending_acks: Seq<PendingAckView>,
}

impl View for NeonHost {
    type V = NeonHostView;

    open spec fn view(&self) -> NeonHostView {
        NeonHostView {
            client_id: self.client_id,
            session_id: self.session_id,
            connected_clients: self.connected_clients@.map_values(|c: ClientRecord| c@),
            next_client_id: self.next_client_id,
            pending_acks: self.pending_acks@.map_values(|p: PendingAck| p@),
        }
    }
}

/// The host is well formed: it holds the host id, ids 2 and up are handed
/// out below the monotone `next_client_id` bound, no two clients share an
/// id, at most one reliable send is pending per client, and no send has
/// outlived the attempt ceiling.
pub open spec fn spec_host_wf(h: NeonHostView) -> bool {
    &&& h.client_id == HOST_CLIENT_ID
    &&& FIRST_CLIENT_ID <= h.next_client_id <= 256
    &&& forall|i: int|
        0 <= i < h.connected_clients.len() ==> FIRST_CLIENT_ID <= (
        #[trigger] h.connected_clients[i]).client_id < h.next_client_id
    &&& forall|i: int, j: int|
        0 <= i < j < h.connected_clients.len() ==> (
        #[trigger] h.connected_clients[i]).client_id != (
        #[trigger] h.connected_clients[j]).client_id
    &&& forall|i: int|
        0 <= i < h.pending_acks.len() ==> FIRST_CLIENT_ID <= (
        #[trigger] h.pending_acks[i]).client_id < h.next_client_id
    &&& forall|i: int, j: int|
        0 <= i < j < h.pending_acks.len() ==> (#[trigger] h.pending_acks[i]).client_id != (
        #[trigger] h.pending_acks[j]).client_id
    &&& forall|i: int|
        0 <= i < h.pending_acks.len() ==> (#[trigger] h.pending_acks[i]).retry_count
            < MAX_ATTEMPTS
}

/// The packet a host sends at start to register its session at the relay.
pub open spec fn spec_registration_packet(session_id: u32) -> NeonPacketView {
    NeonPacketView {
        packet_type: OPCODE_CONNECT_ACCEPT,
        sequence: 0,
        client_id: HOST_CLIENT_ID,
        destination_id: 1,
        payload: PacketPayloadView::ConnectAccept(
            ConnectAccept { assigned_client_id: HOST_CLIENT_ID, session_id },
        ),
    }
}

/// The admission grant for a freshly assigned client id; its header source
/// id carries the assigned id so the relay routes it to the waiting client.
pub open spec fn spec_accept_packet(assigned_id: u8, session_id: u32) -> NeonPacketView {
    NeonPacketView {
        packet_type: OPCODE_CONNECT_ACCEPT,
        sequence: 1,
        client_id: assigned_id,
        destination_id: assigned_id,
        payload: PacketPayloadView::ConnectAccept(
            ConnectAccept { assigned_client_id: assigned_id, session_id },
        ),
    }
}

/// The refusal packet carrying a reason.
pub open spec fn spec_deny_packet(reason: Seq<u8>) -> NeonPacketView {
    NeonPacketView {
        packet_type: OPCODE_CONNECT_DENY,
        sequence: 1,
        client_id: HOST_CLIENT_ID,
        destination_id: 0,
        payload: PacketPayloadView::ConnectDeny(crate::codec::ConnectDenyView { reason }),
    }
}

/// The session configuration pushed to every admitted client.
pub open spec fn spec_session_config() -> SessionConfig {
    SessionConfig { version: 1, tick_rate: 60, max_packet_size: 1024 }
}

/// The reliable configuration packet for a client, always under sequence 2.
pub open spec fn spec_config_packet(assigned_id: u8) -> NeonPacketView {
    NeonPacketView {
        packet_type: OPCODE_SESSION_CONFIG,
        sequence: 2,
        client_id: assigned_id,
        destination_id: assigned_id,
        payload: PacketPayloadView::SessionConfig(spec_session_config()),
    }
}

/// The advertised name of the application opcode range.
pub open spec fn spec_game_packet_name() -> Seq<u8> {
    seq![71u8, 97, 109, 101, 80, 97, 99, 107, 101, 116]
}

/// The advertised description of the application opcode range.
pub open spec fn spec_game_packet_description() -> Seq<u8> {
    seq![
        65u8, 112, 112, 108, 105, 99, 97, 116, 105, 111, 110, 45, 100, 101, 102, 105, 110, 101,
        100, 32, 112, 97, 99, 107, 101, 116,
    ]
}

/// The informational opcode catalogue sent after admission: one entry for
/// the application packet range.
pub open spec fn spec_registry_packet(assigned_id: u8) -> NeonPacketView {
    NeonPacketView {
        packet_type: OPCODE_PACKET_TYPE_REGISTRY,
        sequence: 3,
        client_id: assigned_id,
        destination_id: assigned_id,
        payload: PacketPayloadView::PacketTypeRegistry(
            crate::codec::PacketTypeRegistryView {
                entries: seq![
                    crate::codec::PacketTypeEntryView {
                        packet_id: OPCODE_GAME_BASE,
                        name: spec_game_packet_name(),
                        description: spec_game_packet_description(),
                    },
                ],
            },
        ),
    }
}

/// The reply to a probe: the probe's timestamp echoed byte for byte, under
/// the probe's sequence number, addressed back to the probing client.
pub open spec fn spec_pong_packet(sequence: u16, from_client: u8, ping: Ping) -> NeonPacketView {
    NeonPacketView {
        packet_type: OPCODE_PONG,
        sequence,
        client_id: HOST_CLIENT_ID,
        destination_id: from_client,
        payload: PacketPayloadView::Pong(Pong { original_timestamp: ping.timestamp }),
    }
}

/// The refusal reason for a taken name: `Name '<name>' is already in use`.
pub open spec fn spec_name_taken_reason(name: Seq<u8>) -> Seq<u8> {
    seq![78u8, 97, 109, 101, 32, 39] + name + seq![
        39u8, 32, 105, 115, 32, 97, 108, 114, 101, 97, 100, 121, 32, 105, 110, 32, 117, 115, 101,
    ]
}

/// The refusal reason when every client id is taken: `Session is full`.
pub open spec fn spec_session_full_reason() -> Seq<u8> {
    seq![83u8, 101, 115, 115, 105, 111, 110, 32, 105, 115, 32, 102, 117, 108, 108]
}

/// Builds the host's relay registration packet.
pub fn registration_packet(session_id: u32) -> (r: NeonPacket)
    ensures
        r@ == spec_registration_packet(session_id),
{
    NeonPacket {
        packet_type: OPCODE_CONNECT_ACCEPT,
        sequence: 0,
        client_id: HOST_CLIENT_ID,
        destination_id: 1,
        payload: PacketPayload::ConnectAccept(
            ConnectAccept { assigned_client_id: HOST_CLIENT_ID, session_id },
        ),
    }
}

/// Builds the admission grant for an assigned client id.
pub fn connect_accept_packet(assigned_id: u8, session_id: u32) -> (r: NeonPacket)
    ensures
        r@ == spec_accept_packet(assigned_id, session_id),
{
    NeonPacket {
        packet_type: OPCODE_CONNECT_ACCEPT,
        sequence: 1,
        client_id: assigned_id,
        destination_id: assigned_id,
        payload: PacketPayload::ConnectAccept(
            ConnectAccept { assigned_client_id: assigned_id, session_id },
        ),
    }
}

/// Builds a refusal packet around the given reason bytes.
pub fn connect_deny_packet(reason: Vec<u8>) -> (r: NeonPacket)
    ensures
        r@ == spec_deny_packet(reason@),
{
    NeonPacket {
        packet_type: OPCODE_CONNECT_DENY,
        sequence: 1,
        client_id: HOST_CLIENT_ID,
        destination_id: 0,
        payload: PacketPayload::ConnectDeny(crate::codec::ConnectDeny { reason }),
    }
}

/// Builds the reliable session-configuration packet for a client.
pub fn session_config_packet(assigned_id: u8) -> (r: NeonPacket)
    ensures
        r@ == spec_config_packet(assigned_id),
{
    NeonPacket {
        packet_type: OPCODE_SESSION_CONFIG,
        sequence: 2,
        client_id: assigned_id,
        destination_id: assigned_id,
        payload: PacketPayload::SessionConfig(
            SessionConfig { version: 1, tick_rate: 60, max_packet_size: 1024 },
        ),
    }
}

/// Builds the informational opcode catalogue for a client.
pub fn packet_type_registry_packet(assigned_id: u8) -> (r: NeonPacket)
    ensures
        r@ == spec_registry_packet(assigned_id),
{
    let name: Vec<u8> = vec![71u8, 97, 109, 101, 80, 97, 99, 107, 101, 116];
    let description: Vec<u8> = vec![
        65u8, 112, 112, 108, 105, 99, 97, 116, 105, 111, 110, 45, 100, 101, 102, 105, 110, 101,
        100, 32, 112, 97, 99, 107, 101, 116,
    ];
    proof {
        assert(name@ =~= spec_game_packet_name());
        assert(description@ =~= spec_game_packet_description());
    }
    let entry = PacketTypeEntry { packet_id: OPCODE_GAME_BASE, name, description };
    let mut entries: Vec<PacketTypeEntry> = Vec::new();
    entries.push(entry);
    let r = NeonPacket {
        packet_type: OPCODE_PACKET_TYPE_REGISTRY,
        sequence: 3,
        client_id: assigned_id,
        destination_id: assigned_id,
        payload: PacketPayload::PacketTypeRegistry(PacketTypeRegistry { entries }),
    };
    proof {
        assert(r@.payload->PacketTypeRegistry_0.entries =~= spec_registry_packet(
            assigned_id,
        ).payload->PacketTypeRegistry_0.entries);
    }
    r
}

/// Builds the reply to a probe, echoing its timestamp and sequence.
pub fn handle_ping(sequence: u16, from_client: u8, ping: Ping) -> (r: NeonPacket)
    ensures
        r@ == spec_pong_packet(sequence, from_client, ping),
{
    NeonPacket {
        packet_type: OPCODE_PONG,
        sequence,
        client_id: HOST_CLIENT_ID,
        destination_id: from_client,
        payload: PacketPayload::Pong(Pong { original_timestamp: ping.timestamp }),
    }
}

/// Builds the `Name '<name>' is already in use` reason.
fn name_taken_reason(name: &Vec<u8>) -> (r: Vec<u8>)
    ensures
        r@ == spec_name_taken_reason(name@),
{
    let mut out: Vec<u8> = vec![78u8, 97, 109, 101, 32, 39];
    let mut middle = clone_bytes(name);
    out.append(&mut middle);
    let mut tail: Vec<u8> = vec![
        39u8, 32, 105, 115, 32, 97, 108, 114, 101, 97, 100, 121, 32, 105, 110, 32, 117, 115, 101,
    ];
    out.append(&mut tail);
    assert(out@ =~= spec_name_taken_reason(name@));
    out
}

/// The host's answer to a join request.
#[derive(Debug)]
pub enum HostResponse {
    /// The request named another session and is silently ignored.
    Ignored,
    /// The name is taken or no client id remains; send this refusal.
    Deny(NeonPacket),
    /// The client is admitted: send the grant, then the configuration
    /// (tracked for acknowledgement), then the opcode catalogue.
    Admitted { assigned_id: u8, accept: NeonPacket, config: NeonPacket, registry: NeonPacket },
}

/// Whether a reliable send is overdue at `now_ms`.
pub open spec fn spec_ack_expired(e: PendingAckView, now_ms: u64) -> bool {
    now_ms - e.sent_at >= ACK_TIMEOUT_MS
}

/// One reliable send after a timer pass: an overdue entry is stamped as
/// resent now with one more retry; others are untouched.
pub open spec fn spec_tick_entry(e: PendingAckView, now_ms: u64) -> PendingAckView {
    if spec_ack_expired(e, now_ms) {
        PendingAckView { sent_at: now_ms, retry_count: (e.retry_count + 1) as u8, ..e }
    } else {
        e
    }
}

/// The pending table after a timer pass: an overdue entry whose stored
/// packet has already gone out [`MAX_ATTEMPTS`] times is evicted; every
/// other overdue entry is resent and restamped.
pub open spec fn spec_tick_acks(s: Seq<PendingAckView>, now_ms: u64) -> Seq<PendingAckView> {
    s.filter(
        |e: PendingAckView| !(spec_ack_expired(e, now_ms) && e.retry_count + 1 >= MAX_ATTEMPTS),
    ).map_values(|e: PendingAckView| spec_tick_entry(e, now_ms))
}

/// The packets a timer pass retransmits, in table order: the stored bytes
/// of every overdue entry still under the attempt ceiling.
pub open spec fn spec_resend_packets(s: Seq<PendingAckView>, now_ms: u64) -> Seq<NeonPacketView> {
    s.filter(
        |e: PendingAckView| spec_ack_expired(e, now_ms) && e.retry_count + 1 < MAX_ATTEMPTS,
    ).map_values(|e: PendingAckView| e.packet)
}

/// The pending table after an acknowledgement from `client_id`: the
/// client's entry disappears exactly when the acknowledged sequence
/// numbers include the entry's; everything else is untouched.
pub open spec fn spec_ack_step(
    s: Seq<PendingAckView>,
    client_id: u8,
    seqs: Seq<u16>,
) -> Seq<PendingAckView> {
    if exists|i: int|
        0 <= i < s.len() && (#[trigger] s[i]).client_id == client_id && seqs.contains(
            s[i].sequence,
        ) {
        s.remove(
            choose|i: int|
                0 <= i < s.len() && (#[trigger] s[i]).client_id == client_id && seqs.contains(
                    s[i].sequence,
                ),
        )
    } else {
        s
    }
}

/// When entry `i` is the acknowledged one, the acknowledgement step
/// removes exactly that entry.
proof fn lemma_ack_step_removes(s: Seq<PendingAckView>, client_id: u8, seqs: Seq<u16>, i: int)
    requires
        0 <= i < s.len(),
        s[i].client_id == client_id,
        seqs.contains(s[i].sequence),
        forall|a: int, b: int|
            0 <= a < b < s.len() ==> (#[trigger] s[a]).client_id != (#[trigger] s[b]).client_id,
    ensures
        spec_ack_step(s, client_id, seqs) == s.remove(i),
{
    let w = choose|w: int|
        0 <= w < s.len() && (#[trigger] s[w]).client_id == client_id && seqs.contains(
            s[w].sequence,
        );
    if w < i {
        assert(s[w].client_id != s[i].client_id);
    } else if i < w {
        assert(s[i].client_id != s[w].client_id);
    }
}

/// When no entry matches the acknowledgement, the step changes nothing.
proof fn lemma_ack_step_unchanged(s: Seq<PendingAckView>, client_id: u8, seqs: Seq<u16>)
    requires
        forall|w: int|
            0 <= w < s.len() ==> !((#[trigger] s[w]).client_id == client_id && seqs.contains(
                s[w].sequence,
            )),
    ensures
        spec_ack_step(s, client_id, seqs) == s,
{
}

/// Whether `seqs` holds `x`.
fn seqs_contain(seqs: &Vec<u16>, x: u16) -> (r: bool)
    ensures
        r == seqs@.contains(x),
{
    let mut i: usize = 0;
    while i < seqs.len()
        invariant
            i <= seqs@.len(),
            forall|j: int| 0 <= j < i ==> seqs@[j] != x,
        decreases seqs@.len() - i,
    {
        if seqs[i] == x {
            assert(seqs@[i as int] == x);
            return true;
        }
        i = i + 1;
    }
    false
}

impl NeonHost {
    /// A host owning `session_id`, with no clients and nothing pending.
    pub fn new(session_id: u32) -> (r: NeonHost)
        ensures
            spec_host_wf(r@),
            r@.session_id == session_id,
            r@.client_id == HOST_CLIENT_ID,
            r@.connected_clients.len() == 0,
            r@.next_client_id == FIRST_CLIENT_ID,
            r@.pending_acks.len() == 0,
    {
        NeonHost {
            client_id: HOST_CLIENT_ID,
            session_id,
            connected_clients: Vec::new(),
            next_client_id: FIRST_CLIENT_ID,
            pending_acks: Vec::new(),
        }
    }

    /// The session this host owns.
    pub fn session_id(&self) -> (r: u32)
        ensures
            r == self@.session_id,
    {
        self.session_id
    }

    /// The number of admitted clients.
    pub fn client_count(&self) -> (r: usize)
        ensures
            r == self@.connected_clients.len(),
    {
        self.connected_clients.len()
    }

    /// Whether some admitted client already carries `name`.
    pub fn is_name_taken(&self, name: &Vec<u8>) -> (r: bool)
        ensures
            r == exists|i: int|
                0 <= i < self@.connected_clients.len() && (
                #[trigger] self@.connected_clients[i]).name == name@,
    {
        let mut i: usize = 0;
        while i < self.connected_clients.len()
            invariant
                i <= self@.connected_clients.len(),
                self@.connected_clients.len() == self.connected_clients@.len(),
                forall|j: int|
                    0 <= j < i ==> (#[trigger] self@.connected_clients[j]).name != name@,
            decreases self@.connected_clients.len() - i,
        {
            if bytes_eq(&self.connected_clients[i].name, name) {
                proof {
                    assert(self@.connected_clients[i as int].name == name@);
                }
                return true;
            }
            i = i + 1;
        }
        false
    }

    /// Admission: requests for another session are ignored; a taken name
    /// or an exhausted id space is refused with a reason; otherwise the
    /// next id is assigned, the name recorded, and the configuration
    /// tracked for acknowledgement from time `now_ms`.
    pub fn handle_connect_request(&mut self, req: ConnectRequest, now_ms: u64) -> (r: HostResponse)
        requires
            spec_host_wf(old(self)@),
        ensures
            spec_host_wf(final(self)@),
            final(self)@.session_id == old(self)@.session_id,
            final(self)@.client_id == old(self)@.client_id,
            ({
                let h0 = old(self)@;
                let hf = final(self)@;
                if req.target_session_id != h0.session_id {
                    hf == h0 && r is Ignored
                } else if exists|i: int|
                    0 <= i < h0.connected_clients.len() && (
                    #[trigger] h0.connected_clients[i]).name == req.desired_name@ {
                    hf == h0 && (r matches HostResponse::Deny(d) && d@ == spec_deny_packet(
                        spec_name_taken_reason(req.desired_name@),
                    ))
                } else if h0.next_client_id > 255 {
                    hf == h0 && (r matches HostResponse::Deny(d) && d@ == spec_deny_packet(
                        spec_session_full_reason(),
                    ))
                } else {
                    let assigned = h0.next_client_id as u8;
                    &&& hf.next_client_id == h0.next_client_id + 1
                    &&& hf.connected_clients == h0.connected_clients.push(
                        ClientRecordView { client_id: assigned, name: req.desired_name@ },
                    )
                    &&& hf.pending_acks == h0.pending_acks.push(
                        PendingAckView {
                            client_id: assigned,
                            packet: spec_config_packet(assigned),
                            sequence: 2,
                            sent_at: now_ms,
                            retry_count: 0,
                        },
                    )
                    &&& (r matches HostResponse::Admitted {
                        assigned_id,
                        accept,
                        config,
                        registry,
                    } && assigned_id == assigned && accept@ == spec_accept_packet(
                        assigned,
                        h0.session_id,
                    ) && config@ == spec_config_packet(assigned) && registry@
                        == spec_registry_packet(assigned))
                }
            }),
    {
        if req.target_session_id != self.session_id {
            return HostResponse::Ignored;
        }
        if self.is_name_taken(&req.desired_name) {
            let reason = name_taken_reason(&req.desired_name);
            return HostResponse::Deny(connect_deny_packet(reason));
        }
        if self.next_client_id > 255 {
            let reason: Vec<u8> = vec![
                83u8, 101, 115, 115, 105, 111, 110, 32, 105, 115, 32, 102, 117, 108, 108,
            ];
            proof {
                assert(reason@ =~= spec_session_full_reason());
            }
            return HostResponse::Deny(connect_deny_packet(reason));
        }
        let assigned: u8 = self.next_client_id as u8;
        self.next_client_id = self.next_client_id + 1;
        let accept = connect_accept_packet(assigned, self.session_id);
        let config = session_config_packet(assigned);
        let registry = packet_type_registry_packet(assigned);
        let stored = session_config_packet(assigned);
        let ghost c0 = self@.connected_clients;
        let ghost p0 = self@.pending_acks;
        self.connected_clients.push(ClientRecord { client_id: assigned, name: req.desired_name });
        self.pending_acks.push(
            PendingAck { client_id: assigned, packet: stored, sequence: 2, sent_at: now_ms, retry_count: 0 },
        );
        proof {
            assert(self@.connected_clients =~= c0.push(
                ClientRecordView { client_id: assigned, name: req.desired_name@ },
            ));
            assert(self@.pending_acks =~= p0.push(
                PendingAckView {
                    client_id: assigned,
                    packet: spec_config_packet(assigned),
                    sequence: 2,
                    sent_at: now_ms,
                    retry_count: 0,
                },
            ));
        }
        HostResponse::Admitted { assigned_id: assigned, accept, config, registry }
    }

    /// Acknowledgement intake: drops the pending send for `client_id` when
    /// the acknowledged sequence numbers include its sequence; a stray or
    /// repeated acknowledgement changes nothing.
    pub fn handle_ack(&mut self, client_id: u8, ack: &Ack)
        requires
            spec_host_wf(old(self)@),
        ensures
            spec_host_wf(final(self)@),
            final(self)@.pending_acks == spec_ack_step(
                old(self)@.pending_acks,
                client_id,
                ack.acknowledged_sequences@,
            ),
            final(self)@.connected_clients == old(self)@.connected_clients,
            final(self)@.session_id == old(self)@.session_id,
            final(self)@.client_id == old(self)@.client_id,
            final(self)@.next_client_id == old(self)@.next_client_id,
    {
        let ghost h0 = self@;
        let ghost s0 = self@.pending_acks;
        let ghost seqs = ack.acknowledged_sequences@;
        let mut i: usize = 0;
        let n = self.pending_acks.len();
        while i < n
            invariant
                spec_host_wf(self@),
                h0 == old(self)@,
                self@ == h0,
                self@.pending_acks == s0,
                seqs == ack.acknowledged_sequences@,
                n == s0.len(),
                i <= n,
                forall|j: int| 0 <= j < i ==> (#[trigger] s0[j]).client_id != client_id,
            decreases n - i,
        {
            if self.pending_acks[i].client_id == client_id {
                if seqs_contain(&ack.acknowledged_sequences, self.pending_acks[i].sequence) {
                    proof {
                        assert(s0[i as int].client_id == client_id && seqs.contains(
                            s0[i as int].sequence,
                        ));
                        lemma_ack_step_removes(
                            old(self)@.pending_acks,
                            client_id,
                            ack.acknowledged_sequences@,
                            i as int,
                        );
                    }
                    self.pending_acks.remove(i);
                    proof {
                        let sf = self@.pending_acks;
                        assert(sf =~= s0.remove(i as int));
                        assert forall|a: int, b: int|
                            0 <= a < b < sf.len() implies (#[trigger] sf[a]).client_id != (
                            #[trigger] sf[b]).client_id by {
                            let a0: int = if a < i as int { a } else { a + 1 };
                            let b0: int = if b < i as int { b } else { b + 1 };
                            assert(s0[a0].client_id != s0[b0].client_id);
                        }
                        assert forall|a: int|
                            0 <= a < sf.len() implies (FIRST_CLIENT_ID <= (
                        #[trigger] sf[a]).client_id < h0.next_client_id && sf[a].retry_count
                            < MAX_ATTEMPTS) by {
                            let a0: int = if a < i as int { a } else { a + 1 };
                            assert(sf[a] == s0[a0]);
                        }
                        assert(self@.client_id == HOST_CLIENT_ID);
                        assert(FIRST_CLIENT_ID <= self@.next_client_id <= 256);
                        assert(self@.connected_clients == h0.connected_clients);
                        assert(self@.pending_acks == sf);
                        assert(spec_host_wf(self@));
                    }
                    return ;
                } else {
                    proof {
                        assert forall|w: int|
                            0 <= w < s0.len() implies !((#[trigger] s0[w]).client_id == client_id
                            && seqs.contains(s0[w].sequence)) by {
                            if w < i as int {
                                assert(s0[w].client_id != client_id);
                            } else if (i as int) < w {
                                assert(s0[i as int].client_id != s0[w].client_id);
                            }
                        }
                        lemma_ack_step_unchanged(
                            old(self)@.pending_acks,
                            client_id,
                            ack.acknowledged_sequences@,
                        );
                    }
                    return ;
                }
            }
            i = i + 1;
        }
        proof {
            assert forall|w: int|
                0 <= w < s0.len() implies (#[trigger] s0[w]).client_id != client_id by {}
            lemma_ack_step_unchanged(
                old(self)@.pending_acks,
                client_id,
                ack.acknowledged_sequences@,
            );
        }
    }
}

/// Whether a reliable send is overdue at `now_ms`.
fn ack_expired(sent_at: u64, now_ms: u64) -> (r: bool)
    ensures
        r == (now_ms - sent_at >= ACK_TIMEOUT_MS),
{
    if now_ms <= sent_at {
        false
    } else {
        now_ms - sent_at >= ACK_TIMEOUT_MS
    }
}

impl NeonHost {
    /// The timer pass over the pending table: every overdue entry still
    /// under the attempt ceiling is returned for retransmission and
    /// restamped at `now_ms` with one more retry; an overdue entry whose
    /// packet has already gone out [`MAX_ATTEMPTS`] times is evicted.
    /// Fresh entries are untouched.
    pub fn check_pending_acks(&mut self, now_ms: u64) -> (resend: Vec<NeonPacket>)
        requires
            spec_host_wf(old(self)@),
        ensures
            spec_host_wf(final(self)@),
            final(self)@.pending_acks == spec_tick_acks(old(self)@.pending_acks, now_ms),
            resend@.map_values(|p: NeonPacket| p@) == spec_resend_packets(
                old(self)@.pending_acks,
                now_ms,
            ),
            final(self)@.connected_clients == old(self)@.connected_clients,
            final(self)@.session_id == old(self)@.session_id,
            final(self)@.client_id == old(self)@.client_id,
            final(self)@.next_client_id == old(self)@.next_client_id,
    {
        let ghost s0 = self@.pending_acks;
        let ghost keep_pred = |e: PendingAckView|
            !(spec_ack_expired(e, now_ms) && e.retry_count + 1 >= MAX_ATTEMPTS);
        let ghost resend_pred = |e: PendingAckView|
            spec_ack_expired(e, now_ms) && e.retry_count + 1 < MAX_ATTEMPTS;
        let mut kept: Vec<PendingAck> = Vec::new();
        let mut resend: Vec<NeonPacket> = Vec::new();
        let mut i: usize = 0;
        let n = self.pending_acks.len();
        while i < n
            invariant
                spec_host_wf(old(self)@),
                self@ == old(self)@,
                s0 == self@.pending_acks,
                n == s0.len(),
                i <= n,
                keep_pred == (|e: PendingAckView|
                    !(spec_ack_expired(e, now_ms) && e.retry_count + 1 >= MAX_ATTEMPTS)),
                resend_pred == (|e: PendingAckView|
                    spec_ack_expired(e, now_ms) && e.retry_count + 1 < MAX_ATTEMPTS),
                kept@.map_values(|p: PendingAck| p@) == s0.take(i as int).filter(
                    keep_pred,
                ).map_values(|e: PendingAckView| spec_tick_entry(e, now_ms)),
                resend@.map_values(|p: NeonPacket| p@) == s0.take(i as int).filter(
                    resend_pred,
                ).map_values(|e: PendingAckView| e.packet),
                forall|k: int|
                    0 <= k < kept@.len() ==> exists|j: int|
                        0 <= j < i && (#[trigger] kept@[k])@.client_id == (
                        #[trigger] s0[j]).client_id,
                forall|a: int, b: int|
                    0 <= a < b < kept@.len() ==> (#[trigger] kept@[a])@.client_id != (
                    #[trigger] kept@[b])@.client_id,
                forall|k: int|
                    0 <= k < kept@.len() ==> FIRST_CLIENT_ID <= (#[trigger] kept@[k])@.client_id
                        < self@.next_client_id && kept@[k]@.retry_count < MAX_ATTEMPTS,
            decreases n - i,
        {
            let ghost e = s0[i as int];
            proof {
                assert(s0.take(i as int + 1) =~= s0.take(i as int).push(e));
                lemma_filter_push(s0.take(i as int), keep_pred, e);
                lemma_filter_push(s0.take(i as int), resend_pred, e);
                if spec_host_wf(old(self)@) {
                    assert(FIRST_CLIENT_ID <= e.client_id < self@.next_client_id
                        && e.retry_count < MAX_ATTEMPTS);
                }
                assert forall|k: int|
                    0 <= k < kept@.len() implies (#[trigger] kept@[k])@.client_id
                    != e.client_id by {
                    let j = choose|j: int|
                        0 <= j < i && kept@[k]@.client_id == (#[trigger] s0[j]).client_id;
                    assert(s0[j].client_id != s0[i as int].client_id);
                }
            }
            let entry = &self.pending_acks[i];
            let expired = ack_expired(entry.sent_at, now_ms);
            if expired {
                if entry.retry_count + 1 < MAX_ATTEMPTS {
                    let packet_copy = clone_packet(&entry.packet);
                    let refreshed = PendingAck {
                        client_id: entry.client_id,
                        packet: clone_packet(&entry.packet),
                        sequence: entry.sequence,
                        sent_at: now_ms,
                        retry_count: entry.retry_count + 1,
                    };
                    proof {
                        assert(refreshed@ == spec_tick_entry(e, now_ms));
                        assert(packet_copy@ == e.packet);
                    }
                    let ghost kb = kept@;
                    let ghost rb = resend@;
                    let ghost refreshed_v = refreshed@;
                    kept.push(refreshed);
                    resend.push(packet_copy);
                    proof {
                        lemma_map_values_push(kb, |p: PendingAck| p@, kept@[kb.len() as int]);
                        lemma_map_values_push(rb, |p: NeonPacket| p@, resend@[rb.len() as int]);
                        lemma_map_values_push(
                            s0.take(i as int).filter(keep_pred),
                            |e2: PendingAckView| spec_tick_entry(e2, now_ms),
                            e,
                        );
                        lemma_map_values_push(
                            s0.take(i as int).filter(resend_pred),
                            |e2: PendingAckView| e2.packet,
                            e,
                        );
                        assert(kept@ == kb.push(kept@[kb.len() as int]));
                        assert(resend@ == rb.push(resend@[rb.len() as int]));
                        assert(kept@[kb.len() as int]@ == spec_tick_entry(e, now_ms));
                        assert(kept@.map_values(|p: PendingAck| p@) == s0.take(
                            i as int + 1,
                        ).filter(keep_pred).map_values(
                            |e2: PendingAckView| spec_tick_entry(e2, now_ms),
                        ));
                        assert(resend@.map_values(|p: NeonPacket| p@) == s0.take(
                            i as int + 1,
                        ).filter(resend_pred).map_values(|e2: PendingAckView| e2.packet));
                    }
                }  else {
                    proof {
                        assert(kept@.map_values(|p: PendingAck| p@) =~= s0.take(
                            i as int + 1,
                        ).filter(keep_pred).map_values(
                            |e2: PendingAckView| spec_tick_entry(e2, now_ms),
                        ));
                        assert(resend@.map_values(|p: NeonPacket| p@) =~= s0.take(
                            i as int + 1,
                        ).filter(resend_pred).map_values(|e2: PendingAckView| e2.packet));
                    }
                }
            } else {
                let copy = PendingAck {
                    client_id: entry.client_id,
                    packet: clone_packet(&entry.packet),
                    sequence: entry.sequence,
                    sent_at: entry.sent_at,
                    retry_count: entry.retry_count,
                };
                proof {
                    assert(copy@ == spec_tick_entry(e, now_ms));
                }
                let ghost kb = kept@;
                kept.push(copy);
                proof {
                    lemma_map_values_push(kb, |p: PendingAck| p@, kept@[kb.len() as int]);
                    lemma_map_values_push(
                        s0.take(i as int).filter(keep_pred),
                        |e2: PendingAckView| spec_tick_entry(e2, now_ms),
                        e,
                    );
                    assert(kept@ == kb.push(kept@[kb.len() as int]));
                    assert(kept@[kb.len() as int]@ == spec_tick_entry(e, now_ms));
                    assert(kept@.map_values(|p: PendingAck| p@) == s0.take(i as int + 1).filter(
                        keep_pred,
                    ).map_values(|e2: PendingAckView| spec_tick_entry(e2, now_ms)));
                    assert(resend@.map_values(|p: NeonPacket| p@) =~= s0.take(
                        i as int + 1,
                    ).filter(resend_pred).map_values(|e2: PendingAckView| e2.packet));
                }
            }
            i = i + 1;
        }
        proof {
            assert(s0.take(n as int) =~= s0);
        }
        let ghost kv = kept@;
        self.pending_acks = kept;
        proof {
            assert forall|k: int|
                0 <= k < self@.pending_acks.len() implies #[trigger] self@.pending_acks[k]
                == kv[k]@ by {}
            assert(self@.client_id == HOST_CLIENT_ID);
            assert(FIRST_CLIENT_ID <= self@.next_client_id <= 256);
            assert(self@.connected_clients == old(self)@.connected_clients);
            assert(forall|i2: int|
                0 <= i2 < self@.connected_clients.len() ==> FIRST_CLIENT_ID <= (
                #[trigger] self@.connected_clients[i2]).client_id < self@.next_client_id);
            assert(forall|i2: int, j2: int|
                0 <= i2 < j2 < self@.connected_clients.len() ==> (
                #[trigger] self@.connected_clients[i2]).client_id != (
                #[trigger] self@.connected_clients[j2]).client_id);
            assert forall|i2: int|
                0 <= i2 < self@.pending_acks.len() implies FIRST_CLIENT_ID <= (
                #[trigger] self@.pending_acks[i2]).client_id < self@.next_client_id by {
                assert(self@.pending_acks[i2] == kv[i2]@);
            }
            assert forall|i2: int, j2: int|
                0 <= i2 < j2 < self@.pending_acks.len() implies (
                #[trigger] self@.pending_acks[i2]).client_id != (
                #[trigger] self@.pending_acks[j2]).client_id by {
                assert(self@.pending_acks[i2] == kv[i2]@);
                assert(self@.pending_acks[j2] == kv[j2]@);
            }
            assert forall|i2: int|
                0 <= i2 < self@.pending_acks.len() implies (
                #[trigger] self@.pending_acks[i2]).retry_count < MAX_ATTEMPTS by {
                assert(self@.pending_acks[i2] == kv[i2]@);
            }
            assert(spec_host_wf(self@));
        }
        resend
    }
}

/// The acknowledgement deadline law: after a timer pass at `now_ms` no
/// pending send is overdue (each was just retransmitted or evicted) and
/// none has reached the attempt ceiling. A reliable send therefore goes
/// out at most [`MAX_ATTEMPTS`] times in all, successive sends at least
/// [`ACK_TIMEOUT_MS`] apart, so it is acknowledged or declared exhausted
/// within [`MAX_ATTEMPTS`] times [`ACK_TIMEOUT_MS`] of the first send.
pub proof fn lemma_config_ack_deadline(s: Seq<PendingAckView>, now_ms: u64)
    requires
        forall|i: int| 0 <= i < s.len() ==> (#[trigger] s[i]).retry_count < MAX_ATTEMPTS,
    ensures
        forall|k: int|
            0 <= k < spec_tick_acks(s, now_ms).len() ==> !spec_ack_expired(
                #[trigger] spec_tick_acks(s, now_ms)[k],
                now_ms,
            ),
        forall|k: int|
            0 <= k < spec_tick_acks(s, now_ms).len() ==> (#[trigger] spec_tick_acks(s, now_ms)[
            k]).retry_count < MAX_ATTEMPTS,
{
    broadcast use vstd::seq_lib::group_filter_ensures;

    let keep_pred = |e: PendingAckView|
        !(spec_ack_expired(e, now_ms) && e.retry_count + 1 >= MAX_ATTEMPTS);
    let filtered = s.filter(keep_pred);
    assert forall|k: int|
        0 <= k < spec_tick_acks(s, now_ms).len() implies (!spec_ack_expired(
        #[trigger] spec_tick_acks(s, now_ms)[k],
        now_ms,
    ) && spec_tick_acks(s, now_ms)[k].retry_count < MAX_ATTEMPTS) by {
        assert(keep_pred(filtered[k]));
        assert(filtered.contains(filtered[k]));
        s.lemma_filter_contains_rev(keep_pred, filtered[k]);
        assert(s.contains(filtered[k]));
        let j = choose|j: int| 0 <= j < s.len() && s[j] == filtered[k];
        assert(s[j].retry_count < MAX_ATTEMPTS);
        assert(spec_tick_acks(s, now_ms)[k] == spec_tick_entry(filtered[k], now_ms));
    }
}

/// The duplicate-acknowledgement law: acknowledging the same sequences
/// from the same client twice leaves exactly the state one
/// acknowledgement leaves; the second has no effect.
pub proof fn lemma_duplicate_ack_no_effect(s: Seq<PendingAckView>, client_id: u8, seqs: Seq<u16>)
    requires
        forall|a: int, b: int|
            0 <= a < b < s.len() ==> (#[trigger] s[a]).client_id != (#[trigger] s[b]).client_id,
    ensures
        spec_ack_step(spec_ack_step(s, client_id, seqs), client_id, seqs) == spec_ack_step(
            s,
            client_id,
            seqs,
        ),
{
    if exists|i: int|
        0 <= i < s.len() && (#[trigger] s[i]).client_id == client_id && seqs.contains(
            s[i].sequence,
        ) {
        let i = choose|i: int|
            0 <= i < s.len() && (#[trigger] s[i]).client_id == client_id && seqs.contains(
                s[i].sequence,
            );
        let s1 = s.remove(i);
        assert(spec_ack_step(s, client_id, seqs) == s1);
        assert forall|w: int|
            0 <= w < s1.len() implies !((#[trigger] s1[w]).client_id == client_id
            && seqs.contains(s1[w].sequence)) by {
            let w0: int = if w < i { w } else { w + 1 };
            assert(s1[w] == s[w0]);
            if w0 < i {
                assert(s[w0].client_id != s[i].client_id);
            } else {
                assert(s[i].client_id != s[w0].client_id);
            }
        }
        lemma_ack_step_unchanged(s1, client_id, seqs);
    } else {
        assert(spec_ack_step(s, client_id, seqs) == s);
    }
}

/// The probe round-trip law: the host's reply to `Ping{t}` echoes the
/// probe's sequence number and carries `original_timestamp == t`, whose
/// wire body is the timestamp's eight little-endian bytes unchanged.
pub proof fn lemma_pong_echoes_ping(sequence: u16, from_client: u8, ping: Ping)
    ensures
        spec_pong_packet(sequence, from_client, ping).sequence == sequence,
        spec_pong_packet(sequence, from_client, ping).payload == PacketPayloadView::Pong(
            Pong { original_timestamp: ping.timestamp },
        ),
        crate::codec::spec_payload_bytes(spec_pong_packet(sequence, from_client, ping).payload)
            == crate::codec::spec_le64(ping.timestamp),
{
}

} // verus!
