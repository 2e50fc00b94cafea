//! Wire codec: the 8-byte packet header and the typed payload bodies.
//!
//! Every integer on the wire is little-endian. A datagram is the header
//! followed by a type-dependent body; datagrams longer than 1024 bytes are
//! rejected at decode. Strings travel as raw bytes; trailing strings (a
//! desired name, a deny reason) consume the remainder of the datagram.

use vstd::prelude::*;

verus! {

/// The constant that opens every datagram, "NE" in little-endian order.
pub const WIRE_MAGIC: u16 = 0x4E45;

/// Protocol major version carried in every header.
pub const PROTOCOL_VERSION: u8 = 1;

/// Largest datagram accepted by the decoder.
pub const MAX_DATAGRAM_LEN: usize = 1024;

/// Little-endian image of a `u16`, least significant byte first.
pub open spec fn spec_le16(v: u16) -> Seq<u8> {
    seq![(v % 256) as u8, (v / 256) as u8]
}

/// The `u16` denoted by two little-endian bytes.
pub open spec fn spec_combine16(b0: u8, b1: u8) -> u16 {
    (b0 + b1 * 256) as u16
}

/// Little-endian image of a `u32`, least significant byte first.
pub open spec fn spec_le32(v: u32) -> Seq<u8> {
    seq![
        (v % 256) as u8,
        ((v / 256) % 256) as u8,
        ((v / 0x10000) % 256) as u8,
        (v / 0x1000000) as u8,
    ]
}

/// The `u32` denoted by four little-endian bytes.
pub open spec fn spec_combine32(b0: u8, b1: u8, b2: u8, b3: u8) -> u32 {
    (b0 + b1 * 256 + b2 * 0x10000 + b3 * 0x1000000) as u32
}

/// Little-endian image of a `u64`, least significant byte first.
pub open spec fn spec_le64(v: u64) -> Seq<u8> {
    seq![
        (v % 256) as u8,
        ((v / 256) % 256) as u8,
        ((v / 0x10000) % 256) as u8,
        ((v / 0x1000000) % 256) as u8,
        ((v / 0x100000000) % 256) as u8,
        ((v / 0x10000000000) % 256) as u8,
        ((v / 0x1000000000000) % 256) as u8,
        (v / 0x100000000000000) as u8,
    ]
}

/// The `u64` denoted by eight little-endian bytes.
pub open spec fn spec_combine64(
    b0: u8, b1: u8, b2: u8, b3: u8, b4: u8, b5: u8, b6: u8, b7: u8,
) -> u64 {
    (b0 + b1 * 256 + b2 * 0x10000 + b3 * 0x1000000 + b4 * 0x100000000
        + b5 * 0x10000000000 + b6 * 0x1000000000000 + b7 * 0x100000000000000) as u64
}

/// Appends the two little-endian bytes of `v` to `out`.
fn push_le16(out: &mut Vec<u8>, v: u16)
    ensures
        final(out)@ == old(out)@ + spec_le16(v),
{
    out.push((v % 256) as u8);
    out.push((v / 256) as u8);
    assert(out@ =~= old(out)@ + spec_le16(v));
}

/// Appends the four little-endian bytes of `v` to `out`.
fn push_le32(out: &mut Vec<u8>, v: u32)
    ensures
        final(out)@ == old(out)@ + spec_le32(v),
{
    out.push((v % 256) as u8);
    out.push(((v / 256) % 256) as u8);
    out.push(((v / 0x10000) % 256) as u8);
    out.push((v / 0x1000000) as u8);
    assert(out@ =~= old(out)@ + spec_le32(v));
}

/// Appends the eight little-endian bytes of `v` to `out`.
fn push_le64(out: &mut Vec<u8>, v: u64)
    ensures
        final(out)@ == old(out)@ + spec_le64(v),
{
    out.push((v % 256) as u8);
    out.push(((v / 256) % 256) as u8);
    out.push(((v / 0x10000) % 256) as u8);
    out.push(((v / 0x1000000) % 256) as u8);
    out.push(((v / 0x100000000) % 256) as u8);
    out.push(((v / 0x10000000000) % 256) as u8);
    out.push(((v / 0x1000000000000) % 256) as u8);
    out.push((v / 0x100000000000000) as u8);
    assert(out@ =~= old(out)@ + spec_le64(v));
}

/// The `u16` stored as two little-endian bytes.
fn combine16(b0: u8, b1: u8) -> (v: u16)
    ensures
        v == spec_combine16(b0, b1),
{
    b0 as u16 + b1 as u16 * 256
}

/// The `u32` stored as four little-endian bytes.
fn combine32(b0: u8, b1: u8, b2: u8, b3: u8) -> (v: u32)
    ensures
        v == spec_combine32(b0, b1, b2, b3),
{
    b0 as u32 + b1 as u32 * 256 + b2 as u32 * 0x10000 + b3 as u32 * 0x1000000
}

/// The `u64` stored as eight little-endian bytes.
fn combine64(b0: u8, b1: u8, b2: u8, b3: u8, b4: u8, b5: u8, b6: u8, b7: u8) -> (v: u64)
    ensures
        v == spec_combine64(b0, b1, b2, b3, b4, b5, b6, b7),
{
    b0 as u64 + b1 as u64 * 256 + b2 as u64 * 0x10000 + b3 as u64 * 0x1000000
        + b4 as u64 * 0x100000000 + b5 as u64 * 0x10000000000
        + b6 as u64 * 0x1000000000000 + b7 as u64 * 0x100000000000000
}

/// Combining the little-endian image of a value gives the value back.
pub proof fn lemma_le16_roundtrip(v: u16)
    ensures
        spec_combine16(spec_le16(v)[0], spec_le16(v)[1]) == v,
{
}

/// The little-endian image of a combined pair is the pair itself.
pub proof fn lemma_combine16_roundtrip(b0: u8, b1: u8)
    ensures
        spec_le16(spec_combine16(b0, b1)) == seq![b0, b1],
{
    assert(spec_le16(spec_combine16(b0, b1)) =~= seq![b0, b1]);
}

/// Combining the little-endian image of a value gives the value back.
pub proof fn lemma_le32_roundtrip(v: u32)
    ensures
        spec_combine32(spec_le32(v)[0], spec_le32(v)[1], spec_le32(v)[2], spec_le32(v)[3]) == v,
{
}

/// The little-endian image of a combined quadruple is the quadruple itself.
pub proof fn lemma_combine32_roundtrip(b0: u8, b1: u8, b2: u8, b3: u8)
    ensures
        spec_le32(spec_combine32(b0, b1, b2, b3)) == seq![b0, b1, b2, b3],
{
    let x = spec_combine32(b0, b1, b2, b3);
    assert(x % 256 == b0
        && (x / 256) % 256 == b1
        && (x / 0x10000) % 256 == b2
        && x / 0x1000000 == b3) by (bit_vector)
        requires
            x == (b0 + b1 * 256 + b2 * 0x10000 + b3 * 0x1000000) as u32,
    ;
    assert(spec_le32(spec_combine32(b0, b1, b2, b3)) =~= seq![b0, b1, b2, b3]);
}

/// Combining the little-endian image of a value gives the value back.
pub proof fn lemma_le64_roundtrip(v: u64)
    ensures
        spec_combine64(
            spec_le64(v)[0], spec_le64(v)[1], spec_le64(v)[2], spec_le64(v)[3],
            spec_le64(v)[4], spec_le64(v)[5], spec_le64(v)[6], spec_le64(v)[7],
        ) == v,
{
    assert(v % 256
        + (v / 256) % 256 * 256
        + (v / 0x10000) % 256 * 0x10000
        + (v / 0x1000000) % 256 * 0x1000000
        + (v / 0x100000000) % 256 * 0x100000000
        + (v / 0x10000000000) % 256 * 0x10000000000
        + (v / 0x1000000000000) % 256 * 0x1000000000000
        + (v / 0x100000000000000) * 0x100000000000000 == v) by (bit_vector);
}

/// The little-endian image of a combined octuple is the octuple itself.
pub proof fn lemma_combine64_roundtrip(b0: u8, b1: u8, b2: u8, b3: u8, b4: u8, b5: u8, b6: u8, b7: u8)
    ensures
        spec_le64(spec_combine64(b0, b1, b2, b3, b4, b5, b6, b7))
            == seq![b0, b1, b2, b3, b4, b5, b6, b7],
{
    let x = spec_combine64(b0, b1, b2, b3, b4, b5, b6, b7);
    assert(x % 256 == b0
        && (x / 256) % 256 == b1
        && (x / 0x10000) % 256 == b2
        && (x / 0x1000000) % 256 == b3
        && (x / 0x100000000) % 256 == b4
        && (x / 0x10000000000) % 256 == b5
        && (x / 0x1000000000000) % 256 == b6
        && x / 0x100000000000000 == b7) by (bit_vector)
        requires
            x == (b0 + b1 * 256 + b2 * 0x10000 + b3 * 0x1000000 + b4 * 0x100000000
                + b5 * 0x10000000000 + b6 * 0x1000000000000
                + b7 * 0x100000000000000) as u64,
    ;
    assert(spec_le64(spec_combine64(b0, b1, b2, b3, b4, b5, b6, b7))
        =~= seq![b0, b1, b2, b3, b4, b5, b6, b7]);
}

/// Decode failure classes: a bad frame, or a body shorter than its opcode allows.
#[derive(Debug, Clone, Copy, PartialEq, Eq, Structural)]
pub enum DecodeError {
    /// The datagram is shorter than 8 bytes, oversized, or its magic or
    /// version field is wrong.
    MalformedHeader,
    /// The body is shorter than the minimum for its opcode.
    MalformedPayload,
}

/// The protocol control opcodes (application opcodes are `0x10` and above).
#[derive(Debug, Clone, Copy, PartialEq, Eq, Structural)]
pub enum CorePacketType {
    ConnectRequest,
    ConnectAccept,
    ConnectDeny,
    SessionConfig,
    PacketTypeRegistry,
    Ping,
    Pong,
    DisconnectNotice,
    Ack,
}

pub const OPCODE_CONNECT_REQUEST: u8 = 0x01;

pub const OPCODE_CONNECT_ACCEPT: u8 = 0x02;

pub const OPCODE_CONNECT_DENY: u8 = 0x03;

pub const OPCODE_SESSION_CONFIG: u8 = 0x04;

pub const OPCODE_PACKET_TYPE_REGISTRY: u8 = 0x05;

pub const OPCODE_PING: u8 = 0x0B;

pub const OPCODE_PONG: u8 = 0x0C;

pub const OPCODE_DISCONNECT_NOTICE: u8 = 0x0D;

pub const OPCODE_ACK: u8 = 0x0E;

/// First opcode of the application-defined range, forwarded opaquely.
pub const OPCODE_GAME_BASE: u8 = 0x10;

impl CorePacketType {
    /// The wire opcode of this packet type.
    pub open spec fn spec_opcode(self) -> u8 {
        match self {
            CorePacketType::ConnectRequest => OPCODE_CONNECT_REQUEST,
            CorePacketType::ConnectAccept => OPCODE_CONNECT_ACCEPT,
            CorePacketType::ConnectDeny => OPCODE_CONNECT_DENY,
            CorePacketType::SessionConfig => OPCODE_SESSION_CONFIG,
            CorePacketType::PacketTypeRegistry => OPCODE_PACKET_TYPE_REGISTRY,
            CorePacketType::Ping => OPCODE_PING,
            CorePacketType::Pong => OPCODE_PONG,
            CorePacketType::DisconnectNotice => OPCODE_DISCONNECT_NOTICE,
            CorePacketType::Ack => OPCODE_ACK,
        }
    }

    /// The wire opcode of this packet type.
    pub fn opcode(self) -> (r: u8)
        ensures
            r == self.spec_opcode(),
    {
        match self {
            CorePacketType::ConnectRequest => OPCODE_CONNECT_REQUEST,
            CorePacketType::ConnectAccept => OPCODE_CONNECT_ACCEPT,
            CorePacketType::ConnectDeny => OPCODE_CONNECT_DENY,
            CorePacketType::SessionConfig => OPCODE_SESSION_CONFIG,
            CorePacketType::PacketTypeRegistry => OPCODE_PACKET_TYPE_REGISTRY,
            CorePacketType::Ping => OPCODE_PING,
            CorePacketType::Pong => OPCODE_PONG,
            CorePacketType::DisconnectNotice => OPCODE_DISCONNECT_NOTICE,
            CorePacketType::Ack => OPCODE_ACK,
        }
    }
}

/// The fixed 8-byte header that opens every datagram.
#[derive(Debug, Clone, Copy, PartialEq, Eq, Structural)]
pub struct PacketHeader {
    pub magic: u16,
    pub version: u8,
    pub packet_type: u8,
    pub sequence: u16,
    pub client_id: u8,
    pub destination_id: u8,
}

/// Request to join a session; the desired name runs to the end of the body.
#[derive(Debug, Clone)]
pub struct ConnectRequest {
    pub client_version: u8,
    pub desired_name: Vec<u8>,
    pub target_session_id: u32,
    pub game_identifier: Option<u32>,
}

/// Admission grant, also used for host and client registration at the relay.
#[derive(Debug, Clone, Copy, PartialEq, Eq, Structural)]
pub struct ConnectAccept {
    pub assigned_client_id: u8,
    pub session_id: u32,
}

/// Admission refusal; the reason runs to the end of the body.
#[derive(Debug, Clone)]
pub struct ConnectDeny {
    pub reason: Vec<u8>,
}

/// Liveness probe carrying the sender's clock in milliseconds.
#[derive(Debug, Clone, Copy, PartialEq, Eq, Structural)]
pub struct Ping {
    pub timestamp: u64,
}

/// Reply to a probe, echoing the probe's timestamp byte for byte.
#[derive(Debug, Clone, Copy, PartialEq, Eq, Structural)]
pub struct Pong {
    pub original_timestamp: u64,
}

/// Session parameters pushed reliably by the host after admission.
#[derive(Debug, Clone, Copy, PartialEq, Eq, Structural)]
pub struct SessionConfig {
    pub version: u8,
    pub tick_rate: u16,
    pub max_packet_size: u16,
}

/// Acknowledgement of reliably sent packets, by sequence number.
#[derive(Debug, Clone)]
pub struct Ack {
    pub acknowledged_sequences: Vec<u16>,
}

/// One advertised application opcode.
#[derive(Debug, Clone)]
pub struct PacketTypeEntry {
    pub packet_id: u8,
    pub name: Vec<u8>,
    pub description: Vec<u8>,
}

/// Informational catalogue of the application's opcode space.
#[derive(Debug, Clone)]
pub struct PacketTypeRegistry {
    pub entries: Vec<PacketTypeEntry>,
}

/// A typed packet body. `Reserved` stands for the defined-but-empty control
/// opcodes and for unrecognized opcodes below the application range.
#[derive(Debug, Clone)]
pub enum PacketPayload {
    Reserved,
    Ping(Ping),
    Pong(Pong),
    ConnectRequest(ConnectRequest),
    ConnectAccept(ConnectAccept),
    ConnectDeny(ConnectDeny),
    SessionConfig(SessionConfig),
    Ack(Ack),
    PacketTypeRegistry(PacketTypeRegistry),
    GamePacket(Vec<u8>),
}

/// A decoded packet: the routable header fields and the typed body.
#[derive(Debug, Clone)]
pub struct NeonPacket {
    pub packet_type: u8,
    pub sequence: u16,
    pub client_id: u8,
    pub destination_id: u8,
    pub payload: PacketPayload,
}

/// Mathematical image of a [`ConnectRequest`].
pub ghost struct ConnectRequestView {
    pub client_version: u8,
    pub desired_name: Seq<u8>,
    pub target_session_id: u32,
    pub game_identifier: Option<u32>,
}

/// Mathematical image of a [`ConnectDeny`].
pub ghost struct ConnectDenyView {
    pub reason: Seq<u8>,
}

/// Mathematical image of an [`Ack`].
pub ghost struct AckView {
    pub acknowledged_sequences: Seq<u16>,
}

/// Mathematical image of a [`PacketTypeEntry`].
pub ghost struct PacketTypeEntryView {
    pub packet_id: u8,
    pub name: Seq<u8>,
    pub description: Seq<u8>,
}

/// Mathematical image of a [`PacketTypeRegistry`].
pub ghost struct PacketTypeRegistryView {
    pub entries: Seq<PacketTypeEntryView>,
}

/// Mathematical image of a [`PacketPayload`].
pub ghost enum PacketPayloadView {
    Reserved,
    Ping(Ping),
    Pong(Pong),
    ConnectRequest(ConnectRequestView),
    ConnectAccept(ConnectAccept),
    ConnectDeny(ConnectDenyView),
    SessionConfig(SessionConfig),
    Ack(AckView),
    PacketTypeRegistry(PacketTypeRegistryView),
    GamePacket(Seq<u8>),
}

/// Mathematical image of a [`NeonPacket`].
pub ghost struct NeonPacketView {
    pub packet_type: u8,
    pub sequence: u16,
    pub client_id: u8,
    pub destination_id: u8,
    pub payload: PacketPayloadView,
}

impl View for ConnectRequest {
    type V = ConnectRequestView;

    open spec fn view(&self) -> ConnectRequestView {
        ConnectRequestView {
            client_version: self.client_version,
            desired_name: self.desired_name@,
            target_session_id: self.target_session_id,
            game_identifier: self.game_identifier,
        }
    }
}

impl View for ConnectDeny {
    type V = ConnectDenyView;

    open spec fn view(&self) -> ConnectDenyView {
        ConnectDenyView { reason: self.reason@ }
    }
}

impl View for Ack {
    type V = AckView;

    open spec fn view(&self) -> AckView {
        AckView { acknowledged_sequences: self.acknowledged_sequences@ }
    }
}

impl View for PacketTypeEntry {
    type V = PacketTypeEntryView;

    open spec fn view(&self) -> PacketTypeEntryView {
        PacketTypeEntryView {
            packet_id: self.packet_id,
            name: self.name@,
            description: self.description@,
        }
    }
}

impl View for PacketTypeRegistry {
    type V = PacketTypeRegistryView;

    open spec fn view(&self) -> PacketTypeRegistryView {
        PacketTypeRegistryView {
            entries: self.entries@.map_values(|e: PacketTypeEntry| e@),
        }
    }
}

impl View for PacketPayload {
    type V = PacketPayloadView;

    open spec fn view(&self) -> PacketPayloadView {
        match self {
            PacketPayload::Reserved => PacketPayloadView::Reserved,
            PacketPayload::Ping(p) => PacketPayloadView::Ping(*p),
            PacketPayload::Pong(p) => PacketPayloadView::Pong(*p),
            PacketPayload::ConnectRequest(r) => PacketPayloadView::ConnectRequest(r@),
            PacketPayload::ConnectAccept(a) => PacketPayloadView::ConnectAccept(*a),
            PacketPayload::ConnectDeny(d) => PacketPayloadView::ConnectDeny(d@),
            PacketPayload::SessionConfig(c) => PacketPayloadView::SessionConfig(*c),
            PacketPayload::Ack(a) => PacketPayloadView::Ack(a@),
            PacketPayload::PacketTypeRegistry(r) => PacketPayloadView::PacketTypeRegistry(r@),
            PacketPayload::GamePacket(d) => PacketPayloadView::GamePacket(d@),
        }
    }
}

impl View for NeonPacket {
    type V = NeonPacketView;

    open spec fn view(&self) -> NeonPacketView {
        NeonPacketView {
            packet_type: self.packet_type,
            sequence: self.sequence,
            client_id: self.client_id,
            destination_id: self.destination_id,
            payload: self.payload@,
        }
    }
}

/// Byte image of one registry entry: id, name length, name, description
/// length, description.
pub open spec fn spec_entry_bytes(e: PacketTypeEntryView) -> Seq<u8> {
    seq![e.packet_id, e.name.len() as u8] + e.name + seq![e.description.len() as u8] + e.description
}

/// Byte image of a sequence of registry entries, in order.
pub open spec fn spec_entries_bytes(s: Seq<PacketTypeEntryView>) -> Seq<u8>
    decreases s.len(),
{
    if s.len() == 0 {
        Seq::empty()
    } else {
        spec_entry_bytes(s[0]) + spec_entries_bytes(s.skip(1))
    }
}

/// Byte image of a sequence of acknowledged sequence numbers, in order.
pub open spec fn spec_acks_bytes(s: Seq<u16>) -> Seq<u8>
    decreases s.len(),
{
    if s.len() == 0 {
        Seq::empty()
    } else {
        spec_le16(s[0]) + spec_acks_bytes(s.skip(1))
    }
}

/// A registry entry fits the wire format: both string lengths fit their
/// one-byte length prefixes.
pub open spec fn spec_entry_wf(e: PacketTypeEntryView) -> bool {
    e.name.len() <= 255 && e.description.len() <= 255
}

/// A payload fits the wire format: every one-byte count or length prefix can
/// hold the collection it describes.
pub open spec fn spec_payload_wf(p: PacketPayloadView) -> bool {
    match p {
        PacketPayloadView::PacketTypeRegistry(r) => {
            &&& r.entries.len() <= 255
            &&& forall|i: int| 0 <= i < r.entries.len() ==> spec_entry_wf(#[trigger] r.entries[i])
        },
        PacketPayloadView::Ack(a) => a.acknowledged_sequences.len() <= 255,
        _ => true,
    }
}

/// Byte image of a payload body.
pub open spec fn spec_payload_bytes(p: PacketPayloadView) -> Seq<u8> {
    match p {
        PacketPayloadView::Reserved => Seq::empty(),
        PacketPayloadView::Ping(ping) => spec_le64(ping.timestamp),
        PacketPayloadView::Pong(pong) => spec_le64(pong.original_timestamp),
        PacketPayloadView::ConnectRequest(r) => {
            seq![r.client_version] + spec_le32(r.target_session_id)
                + (match r.game_identifier {
                    Some(g) => seq![1u8] + spec_le32(g),
                    None => seq![0u8],
                }) + r.desired_name
        },
        PacketPayloadView::ConnectAccept(a) => {
            seq![a.assigned_client_id] + spec_le32(a.session_id)
        },
        PacketPayloadView::ConnectDeny(d) => d.reason,
        PacketPayloadView::SessionConfig(c) => {
            seq![c.version] + spec_le16(c.tick_rate) + spec_le16(c.max_packet_size)
        },
        PacketPayloadView::Ack(a) => {
            seq![a.acknowledged_sequences.len() as u8]
                + spec_acks_bytes(a.acknowledged_sequences)
        },
        PacketPayloadView::PacketTypeRegistry(r) => {
            seq![r.entries.len() as u8] + spec_entries_bytes(r.entries)
        },
        PacketPayloadView::GamePacket(d) => d,
    }
}

/// Byte image of a header.
pub open spec fn spec_header_bytes(h: PacketHeader) -> Seq<u8> {
    spec_le16(h.magic) + seq![h.version, h.packet_type] + spec_le16(h.sequence)
        + seq![h.client_id, h.destination_id]
}

/// Byte image of a whole datagram: the canonical header (correct magic and
/// version, routing fields from the packet) followed by the body.
pub open spec fn spec_packet_bytes(p: NeonPacketView) -> Seq<u8> {
    spec_header_bytes(PacketHeader {
        magic: WIRE_MAGIC,
        version: PROTOCOL_VERSION,
        packet_type: p.packet_type,
        sequence: p.sequence,
        client_id: p.client_id,
        destination_id: p.destination_id,
    }) + spec_payload_bytes(p.payload)
}

impl PacketHeader {
    /// Serializes the header to its 8 wire bytes.
    pub fn to_bytes(&self) -> (r: Vec<u8>)
        ensures
            r@ == spec_header_bytes(*self),
            r@.len() == 8,
    {
        let mut bytes: Vec<u8> = Vec::new();
        push_le16(&mut bytes, self.magic);
        bytes.push(self.version);
        bytes.push(self.packet_type);
        push_le16(&mut bytes, self.sequence);
        bytes.push(self.client_id);
        bytes.push(self.destination_id);
        assert(bytes@ =~= spec_header_bytes(*self));
        bytes
    }
}

/// Appends a copy of `data` to `out`.
fn push_bytes(out: &mut Vec<u8>, data: &Vec<u8>)
    ensures
        final(out)@ == old(out)@ + data@,
{
    let mut i: usize = 0;
    while i < data.len()
        invariant
            i <= data@.len(),
            out@ == old(out)@ + data@.take(i as int),
        decreases data@.len() - i,
    {
        out.push(data[i]);
        assert(out@ =~= old(out)@ + data@.take(i as int + 1));
        i = i + 1;
    }
    assert(out@ =~= old(out)@ + data@);
}

/// Appends the byte images of `entries[i..]` to `out`.
fn push_entries(out: &mut Vec<u8>, entries: &Vec<PacketTypeEntry>, i: usize)
    requires
        i <= entries@.len(),
        forall|j: int| i <= j < entries@.len() ==> spec_entry_wf(#[trigger] entries@[j]@),
    ensures
        final(out)@ == old(out)@
            + spec_entries_bytes(entries@.map_values(|e: PacketTypeEntry| e@).skip(i as int)),
    decreases entries@.len() - i,
{
    let ghost views = entries@.map_values(|e: PacketTypeEntry| e@);
    if i < entries.len() {
        let e = &entries[i];
        out.push(e.packet_id);
        out.push(e.name.len() as u8);
        push_bytes(out, &e.name);
        out.push(e.description.len() as u8);
        push_bytes(out, &e.description);
        assert(out@ =~= old(out)@ + spec_entry_bytes(views[i as int]));
        push_entries(out, entries, i + 1);
        assert(views.skip(i as int).skip(1) =~= views.skip(i as int + 1));
        assert(out@ =~= old(out)@ + spec_entries_bytes(views.skip(i as int)));
    } else {
        assert(views.skip(i as int) =~= Seq::<PacketTypeEntryView>::empty());
    }
}

/// Appends the little-endian images of `seqs[i..]` to `out`.
fn push_acks(out: &mut Vec<u8>, seqs: &Vec<u16>, i: usize)
    requires
        i <= seqs@.len(),
    ensures
        final(out)@ == old(out)@ + spec_acks_bytes(seqs@.skip(i as int)),
    decreases seqs@.len() - i,
{
    if i < seqs.len() {
        push_le16(out, seqs[i]);
        push_acks(out, seqs, i + 1);
        assert(seqs@.skip(i as int).skip(1) =~= seqs@.skip(i as int + 1));
        assert(out@ =~= old(out)@ + spec_acks_bytes(seqs@.skip(i as int)));
    } else {
        assert(seqs@.skip(i as int) =~= Seq::<u16>::empty());
    }
}

impl PacketPayload {
    /// Serializes the body to its wire bytes.
    pub fn to_bytes(&self) -> (r: Vec<u8>)
        requires
            spec_payload_wf(self@),
        ensures
            r@ == spec_payload_bytes(self@),
    {
        match self {
            PacketPayload::Reserved => Vec::new(),
            PacketPayload::Ping(ping) => {
                let mut bytes: Vec<u8> = Vec::new();
                push_le64(&mut bytes, ping.timestamp);
                bytes
            },
            PacketPayload::Pong(pong) => {
                let mut bytes: Vec<u8> = Vec::new();
                push_le64(&mut bytes, pong.original_timestamp);
                bytes
            },
            PacketPayload::ConnectRequest(req) => {
                let mut bytes: Vec<u8> = Vec::new();
                bytes.push(req.client_version);
                push_le32(&mut bytes, req.target_session_id);
                match req.game_identifier {
                    Some(game_id) => {
                        bytes.push(1);
                        push_le32(&mut bytes, game_id);
                    },
                    None => {
                        bytes.push(0);
                    },
                }
                push_bytes(&mut bytes, &req.desired_name);
                assert(bytes@ =~= spec_payload_bytes(self@));
                bytes
            },
            PacketPayload::ConnectAccept(accept) => {
                let mut bytes: Vec<u8> = Vec::new();
                bytes.push(accept.assigned_client_id);
                push_le32(&mut bytes, accept.session_id);
                assert(bytes@ =~= spec_payload_bytes(self@));
                bytes
            },
            PacketPayload::ConnectDeny(deny) => {
                let mut bytes: Vec<u8> = Vec::new();
                push_bytes(&mut bytes, &deny.reason);
                bytes
            },
            PacketPayload::SessionConfig(config) => {
                let mut bytes: Vec<u8> = Vec::new();
                bytes.push(config.version);
                push_le16(&mut bytes, config.tick_rate);
                push_le16(&mut bytes, config.max_packet_size);
                assert(bytes@ =~= spec_payload_bytes(self@));
                bytes
            },
            PacketPayload::Ack(ack) => {
                let mut bytes: Vec<u8> = Vec::new();
                bytes.push(ack.acknowledged_sequences.len() as u8);
                push_acks(&mut bytes, &ack.acknowledged_sequences, 0);
                assert(ack.acknowledged_sequences@.skip(0) =~= ack.acknowledged_sequences@);
                assert(bytes@ =~= spec_payload_bytes(self@));
                bytes
            },
            PacketPayload::PacketTypeRegistry(registry) => {
                let mut bytes: Vec<u8> = Vec::new();
                bytes.push(registry.entries.len() as u8);
                proof {
                    assert forall|j: int|
                        0 <= j < registry.entries@.len() implies spec_entry_wf(
                        #[trigger] registry.entries@[j]@,
                    ) by {
                        assert(registry.entries@.map_values(|e: PacketTypeEntry| e@)[j]
                            == registry.entries@[j]@);
                    }
                }
                push_entries(&mut bytes, &registry.entries, 0);
                assert(registry.entries@.map_values(|e: PacketTypeEntry| e@).skip(0)
                    =~= registry.entries@.map_values(|e: PacketTypeEntry| e@));
                assert(bytes@ =~= spec_payload_bytes(self@));
                bytes
            },
            PacketPayload::GamePacket(data) => {
                let mut bytes: Vec<u8> = Vec::new();
                push_bytes(&mut bytes, data);
                bytes
            },
        }
    }
}

/// Meaning of the 8 header bytes: reject short frames, wrong magic, and
/// wrong version; otherwise read the six fields.
pub open spec fn spec_parse_header(data: Seq<u8>) -> Result<PacketHeader, DecodeError> {
    if data.len() < 8 {
        Err(DecodeError::MalformedHeader)
    } else if spec_combine16(data[0], data[1]) != WIRE_MAGIC {
        Err(DecodeError::MalformedHeader)
    } else if data[2] != PROTOCOL_VERSION {
        Err(DecodeError::MalformedHeader)
    } else {
        Ok(PacketHeader {
            magic: spec_combine16(data[0], data[1]),
            version: data[2],
            packet_type: data[3],
            sequence: spec_combine16(data[4], data[5]),
            client_id: data[6],
            destination_id: data[7],
        })
    }
}

/// Meaning of a registry body from `off` on: `count` entries, each an id, a
/// length-prefixed name and a length-prefixed description. `None` when the
/// bytes run out early; otherwise the entries and the offset just past them.
pub open spec fn spec_parse_entries(data: Seq<u8>, off: int, count: int) -> Option<
    (Seq<PacketTypeEntryView>, int),
>
    decreases count,
{
    if count <= 0 {
        Some((Seq::empty(), off))
    } else if off + 2 > data.len() {
        None
    } else {
        let packet_id = data[off];
        let name_len = data[off + 1] as int;
        if off + 2 + name_len > data.len() {
            None
        } else {
            let name = data.subrange(off + 2, off + 2 + name_len);
            let doff = off + 2 + name_len;
            if doff + 1 > data.len() {
                None
            } else {
                let desc_len = data[doff] as int;
                if doff + 1 + desc_len > data.len() {
                    None
                } else {
                    let description = data.subrange(doff + 1, doff + 1 + desc_len);
                    match spec_parse_entries(data, doff + 1 + desc_len, count - 1) {
                        Some((rest, end)) => Some(
                            (seq![PacketTypeEntryView { packet_id, name, description }] + rest,
                            end),
                        ),
                        None => None,
                    }
                }
            }
        }
    }
}

/// Meaning of an acknowledgement body from `off` on: up to `count` sequence
/// numbers, stopping early if the bytes run out.
pub open spec fn spec_parse_acks(data: Seq<u8>, off: int, count: int) -> Seq<u16>
    decreases count,
{
    if count <= 0 || off + 2 > data.len() {
        Seq::empty()
    } else {
        seq![spec_combine16(data[off], data[off + 1])]
            + spec_parse_acks(data, off + 2, count - 1)
    }
}

/// Meaning of a body under opcode `t`, per the wire format table: minimum
/// lengths are enforced, trailing strings take the rest, opcodes `0x10` and
/// above are opaque, and other control opcodes carry no parsed body.
pub open spec fn spec_parse_payload(t: u8, data: Seq<u8>) -> Result<
    PacketPayloadView,
    DecodeError,
> {
    if t == OPCODE_PING {
        if data.len() < 8 {
            Err(DecodeError::MalformedPayload)
        } else {
            Ok(PacketPayloadView::Ping(Ping {
                timestamp: spec_combine64(
                    data[0], data[1], data[2], data[3], data[4], data[5], data[6], data[7],
                ),
            }))
        }
    } else if t == OPCODE_PONG {
        if data.len() < 8 {
            Err(DecodeError::MalformedPayload)
        } else {
            Ok(PacketPayloadView::Pong(Pong {
                original_timestamp: spec_combine64(
                    data[0], data[1], data[2], data[3], data[4], data[5], data[6], data[7],
                ),
            }))
        }
    } else if t == OPCODE_CONNECT_REQUEST {
        if data.len() < 6 {
            Err(DecodeError::MalformedPayload)
        } else {
            let client_version = data[0];
            let target_session_id = spec_combine32(data[1], data[2], data[3], data[4]);
            if data[5] == 1 {
                if data.len() < 10 {
                    Err(DecodeError::MalformedPayload)
                } else {
                    Ok(PacketPayloadView::ConnectRequest(ConnectRequestView {
                        client_version,
                        desired_name: data.skip(10),
                        target_session_id,
                        game_identifier: Some(
                            spec_combine32(data[6], data[7], data[8], data[9]),
                        ),
                    }))
                }
            } else {
                Ok(PacketPayloadView::ConnectRequest(ConnectRequestView {
                    client_version,
                    desired_name: data.skip(6),
                    target_session_id,
                    game_identifier: None,
                }))
            }
        }
    } else if t == OPCODE_CONNECT_ACCEPT {
        if data.len() < 5 {
            Err(DecodeError::MalformedPayload)
        } else {
            Ok(PacketPayloadView::ConnectAccept(ConnectAccept {
                assigned_client_id: data[0],
                session_id: spec_combine32(data[1], data[2], data[3], data[4]),
            }))
        }
    } else if t == OPCODE_CONNECT_DENY {
        Ok(PacketPayloadView::ConnectDeny(ConnectDenyView { reason: data }))
    } else if t == OPCODE_SESSION_CONFIG {
        if data.len() < 5 {
            Err(DecodeError::MalformedPayload)
        } else {
            Ok(PacketPayloadView::SessionConfig(SessionConfig {
                version: data[0],
                tick_rate: spec_combine16(data[1], data[2]),
                max_packet_size: spec_combine16(data[3], data[4]),
            }))
        }
    } else if t == OPCODE_PACKET_TYPE_REGISTRY {
        if data.len() < 1 {
            Err(DecodeError::MalformedPayload)
        } else {
            match spec_parse_entries(data, 1, data[0] as int) {
                Some((entries, _)) => Ok(
                    PacketPayloadView::PacketTypeRegistry(PacketTypeRegistryView { entries }),
                ),
                None => Err(DecodeError::MalformedPayload),
            }
        }
    } else if t == OPCODE_ACK {
        if data.len() < 1 {
            Err(DecodeError::MalformedPayload)
        } else {
            Ok(PacketPayloadView::Ack(AckView {
                acknowledged_sequences: spec_parse_acks(data, 1, data[0] as int),
            }))
        }
    } else if t >= OPCODE_GAME_BASE {
        Ok(PacketPayloadView::GamePacket(data))
    } else {
        Ok(PacketPayloadView::Reserved)
    }
}

/// Meaning of a whole datagram: oversized frames are dropped, then the
/// header, then the body under the header's opcode.
pub open spec fn spec_parse_packet(data: Seq<u8>) -> Result<NeonPacketView, DecodeError> {
    if data.len() > MAX_DATAGRAM_LEN {
        Err(DecodeError::MalformedHeader)
    } else {
        match spec_parse_header(data) {
            Err(e) => Err(e),
            Ok(h) => match spec_parse_payload(h.packet_type, data.skip(8)) {
                Err(e) => Err(e),
                Ok(p) => Ok(NeonPacketView {
                    packet_type: h.packet_type,
                    sequence: h.sequence,
                    client_id: h.client_id,
                    destination_id: h.destination_id,
                    payload: p,
                }),
            },
        }
    }
}

/// An executable payload result agrees with a specification-level one.
pub open spec fn spec_payload_result_matches(
    r: Result<PacketPayload, DecodeError>,
    s: Result<PacketPayloadView, DecodeError>,
) -> bool {
    match (r, s) {
        (Ok(p), Ok(v)) => p@ == v,
        (Err(e1), Err(e2)) => e1 == e2,
        _ => false,
    }
}

/// An executable packet result agrees with a specification-level one.
pub open spec fn spec_packet_result_matches(
    r: Result<NeonPacket, DecodeError>,
    s: Result<NeonPacketView, DecodeError>,
) -> bool {
    match (r, s) {
        (Ok(p), Ok(v)) => p@ == v,
        (Err(e1), Err(e2)) => e1 == e2,
        _ => false,
    }
}

/// Copies `data[start..end]` into a fresh vector.
fn copy_range(data: &Vec<u8>, start: usize, end: usize) -> (r: Vec<u8>)
    requires
        start <= end <= data@.len(),
    ensures
        r@ == data@.subrange(start as int, end as int),
{
    let mut out: Vec<u8> = Vec::new();
    let mut i: usize = start;
    while i < end
        invariant
            start <= i <= end <= data@.len(),
            out@ == data@.subrange(start as int, i as int),
        decreases end - i,
    {
        out.push(data[i]);
        assert(out@ =~= data@.subrange(start as int, i as int + 1));
        i = i + 1;
    }
    out
}

/// An executable entry-list result agrees with a specification-level one.
pub open spec fn spec_entries_result_matches(
    r: Result<(Vec<PacketTypeEntry>, usize), DecodeError>,
    s: Option<(Seq<PacketTypeEntryView>, int)>,
) -> bool {
    match (r, s) {
        (Ok(p), Some(q)) => p.0@.map_values(|e: PacketTypeEntry| e@) == q.0 && p.1 == q.1,
        (Err(e), None) => e == DecodeError::MalformedPayload,
        _ => false,
    }
}

/// Reads `count` registry entries starting at `off`.
fn parse_entries(data: &Vec<u8>, off: usize, count: u8) -> (r: Result<
    (Vec<PacketTypeEntry>, usize),
    DecodeError,
>)
    requires
        off <= data@.len(),
    ensures
        spec_entries_result_matches(r, spec_parse_entries(data@, off as int, count as int)),
    decreases count,
{
    if count == 0 {
        let entries: Vec<PacketTypeEntry> = Vec::new();
        assert(entries@.map_values(|e: PacketTypeEntry| e@)
            =~= Seq::<PacketTypeEntryView>::empty());
        return Ok((entries, off));
    }
    let len = data.len();
    if len - off < 2 {
        return Err(DecodeError::MalformedPayload);
    }
    let packet_id = data[off];
    let name_len = data[off + 1] as usize;
    if len - off - 2 < name_len {
        return Err(DecodeError::MalformedPayload);
    }
    let name = copy_range(data, off + 2, off + 2 + name_len);
    let doff = off + 2 + name_len;
    if len - doff < 1 {
        return Err(DecodeError::MalformedPayload);
    }
    let desc_len = data[doff] as usize;
    if len - doff - 1 < desc_len {
        return Err(DecodeError::MalformedPayload);
    }
    let description = copy_range(data, doff + 1, doff + 1 + desc_len);
    let entry = PacketTypeEntry { packet_id, name, description };
    match parse_entries(data, doff + 1 + desc_len, count - 1) {
        Ok((rest, end)) => {
            let mut rest = rest;
            let ghost rest_views = rest@.map_values(|e: PacketTypeEntry| e@);
            let mut entries: Vec<PacketTypeEntry> = Vec::new();
            entries.push(entry);
            entries.append(&mut rest);
            assert(entries@.map_values(|e: PacketTypeEntry| e@) =~= seq![entry@] + rest_views);
            Ok((entries, end))
        },
        Err(e) => Err(e),
    }
}

/// Reads up to `count` acknowledged sequence numbers starting at `off`,
/// stopping early if the bytes run out.
fn parse_acks(data: &Vec<u8>, off: usize, count: u8) -> (r: Vec<u16>)
    requires
        off <= data@.len(),
    ensures
        r@ == spec_parse_acks(data@, off as int, count as int),
    decreases count,
{
    if count == 0 || data.len() - off < 2 {
        let out: Vec<u16> = Vec::new();
        assert(out@ =~= spec_parse_acks(data@, off as int, count as int));
        return out;
    }
    let v = combine16(data[off], data[off + 1]);
    let rest = parse_acks(data, off + 2, count - 1);
    let mut rest = rest;
    let mut out: Vec<u16> = Vec::new();
    out.push(v);
    out.append(&mut rest);
    assert(out@ =~= spec_parse_acks(data@, off as int, count as int));
    out
}

impl PacketHeader {
    /// Reads the 8-byte header of a datagram, rejecting short frames, a bad
    /// magic, and a version other than [`PROTOCOL_VERSION`].
    pub fn from_bytes(data: &Vec<u8>) -> (r: Result<PacketHeader, DecodeError>)
        ensures
            r == spec_parse_header(data@),
    {
        if data.len() < 8 {
            return Err(DecodeError::MalformedHeader);
        }
        let magic = combine16(data[0], data[1]);
        if magic != WIRE_MAGIC {
            return Err(DecodeError::MalformedHeader);
        }
        if data[2] != PROTOCOL_VERSION {
            return Err(DecodeError::MalformedHeader);
        }
        Ok(PacketHeader {
            magic,
            version: data[2],
            packet_type: data[3],
            sequence: combine16(data[4], data[5]),
            client_id: data[6],
            destination_id: data[7],
        })
    }
}

impl PacketPayload {
    /// Reads a body under opcode `packet_type`, enforcing each opcode's
    /// minimum body length.
    pub fn from_bytes(packet_type: u8, data: &Vec<u8>) -> (r: Result<
        PacketPayload,
        DecodeError,
    >)
        ensures
            spec_payload_result_matches(r, spec_parse_payload(packet_type, data@)),
    {
        if packet_type == OPCODE_PING {
            if data.len() < 8 {
                return Err(DecodeError::MalformedPayload);
            }
            Ok(PacketPayload::Ping(Ping {
                timestamp: combine64(
                    data[0], data[1], data[2], data[3], data[4], data[5], data[6], data[7],
                ),
            }))
        } else if packet_type == OPCODE_PONG {
            if data.len() < 8 {
                return Err(DecodeError::MalformedPayload);
            }
            Ok(PacketPayload::Pong(Pong {
                original_timestamp: combine64(
                    data[0], data[1], data[2], data[3], data[4], data[5], data[6], data[7],
                ),
            }))
        } else if packet_type == OPCODE_CONNECT_REQUEST {
            if data.len() < 6 {
                return Err(DecodeError::MalformedPayload);
            }
            let client_version = data[0];
            let target_session_id = combine32(data[1], data[2], data[3], data[4]);
            if data[5] == 1 {
                if data.len() < 10 {
                    return Err(DecodeError::MalformedPayload);
                }
                let game_id = combine32(data[6], data[7], data[8], data[9]);
                let desired_name = copy_range(data, 10, data.len());
                assert(desired_name@ =~= data@.skip(10));
                Ok(PacketPayload::ConnectRequest(ConnectRequest {
                    client_version,
                    desired_name,
                    target_session_id,
                    game_identifier: Some(game_id),
                }))
            } else {
                let desired_name = copy_range(data, 6, data.len());
                assert(desired_name@ =~= data@.skip(6));
                Ok(PacketPayload::ConnectRequest(ConnectRequest {
                    client_version,
                    desired_name,
                    target_session_id,
                    game_identifier: None,
                }))
            }
        } else if packet_type == OPCODE_CONNECT_ACCEPT {
            if data.len() < 5 {
                return Err(DecodeError::MalformedPayload);
            }
            Ok(PacketPayload::ConnectAccept(ConnectAccept {
                assigned_client_id: data[0],
                session_id: combine32(data[1], data[2], data[3], data[4]),
            }))
        } else if packet_type == OPCODE_CONNECT_DENY {
            let reason = copy_range(data, 0, data.len());
            assert(reason@ =~= data@);
            Ok(PacketPayload::ConnectDeny(ConnectDeny { reason }))
        } else if packet_type == OPCODE_SESSION_CONFIG {
            if data.len() < 5 {
                return Err(DecodeError::MalformedPayload);
            }
            Ok(PacketPayload::SessionConfig(SessionConfig {
                version: data[0],
                tick_rate: combine16(data[1], data[2]),
                max_packet_size: combine16(data[3], data[4]),
            }))
        } else if packet_type == OPCODE_PACKET_TYPE_REGISTRY {
            if data.len() < 1 {
                return Err(DecodeError::MalformedPayload);
            }
            match parse_entries(data, 1, data[0]) {
                Ok((entries, _)) => Ok(PacketPayload::PacketTypeRegistry(PacketTypeRegistry {
                    entries,
                })),
                Err(e) => Err(e),
            }
        } else if packet_type == OPCODE_ACK {
            if data.len() < 1 {
                return Err(DecodeError::MalformedPayload);
            }
            let acknowledged_sequences = parse_acks(data, 1, data[0]);
            Ok(PacketPayload::Ack(Ack { acknowledged_sequences }))
        } else if packet_type >= OPCODE_GAME_BASE {
            let body = copy_range(data, 0, data.len());
            assert(body@ =~= data@);
            Ok(PacketPayload::GamePacket(body))
        } else {
            Ok(PacketPayload::Reserved)
        }
    }
}

/// Serializes a packet to one datagram: the canonical header (correct magic
/// and version, routing fields from the packet) followed by the body.
pub fn encode_packet(packet: &NeonPacket) -> (r: Vec<u8>)
    requires
        spec_payload_wf(packet@.payload),
    ensures
        r@ == spec_packet_bytes(packet@),
        r@.len() >= 8,
{
    let header = PacketHeader {
        magic: WIRE_MAGIC,
        version: PROTOCOL_VERSION,
        packet_type: packet.packet_type,
        sequence: packet.sequence,
        client_id: packet.client_id,
        destination_id: packet.destination_id,
    };
    let mut bytes = header.to_bytes();
    let mut body = packet.payload.to_bytes();
    bytes.append(&mut body);
    bytes
}

/// Reads one datagram into a typed packet; the inverse of [`encode_packet`]
/// on canonically framed input.
pub fn decode_datagram(data: &Vec<u8>) -> (r: Result<NeonPacket, DecodeError>)
    ensures
        spec_packet_result_matches(r, spec_parse_packet(data@)),
{
    if data.len() > MAX_DATAGRAM_LEN {
        return Err(DecodeError::MalformedHeader);
    }
    let header = match PacketHeader::from_bytes(data) {
        Ok(h) => h,
        Err(e) => {
            return Err(e);
        },
    };
    let body = copy_range(data, 8, data.len());
    assert(body@ =~= data@.skip(8));
    let payload = match PacketPayload::from_bytes(header.packet_type, &body) {
        Ok(p) => p,
        Err(e) => {
            return Err(e);
        },
    };
    Ok(NeonPacket {
        packet_type: header.packet_type,
        sequence: header.sequence,
        client_id: header.client_id,
        destination_id: header.destination_id,
        payload,
    })
}

/// A frame is canonical when its body has no slack the encoder would drop:
/// fixed-width bodies have exactly their fixed length, a connect request's
/// game-identifier flag is a strict boolean, and trailing-string or opaque
/// bodies are always canonical.
pub open spec fn spec_canonical_frame(data: Seq<u8>) -> bool {
    data.len() >= 8 && {
        let t = data[3];
        ||| (t == OPCODE_PING && data.len() == 16)
        ||| (t == OPCODE_PONG && data.len() == 16)
        ||| (t == OPCODE_CONNECT_ACCEPT && data.len() == 13)
        ||| (t == OPCODE_SESSION_CONFIG && data.len() == 13)
        ||| (t == OPCODE_CONNECT_REQUEST && data.len() >= 14 && (data[13] == 0 || data[13] == 1))
        ||| t == OPCODE_CONNECT_DENY
        ||| (t == OPCODE_ACK && data.len() >= 9 && data.len() - 8 == 1 + 2 * (data[8] as int))
        ||| (t == OPCODE_PACKET_TYPE_REGISTRY && data.len() >= 9 && spec_parse_entries(
            data.skip(8),
            1,
            data[8] as int,
        ) is Some && spec_parse_entries(data.skip(8), 1, data[8] as int)->Some_0.1 == data.len()
            - 8)
        ||| t >= OPCODE_GAME_BASE
    }
}

/// Re-encoding a parsed body reproduces the body, for every opcode whose
/// body the decoder accepted in canonical form: fixed-width bodies of exact
/// length, a connect request whose flag byte is 0 or 1, and the
/// trailing-string and opaque bodies.
pub proof fn lemma_payload_roundtrip(t: u8, data: Seq<u8>)
    requires
        spec_parse_payload(t, data) is Ok,
        t == OPCODE_PING || t == OPCODE_PONG ==> data.len() == 8,
        t == OPCODE_CONNECT_ACCEPT || t == OPCODE_SESSION_CONFIG ==> data.len() == 5,
        t == OPCODE_CONNECT_REQUEST ==> data[5] == 0 || data[5] == 1,
        t == OPCODE_PING || t == OPCODE_PONG || t == OPCODE_CONNECT_ACCEPT
            || t == OPCODE_SESSION_CONFIG || t == OPCODE_CONNECT_REQUEST
            || t == OPCODE_CONNECT_DENY || t >= OPCODE_GAME_BASE,
    ensures
        spec_payload_bytes(spec_parse_payload(t, data)->Ok_0) == data,
{
    let p = spec_parse_payload(t, data)->Ok_0;
    if t == OPCODE_PING {
        lemma_combine64_roundtrip(
            data[0], data[1], data[2], data[3], data[4], data[5], data[6], data[7],
        );
        assert(spec_payload_bytes(p) =~= data);
    } else if t == OPCODE_PONG {
        lemma_combine64_roundtrip(
            data[0], data[1], data[2], data[3], data[4], data[5], data[6], data[7],
        );
        assert(spec_payload_bytes(p) =~= data);
    } else if t == OPCODE_CONNECT_ACCEPT {
        lemma_combine32_roundtrip(data[1], data[2], data[3], data[4]);
        assert(spec_payload_bytes(p) =~= data);
    } else if t == OPCODE_SESSION_CONFIG {
        lemma_combine16_roundtrip(data[1], data[2]);
        lemma_combine16_roundtrip(data[3], data[4]);
        assert(spec_payload_bytes(p) =~= data);
    } else if t == OPCODE_CONNECT_REQUEST {
        lemma_combine32_roundtrip(data[1], data[2], data[3], data[4]);
        if data[5] == 1 {
            lemma_combine32_roundtrip(data[6], data[7], data[8], data[9]);
            assert(spec_payload_bytes(p) =~= data);
        } else {
            assert(spec_payload_bytes(p) =~= data);
        }
    } else if t == OPCODE_CONNECT_DENY {
        assert(spec_payload_bytes(p) =~= data);
    } else {
        assert(spec_payload_bytes(p) =~= data);
    }
}

/// Re-encoding a parsed header reproduces its 8 bytes.
pub proof fn lemma_header_roundtrip(data: Seq<u8>)
    requires
        spec_parse_header(data) is Ok,
        data.len() == 8,
    ensures
        spec_header_bytes(spec_parse_header(data)->Ok_0) == data,
{
    lemma_combine16_roundtrip(data[0], data[1]);
    lemma_combine16_roundtrip(data[4], data[5]);
    assert(spec_header_bytes(spec_parse_header(data)->Ok_0) =~= data);
}

/// Encode inverts decode: re-encoding any canonically framed datagram the
/// decoder accepts reproduces the datagram byte for byte.
pub proof fn lemma_decode_encode_roundtrip(data: Seq<u8>)
    requires
        spec_parse_packet(data) is Ok,
        spec_canonical_frame(data),
    ensures
        spec_packet_bytes(spec_parse_packet(data)->Ok_0) == data,
{
    let p = spec_parse_packet(data)->Ok_0;
    let h = spec_parse_header(data)->Ok_0;
    let body = data.skip(8);
    lemma_combine16_roundtrip(data[0], data[1]);
    lemma_combine16_roundtrip(data[4], data[5]);
    let rebuilt = PacketHeader {
        magic: WIRE_MAGIC,
        version: PROTOCOL_VERSION,
        packet_type: p.packet_type,
        sequence: p.sequence,
        client_id: p.client_id,
        destination_id: p.destination_id,
    };
    assert(spec_header_bytes(rebuilt) =~= data.take(8));
    if h.packet_type == OPCODE_ACK || h.packet_type == OPCODE_PACKET_TYPE_REGISTRY {
        lemma_compound_payload_roundtrip(h.packet_type, body);
    } else {
        lemma_payload_roundtrip(h.packet_type, body);
    }
    assert(spec_packet_bytes(p) =~= data.take(8) + data.skip(8));
    assert(data.take(8) + data.skip(8) =~= data);
}

/// A fresh copy of a byte string.
pub fn clone_bytes(data: &Vec<u8>) -> (r: Vec<u8>)
    ensures
        r@ == data@,
{
    let mut out: Vec<u8> = Vec::new();
    let mut i: usize = 0;
    while i < data.len()
        invariant
            i <= data@.len(),
            out@ == data@.take(i as int),
        decreases data@.len() - i,
    {
        out.push(data[i]);
        assert(out@ =~= data@.take(i as int + 1));
        i = i + 1;
    }
    assert(data@.take(data@.len() as int) =~= data@);
    out
}

/// Whether two byte strings hold the same bytes.
pub fn bytes_eq(a: &Vec<u8>, b: &Vec<u8>) -> (r: bool)
    ensures
        r == (a@ == b@),
{
    if a.len() != b.len() {
        return false;
    }
    let mut i: usize = 0;
    while i < a.len()
        invariant
            i <= a@.len(),
            a@.len() == b@.len(),
            forall|j: int| 0 <= j < i ==> a@[j] == b@[j],
        decreases a@.len() - i,
    {
        if a[i] != b[i] {
            return false;
        }
        i = i + 1;
    }
    proof {
        assert(a@ =~= b@);
    }
    true
}

/// A fresh copy of a sequence-number list.
pub fn clone_seqs(data: &Vec<u16>) -> (r: Vec<u16>)
    ensures
        r@ == data@,
{
    let mut out: Vec<u16> = Vec::new();
    let mut i: usize = 0;
    while i < data.len()
        invariant
            i <= data@.len(),
            out@ == data@.take(i as int),
        decreases data@.len() - i,
    {
        out.push(data[i]);
        assert(out@ =~= data@.take(i as int + 1));
        i = i + 1;
    }
    assert(data@.take(data@.len() as int) =~= data@);
    out
}

/// A fresh copy of a registry entry.
pub fn clone_entry(e: &PacketTypeEntry) -> (r: PacketTypeEntry)
    ensures
        r@ == e@,
{
    PacketTypeEntry {
        packet_id: e.packet_id,
        name: clone_bytes(&e.name),
        description: clone_bytes(&e.description),
    }
}

/// A fresh copy of a payload.
pub fn clone_payload(p: &PacketPayload) -> (r: PacketPayload)
    ensures
        r@ == p@,
{
    match p {
        PacketPayload::Reserved => PacketPayload::Reserved,
        PacketPayload::Ping(ping) => PacketPayload::Ping(*ping),
        PacketPayload::Pong(pong) => PacketPayload::Pong(*pong),
        PacketPayload::ConnectRequest(req) => PacketPayload::ConnectRequest(
            ConnectRequest {
                client_version: req.client_version,
                desired_name: clone_bytes(&req.desired_name),
                target_session_id: req.target_session_id,
                game_identifier: req.game_identifier,
            },
        ),
        PacketPayload::ConnectAccept(a) => PacketPayload::ConnectAccept(*a),
        PacketPayload::ConnectDeny(d) => PacketPayload::ConnectDeny(
            ConnectDeny { reason: clone_bytes(&d.reason) },
        ),
        PacketPayload::SessionConfig(c) => PacketPayload::SessionConfig(*c),
        PacketPayload::Ack(a) => PacketPayload::Ack(
            Ack { acknowledged_sequences: clone_seqs(&a.acknowledged_sequences) },
        ),
        PacketPayload::PacketTypeRegistry(reg) => {
            let mut entries: Vec<PacketTypeEntry> = Vec::new();
            let mut i: usize = 0;
            while i < reg.entries.len()
                invariant
                    i <= reg.entries@.len(),
                    entries@.len() == i,
                    forall|k: int| 0 <= k < i ==> (#[trigger] entries@[k])@ == reg.entries@[k]@,
                decreases reg.entries@.len() - i,
            {
                let ce = clone_entry(&reg.entries[i]);
                entries.push(ce);
                i = i + 1;
            }
            let r = PacketPayload::PacketTypeRegistry(PacketTypeRegistry { entries });
            proof {
                assert(r@->PacketTypeRegistry_0.entries =~= p@->PacketTypeRegistry_0.entries);
            }
            r
        },
        PacketPayload::GamePacket(d) => PacketPayload::GamePacket(clone_bytes(d)),
    }
}

/// A fresh copy of a packet.
pub fn clone_packet(p: &NeonPacket) -> (r: NeonPacket)
    ensures
        r@ == p@,
{
    NeonPacket {
        packet_type: p.packet_type,
        sequence: p.sequence,
        client_id: p.client_id,
        destination_id: p.destination_id,
        payload: clone_payload(&p.payload),
    }
}

/// Acknowledgement lists parse to exactly the bytes that encode them:
/// `count` complete pairs starting at `off` re-encode to that range.
proof fn lemma_parse_acks_bytes(data: Seq<u8>, off: int, count: int)
    requires
        0 <= off,
        0 <= count,
        off + 2 * count <= data.len(),
    ensures
        spec_parse_acks(data, off, count).len() == count,
        spec_acks_bytes(spec_parse_acks(data, off, count)) == data.subrange(off, off + 2 * count),
    decreases count,
{
    if count <= 0 {
        assert(spec_acks_bytes(spec_parse_acks(data, off, count)) =~= data.subrange(off, off));
    } else {
        lemma_combine16_roundtrip(data[off], data[off + 1]);
        lemma_parse_acks_bytes(data, off + 2, count - 1);
        let parsed = spec_parse_acks(data, off, count);
        assert(parsed.skip(1) =~= spec_parse_acks(data, off + 2, count - 1));
        assert(spec_acks_bytes(parsed) =~= data.subrange(off, off + 2 * count));
    }
}

/// Registry entries parse to exactly the bytes that encode them: a
/// successful parse of `count` entries from `off` re-encodes to the
/// consumed range, and every parsed entry fits the wire format.
proof fn lemma_parse_entries_bytes(data: Seq<u8>, off: int, count: int)
    requires
        0 <= off <= data.len(),
        spec_parse_entries(data, off, count) is Some,
    ensures
        ({
            let (es, end) = spec_parse_entries(data, off, count)->Some_0;
            &&& es.len() == (if count >= 0 { count } else { 0 })
            &&& off <= end <= data.len()
            &&& spec_entries_bytes(es) == data.subrange(off, end)
            &&& forall|k: int| 0 <= k < es.len() ==> spec_entry_wf(#[trigger] es[k])
        }),
    decreases count,
{
    let (es, end) = spec_parse_entries(data, off, count)->Some_0;
    if count <= 0 {
        assert(spec_entries_bytes(es) =~= data.subrange(off, off));
    } else {
        let name_len = data[off + 1] as int;
        let doff = off + 2 + name_len;
        let desc_len = data[doff] as int;
        let next = doff + 1 + desc_len;
        lemma_parse_entries_bytes(data, next, count - 1);
        let (rest, rend) = spec_parse_entries(data, next, count - 1)->Some_0;
        let e = PacketTypeEntryView {
            packet_id: data[off],
            name: data.subrange(off + 2, off + 2 + name_len),
            description: data.subrange(doff + 1, doff + 1 + desc_len),
        };
        assert(es == seq![e] + rest && end == rend);
        assert(es.skip(1) =~= rest);
        assert(es[0] == e);
        assert(spec_entry_bytes(e) =~= data.subrange(off, next));
        assert(spec_entries_bytes(es) == spec_entry_bytes(e) + spec_entries_bytes(rest));
        assert(spec_entries_bytes(es) =~= data.subrange(off, end));
    }
}

/// Re-encoding a parsed compound body reproduces it when the body was
/// canonical: the count byte matches the pairs or entries present and
/// nothing trails them.
pub proof fn lemma_compound_payload_roundtrip(t: u8, data: Seq<u8>)
    requires
        t == OPCODE_ACK || t == OPCODE_PACKET_TYPE_REGISTRY,
        spec_parse_payload(t, data) is Ok,
        data.len() >= 1,
        t == OPCODE_ACK ==> data.len() == 1 + 2 * (data[0] as int),
        t == OPCODE_PACKET_TYPE_REGISTRY ==> spec_parse_entries(data, 1, data[0] as int) is Some
            && spec_parse_entries(data, 1, data[0] as int)->Some_0.1 == data.len(),
    ensures
        spec_payload_bytes(spec_parse_payload(t, data)->Ok_0) == data,
{
    let p = spec_parse_payload(t, data)->Ok_0;
    if t == OPCODE_ACK {
        lemma_parse_acks_bytes(data, 1, data[0] as int);
        assert(spec_payload_bytes(p) =~= data);
    } else {
        lemma_parse_entries_bytes(data, 1, data[0] as int);
        assert(spec_payload_bytes(p) =~= data);
    }
}

} // verus!
