//! Relay: the session and liveness tables and every routing decision.
//!
//! The relay tracks peers by UDP source address inside sessions keyed by a
//! 32-bit id, keeps the host address of each session for direct lookup, and
//! holds short-lived pending connections between forwarding a join request
//! to a host and routing the host's answer back. It decides, per packet,
//! where a datagram goes; sending and receiving stay outside.

use vstd::prelude::*;

use crate::codec::clone_bytes;
use crate::seq_lemmas::lemma_filter_push;
use crate::codec::ConnectAccept;
use crate::codec::ConnectDeny;
use crate::codec::ConnectRequest;
use crate::codec::NeonPacket;
use crate::codec::PacketPayload;
use crate::codec::OPCODE_CONNECT_ACCEPT;
use crate::codec::OPCODE_CONNECT_DENY;
use crate::codec::OPCODE_CONNECT_REQUEST;

verus! {

/// Milliseconds a non-host peer may stay silent before the sweep evicts it.
pub const PEER_TIMEOUT_MS: u64 = 15000;

/// A UDP endpoint as plain values: numeric address and port.
#[derive(Debug, Clone, Copy, PartialEq, Eq, Structural)]
pub struct Endpoint {
    pub ip: u128,
    pub port: u16,
}

/// A peer known to the relay: where it is, who it is, and when it last
/// spoke. The peer with client id 1 is the session's host.
#[derive(Debug, Clone, Copy, PartialEq, Eq, Structural)]
pub struct PeerInfo {
    pub addr: Endpoint,
    pub client_id: u8,
    pub session_id: u32,
    pub last_seen: u64,
    pub is_host: bool,
}

/// A join request in flight: recorded when the relay forwards a
/// `ConnectRequest` to a host, consumed when the host's answer is routed
/// back to the waiting client.
#[derive(Debug, Clone)]
pub struct PendingConnection {
    pub client_addr: Endpoint,
    pub session_id: u32,
    pub client_name: Vec<u8>,
}

/// Mathematical image of a [`PendingConnection`].
pub ghost struct PendingConnectionView {
    pub client_addr: Endpoint,
    pub session_id: u32,
    pub client_name: Seq<u8>,
}

impl View for PendingConnection {
    type V = PendingConnectionView;

    open spec fn view(&self) -> PendingConnectionView {
        PendingConnectionView {
            client_addr: self.client_addr,
            session_id: self.session_id,
            client_name: self.client_name@,
        }
    }
}

/// One session's peer list.
#[derive(Debug, Clone)]
pub struct SessionEntry {
    pub session_id: u32,
    pub peers: Vec<PeerInfo>,
}

/// Mathematical image of a [`SessionEntry`].
pub ghost struct SessionEntryView {
    pub session_id: u32,
    pub peers: Seq<PeerInfo>,
}

impl View for SessionEntry {
    type V = SessionEntryView;

    open spec fn view(&self) -> SessionEntryView {
        SessionEntryView { session_id: self.session_id, peers: self.peers@ }
    }
}

/// One session's host address, kept beside the peer list for direct lookup.
#[derive(Debug, Clone, Copy, PartialEq, Eq, Structural)]
pub struct HostEntry {
    pub session_id: u32,
    pub addr: Endpoint,
}

/// The relay's soft state: sessions with their peers, and the host address
/// of each hosted session.
#[derive(Debug, Clone)]
pub struct SessionManager {
    pub sessions: Vec<SessionEntry>,
    pub hosts: Vec<HostEntry>,
}

/// Mathematical image of a [`SessionManager`].
pub ghost struct SessionManagerView {
    pub sessions: Seq<SessionEntryView>,
    pub hosts: Seq<HostEntry>,
}

impl View for SessionManager {
    type V = SessionManagerView;

    open spec fn view(&self) -> SessionManagerView {
        SessionManagerView {
            sessions: self.sessions@.map_values(|s: SessionEntry| s@),
            hosts: self.hosts@,
        }
    }
}

/// Whether some session in `sessions` carries id `session_id`.
pub open spec fn spec_has_session(sessions: Seq<SessionEntryView>, session_id: u32) -> bool {
    exists|i: int| 0 <= i < sessions.len() && sessions[i].session_id == session_id
}

/// The session carrying id `session_id` (meaningful when ids are unique and
/// the session exists).
pub open spec fn spec_session_at(sessions: Seq<SessionEntryView>, session_id: u32) -> SessionEntryView {
    sessions[choose|i: int| 0 <= i < sessions.len() && sessions[i].session_id == session_id]
}

/// The host address recorded for `session_id`, if any.
pub open spec fn spec_host_addr(hosts: Seq<HostEntry>, session_id: u32) -> Option<Endpoint> {
    if exists|i: int| 0 <= i < hosts.len() && hosts[i].session_id == session_id {
        Some(
            hosts[choose|i: int| 0 <= i < hosts.len() && hosts[i].session_id == session_id].addr,
        )
    } else {
        None
    }
}

/// A single session is well formed: it is never empty, every peer carries
/// the session's id, exactly the peer with client id 1 is marked as host,
/// and client ids are unique.
pub open spec fn spec_session_wf(s: SessionEntryView) -> bool {
    &&& s.peers.len() > 0
    &&& forall|i: int| 0 <= i < s.peers.len() ==> (#[trigger] s.peers[i]).session_id == s.session_id
    &&& forall|i: int|
        0 <= i < s.peers.len() ==> ((#[trigger] s.peers[i]).is_host <==> s.peers[i].client_id == 1)
    &&& forall|i: int, j: int|
        0 <= i < j < s.peers.len() ==> (#[trigger] s.peers[i]).client_id != (
        #[trigger] s.peers[j]).client_id
}

/// The whole table is well formed: session ids are unique, each session is
/// well formed, host entries carry unique ids, and every host entry points
/// at an existing session.
pub open spec fn spec_manager_wf(m: SessionManagerView) -> bool {
    &&& forall|i: int, j: int|
        0 <= i < j < m.sessions.len() ==> (#[trigger] m.sessions[i]).session_id != (
        #[trigger] m.sessions[j]).session_id
    &&& forall|i: int| 0 <= i < m.sessions.len() ==> spec_session_wf(#[trigger] m.sessions[i])
    &&& forall|i: int, j: int|
        0 <= i < j < m.hosts.len() ==> (#[trigger] m.hosts[i]).session_id != (
        #[trigger] m.hosts[j]).session_id
    &&& forall|i: int|
        0 <= i < m.hosts.len() ==> spec_has_session(m.sessions, (#[trigger] m.hosts[i]).session_id)
}

/// A well-placed index witnesses `spec_session_at`.
proof fn lemma_session_at_index(sessions: Seq<SessionEntryView>, i: int)
    requires
        forall|a: int, b: int|
            0 <= a < b < sessions.len() ==> (#[trigger] sessions[a]).session_id != (
            #[trigger] sessions[b]).session_id,
        0 <= i < sessions.len(),
    ensures
        spec_has_session(sessions, sessions[i].session_id),
        spec_session_at(sessions, sessions[i].session_id) == sessions[i],
{
    let sid = sessions[i].session_id;
    assert(spec_has_session(sessions, sid));
    let j = choose|j: int| 0 <= j < sessions.len() && sessions[j].session_id == sid;
    if i < j {
        assert(sessions[i].session_id != sessions[j].session_id);
    } else if j < i {
        assert(sessions[j].session_id != sessions[i].session_id);
    }
}

/// A well-placed index witnesses `spec_host_addr`.
proof fn lemma_host_addr_index(hosts: Seq<HostEntry>, i: int)
    requires
        forall|a: int, b: int|
            0 <= a < b < hosts.len() ==> (#[trigger] hosts[a]).session_id != (
            #[trigger] hosts[b]).session_id,
        0 <= i < hosts.len(),
    ensures
        spec_host_addr(hosts, hosts[i].session_id) == Some(hosts[i].addr),
{
    let sid = hosts[i].session_id;
    assert(exists|j: int| 0 <= j < hosts.len() && hosts[j].session_id == sid);
    let j = choose|j: int| 0 <= j < hosts.len() && hosts[j].session_id == sid;
    if i < j {
        assert(hosts[i].session_id != hosts[j].session_id);
    } else if j < i {
        assert(hosts[j].session_id != hosts[i].session_id);
    }
}

/// The peers of `peers` that do not carry `client_id`, in order. Every
/// returned record is one of the input records, and distinct client ids
/// stay distinct.
fn peers_without(peers: &Vec<PeerInfo>, client_id: u8) -> (r: Vec<PeerInfo>)
    ensures
        r@ == peers@.filter(|p: PeerInfo| p.client_id != client_id),
        forall|k: int|
            0 <= k < r@.len() ==> exists|j: int|
                0 <= j < peers@.len() && #[trigger] r@[k] == #[trigger] peers@[j],
        (forall|a: int, b: int|
            0 <= a < b < peers@.len() ==> (#[trigger] peers@[a]).client_id != (
            #[trigger] peers@[b]).client_id) ==> (forall|a: int, b: int|
            0 <= a < b < r@.len() ==> (#[trigger] r@[a]).client_id != (
            #[trigger] r@[b]).client_id),
{
    let ghost distinct = forall|a: int, b: int|
        0 <= a < b < peers@.len() ==> (#[trigger] peers@[a]).client_id != (
        #[trigger] peers@[b]).client_id;
    let mut out: Vec<PeerInfo> = Vec::new();
    let mut i: usize = 0;
    while i < peers.len()
        invariant
            i <= peers@.len(),
            out@ == peers@.take(i as int).filter(|p: PeerInfo| p.client_id != client_id),
            forall|k: int|
                0 <= k < out@.len() ==> exists|j: int|
                    0 <= j < i && #[trigger] out@[k] == #[trigger] peers@[j],
            distinct ==> forall|a: int, b: int|
                0 <= a < b < out@.len() ==> (#[trigger] out@[a]).client_id != (
                #[trigger] out@[b]).client_id,
            distinct == (forall|a: int, b: int|
                0 <= a < b < peers@.len() ==> (#[trigger] peers@[a]).client_id != (
                #[trigger] peers@[b]).client_id),
        decreases peers@.len() - i,
    {
        let p = peers[i];
        proof {
            assert(peers@.take(i as int + 1) =~= peers@.take(i as int).push(peers@[i as int]));
            lemma_filter_push(
                peers@.take(i as int),
                |q: PeerInfo| q.client_id != client_id,
                peers@[i as int],
            );
            if distinct {
                assert forall|k: int|
                    0 <= k < out@.len() implies (#[trigger] out@[k]).client_id
                    != peers@[i as int].client_id by {
                    let j = choose|j: int| 0 <= j < i && out@[k] == peers@[j];
                    assert(peers@[j].client_id != peers@[i as int].client_id);
                }
            }
        }
        if p.client_id != client_id {
            out.push(p);
        }
        i = i + 1;
    }
    assert(peers@.take(peers@.len() as int) =~= peers@);
    out
}

impl SessionManager {
    /// An empty table: no sessions, no hosts.
    pub fn new() -> (r: SessionManager)
        ensures
            r@.sessions.len() == 0,
            r@.hosts.len() == 0,
            spec_manager_wf(r@),
    {
        SessionManager { sessions: Vec::new(), hosts: Vec::new() }
    }

    /// The index of the session carrying `session_id`, if any.
    fn find_session_index(&self, session_id: u32) -> (r: Option<usize>)
        ensures
            match r {
                Some(i) => i < self@.sessions.len() && self@.sessions[i as int].session_id
                    == session_id,
                None => !spec_has_session(self@.sessions, session_id),
            },
    {
        let mut i: usize = 0;
        while i < self.sessions.len()
            invariant
                i <= self@.sessions.len(),
                forall|j: int|
                    0 <= j < i ==> (#[trigger] self@.sessions[j]).session_id != session_id,
            decreases self@.sessions.len() - i,
        {
            if self.sessions[i].session_id == session_id {
                return Some(i);
            }
            i = i + 1;
        }
        None
    }

    /// The index of the host entry carrying `session_id`, if any.
    fn find_host_index(&self, session_id: u32) -> (r: Option<usize>)
        ensures
            match r {
                Some(i) => i < self@.hosts.len() && self@.hosts[i as int].session_id == session_id,
                None => spec_host_addr(self@.hosts, session_id) is None,
            },
    {
        let mut i: usize = 0;
        while i < self.hosts.len()
            invariant
                i <= self@.hosts.len(),
                forall|j: int| 0 <= j < i ==> (#[trigger] self@.hosts[j]).session_id != session_id,
            decreases self@.hosts.len() - i,
        {
            if self.hosts[i].session_id == session_id {
                return Some(i);
            }
            i = i + 1;
        }
        None
    }

    /// The host address recorded for `session_id`, if any.
    pub fn host_addr(&self, session_id: u32) -> (r: Option<Endpoint>)
        requires
            spec_manager_wf(self@),
        ensures
            r == spec_host_addr(self@.hosts, session_id),
    {
        match self.find_host_index(session_id) {
            Some(i) => {
                proof {
                    lemma_host_addr_index(self@.hosts, i as int);
                }
                Some(self.hosts[i].addr)
            },
            None => None,
        }
    }
}

/// The sessions component alone is well formed.
pub open spec fn spec_sessions_wf(sessions: Seq<SessionEntryView>) -> bool {
    &&& forall|i: int, j: int|
        0 <= i < j < sessions.len() ==> (#[trigger] sessions[i]).session_id != (
        #[trigger] sessions[j]).session_id
    &&& forall|i: int| 0 <= i < sessions.len() ==> spec_session_wf(#[trigger] sessions[i])
}

/// The record a registration step inserts for a peer.
pub open spec fn spec_new_peer(
    session_id: u32,
    client_id: u8,
    addr: Endpoint,
    now_ms: u64,
) -> PeerInfo {
    PeerInfo {
        addr,
        client_id,
        session_id,
        last_seen: now_ms,
        is_host: client_id == 1,
    }
}

/// The peer list a registration step leaves behind: the previous peers of
/// the session without any holding the same client id, then the new record.
pub open spec fn spec_registered_peers(
    sessions: Seq<SessionEntryView>,
    session_id: u32,
    client_id: u8,
    addr: Endpoint,
    now_ms: u64,
) -> Seq<PeerInfo> {
    (if spec_has_session(sessions, session_id) {
        spec_session_at(sessions, session_id).peers.filter(
            |p: PeerInfo| p.client_id != client_id,
        )
    } else {
        Seq::empty()
    }).push(spec_new_peer(session_id, client_id, addr, now_ms))
}

impl SessionManager {
    /// Inserts or replaces the peer holding `client_id` in session
    /// `session_id`, creating the session if it is new. The host map is
    /// untouched.
    fn upsert_session_peer(&mut self, session_id: u32, client_id: u8, addr: Endpoint, now_ms: u64)
        requires
            spec_sessions_wf(old(self)@.sessions),
        ensures
            spec_sessions_wf(final(self)@.sessions),
            final(self)@.hosts == old(self)@.hosts,
            spec_has_session(final(self)@.sessions, session_id),
            spec_session_at(final(self)@.sessions, session_id).peers == spec_registered_peers(
                old(self)@.sessions,
                session_id,
                client_id,
                addr,
                now_ms,
            ),
            forall|sid2: u32|
                sid2 != session_id ==> (spec_has_session(final(self)@.sessions, sid2)
                    <==> spec_has_session(old(self)@.sessions, sid2)),
            forall|sid2: u32|
                sid2 != session_id && spec_has_session(old(self)@.sessions, sid2)
                    ==> spec_session_at(final(self)@.sessions, sid2) == spec_session_at(
                    old(self)@.sessions,
                    sid2,
                ),
    {
        broadcast use vstd::seq_lib::group_filter_ensures;

        let new_peer = PeerInfo {
            addr,
            client_id,
            session_id,
            last_seen: now_ms,
            is_host: client_id == 1,
        };
        let ghost old_sessions = self@.sessions;
        match self.find_session_index(session_id) {
            Some(i) => {
                proof {
                    lemma_session_at_index(old_sessions, i as int);
                }
                let filtered = peers_without(&self.sessions[i].peers, client_id);
                let ghost filtered_view = filtered@;
                let mut new_peers = filtered;
                new_peers.push(new_peer);
                self.sessions.set(i, SessionEntry { session_id, peers: new_peers });
                proof {
                    let ns = self@.sessions;
                    assert(ns == old_sessions.update(
                        i as int,
                        SessionEntryView { session_id, peers: new_peers@ },
                    ));
                    let olde = old_sessions[i as int];
                    let pred = |p: PeerInfo| p.client_id != client_id;
                    // The updated entry is well formed.
                    assert(spec_session_wf(olde));
                    assert forall|k: int|
                        0 <= k < new_peers@.len() implies ((#[trigger] new_peers@[k]).session_id
                        == session_id && (new_peers@[k].is_host <==> new_peers@[k].client_id
                        == 1)) by {
                        if k < new_peers@.len() - 1 {
                            assert(new_peers@[k] == filtered_view[k]);
                            let j = choose|j: int|
                                0 <= j < olde.peers.len() && filtered_view[k] == olde.peers[j];
                            assert(olde.peers[j].session_id == olde.session_id);
                        }
                    }
                    assert forall|a: int, b: int|
                        0 <= a < b < new_peers@.len() implies (#[trigger] new_peers@[a]).client_id
                        != (#[trigger] new_peers@[b]).client_id by {
                        if b == new_peers@.len() - 1 {
                            assert(new_peers@[a] == olde.peers.filter(pred)[a]);
                            assert(pred(olde.peers.filter(pred)[a]));
                        } else {
                            assert(new_peers@[a] == filtered_view[a]);
                            assert(new_peers@[b] == filtered_view[b]);
                        }
                    }
                    assert(spec_session_wf(ns[i as int]));
                    assert(spec_sessions_wf(ns));
                    lemma_session_at_index(ns, i as int);
                    assert forall|sid2: u32|
                        sid2 != session_id && spec_has_session(old_sessions, sid2)
                        implies spec_session_at(ns, sid2) == spec_session_at(
                        old_sessions,
                        sid2,
                    ) && spec_has_session(ns, sid2) by {
                        let j = choose|j: int|
                            0 <= j < old_sessions.len() && old_sessions[j].session_id == sid2;
                        assert(ns[j] == old_sessions[j]);
                        lemma_session_at_index(ns, j);
                        lemma_session_at_index(old_sessions, j);
                    }
                    assert forall|sid2: u32|
                        sid2 != session_id && spec_has_session(ns, sid2)
                        implies spec_has_session(old_sessions, sid2) by {
                        let j = choose|j: int| 0 <= j < ns.len() && ns[j].session_id == sid2;
                        assert(old_sessions[j] == ns[j]);
                        assert(spec_has_session(old_sessions, sid2));
                    }
                }
            },
            None => {
                let mut new_peers: Vec<PeerInfo> = Vec::new();
                new_peers.push(new_peer);
                self.sessions.push(SessionEntry { session_id, peers: new_peers });
                proof {
                    let ns = self@.sessions;
                    assert(ns =~= old_sessions.push(
                        SessionEntryView { session_id, peers: new_peers@ },
                    ));
                    assert(spec_session_wf(ns[ns.len() - 1]));
                    assert(spec_sessions_wf(ns));
                    lemma_session_at_index(ns, ns.len() - 1);
                    assert(spec_registered_peers(old_sessions, session_id, client_id, addr, now_ms)
                        =~= new_peers@);
                    assert forall|sid2: u32|
                        sid2 != session_id && spec_has_session(old_sessions, sid2)
                        implies spec_session_at(ns, sid2) == spec_session_at(
                        old_sessions,
                        sid2,
                    ) && spec_has_session(ns, sid2) by {
                        let j = choose|j: int|
                            0 <= j < old_sessions.len() && old_sessions[j].session_id == sid2;
                        assert(ns[j] == old_sessions[j]);
                        lemma_session_at_index(ns, j);
                        lemma_session_at_index(old_sessions, j);
                    }
                    assert forall|sid2: u32|
                        sid2 != session_id && spec_has_session(ns, sid2)
                        implies spec_has_session(old_sessions, sid2) by {
                        let j = choose|j: int| 0 <= j < ns.len() && ns[j].session_id == sid2;
                        assert(j < old_sessions.len());
                        assert(old_sessions[j] == ns[j]);
                    }
                }
            },
        }
    }
}

/// The change a host registration makes: the host map now points
/// `session_id` at `addr` and nothing else, the session exists with its
/// previous peers (minus any stale host peer) plus the fresh host record,
/// and every other session is untouched.
pub open spec fn spec_register_host_step(
    m0: SessionManagerView,
    mf: SessionManagerView,
    session_id: u32,
    addr: Endpoint,
    now_ms: u64,
) -> bool {
    &&& spec_host_addr(mf.hosts, session_id) == Some(addr)
    &&& forall|sid2: u32|
        sid2 != session_id ==> spec_host_addr(mf.hosts, sid2) == spec_host_addr(m0.hosts, sid2)
    &&& spec_has_session(mf.sessions, session_id)
    &&& spec_session_at(mf.sessions, session_id).peers == spec_registered_peers(
        m0.sessions,
        session_id,
        1,
        addr,
        now_ms,
    )
    &&& forall|sid2: u32|
        sid2 != session_id ==> (spec_has_session(mf.sessions, sid2) <==> spec_has_session(
            m0.sessions,
            sid2,
        ))
    &&& forall|sid2: u32|
        sid2 != session_id && spec_has_session(m0.sessions, sid2) ==> spec_session_at(
            mf.sessions,
            sid2,
        ) == spec_session_at(m0.sessions, sid2)
}

/// The change a client registration makes: the host map is untouched, the
/// session exists with its previous peers (minus any prior peer holding the
/// same client id) plus the fresh record, and every other session is
/// untouched.
pub open spec fn spec_register_client_step(
    m0: SessionManagerView,
    mf: SessionManagerView,
    session_id: u32,
    client_id: u8,
    addr: Endpoint,
    now_ms: u64,
) -> bool {
    &&& mf.hosts == m0.hosts
    &&& spec_has_session(mf.sessions, session_id)
    &&& spec_session_at(mf.sessions, session_id).peers == spec_registered_peers(
        m0.sessions,
        session_id,
        client_id,
        addr,
        now_ms,
    )
    &&& forall|sid2: u32|
        sid2 != session_id ==> (spec_has_session(mf.sessions, sid2) <==> spec_has_session(
            m0.sessions,
            sid2,
        ))
    &&& forall|sid2: u32|
        sid2 != session_id && spec_has_session(m0.sessions, sid2) ==> spec_session_at(
            mf.sessions,
            sid2,
        ) == spec_session_at(m0.sessions, sid2)
}

/// The change an activity refresh makes: the host map and every session
/// with another id are untouched; in sessions carrying `session_id` the
/// peer holding `client_id` is stamped at `now_ms`.
pub open spec fn spec_activity_step(
    m0: SessionManagerView,
    mf: SessionManagerView,
    client_id: u8,
    session_id: u32,
    now_ms: u64,
) -> bool {
    &&& mf.hosts == m0.hosts
    &&& mf.sessions.len() == m0.sessions.len()
    &&& forall|k: int|
        0 <= k < m0.sessions.len() ==> (#[trigger] mf.sessions[k]) == (
        if m0.sessions[k].session_id == session_id {
            SessionEntryView {
                session_id: m0.sessions[k].session_id,
                peers: spec_refreshed_peers(m0.sessions[k].peers, client_id, now_ms),
            }
        } else {
            m0.sessions[k]
        })
}

impl SessionManager {
    /// Records `addr` as the host of `session_id` (evicting any stale host
    /// entry for that id) and installs the host peer, replacing any prior
    /// peer with client id 1.
    pub fn register_host(&mut self, session_id: u32, addr: Endpoint, now_ms: u64)
        requires
            spec_manager_wf(old(self)@),
        ensures
            spec_manager_wf(final(self)@),
            spec_register_host_step(old(self)@, final(self)@, session_id, addr, now_ms),
    {
        let ghost m0 = self@;
        match self.find_host_index(session_id) {
            Some(i) => {
                self.hosts.set(i, HostEntry { session_id, addr });
                proof {
                    assert forall|k: int|
                        0 <= k < self@.hosts.len() implies (#[trigger] self@.hosts[k]).session_id
                        == m0.hosts[k].session_id by {}
                    assert(exists|k: int|
                        0 <= k < self@.hosts.len() && (#[trigger] self@.hosts[k]).session_id
                            == session_id) by {
                        assert(self@.hosts[i as int].session_id == session_id);
                    }
                }
            },
            None => {
                self.hosts.push(HostEntry { session_id, addr });
                proof {
                    assert(exists|k: int|
                        0 <= k < self@.hosts.len() && (#[trigger] self@.hosts[k]).session_id
                            == session_id) by {
                        assert(self@.hosts[self@.hosts.len() - 1].session_id == session_id);
                    }
                }
            },
        }
        let ghost h1 = self@.hosts;
        proof {
            assert forall|a: int, b: int|
                0 <= a < b < h1.len() implies (#[trigger] h1[a]).session_id != (
                #[trigger] h1[b]).session_id by {
                if b < m0.hosts.len() {
                    assert(m0.hosts[a].session_id != m0.hosts[b].session_id);
                }
            }
            assert(self@.sessions == m0.sessions);
            assert(spec_sessions_wf(self@.sessions));
        }
        self.upsert_session_peer(session_id, 1, addr, now_ms);
        proof {
            let mf = self@;
            // The fresh host entry resolves to the new address.
            let i = choose|i: int| 0 <= i < h1.len() && h1[i].session_id == session_id;
            assert(h1[i].addr == addr) by {
                if i < m0.hosts.len() && h1[i] != (HostEntry { session_id, addr }) {
                    assert(m0.hosts[i].session_id != session_id || h1[i].addr == addr);
                }
            }
            lemma_host_addr_index(h1, i);
            // Other host entries are untouched.
            assert forall|sid2: u32| sid2 != session_id implies spec_host_addr(h1, sid2)
                == spec_host_addr(m0.hosts, sid2) by {
                if exists|j: int| 0 <= j < m0.hosts.len() && m0.hosts[j].session_id == sid2 {
                    let j = choose|j: int|
                        0 <= j < m0.hosts.len() && m0.hosts[j].session_id == sid2;
                    assert(h1[j] == m0.hosts[j]);
                    lemma_host_addr_index(h1, j);
                    lemma_host_addr_index(m0.hosts, j);
                } else {
                    assert forall|j: int| 0 <= j < h1.len() implies (#[trigger] h1[j]).session_id
                        != sid2 by {
                        if j < m0.hosts.len() && h1[j].session_id == sid2 {
                            assert(m0.hosts[j].session_id == sid2);
                        }
                    }
                }
            }
            // Every host entry still points at a session.
            assert forall|k: int|
                0 <= k < mf.hosts.len() implies spec_has_session(
                mf.sessions,
                (#[trigger] mf.hosts[k]).session_id,
            ) by {
                if mf.hosts[k].session_id != session_id {
                    assert(m0.hosts[k].session_id == mf.hosts[k].session_id);
                    assert(spec_has_session(m0.sessions, m0.hosts[k].session_id));
                }
            }
            assert(spec_manager_wf(mf));
        }
    }

    /// Installs or replaces the peer `client_id` of `session_id` at `addr`;
    /// this is the client's post-admission registration. The host map is
    /// untouched.
    pub fn register_client(&mut self, session_id: u32, client_id: u8, addr: Endpoint, now_ms: u64)
        requires
            spec_manager_wf(old(self)@),
            client_id != 1,
        ensures
            spec_manager_wf(final(self)@),
            spec_register_client_step(old(self)@, final(self)@, session_id, client_id, addr, now_ms),
    {
        let ghost m0 = self@;
        self.upsert_session_peer(session_id, client_id, addr, now_ms);
        proof {
            let mf = self@;
            assert forall|k: int|
                0 <= k < mf.hosts.len() implies spec_has_session(
                mf.sessions,
                (#[trigger] mf.hosts[k]).session_id,
            ) by {
                assert(spec_has_session(m0.sessions, m0.hosts[k].session_id));
            }
            assert(spec_manager_wf(mf));
        }
    }
}

/// `peers` with the record holding `client_id` stamped at `now_ms`;
/// unchanged when no record holds it.
pub open spec fn spec_refreshed_peers(peers: Seq<PeerInfo>, client_id: u8, now_ms: u64) -> Seq<
    PeerInfo,
> {
    if exists|j: int| 0 <= j < peers.len() && (#[trigger] peers[j]).client_id == client_id {
        let j = choose|j: int|
            0 <= j < peers.len() && (#[trigger] peers[j]).client_id == client_id;
        peers.update(j, PeerInfo { last_seen: now_ms, ..peers[j] })
    } else {
        peers
    }
}

/// Whether some peer of `s` sits at `addr`.
pub open spec fn spec_session_has_addr(s: SessionEntryView, addr: Endpoint) -> bool {
    exists|k: int| 0 <= k < s.peers.len() && (#[trigger] s.peers[k]).addr == addr
}

/// Whether some peer of `s` sits at `addr`.
fn session_has_addr(entry: &SessionEntry, addr: Endpoint) -> (r: bool)
    ensures
        r == spec_session_has_addr(entry@, addr),
{
    let mut k: usize = 0;
    while k < entry.peers.len()
        invariant
            k <= entry@.peers.len(),
            forall|j: int| 0 <= j < k ==> (#[trigger] entry@.peers[j]).addr != addr,
        decreases entry@.peers.len() - k,
    {
        if endpoint_eq(entry.peers[k].addr, addr) {
            return true;
        }
        k = k + 1;
    }
    false
}

/// Whether two endpoints are the same address and port.
pub fn endpoint_eq(a: Endpoint, b: Endpoint) -> (r: bool)
    ensures
        r == (a == b),
{
    a.ip == b.ip && a.port == b.port
}

impl SessionManager {
    /// Stamps the peer `client_id` of `session_id` as seen at `now_ms`.
    /// Nothing else changes; a missing session or peer is ignored.
    pub fn update_client_activity(&mut self, client_id: u8, session_id: u32, now_ms: u64)
        requires
            spec_manager_wf(old(self)@),
        ensures
            spec_manager_wf(final(self)@),
            spec_activity_step(old(self)@, final(self)@, client_id, session_id, now_ms),
    {
        let ghost m0 = self@;
        let i = match self.find_session_index(session_id) {
            Some(i) => i,
            None => {
                proof {
                    assert forall|k: int|
                        0 <= k < m0.sessions.len() implies (#[trigger] m0.sessions[k]).session_id
                        != session_id by {}
                }
                return ;
            },
        };
        let ghost olde = m0.sessions[i as int];
        let mut new_peers: Vec<PeerInfo> = Vec::new();
        let mut k: usize = 0;
        let n = self.sessions[i].peers.len();
        let mut found = false;
        while k < n
            invariant
                spec_manager_wf(m0),
                m0 == self@,
                i < m0.sessions.len(),
                olde == m0.sessions[i as int],
                m0.sessions[i as int].session_id == session_id,
                k <= n == olde.peers.len(),
                new_peers@.len() == k as int,
                !found ==> new_peers@ == olde.peers.take(k as int),
                !found ==> forall|j: int|
                    0 <= j < k ==> (#[trigger] olde.peers[j]).client_id != client_id,
                found ==> exists|j: int|
                    0 <= j < k && (#[trigger] olde.peers[j]).client_id == client_id
                        && new_peers@ == olde.peers.take(k as int).update(
                        j,
                        PeerInfo { last_seen: now_ms, ..olde.peers[j] },
                    ),
            decreases n - k,
        {
            let p = self.sessions[i].peers[k];
            let ghost prev = new_peers@;
            if !found && p.client_id == client_id {
                new_peers.push(PeerInfo { last_seen: now_ms, ..p });
                found = true;
                proof {
                    assert(new_peers@ =~= olde.peers.take(k as int + 1).update(
                        k as int,
                        PeerInfo { last_seen: now_ms, ..olde.peers[k as int] },
                    ));
                }
            } else {
                proof {
                    if found {
                        let j = choose|j: int|
                            0 <= j < k && (#[trigger] olde.peers[j]).client_id == client_id
                                && prev == olde.peers.take(k as int).update(
                                j,
                                PeerInfo { last_seen: now_ms, ..olde.peers[j] },
                            );
                        assert(prev.push(olde.peers[k as int]) =~= olde.peers.take(
                            k as int + 1,
                        ).update(j, PeerInfo { last_seen: now_ms, ..olde.peers[j] }));
                    }
                }
                new_peers.push(p);
                proof {
                    if !found {
                        assert(new_peers@ =~= olde.peers.take(k as int + 1));
                    }
                }
            }
            k = k + 1;
        }
        proof {
            assert(olde.peers.take(n as int) =~= olde.peers);
        }
        self.sessions.set(i, SessionEntry { session_id, peers: new_peers });
        proof {
            let mf = self@;
            assert(mf.sessions == m0.sessions.update(
                i as int,
                SessionEntryView { session_id, peers: new_peers@ },
            ));
            // The rebuilt peer list matches the refresh specification.
            assert(new_peers@ == spec_refreshed_peers(olde.peers, client_id, now_ms)) by {
                if found {
                    let j = choose|j: int|
                        0 <= j < n && (#[trigger] olde.peers[j]).client_id == client_id
                            && new_peers@ == olde.peers.take(n as int).update(
                            j,
                            PeerInfo { last_seen: now_ms, ..olde.peers[j] },
                        );
                    let j2 = choose|j2: int|
                        0 <= j2 < olde.peers.len() && (#[trigger] olde.peers[j2]).client_id
                            == client_id;
                    assert(spec_session_wf(olde));
                    if j < j2 {
                        assert(olde.peers[j].client_id != olde.peers[j2].client_id);
                    } else if j2 < j {
                        assert(olde.peers[j2].client_id != olde.peers[j].client_id);
                    }
                    assert(new_peers@ =~= spec_refreshed_peers(olde.peers, client_id, now_ms));
                } else {
                    assert(new_peers@ =~= olde.peers);
                }
            }
            // Well-formedness survives a last-seen refresh.
            assert(spec_session_wf(olde));
            assert forall|a: int, b: int|
                0 <= a < b < new_peers@.len() implies (#[trigger] new_peers@[a]).client_id != (
                #[trigger] new_peers@[b]).client_id by {
                assert(olde.peers[a].client_id != olde.peers[b].client_id);
            }
            assert(spec_session_wf(mf.sessions[i as int]));
            assert forall|k2: int|
                0 <= k2 < mf.sessions.len() implies (#[trigger] mf.sessions[k2]).session_id
                == m0.sessions[k2].session_id by {}
            assert forall|k2: int|
                0 <= k2 < mf.hosts.len() implies spec_has_session(
                mf.sessions,
                (#[trigger] mf.hosts[k2]).session_id,
            ) by {
                assert(spec_has_session(m0.sessions, m0.hosts[k2].session_id));
                let w = choose|w: int|
                    0 <= w < m0.sessions.len() && m0.sessions[w].session_id == m0.hosts[
                    k2].session_id;
                assert(mf.sessions[w].session_id == m0.hosts[k2].session_id);
            }
            assert forall|a: int, b: int|
                0 <= a < b < mf.sessions.len() implies (#[trigger] mf.sessions[a]).session_id
                != (#[trigger] mf.sessions[b]).session_id by {
                assert(m0.sessions[a].session_id != m0.sessions[b].session_id);
            }
            assert forall|k2: int|
                0 <= k2 < mf.sessions.len() implies spec_session_wf(
                #[trigger] mf.sessions[k2],
            ) by {
                if k2 != i {
                    assert(mf.sessions[k2] == m0.sessions[k2]);
                    assert(spec_session_wf(m0.sessions[k2]));
                }
            }
            assert forall|a: int, b: int|
                0 <= a < b < mf.hosts.len() implies (#[trigger] mf.hosts[a]).session_id != (
                #[trigger] mf.hosts[b]).session_id by {
                assert(m0.hosts[a].session_id != m0.hosts[b].session_id);
            }
            assert(spec_manager_wf(mf));
            // Untouched sessions keep their records.
            assert forall|k2: int|
                0 <= k2 < m0.sessions.len() && k2 != i implies (#[trigger] m0.sessions[
                k2]).session_id != session_id by {
                if k2 < i {
                    assert(m0.sessions[k2].session_id != m0.sessions[i as int].session_id);
                } else {
                    assert(m0.sessions[i as int].session_id != m0.sessions[k2].session_id);
                }
            }
        }
    }

    /// The id of the first session holding a peer at `addr`, if any.
    pub fn find_session_for_addr(&self, addr: Endpoint) -> (r: Option<u32>)
        ensures
            match r {
                Some(sid) => exists|i: int|
                    0 <= i < self@.sessions.len() && (#[trigger] self@.sessions[i]).session_id
                        == sid && spec_session_has_addr(self@.sessions[i], addr) && forall|j: int|
                        0 <= j < i ==> !spec_session_has_addr(#[trigger] self@.sessions[j], addr),
                None => forall|i: int|
                    0 <= i < self@.sessions.len() ==> !spec_session_has_addr(
                        #[trigger] self@.sessions[i],
                        addr,
                    ),
            },
    {
        let mut i: usize = 0;
        while i < self.sessions.len()
            invariant
                i <= self@.sessions.len(),
                forall|j: int|
                    0 <= j < i ==> !spec_session_has_addr(#[trigger] self@.sessions[j], addr),
            decreases self@.sessions.len() - i,
        {
            if session_has_addr(&self.sessions[i], addr) {
                let sid = self.sessions[i].session_id;
                proof {
                    assert(self@.sessions[i as int].session_id == sid
                        && spec_session_has_addr(self@.sessions[i as int], addr));
                }
                return Some(sid);
            }
            i = i + 1;
        }
        None
    }

    /// The number of active sessions.
    pub fn session_count(&self) -> (r: usize)
        ensures
            r == self@.sessions.len(),
    {
        self.sessions.len()
    }

    /// The number of peers over all sessions, hosts included.
    pub fn total_client_count(&self) -> (r: usize)
        requires
            spec_total_peers(self@.sessions) <= usize::MAX,
        ensures
            r as int == spec_total_peers(self@.sessions),
    {
        let mut total: usize = 0;
        let mut i: usize = 0;
        while i < self.sessions.len()
            invariant
                i <= self@.sessions.len(),
                spec_total_peers(self@.sessions) <= usize::MAX,
                total as int == spec_total_peers(self@.sessions.take(i as int)),
            decreases self@.sessions.len() - i,
        {
            proof {
                assert(self@.sessions.take(i as int + 1).drop_last() =~= self@.sessions.take(
                    i as int,
                ));
                assert(self@.sessions.take(i as int + 1).last() == self@.sessions[i as int]);
                lemma_total_peers_prefix_le(self@.sessions, i as int + 1);
                lemma_total_peers_nonneg(self@.sessions.take(i as int));
            }
            let n = self.sessions[i].peers.len();
            total = total + n;
            i = i + 1;
        }
        proof {
            assert(self@.sessions.take(self@.sessions.len() as int) =~= self@.sessions);
        }
        total
    }
}

/// A peer total is never negative.
proof fn lemma_total_peers_nonneg(sessions: Seq<SessionEntryView>)
    ensures
        spec_total_peers(sessions) >= 0,
    decreases sessions.len(),
{
    if sessions.len() > 0 {
        lemma_total_peers_nonneg(sessions.drop_last());
    }
}

/// A prefix of the session list never counts more peers than the whole.
proof fn lemma_total_peers_prefix_le(sessions: Seq<SessionEntryView>, i: int)
    requires
        0 <= i <= sessions.len(),
    ensures
        spec_total_peers(sessions.take(i)) <= spec_total_peers(sessions),
    decreases sessions.len() - i,
{
    if i == sessions.len() {
        assert(sessions.take(i) =~= sessions);
    } else {
        assert(sessions.take(i + 1).drop_last() =~= sessions.take(i));
        assert(sessions.take(i + 1).last() == sessions[i]);
        lemma_total_peers_prefix_le(sessions, i + 1);
    }
}

/// The number of peer records over all sessions.
pub open spec fn spec_total_peers(sessions: Seq<SessionEntryView>) -> int
    decreases sessions.len(),
{
    if sessions.len() == 0 {
        0
    } else {
        spec_total_peers(sessions.drop_last()) + sessions.last().peers.len()
    }
}

/// Whether a peer survives the sweep at `now_ms`: hosts always do, other
/// peers only while their silence is shorter than [`PEER_TIMEOUT_MS`].
pub open spec fn spec_peer_alive(p: PeerInfo, now_ms: u64) -> bool {
    p.is_host || now_ms - p.last_seen < PEER_TIMEOUT_MS
}

/// A session after the sweep: the same id, only the surviving peers.
pub open spec fn spec_swept_entry(s: SessionEntryView, now_ms: u64) -> SessionEntryView {
    SessionEntryView {
        session_id: s.session_id,
        peers: s.peers.filter(|p: PeerInfo| spec_peer_alive(p, now_ms)),
    }
}

/// The whole table after the sweep: every session loses its timed-out
/// peers, sessions left empty disappear, and a host entry stays exactly as
/// long as its session does.
pub open spec fn spec_cleanup(m: SessionManagerView, now_ms: u64) -> SessionManagerView {
    let swept = m.sessions.map_values(|s: SessionEntryView| spec_swept_entry(s, now_ms)).filter(
        |s: SessionEntryView| s.peers.len() > 0,
    );
    SessionManagerView {
        sessions: swept,
        hosts: m.hosts.filter(|h: HostEntry| spec_has_session(swept, h.session_id)),
    }
}

/// Whether a peer survives the sweep at `now_ms`.
fn peer_alive(p: PeerInfo, now_ms: u64) -> (r: bool)
    ensures
        r == spec_peer_alive(p, now_ms),
{
    if p.is_host {
        true
    } else if now_ms <= p.last_seen {
        true
    } else {
        now_ms - p.last_seen < PEER_TIMEOUT_MS
    }
}

/// The peers of `peers` that survive the sweep at `now_ms`, in order. Every
/// returned record is one of the input records, and distinct client ids
/// stay distinct.
fn alive_peers(peers: &Vec<PeerInfo>, now_ms: u64) -> (r: Vec<PeerInfo>)
    ensures
        r@ == peers@.filter(|p: PeerInfo| spec_peer_alive(p, now_ms)),
        forall|k: int|
            0 <= k < r@.len() ==> exists|j: int|
                0 <= j < peers@.len() && #[trigger] r@[k] == #[trigger] peers@[j],
        (forall|a: int, b: int|
            0 <= a < b < peers@.len() ==> (#[trigger] peers@[a]).client_id != (
            #[trigger] peers@[b]).client_id) ==> (forall|a: int, b: int|
            0 <= a < b < r@.len() ==> (#[trigger] r@[a]).client_id != (
            #[trigger] r@[b]).client_id),
{
    let ghost distinct = forall|a: int, b: int|
        0 <= a < b < peers@.len() ==> (#[trigger] peers@[a]).client_id != (
        #[trigger] peers@[b]).client_id;
    let mut out: Vec<PeerInfo> = Vec::new();
    let mut i: usize = 0;
    while i < peers.len()
        invariant
            i <= peers@.len(),
            out@ == peers@.take(i as int).filter(|p: PeerInfo| spec_peer_alive(p, now_ms)),
            forall|k: int|
                0 <= k < out@.len() ==> exists|j: int|
                    0 <= j < i && #[trigger] out@[k] == #[trigger] peers@[j],
            distinct ==> forall|a: int, b: int|
                0 <= a < b < out@.len() ==> (#[trigger] out@[a]).client_id != (
                #[trigger] out@[b]).client_id,
            distinct == (forall|a: int, b: int|
                0 <= a < b < peers@.len() ==> (#[trigger] peers@[a]).client_id != (
                #[trigger] peers@[b]).client_id),
        decreases peers@.len() - i,
    {
        let p = peers[i];
        proof {
            assert(peers@.take(i as int + 1) =~= peers@.take(i as int).push(peers@[i as int]));
            lemma_filter_push(
                peers@.take(i as int),
                |q: PeerInfo| spec_peer_alive(q, now_ms),
                peers@[i as int],
            );
            if distinct {
                assert forall|k: int|
                    0 <= k < out@.len() implies (#[trigger] out@[k]).client_id
                    != peers@[i as int].client_id by {
                    let j = choose|j: int| 0 <= j < i && out@[k] == peers@[j];
                    assert(peers@[j].client_id != peers@[i as int].client_id);
                }
            }
        }
        if peer_alive(p, now_ms) {
            out.push(p);
        }
        i = i + 1;
    }
    assert(peers@.take(peers@.len() as int) =~= peers@);
    out
}

/// Whether the built session list already holds `session_id`.
fn sessions_contain(sessions: &Vec<SessionEntry>, session_id: u32) -> (r: bool)
    ensures
        r == spec_has_session(sessions@.map_values(|s: SessionEntry| s@), session_id),
{
    let ghost views = sessions@.map_values(|s: SessionEntry| s@);
    let mut i: usize = 0;
    while i < sessions.len()
        invariant
            i <= sessions@.len(),
            views == sessions@.map_values(|s: SessionEntry| s@),
            forall|j: int| 0 <= j < i ==> (#[trigger] views[j]).session_id != session_id,
        decreases sessions@.len() - i,
    {
        if sessions[i].session_id == session_id {
            assert(views[i as int].session_id == session_id);
            return true;
        }
        i = i + 1;
    }
    false
}

impl SessionManager {
    /// The aging sweep: evicts every non-host peer silent for
    /// [`PEER_TIMEOUT_MS`] or longer, removes any session whose peer list
    /// becomes empty, and drops the host entry of every removed session. At
    /// the end no session is empty.
    pub fn cleanup_dead_connections(&mut self, now_ms: u64)
        requires
            spec_manager_wf(old(self)@),
        ensures
            spec_manager_wf(final(self)@),
            final(self)@ == spec_cleanup(old(self)@, now_ms),
            forall|k: int|
                0 <= k < final(self)@.sessions.len() ==> (
                #[trigger] final(self)@.sessions[k]).peers.len() > 0,
    {
        broadcast use vstd::seq_lib::group_filter_ensures;

        let ghost m0 = self@;
        let ghost sw = |s: SessionEntryView| spec_swept_entry(s, now_ms);
        let ghost nonempty = |s: SessionEntryView| s.peers.len() > 0;
        let mut new_sessions: Vec<SessionEntry> = Vec::new();
        let mut i: usize = 0;
        while i < self.sessions.len()
            invariant
                spec_manager_wf(m0),
                m0 == self@,
                i <= m0.sessions.len(),
                sw == (|s: SessionEntryView| spec_swept_entry(s, now_ms)),
                nonempty == (|s: SessionEntryView| s.peers.len() > 0),
                new_sessions@.map_values(|s: SessionEntry| s@) == m0.sessions.take(
                    i as int,
                ).map_values(sw).filter(nonempty),
                forall|k: int|
                    0 <= k < new_sessions@.len() ==> exists|j: int|
                        0 <= j < i && #[trigger] new_sessions@[k]@ == sw(
                            #[trigger] m0.sessions[j],
                        ),
                forall|k: int| 0 <= k < new_sessions@.len() ==> spec_session_wf(
                    #[trigger] new_sessions@[k]@,
                ),
                forall|a: int, b: int|
                    0 <= a < b < new_sessions@.len() ==> (#[trigger] new_sessions@[a]@).session_id
                        != (#[trigger] new_sessions@[b]@).session_id,
            decreases m0.sessions.len() - i,
        {
            let ghost olde = m0.sessions[i as int];
            let kept = alive_peers(&self.sessions[i].peers, now_ms);
            proof {
                assert(spec_session_wf(olde));
                assert(m0.sessions.take(i as int + 1) =~= m0.sessions.take(i as int).push(olde));
                assert(m0.sessions.take(i as int + 1).map_values(sw) =~= m0.sessions.take(
                    i as int,
                ).map_values(sw).push(sw(olde)));
                lemma_filter_push(m0.sessions.take(i as int).map_values(sw), nonempty, sw(olde));
            }
            if kept.len() > 0 {
                let sid = self.sessions[i].session_id;
                let entry = SessionEntry { session_id: sid, peers: kept };
                proof {
                    let ev = entry@;
                    let ghost kv = ev.peers;
                    // The swept entry is well formed.
                    assert forall|k: int|
                        0 <= k < kv.len() implies ((#[trigger] kv[k]).session_id == sid && (
                        kv[k].is_host <==> kv[k].client_id == 1)) by {
                        let j = choose|j: int| 0 <= j < olde.peers.len() && kv[k] == olde.peers[j];
                        assert(olde.peers[j].session_id == olde.session_id);
                    }
                    assert(spec_session_wf(ev));
                    // Distinct ids against everything already kept.
                    assert forall|k: int|
                        0 <= k < new_sessions@.len() implies (
                        #[trigger] new_sessions@[k]@).session_id != sid by {
                        let j = choose|j: int|
                            0 <= j < i && new_sessions@[k]@ == sw(m0.sessions[j]);
                        assert(m0.sessions[j].session_id != m0.sessions[i as int].session_id);
                    }
                }
                new_sessions.push(entry);
                proof {
                    assert(new_sessions@.map_values(|s: SessionEntry| s@) =~= m0.sessions.take(
                        i as int + 1,
                    ).map_values(sw).filter(nonempty));
                }
            } else {
                proof {
                    assert(new_sessions@.map_values(|s: SessionEntry| s@) =~= m0.sessions.take(
                        i as int + 1,
                    ).map_values(sw).filter(nonempty));
                }
            }
            i = i + 1;
        }
        proof {
            assert(m0.sessions.take(m0.sessions.len() as int) =~= m0.sessions);
        }
        let ghost ns_views = new_sessions@.map_values(|s: SessionEntry| s@);
        let mut new_hosts: Vec<HostEntry> = Vec::new();
        let mut h: usize = 0;
        while h < self.hosts.len()
            invariant
                spec_manager_wf(m0),
                m0 == self@,
                h <= m0.hosts.len(),
                ns_views == new_sessions@.map_values(|s: SessionEntry| s@),
                new_hosts@ == m0.hosts.take(h as int).filter(
                    |e: HostEntry| spec_has_session(ns_views, e.session_id),
                ),
                forall|k: int|
                    0 <= k < new_hosts@.len() ==> exists|j: int|
                        0 <= j < h && #[trigger] new_hosts@[k] == #[trigger] m0.hosts[j],
                forall|a: int, b: int|
                    0 <= a < b < new_hosts@.len() ==> (#[trigger] new_hosts@[a]).session_id != (
                    #[trigger] new_hosts@[b]).session_id,
            decreases m0.hosts.len() - h,
        {
            let e = self.hosts[h];
            proof {
                assert(m0.hosts.take(h as int + 1) =~= m0.hosts.take(h as int).push(
                    m0.hosts[h as int],
                ));
                lemma_filter_push(
                    m0.hosts.take(h as int),
                    |e2: HostEntry| spec_has_session(ns_views, e2.session_id),
                    m0.hosts[h as int],
                );
                assert forall|k: int|
                    0 <= k < new_hosts@.len() implies (#[trigger] new_hosts@[k]).session_id
                    != e.session_id by {
                    let j = choose|j: int| 0 <= j < h && new_hosts@[k] == m0.hosts[j];
                    assert(m0.hosts[j].session_id != m0.hosts[h as int].session_id);
                }
            }
            if sessions_contain(&new_sessions, e.session_id) {
                new_hosts.push(e);
            }
            h = h + 1;
        }
        proof {
            assert(m0.hosts.take(m0.hosts.len() as int) =~= m0.hosts);
        }
        self.sessions = new_sessions;
        self.hosts = new_hosts;
        proof {
            let mf = self@;
            assert(mf.sessions == spec_cleanup(m0, now_ms).sessions);
            assert(mf.hosts == spec_cleanup(m0, now_ms).hosts);
            assert forall|k: int|
                0 <= k < mf.hosts.len() implies spec_has_session(
                mf.sessions,
                (#[trigger] mf.hosts[k]).session_id,
            ) by {
                assert(spec_has_session(ns_views, mf.hosts[k].session_id));
            }
            assert(spec_manager_wf(mf));
            assert forall|k: int|
                0 <= k < mf.sessions.len() implies (#[trigger] mf.sessions[k]).peers.len()
                > 0 by {
                assert(nonempty(mf.sessions[k]));
            }
        }
    }
}

/// When the session table is empty, no host is registered: every host entry
/// points at a live session.
pub proof fn lemma_no_sessions_no_hosts(m: SessionManagerView)
    requires
        spec_manager_wf(m),
        m.sessions.len() == 0,
    ensures
        m.hosts.len() == 0,
{
    if m.hosts.len() > 0 {
        assert(spec_has_session(m.sessions, m.hosts[0].session_id));
    }
}

/// Within a well-formed session at most one peer is marked as host: any two
/// host-marked positions coincide.
pub proof fn lemma_at_most_one_host(s: SessionEntryView, a: int, b: int)
    requires
        spec_session_wf(s),
        0 <= a < s.peers.len(),
        0 <= b < s.peers.len(),
        s.peers[a].is_host,
        s.peers[b].is_host,
    ensures
        a == b,
{
    if a < b {
        assert(s.peers[a].client_id != s.peers[b].client_id);
    } else if b < a {
        assert(s.peers[b].client_id != s.peers[a].client_id);
    }
}

/// Within a well-formed session client ids are unique: two positions with
/// the same client id coincide.
pub proof fn lemma_client_ids_unique(s: SessionEntryView, a: int, b: int)
    requires
        spec_session_wf(s),
        0 <= a < s.peers.len(),
        0 <= b < s.peers.len(),
        s.peers[a].client_id == s.peers[b].client_id,
    ensures
        a == b,
{
    if a < b {
        assert(s.peers[a].client_id != s.peers[b].client_id);
    } else if b < a {
        assert(s.peers[b].client_id != s.peers[a].client_id);
    }
}

/// An instruction to send one datagram to one endpoint.
#[derive(Debug, Clone)]
pub struct Outbound {
    pub packet: NeonPacket,
    pub dest: Endpoint,
}

/// Why the relay dropped a datagram instead of forwarding it.
#[derive(Debug, Clone, Copy, PartialEq, Eq, Structural)]
pub enum DropReason {
    /// A join request named a session no host has registered.
    UnknownSession(u32),
    /// A host answer arrived with no pending connection to route it to.
    NoPendingConnection,
    /// Ordinary traffic came from an address in no session.
    UnknownSender,
    /// The addressed client id is not in the sender's session.
    DestinationNotFound(u8),
    /// The destination resolves to the sender itself.
    SelfDelivery,
    /// The opcode and the decoded body disagree.
    PayloadMismatch,
}

/// What one dispatch step decided.
#[derive(Debug, Clone)]
pub enum RelayAction {
    /// Send this packet there.
    Deliver(Outbound),
    /// A host registered the contained session.
    HostRegistered(u32),
    /// A client registered in the contained session under the contained id.
    ClientRegistered(u32, u8),
    /// Nothing to send.
    Dropped(DropReason),
}

/// Where a routed datagram would go. `Deliver` names the destination
/// address; the other cases say why nothing is sent.
#[derive(Debug, Clone, Copy, PartialEq, Eq, Structural)]
pub enum RouteResult {
    Deliver(Endpoint),
    SelfDelivery,
    DestinationNotFound,
    UnknownSender,
}

/// Mathematical image of a [`RelayAction`].
pub ghost enum RelayActionView {
    Deliver(crate::codec::NeonPacketView, Endpoint),
    HostRegistered(u32),
    ClientRegistered(u32, u8),
    Dropped(DropReason),
}

impl View for RelayAction {
    type V = RelayActionView;

    open spec fn view(&self) -> RelayActionView {
        match self {
            RelayAction::Deliver(o) => RelayActionView::Deliver(o.packet@, o.dest),
            RelayAction::HostRegistered(sid) => RelayActionView::HostRegistered(*sid),
            RelayAction::ClientRegistered(sid, cid) => RelayActionView::ClientRegistered(
                *sid,
                *cid,
            ),
            RelayAction::Dropped(d) => RelayActionView::Dropped(*d),
        }
    }
}

/// The relay: the session tables plus the join requests in flight.
#[derive(Debug, Clone)]
pub struct RelayNode {
    pub session_manager: SessionManager,
    pub pending_connections: Vec<PendingConnection>,
}

/// Mathematical image of a [`RelayNode`].
pub ghost struct RelayNodeView {
    pub manager: SessionManagerView,
    pub pending: Seq<PendingConnectionView>,
}

impl View for RelayNode {
    type V = RelayNodeView;

    open spec fn view(&self) -> RelayNodeView {
        RelayNodeView {
            manager: self.session_manager@,
            pending: self.pending_connections@.map_values(|p: PendingConnection| p@),
        }
    }
}

/// The relay is well formed: its tables are, and pending connections are
/// keyed by distinct client addresses.
pub open spec fn spec_relay_wf(r: RelayNodeView) -> bool {
    &&& spec_manager_wf(r.manager)
    &&& forall|i: int, j: int|
        0 <= i < j < r.pending.len() ==> (#[trigger] r.pending[i]).client_addr != (
        #[trigger] r.pending[j]).client_addr
}

/// `pending` with the entry for `pc.client_addr` replaced by `pc`, or with
/// `pc` appended when the address is new.
pub open spec fn spec_pending_upsert(
    pending: Seq<PendingConnectionView>,
    pc: PendingConnectionView,
) -> Seq<PendingConnectionView> {
    if exists|i: int|
        0 <= i < pending.len() && (#[trigger] pending[i]).client_addr == pc.client_addr {
        pending.update(
            choose|i: int|
                0 <= i < pending.len() && (#[trigger] pending[i]).client_addr == pc.client_addr,
            pc,
        )
    } else {
        pending.push(pc)
    }
}

/// Position `i` holds the first pending connection for `session_id`.
pub open spec fn spec_first_pending_for(
    pending: Seq<PendingConnectionView>,
    session_id: u32,
    i: int,
) -> bool {
    &&& 0 <= i < pending.len()
    &&& pending[i].session_id == session_id
    &&& forall|j: int| 0 <= j < i ==> (#[trigger] pending[j]).session_id != session_id
}

/// Position `i` holds the first session containing a peer at `addr`.
pub open spec fn spec_first_session_with_addr(
    sessions: Seq<SessionEntryView>,
    addr: Endpoint,
    i: int,
) -> bool {
    &&& 0 <= i < sessions.len()
    &&& spec_session_has_addr(sessions[i], addr)
    &&& forall|j: int| 0 <= j < i ==> !spec_session_has_addr(#[trigger] sessions[j], addr)
}

/// The packet the relay forwards to a host in place of a join request: the
/// same body, addressed from the unassigned id to the host.
pub open spec fn spec_forwarded_request(req: crate::codec::ConnectRequestView) -> crate::codec::NeonPacketView {
    crate::codec::NeonPacketView {
        packet_type: OPCODE_CONNECT_REQUEST,
        sequence: 1,
        client_id: 0,
        destination_id: 1,
        payload: crate::codec::PacketPayloadView::ConnectRequest(req),
    }
}

/// The packet the relay sends to a waiting client in place of the host's
/// admission grant.
pub open spec fn spec_routed_accept(accept: ConnectAccept, client_id: u8) -> crate::codec::NeonPacketView {
    crate::codec::NeonPacketView {
        packet_type: OPCODE_CONNECT_ACCEPT,
        sequence: 1,
        client_id,
        destination_id: client_id,
        payload: crate::codec::PacketPayloadView::ConnectAccept(accept),
    }
}

/// The packet the relay sends to a waiting client in place of the host's
/// refusal.
pub open spec fn spec_routed_deny(deny: crate::codec::ConnectDenyView) -> crate::codec::NeonPacketView {
    crate::codec::NeonPacketView {
        packet_type: OPCODE_CONNECT_DENY,
        sequence: 1,
        client_id: 0,
        destination_id: 0,
        payload: crate::codec::PacketPayloadView::ConnectDeny(deny),
    }
}

impl RelayNode {
    /// A relay with no sessions and no pending connections.
    pub fn new() -> (r: RelayNode)
        ensures
            spec_relay_wf(r@),
            r@.manager.sessions.len() == 0,
            r@.manager.hosts.len() == 0,
            r@.pending.len() == 0,
    {
        RelayNode { session_manager: SessionManager::new(), pending_connections: Vec::new() }
    }

    /// The number of active sessions.
    pub fn session_count(&self) -> (r: usize)
        ensures
            r == self@.manager.sessions.len(),
    {
        self.session_manager.session_count()
    }

    /// The number of peers over all sessions, hosts included.
    pub fn total_client_count(&self) -> (r: usize)
        requires
            spec_total_peers(self@.manager.sessions) <= usize::MAX,
        ensures
            r as int == spec_total_peers(self@.manager.sessions),
    {
        self.session_manager.total_client_count()
    }

    /// The index of the first pending connection for `session_id`, if any.
    fn find_pending_for_session(&self, session_id: u32) -> (r: Option<usize>)
        ensures
            match r {
                Some(i) => spec_first_pending_for(self@.pending, session_id, i as int),
                None => forall|j: int|
                    0 <= j < self@.pending.len() ==> (#[trigger] self@.pending[j]).session_id
                        != session_id,
            },
    {
        let mut i: usize = 0;
        while i < self.pending_connections.len()
            invariant
                i <= self@.pending.len(),
                self@.pending.len() == self.pending_connections@.len(),
                forall|j: int|
                    0 <= j < i ==> (#[trigger] self@.pending[j]).session_id != session_id,
            decreases self@.pending.len() - i,
        {
            if self.pending_connections[i].session_id == session_id {
                proof {
                    assert(self@.pending[i as int].session_id == session_id);
                }
                return Some(i);
            }
            i = i + 1;
        }
        None
    }

    /// Rule for a join request: if the target session has a host, record a
    /// pending connection keyed by the sender's address and forward the
    /// request to the host; otherwise drop it.
    pub fn handle_connect_request(&mut self, req: ConnectRequest, client_addr: Endpoint) -> (r:
        Option<Outbound>)
        requires
            spec_relay_wf(old(self)@),
        ensures
            spec_relay_wf(final(self)@),
            final(self)@.manager == old(self)@.manager,
            match spec_host_addr(old(self)@.manager.hosts, req.target_session_id) {
                Some(h) => {
                    &&& final(self)@.pending == spec_pending_upsert(
                        old(self)@.pending,
                        PendingConnectionView {
                            client_addr,
                            session_id: req.target_session_id,
                            client_name: req.desired_name@,
                        },
                    )
                    &&& r matches Some(o) && o.packet@ == spec_forwarded_request(req@) && o.dest
                        == h
                },
                None => final(self)@.pending == old(self)@.pending && r is None,
            },
    {
        let target = req.target_session_id;
        let host = match self.session_manager.host_addr(target) {
            Some(h) => h,
            None => {
                return None;
            },
        };
        let pc = PendingConnection {
            client_addr,
            session_id: target,
            client_name: clone_bytes(&req.desired_name),
        };
        let ghost r0 = self@;
        let ghost p0 = self@.pending;
        let mut i: usize = 0;
        let n = self.pending_connections.len();
        let mut replaced = false;
        while i < n && !replaced
            invariant
                spec_relay_wf(r0),
                n == p0.len(),
                p0 == r0.pending,
                i <= n,
                pc@ == (PendingConnectionView {
                    client_addr,
                    session_id: target,
                    client_name: req.desired_name@,
                }),
                self.pending_connections@.len() == n,
                !replaced ==> self@ == r0 && forall|j: int|
                    0 <= j < i ==> (#[trigger] p0[j]).client_addr != client_addr,
                replaced ==> exists|j: int|
                    0 <= j < n && (#[trigger] p0[j]).client_addr == client_addr
                        && self@.pending == p0.update(j, pc@) && self@.manager == r0.manager,
            decreases n - i, (if replaced { 0int } else { 1int }),
        {
            if endpoint_eq(self.pending_connections[i].client_addr, client_addr) {
                proof {
                    assert(p0[i as int].client_addr == client_addr);
                }
                self.pending_connections.set(i, clone_pending(&pc));
                replaced = true;
                proof {
                    assert(self@.pending =~= p0.update(i as int, pc@));
                    assert(self@.manager == r0.manager);
                }
            } else {
                proof {
                    assert(p0[i as int].client_addr == self@.pending[i as int].client_addr);
                }
                i = i + 1;
            }
        }
        if !replaced {
            self.pending_connections.push(pc);
            proof {
                assert(self@.pending =~= p0.push(
                    PendingConnectionView {
                        client_addr,
                        session_id: target,
                        client_name: req.desired_name@,
                    },
                ));
            }
        }
        proof {
            let pf = self@.pending;
            let pcv = PendingConnectionView {
                client_addr,
                session_id: target,
                client_name: req.desired_name@,
            };
            if replaced {
                let j = choose|j: int|
                    0 <= j < n && (#[trigger] p0[j]).client_addr == client_addr && self@.pending
                        == p0.update(j, pc@);
                let j2 = choose|j2: int|
                    0 <= j2 < p0.len() && (#[trigger] p0[j2]).client_addr == pcv.client_addr;
                if j < j2 {
                    assert(p0[j].client_addr != p0[j2].client_addr);
                } else if j2 < j {
                    assert(p0[j2].client_addr != p0[j].client_addr);
                }
                assert(pf == spec_pending_upsert(p0, pcv));
            } else {
                assert(pf == spec_pending_upsert(p0, pcv));
            }
            // Distinct addresses survive the upsert.
            assert forall|a: int, b: int|
                0 <= a < b < pf.len() implies (#[trigger] pf[a]).client_addr != (
                #[trigger] pf[b]).client_addr by {
                if b < p0.len() {
                    assert(p0[a].client_addr != p0[b].client_addr);
                } else {
                    if a < p0.len() && p0[a].client_addr == client_addr {
                    }
                }
            }
        }
        let packet = NeonPacket {
            packet_type: OPCODE_CONNECT_REQUEST,
            sequence: 1,
            client_id: 0,
            destination_id: 1,
            payload: PacketPayload::ConnectRequest(req),
        };
        Some(Outbound { packet, dest: host })
    }
}

/// A fresh copy of a pending connection.
fn clone_pending(pc: &PendingConnection) -> (r: PendingConnection)
    ensures
        r@ == pc@,
{
    PendingConnection {
        client_addr: pc.client_addr,
        session_id: pc.session_id,
        client_name: clone_bytes(&pc.client_name),
    }
}

impl RelayNode {
    /// Rule for a host's admission grant: deliver a freshly wrapped accept
    /// to the first waiting client of that session and drop the pending
    /// entry; with nobody waiting, drop the packet.
    pub fn route_connect_accept_to_client(&mut self, accept: ConnectAccept, client_id: u8) -> (r:
        Option<Outbound>)
        requires
            spec_relay_wf(old(self)@),
        ensures
            spec_relay_wf(final(self)@),
            final(self)@.manager == old(self)@.manager,
            match r {
                Some(o) => exists|i: int|
                    spec_first_pending_for(old(self)@.pending, accept.session_id, i)
                        && final(self)@.pending == old(self)@.pending.remove(i) && o.packet@
                        == spec_routed_accept(accept, client_id) && o.dest == (
                    #[trigger] old(self)@.pending[i]).client_addr,
                None => final(self)@.pending == old(self)@.pending && forall|j: int|
                    0 <= j < old(self)@.pending.len() ==> (
                    #[trigger] old(self)@.pending[j]).session_id != accept.session_id,
            },
    {
        let ghost r0 = self@;
        let i = match self.find_pending_for_session(accept.session_id) {
            Some(i) => i,
            None => {
                return None;
            },
        };
        let client_addr = self.pending_connections[i].client_addr;
        self.pending_connections.remove(i);
        proof {
            assert(self@.pending =~= r0.pending.remove(i as int));
            assert forall|a: int, b: int|
                0 <= a < b < self@.pending.len() implies (#[trigger] self@.pending[a]).client_addr
                != (#[trigger] self@.pending[b]).client_addr by {
                let a0: int = if a < i as int { a } else { a + 1 };
                let b0: int = if b < i as int { b } else { b + 1 };
                assert(r0.pending[a0].client_addr != r0.pending[b0].client_addr);
            }
            assert(client_addr == r0.pending[i as int].client_addr);
        }
        let packet = NeonPacket {
            packet_type: OPCODE_CONNECT_ACCEPT,
            sequence: 1,
            client_id,
            destination_id: client_id,
            payload: PacketPayload::ConnectAccept(accept),
        };
        Some(Outbound { packet, dest: client_addr })
    }

    /// Rule for a host's refusal: deliver it to the first waiting client
    /// whose requested session this sender hosts, and drop that pending
    /// entry; with nobody waiting on any of the sender's sessions, drop
    /// the packet.
    pub fn handle_connect_deny(&mut self, deny: ConnectDeny, host_addr: Endpoint) -> (r: Option<
        Outbound,
    >)
        requires
            spec_relay_wf(old(self)@),
        ensures
            spec_relay_wf(final(self)@),
            final(self)@.manager == old(self)@.manager,
            match r {
                Some(o) => exists|i: int|
                    0 <= i < old(self)@.pending.len() && spec_host_addr(
                        old(self)@.manager.hosts,
                        (#[trigger] old(self)@.pending[i]).session_id,
                    ) == Some(host_addr) && (forall|j: int|
                        0 <= j < i ==> spec_host_addr(
                            old(self)@.manager.hosts,
                            (#[trigger] old(self)@.pending[j]).session_id,
                        ) != Some(host_addr)) && final(self)@.pending == old(
                        self,
                    )@.pending.remove(i) && o.packet@ == spec_routed_deny(deny@) && o.dest == old(
                        self,
                    )@.pending[i].client_addr,
                None => final(self)@.pending == old(self)@.pending && forall|j: int|
                    0 <= j < old(self)@.pending.len() ==> spec_host_addr(
                        old(self)@.manager.hosts,
                        (#[trigger] old(self)@.pending[j]).session_id,
                    ) != Some(host_addr),
            },
    {
        let ghost r0 = self@;
        let mut i: usize = 0;
        let n = self.pending_connections.len();
        while i < n
            invariant
                spec_relay_wf(r0),
                r0 == old(self)@,
                r0 == self@,
                n == r0.pending.len(),
                i <= n,
                forall|j: int|
                    0 <= j < i ==> spec_host_addr(
                        r0.manager.hosts,
                        (#[trigger] r0.pending[j]).session_id,
                    ) != Some(host_addr),
            decreases n - i,
        {
            let sid = self.pending_connections[i].session_id;
            proof {
                assert(r0.pending[i as int].session_id == sid);
            }
            let owner = self.session_manager.host_addr(sid);
            let is_owner = match owner {
                Some(h) => endpoint_eq(h, host_addr),
                None => false,
            };
            if is_owner {
                let client_addr = self.pending_connections[i].client_addr;
                self.pending_connections.remove(i);
                proof {
                    assert(self@.pending =~= r0.pending.remove(i as int));
                    assert forall|a: int, b: int|
                        0 <= a < b < self@.pending.len() implies (
                        #[trigger] self@.pending[a]).client_addr != (
                        #[trigger] self@.pending[b]).client_addr by {
                        let a0: int = if a < i as int { a } else { a + 1 };
                        let b0: int = if b < i as int { b } else { b + 1 };
                        assert(r0.pending[a0].client_addr != r0.pending[b0].client_addr);
                    }
                    assert(client_addr == r0.pending[i as int].client_addr);
                    assert(self@.manager == r0.manager);
                    assert(spec_host_addr(
                        old(self)@.manager.hosts,
                        old(self)@.pending[i as int].session_id,
                    ) == Some(host_addr));
                }
                let packet = NeonPacket {
                    packet_type: OPCODE_CONNECT_DENY,
                    sequence: 1,
                    client_id: 0,
                    destination_id: 0,
                    payload: PacketPayload::ConnectDeny(deny),
                };
                return Some(Outbound { packet, dest: client_addr });
            }
            i = i + 1;
        }
        None
    }

    /// Routing for ordinary traffic: look the sender up by address, then
    /// the addressed client id inside the sender's session; forward
    /// verbatim, never back to the sender, and never for unknown senders.
    pub fn forward_to_peers(&self, dest_id: u8, sender_addr: Endpoint) -> (r: RouteResult)
        requires
            spec_relay_wf(self@),
        ensures
            match r {
                RouteResult::UnknownSender => forall|i: int|
                    0 <= i < self@.manager.sessions.len() ==> !spec_session_has_addr(
                        #[trigger] self@.manager.sessions[i],
                        sender_addr,
                    ),
                RouteResult::Deliver(dest) => exists|i: int, p: int|
                    spec_first_session_with_addr(self@.manager.sessions, sender_addr, i) && 0 <= p
                        < (#[trigger] self@.manager.sessions[i]).peers.len()
                        && (#[trigger] self@.manager.sessions[i].peers[p]).client_id == dest_id
                        && self@.manager.sessions[i].peers[p].addr == dest && dest != sender_addr,
                RouteResult::SelfDelivery => exists|i: int, p: int|
                    spec_first_session_with_addr(self@.manager.sessions, sender_addr, i) && 0 <= p
                        < (#[trigger] self@.manager.sessions[i]).peers.len()
                        && (#[trigger] self@.manager.sessions[i].peers[p]).client_id == dest_id
                        && self@.manager.sessions[i].peers[p].addr == sender_addr,
                RouteResult::DestinationNotFound => exists|i: int|
                    spec_first_session_with_addr(self@.manager.sessions, sender_addr, i)
                        && forall|p: int|
                        0 <= p < (#[trigger] self@.manager.sessions[i]).peers.len() ==> (
                        #[trigger] self@.manager.sessions[i].peers[p]).client_id != dest_id,
            },
    {
        let ghost sessions = self@.manager.sessions;
        let mut i: usize = 0;
        let n = self.session_manager.sessions.len();
        while i < n
            invariant
                spec_relay_wf(self@),
                sessions == self@.manager.sessions,
                n == sessions.len(),
                i <= n,
                forall|j: int|
                    0 <= j < i ==> !spec_session_has_addr(#[trigger] sessions[j], sender_addr),
            decreases n - i,
        {
            if session_has_addr(&self.session_manager.sessions[i], sender_addr) {
                proof {
                    assert(spec_first_session_with_addr(sessions, sender_addr, i as int));
                }
                let peers = &self.session_manager.sessions[i].peers;
                let mut p: usize = 0;
                let np = peers.len();
                while p < np
                    invariant
                        sessions == self@.manager.sessions,
                        i < sessions.len(),
                        spec_first_session_with_addr(sessions, sender_addr, i as int),
                        peers@ == sessions[i as int].peers,
                        np == peers@.len(),
                        p <= np,
                        forall|q: int|
                            0 <= q < p ==> (#[trigger] peers@[q]).client_id != dest_id,
                    decreases np - p,
                {
                    if peers[p].client_id == dest_id {
                        let dest = peers[p].addr;
                        proof {
                            assert(sessions[i as int].peers[p as int].client_id == dest_id
                                && sessions[i as int].peers[p as int].addr == dest);
                        }
                        if endpoint_eq(dest, sender_addr) {
                            return RouteResult::SelfDelivery;
                        }
                        return RouteResult::Deliver(dest);
                    }
                    p = p + 1;
                }
                return RouteResult::DestinationNotFound;
            }
            i = i + 1;
        }
        RouteResult::UnknownSender
    }
}

impl RelayNode {
    /// One dispatch step, the relay's whole per-packet behaviour: join
    /// requests are forwarded to the session's host and remembered, a
    /// host's accept is routed back to the first waiting client unless it
    /// is a registration (header client id 1 registers the host; any other
    /// id from a non-host address registers a client under that id, the
    /// unassigned id 0 included, a case the dispatch rules leave open), a
    /// deny is routed to
    /// the first waiting client of the sender's first hosted session, and
    /// all other traffic is forwarded verbatim to the addressed peer of the
    /// sender's session while refreshing the sender's liveness stamp.
    pub fn handle_packet(&mut self, packet: NeonPacket, addr: Endpoint, now_ms: u64) -> (r:
        RelayAction)
        requires
            spec_relay_wf(old(self)@),
        ensures
            spec_relay_wf(final(self)@),
            ({
                let m0 = old(self)@;
                let mf = final(self)@;
                let t = packet.packet_type;
                &&& (t == OPCODE_CONNECT_REQUEST ==> match packet.payload {
                    PacketPayload::ConnectRequest(req) => {
                        &&& mf.manager == m0.manager
                        &&& match spec_host_addr(m0.manager.hosts, req.target_session_id) {
                            Some(h) => mf.pending == spec_pending_upsert(
                                m0.pending,
                                PendingConnectionView {
                                    client_addr: addr,
                                    session_id: req.target_session_id,
                                    client_name: req.desired_name@,
                                },
                            ) && r@ == RelayActionView::Deliver(spec_forwarded_request(req@), h),
                            None => mf.pending == m0.pending && r@ == RelayActionView::Dropped(
                                DropReason::UnknownSession(req.target_session_id),
                            ),
                        }
                    },
                    _ => mf == m0 && r@ == RelayActionView::Dropped(DropReason::PayloadMismatch),
                })
                &&& (t == OPCODE_CONNECT_ACCEPT ==> match packet.payload {
                    PacketPayload::ConnectAccept(accept) => {
                        if spec_host_addr(m0.manager.hosts, accept.session_id) == Some(addr)
                            && packet.client_id != 1 {
                            &&& mf.manager == m0.manager
                            &&& {
                                ||| exists|i: int|
                                    spec_first_pending_for(m0.pending, accept.session_id, i)
                                        && mf.pending == m0.pending.remove(i) && r@
                                        == RelayActionView::Deliver(
                                        spec_routed_accept(accept, packet.client_id),
                                        (#[trigger] m0.pending[i]).client_addr,
                                    )
                                ||| (mf.pending == m0.pending && r@ == RelayActionView::Dropped(
                                    DropReason::NoPendingConnection,
                                ) && forall|j: int|
                                    0 <= j < m0.pending.len() ==> (
                                    #[trigger] m0.pending[j]).session_id != accept.session_id)
                            }
                        } else if packet.client_id == 1 {
                            &&& mf.pending == m0.pending
                            &&& spec_register_host_step(
                                m0.manager,
                                mf.manager,
                                accept.session_id,
                                addr,
                                now_ms,
                            )
                            &&& r@ == RelayActionView::HostRegistered(accept.session_id)
                        } else {
                            &&& mf.pending == m0.pending
                            &&& spec_register_client_step(
                                m0.manager,
                                mf.manager,
                                accept.session_id,
                                packet.client_id,
                                addr,
                                now_ms,
                            )
                            &&& r@ == RelayActionView::ClientRegistered(
                                accept.session_id,
                                packet.client_id,
                            )
                        }
                    },
                    _ => mf == m0 && r@ == RelayActionView::Dropped(DropReason::PayloadMismatch),
                })
                &&& (t == OPCODE_CONNECT_DENY ==> match packet.payload {
                    PacketPayload::ConnectDeny(deny) => {
                        &&& mf.manager == m0.manager
                        &&& {
                            ||| exists|i: int|
                                0 <= i < m0.pending.len() && spec_host_addr(
                                    m0.manager.hosts,
                                    (#[trigger] m0.pending[i]).session_id,
                                ) == Some(addr) && mf.pending == m0.pending.remove(i) && r@
                                    == RelayActionView::Deliver(
                                    spec_routed_deny(deny@),
                                    m0.pending[i].client_addr,
                                )
                            ||| (mf.pending == m0.pending && r@ == RelayActionView::Dropped(
                                DropReason::NoPendingConnection,
                            ) && forall|j: int|
                                0 <= j < m0.pending.len() ==> spec_host_addr(
                                    m0.manager.hosts,
                                    (#[trigger] m0.pending[j]).session_id,
                                ) != Some(addr))
                        }
                    },
                    _ => mf == m0 && r@ == RelayActionView::Dropped(DropReason::PayloadMismatch),
                })
                &&& (t != OPCODE_CONNECT_REQUEST && t != OPCODE_CONNECT_ACCEPT && t
                    != OPCODE_CONNECT_DENY ==> {
                    &&& mf.pending == m0.pending
                    &&& ((forall|i: int|
                        0 <= i < m0.manager.sessions.len() ==> !spec_session_has_addr(
                            #[trigger] m0.manager.sessions[i],
                            addr,
                        )) ==> mf == m0 && r@ == RelayActionView::Dropped(
                        DropReason::UnknownSender,
                    ))
                    &&& ((exists|i: int|
                        0 <= i < m0.manager.sessions.len() && spec_session_has_addr(
                            #[trigger] m0.manager.sessions[i],
                            addr,
                        )) ==> exists|i: int|
                        {
                            &&& spec_first_session_with_addr(m0.manager.sessions, addr, i)
                            &&& spec_activity_step(
                                m0.manager,
                                mf.manager,
                                packet.client_id,
                                (#[trigger] m0.manager.sessions[i]).session_id,
                                now_ms,
                            )
                            &&& {
                                ||| exists|p: int|
                                    0 <= p < m0.manager.sessions[i].peers.len() && (
                                    #[trigger] m0.manager.sessions[i].peers[p]).client_id
                                        == packet.destination_id
                                        && m0.manager.sessions[i].peers[p].addr != addr && r@
                                        == RelayActionView::Deliver(
                                        packet@,
                                        m0.manager.sessions[i].peers[p].addr,
                                    )
                                ||| exists|p: int|
                                    0 <= p < m0.manager.sessions[i].peers.len() && (
                                    #[trigger] m0.manager.sessions[i].peers[p]).client_id
                                        == packet.destination_id
                                        && m0.manager.sessions[i].peers[p].addr == addr && r@
                                        == RelayActionView::Dropped(DropReason::SelfDelivery)
                                ||| ((forall|p: int|
                                    0 <= p < m0.manager.sessions[i].peers.len() ==> (
                                    #[trigger] m0.manager.sessions[i].peers[p]).client_id
                                        != packet.destination_id) && r@
                                    == RelayActionView::Dropped(
                                    DropReason::DestinationNotFound(packet.destination_id),
                                ))
                            }
                        })
                })
            }),
    {
        let t = packet.packet_type;
        if t == OPCODE_CONNECT_REQUEST {
            match packet.payload {
                PacketPayload::ConnectRequest(req) => {
                    let target = req.target_session_id;
                    match self.handle_connect_request(req, addr) {
                        Some(o) => RelayAction::Deliver(o),
                        None => RelayAction::Dropped(DropReason::UnknownSession(target)),
                    }
                },
                _ => RelayAction::Dropped(DropReason::PayloadMismatch),
            }
        } else if t == OPCODE_CONNECT_ACCEPT {
            match packet.payload {
                PacketPayload::ConnectAccept(accept) => {
                    let host = self.session_manager.host_addr(accept.session_id);
                    let is_host_sender = match host {
                        Some(h) => endpoint_eq(h, addr),
                        None => false,
                    };
                    if is_host_sender && packet.client_id != 1 {
                        match self.route_connect_accept_to_client(accept, packet.client_id) {
                            Some(o) => RelayAction::Deliver(o),
                            None => RelayAction::Dropped(DropReason::NoPendingConnection),
                        }
                    } else if packet.client_id == 1 {
                        self.session_manager.register_host(accept.session_id, addr, now_ms);
                        proof {
                            assert(self@.pending == old(self)@.pending);
                            assert(spec_manager_wf(self@.manager));
                            assert(spec_relay_wf(self@));
                        }
                        RelayAction::HostRegistered(accept.session_id)
                    } else {
                        self.session_manager.register_client(
                            accept.session_id,
                            packet.client_id,
                            addr,
                            now_ms,
                        );
                        proof {
                            assert(self@.pending == old(self)@.pending);
                            assert(spec_relay_wf(self@));
                        }
                        RelayAction::ClientRegistered(accept.session_id, packet.client_id)
                    }
                },
                _ => RelayAction::Dropped(DropReason::PayloadMismatch),
            }
        } else if t == OPCODE_CONNECT_DENY {
            match packet.payload {
                PacketPayload::ConnectDeny(deny) => {
                    match self.handle_connect_deny(deny, addr) {
                        Some(o) => RelayAction::Deliver(o),
                        None => RelayAction::Dropped(DropReason::NoPendingConnection),
                    }
                },
                _ => RelayAction::Dropped(DropReason::PayloadMismatch),
            }
        } else {
            let route = self.forward_to_peers(packet.destination_id, addr);
            match self.session_manager.find_session_for_addr(addr) {
                Some(sid) => {
                    self.session_manager.update_client_activity(packet.client_id, sid, now_ms);
                },
                None => {},
            }
            proof {
                assert(self@.pending == old(self)@.pending);
                assert(spec_relay_wf(self@));
            }
            match route {
                RouteResult::Deliver(dest) => RelayAction::Deliver(Outbound { packet, dest }),
                RouteResult::SelfDelivery => RelayAction::Dropped(DropReason::SelfDelivery),
                RouteResult::DestinationNotFound => RelayAction::Dropped(
                    DropReason::DestinationNotFound(packet.destination_id),
                ),
                RouteResult::UnknownSender => RelayAction::Dropped(DropReason::UnknownSender),
            }
        }
    }
}

/// After a successful client admission the relay can deliver to the new
/// client: the session holds a peer under the assigned id at the client's
/// address, and every peer of that session under that id sits at that
/// address, so routing by destination id resolves there and nowhere else.
pub proof fn lemma_admitted_client_reachable(
    m0: SessionManagerView,
    mf: SessionManagerView,
    session_id: u32,
    client_id: u8,
    addr: Endpoint,
    now_ms: u64,
)
    requires
        spec_manager_wf(m0),
        spec_manager_wf(mf),
        client_id != 1,
        spec_register_client_step(m0, mf, session_id, client_id, addr, now_ms),
    ensures
        spec_has_session(mf.sessions, session_id),
        exists|p: int|
            0 <= p < spec_session_at(mf.sessions, session_id).peers.len() && (
            #[trigger] spec_session_at(mf.sessions, session_id).peers[p]).client_id == client_id
                && spec_session_at(mf.sessions, session_id).peers[p].addr == addr,
        forall|p: int|
            0 <= p < spec_session_at(mf.sessions, session_id).peers.len() && (
            #[trigger] spec_session_at(mf.sessions, session_id).peers[p]).client_id == client_id
                ==> spec_session_at(mf.sessions, session_id).peers[p].addr == addr,
{
    let entry = spec_session_at(mf.sessions, session_id);
    let peers = entry.peers;
    let w = peers.len() - 1;
    assert(peers[w] == spec_new_peer(session_id, client_id, addr, now_ms));
    let j = choose|j: int| 0 <= j < mf.sessions.len() && mf.sessions[j].session_id == session_id;
    assert(spec_session_wf(mf.sessions[j]));
    assert forall|p: int|
        0 <= p < peers.len() && (#[trigger] peers[p]).client_id == client_id implies peers[p].addr
        == addr by {
        lemma_client_ids_unique(entry, p, w);
    }
}

} // verus!
