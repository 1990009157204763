//! Peer transport bookkeeping: the kinds of message and protocol, and the
//! registry of peers with their health table.

use vstd::prelude::*;
use vstd::string::StringExecFns;
use vstd::string::StringSliceAdditionalSpecFns;
use crate::addr::PeerAddr;
use crate::ident::{fresh_id, is_random_id};
use crate::framing::{encode_frame, frame_of};
use crate::text::str_equal;
use crate::time::{
    check_silence_exceeds, elapsed_minutes, minutes_between, now_millis, silence_exceeds,
};

verus! {

/// The transport kinds a room can run on.
#[derive(Clone, Copy, Debug, PartialEq, Eq, Structural)]
pub enum Protocol {
    TCP,
    WebSocket,
    WebRTC,
}

/// What a network message carries.
#[derive(Clone, Copy, Debug, PartialEq, Eq, Structural)]
pub enum MessageType {
    ChatMessage,
    UserJoined,
    UserLeft,
    PingMeasurement,
    ServerTransfer,
    ProtocolChange,
    VoiceData,
    RoomSync,
}

/// The envelope exchanged between peers. The payload is a JSON document,
/// carried as text and read according to the message type.
#[derive(Debug)]
pub struct NetworkMessage {
    pub id: u128,
    pub from: String,
    pub to: Option<String>,
    pub message_type: MessageType,
    pub payload: String,
    pub timestamp: i64,
}

impl Clone for NetworkMessage {
    fn clone(&self) -> (r: Self)
        ensures
            r == *self,
    {
        NetworkMessage {
            id: self.id,
            from: self.from.clone(),
            to: match &self.to {
                Some(t) => Some(t.clone()),
                None => None,
            },
            message_type: self.message_type,
            payload: self.payload.clone(),
            timestamp: self.timestamp,
        }
    }
}

/// What the transport knows of one remote peer.
#[derive(Clone, Copy, Debug, PartialEq, Eq, Structural)]
pub struct PeerConnection {
    pub addr: PeerAddr,
    pub protocol: Protocol,
    pub is_server: bool,
    pub ping_ms: Option<u64>,
    pub last_seen: i64,
}

/// A peer of the health table, under the text of its address.
#[derive(Debug)]
pub struct PeerEntry {
    pub peer_id: String,
    pub connection: PeerConnection,
}

/// Why the transport refused or ended something.
#[derive(Clone, Copy, Debug, PartialEq, Eq, Structural)]
pub enum TransportError {
    /// No stream is registered under the peer identifier.
    PeerNotFound,
    /// The message does not fit the 32-bit length prefix.
    MessageTooLong,
}

/// The name of a protocol as it is written in documents.
pub open spec fn protocol_name(protocol: Protocol) -> Seq<char> {
    match protocol {
        Protocol::TCP => "TCP"@,
        Protocol::WebSocket => "WebSocket"@,
        Protocol::WebRTC => "WebRTC"@,
    }
}

impl Protocol {
    /// The name of the protocol as it is written in documents.
    pub fn name(&self) -> (s: &'static str)
        ensures
            s@ == protocol_name(*self),
    {
        match self {
            Protocol::TCP => "TCP",
            Protocol::WebSocket => "WebSocket",
            Protocol::WebRTC => "WebRTC",
        }
    }

    /// The JSON document that names the protocol: the name in double quotes.
    pub fn to_document(&self) -> (s: String)
        ensures
            s@ == seq!['"'] + protocol_name(*self) + seq!['"'],
    {
        proof {
            reveal_strlit("\"");
        }
        let mut s = String::from_str("\"");
        s.append(self.name());
        s.append("\"");
        assert("\""@ =~= seq!['"']);
        s
    }
}

/// How long peers are given to prepare before the transport changes its
/// protocol, in milliseconds.
pub const SWITCH_GRACE_MILLIS: u64 = 500;

/// The sender name under which the transport announces its own changes.
pub open spec fn self_sender() -> Seq<char> {
    "self"@
}

/// The notice of a change to `protocol`, addressed to `to` or to everyone.
pub open spec fn is_protocol_notice(
    message: NetworkMessage,
    protocol: Protocol,
    to: Option<String>,
    id: u128,
    now: i64,
) -> bool {
    &&& message.id == id
    &&& message.from@ == self_sender()
    &&& message.to == to
    &&& message.message_type == MessageType::ProtocolChange
    &&& message.payload@ == seq!['"'] + protocol_name(protocol) + seq!['"']
    &&& message.timestamp == now
}

/// The notice of a change to `protocol`, under a random identifier and
/// stamped with the current time.
pub fn protocol_notice(protocol: Protocol, to: Option<String>) -> (message: NetworkMessage)
    ensures
        is_random_id(message.id),
        is_protocol_notice(message, protocol, to, message.id, message.timestamp),
{
    let id = fresh_id();
    let now = now_millis();
    protocol_notice_at(protocol, to, id, now)
}

/// The notice of a change to `protocol` under the identifier `id`, stamped
/// `now`.
pub fn protocol_notice_at(protocol: Protocol, to: Option<String>, id: u128, now: i64) -> (message:
    NetworkMessage)
    ensures
        is_protocol_notice(message, protocol, to, id, now),
{
    NetworkMessage {
        id,
        from: String::from_str("self"),
        to,
        message_type: MessageType::ProtocolChange,
        payload: protocol.to_document(),
        timestamp: now,
    }
}

/// The transport's view of its peers: the peers under whose identifier a
/// live stream is registered, and the health table. The streams themselves
/// stay with the caller, under the same identifiers.
#[derive(Debug)]
pub struct NetworkManager {
    pub connections: Vec<PeerEntry>,
    pub streams: Vec<String>,
    pub current_protocol: Protocol,
    pub is_server: bool,
    pub server_peer: Option<String>,
}

/// A [`NetworkManager`] as a mathematical value.
pub struct NetworkView {
    pub connections: Seq<PeerEntry>,
    pub streams: Seq<String>,
    pub current_protocol: Protocol,
    pub is_server: bool,
    pub server_peer: Option<String>,
}

impl View for NetworkManager {
    type V = NetworkView;

    open spec fn view(&self) -> NetworkView {
        NetworkView {
            connections: self.connections@,
            streams: self.streams@,
            current_protocol: self.current_protocol,
            is_server: self.is_server,
            server_peer: self.server_peer,
        }
    }
}

/// What to do to start serving.
#[derive(Clone, Copy, Debug, PartialEq, Eq, Structural)]
pub enum ServerAction {
    /// Listen for streams on every interface at this port.
    ListenTcp { port: u16 },
    /// The protocol has no listener of its own.
    Nothing,
}

/// What to do to reach a peer.
#[derive(Clone, Copy, Debug, PartialEq, Eq, Structural)]
pub enum ConnectAction {
    /// Open a stream to this address.
    DialTcp { addr: PeerAddr },
    /// The protocol has no dialling of its own.
    Nothing,
}

/// How a peer is reached under `protocol`.
pub open spec fn connect_action(addr: PeerAddr, protocol: Protocol) -> ConnectAction {
    match protocol {
        Protocol::TCP => ConnectAction::DialTcp { addr },
        _ => ConnectAction::Nothing,
    }
}

/// Whether position `i` holds the first entry of peer `id`.
pub open spec fn is_first_entry_of(entries: Seq<PeerEntry>, id: Seq<char>, i: int) -> bool {
    &&& 0 <= i < entries.len()
    &&& entries[i].peer_id@ == id
    &&& forall|k: int| 0 <= k < i ==> (#[trigger] entries[k]).peer_id@ != id
}

/// The position of peer `id` in the health table.
pub open spec fn entry_position(entries: Seq<PeerEntry>, id: Seq<char>) -> Option<int> {
    if exists|i: int| is_first_entry_of(entries, id, i) {
        Some(choose|i: int| is_first_entry_of(entries, id, i))
    } else {
        None
    }
}

/// Whether a stream is registered under `id`.
pub open spec fn has_stream(streams: Seq<String>, id: Seq<char>) -> bool {
    exists|i: int| 0 <= i < streams.len() && (#[trigger] streams[i])@ == id
}

/// No peer has two entries.
pub open spec fn entries_distinct(entries: Seq<PeerEntry>) -> bool {
    forall|i: int, j: int|
        0 <= i < j < entries.len() ==> (#[trigger] entries[i]).peer_id@ != (
        #[trigger] entries[j]).peer_id@
}

/// No identifier is registered twice.
pub open spec fn streams_distinct(streams: Seq<String>) -> bool {
    forall|i: int, j: int|
        0 <= i < j < streams.len() ==> (#[trigger] streams[i])@ != (#[trigger] streams[j])@
}

/// The first entry of peer `id` stands at `i`.
pub proof fn lemma_entry_position(entries: Seq<PeerEntry>, id: Seq<char>, i: int)
    requires
        is_first_entry_of(entries, id, i),
    ensures
        entry_position(entries, id) == Some(i),
{
    let c = choose|c: int| is_first_entry_of(entries, id, c);
    assert(is_first_entry_of(entries, id, c));
    assert(c == i) by {
        if c < i {
            assert(entries[c].peer_id@ != id);
        }
        if i < c {
            assert(entries[i].peer_id@ != id);
        }
    }
}

/// The health table after a latency was measured to peer `id` at `now`.
pub open spec fn pinged(entries: Seq<PeerEntry>, id: Seq<char>, ping_ms: u64, now: i64) -> Seq<
    PeerEntry,
> {
    match entry_position(entries, id) {
        Some(i) => entries.update(
            i,
            PeerEntry {
                connection: PeerConnection {
                    ping_ms: Some(ping_ms),
                    last_seen: now,
                    ..entries[i].connection
                },
                ..entries[i]
            },
        ),
        None => entries,
    }
}

/// The health table after peer `id` was marked offline: its latency is
/// forgotten.
pub open spec fn silenced(entries: Seq<PeerEntry>, id: Seq<char>) -> Seq<PeerEntry> {
    match entry_position(entries, id) {
        Some(i) => entries.update(
            i,
            PeerEntry {
                connection: PeerConnection { ping_ms: None, ..entries[i].connection },
                ..entries[i]
            },
        ),
        None => entries,
    }
}

/// Whether peer `id` is healthy at `now`: known, seen within fewer than
/// `timeout_minutes` whole minutes, and with a latency on record.
pub open spec fn peer_is_healthy(
    entries: Seq<PeerEntry>,
    id: Seq<char>,
    timeout_minutes: i64,
    now: i64,
) -> bool {
    match entry_position(entries, id) {
        Some(i) => minutes_between(now, entries[i].connection.last_seen) < timeout_minutes
            && entries[i].connection.ping_ms is Some,
        None => false,
    }
}

/// Whether an entry has been silent for more than `timeout_minutes` minutes
/// at `now`.
pub open spec fn entry_is_stale(entry: PeerEntry, timeout_minutes: i64, now: i64) -> bool {
    silence_exceeds(now, entry.connection.last_seen, timeout_minutes)
}

/// The health table without its stale entries.
pub open spec fn without_stale(entries: Seq<PeerEntry>, timeout_minutes: i64, now: i64) -> Seq<
    PeerEntry,
> {
    entries.filter(|e: PeerEntry| !entry_is_stale(e, timeout_minutes, now))
}

/// Whether the entry at `i` has the lowest latency on record; of equal
/// latencies the earlier entry stands.
pub open spec fn is_best_entry(entries: Seq<PeerEntry>, i: int) -> bool {
    &&& 0 <= i < entries.len()
    &&& entries[i].connection.ping_ms is Some
    &&& forall|k: int|
        0 <= k < entries.len() && (#[trigger] entries[k]).connection.ping_ms is Some ==> {
            let best = entries[i].connection.ping_ms->0;
            let other = entries[k].connection.ping_ms->0;
            best < other || (best == other && i <= k)
        }
}

/// The health table with the entry of peer `id` set to `connection`,
/// replacing an older entry or standing at the end.
pub open spec fn with_entry(
    entries: Seq<PeerEntry>,
    entry: PeerEntry,
) -> Seq<PeerEntry> {
    match entry_position(entries, entry.peer_id@) {
        Some(i) => entries.update(i, entry),
        None => entries.push(entry),
    }
}

/// The registered identifiers with `id` among them: at the end where it is
/// new.
pub open spec fn with_stream(streams: Seq<String>, id: String) -> Seq<String> {
    if has_stream(streams, id@) {
        streams
    } else {
        streams.push(id)
    }
}

impl NetworkView {
    /// The validity of the registry: identifiers are unique in the health
    /// table and among the registered streams.
    pub open spec fn wf(self) -> bool {
        entries_distinct(self.connections) && streams_distinct(self.streams)
    }
}

impl NetworkManager {
    /// The validity of the registry; see [`NetworkView::wf`].
    pub open spec fn wf(&self) -> bool {
        self@.wf()
    }

    /// The registry of a transport without peers, on TCP, not serving.
    pub open spec fn new_view() -> NetworkView {
        NetworkView {
            connections: Seq::empty(),
            streams: Seq::empty(),
            current_protocol: Protocol::TCP,
            is_server: false,
            server_peer: None,
        }
    }

    /// A transport without peers, on TCP, not serving.
    pub fn new() -> (m: NetworkManager)
        ensures
            m@ == NetworkManager::new_view(),
            m.wf(),
    {
        let m = NetworkManager {
            connections: Vec::new(),
            streams: Vec::new(),
            current_protocol: Protocol::TCP,
            is_server: false,
            server_peer: None,
        };
        assert(m@.connections =~= Seq::empty());
        assert(m@.streams =~= Seq::empty());
        m
    }

    /// Whether the registry is valid; see [`NetworkView::wf`].
    pub fn is_well_formed(&self) -> (r: bool)
        ensures
            r == self.wf(),
    {
        let mut b: usize = 0;
        while b < self.connections.len()
            invariant
                b <= self.connections.len(),
                forall|i: int, j: int|
                    0 <= i < j < b ==> (#[trigger] self.connections[i]).peer_id@ != (
                    #[trigger] self.connections[j]).peer_id@,
            decreases self.connections.len() - b,
        {
            let mut a: usize = 0;
            while a < b
                invariant
                    a <= b < self.connections.len(),
                    forall|i: int|
                        0 <= i < a ==> (#[trigger] self.connections[i]).peer_id@
                            != self.connections[b as int].peer_id@,
                decreases b - a,
            {
                if str_equal(
                    self.connections[a].peer_id.as_str(),
                    self.connections[b].peer_id.as_str(),
                ) {
                    return false;
                }
                a += 1;
            }
            b += 1;
        }
        let mut b: usize = 0;
        while b < self.streams.len()
            invariant
                b <= self.streams.len(),
                entries_distinct(self.connections@),
                forall|i: int, j: int|
                    0 <= i < j < b ==> (#[trigger] self.streams[i])@ != (#[trigger] self.streams[j])@,
            decreases self.streams.len() - b,
        {
            let mut a: usize = 0;
            while a < b
                invariant
                    a <= b < self.streams.len(),
                    forall|i: int| 0 <= i < a ==> (#[trigger] self.streams[i])@ != self.streams[b as int]@,
                decreases b - a,
            {
                if str_equal(self.streams[a].as_str(), self.streams[b].as_str()) {
                    return false;
                }
                a += 1;
            }
            b += 1;
        }
        true
    }

    /// Takes up the server role under `protocol` and says how to listen.
    pub fn start_server(&mut self, port: u16, protocol: Protocol) -> (action: ServerAction)
        ensures
            final(self)@ == (NetworkView {
                is_server: true,
                current_protocol: protocol,
                ..old(self)@
            }),
            action == match protocol {
                Protocol::TCP => ServerAction::ListenTcp { port },
                _ => ServerAction::Nothing,
            },
    {
        self.is_server = true;
        self.current_protocol = protocol;
        match protocol {
            Protocol::TCP => ServerAction::ListenTcp { port },
            _ => ServerAction::Nothing,
        }
    }

    /// How to reach the peer at `addr` under `protocol`.
    pub fn connect_to_peer(&self, addr: PeerAddr, protocol: Protocol) -> (action: ConnectAction)
        ensures
            action == connect_action(addr, protocol),
    {
        match protocol {
            Protocol::TCP => ConnectAction::DialTcp { addr },
            _ => ConnectAction::Nothing,
        }
    }

    /// The position of peer `peer_id` in the health table.
    pub fn find_entry(&self, peer_id: &str) -> (r: Option<usize>)
        ensures
            match r {
                Some(i) => is_first_entry_of(self.connections@, peer_id@, i as int)
                    && entry_position(self.connections@, peer_id@) == Some(i as int),
                None => entry_position(self.connections@, peer_id@) is None && forall|k: int|
                    0 <= k < self.connections.len() ==> self.connections[k].peer_id@ != peer_id@,
            },
    {
        let mut i: usize = 0;
        while i < self.connections.len()
            invariant
                i <= self.connections.len(),
                forall|k: int| 0 <= k < i ==> self.connections[k].peer_id@ != peer_id@,
            decreases self.connections.len() - i,
        {
            if str_equal(self.connections[i].peer_id.as_str(), peer_id) {
                proof {
                    lemma_entry_position(self.connections@, peer_id@, i as int);
                }
                return Some(i);
            }
            i += 1;
        }
        assert(entry_position(self.connections@, peer_id@) is None) by {
            if exists|c: int| is_first_entry_of(self.connections@, peer_id@, c) {
                let c = choose|c: int| is_first_entry_of(self.connections@, peer_id@, c);
                assert(self.connections[c].peer_id@ == peer_id@);
            }
        }
        None
    }

    /// Whether a stream is registered under `peer_id`.
    pub fn is_registered(&self, peer_id: &str) -> (r: bool)
        ensures
            r == has_stream(self.streams@, peer_id@),
    {
        let mut i: usize = 0;
        while i < self.streams.len()
            invariant
                i <= self.streams.len(),
                forall|k: int| 0 <= k < i ==> self.streams[k]@ != peer_id@,
            decreases self.streams.len() - i,
        {
            if str_equal(self.streams[i].as_str(), peer_id) {
                return true;
            }
            i += 1;
        }
        false
    }

    /// Registers the stream of a peer that connected to this side. A second
    /// registration under one identifier changes nothing here: the newer
    /// stream takes the place of the older with the caller.
    pub fn peer_accepted(&mut self, peer_id: String)
        requires
            old(self).wf(),
        ensures
            final(self)@ == (NetworkView {
                streams: with_stream(old(self)@.streams, peer_id),
                ..old(self)@
            }),
            final(self).wf(),
    {
        if !self.is_registered(peer_id.as_str()) {
            self.streams.push(peer_id);
            assert forall|i: int, j: int| 0 <= i < j < self.streams.len() implies (
            #[trigger] self.streams[i])@ != (#[trigger] self.streams[j])@ by {
                assert(self.streams[i] == old(self).streams[i]);
                if j < old(self).streams.len() {
                    assert(self.streams[j] == old(self).streams[j]);
                }
            }
        }
    }

    /// Registers a peer that this side connected to, as of the current
    /// time. See [`NetworkManager::peer_connected_at`].
    pub fn peer_connected(&mut self, peer_id: String, addr: PeerAddr)
        requires
            old(self).wf(),
        ensures
            exists|now: i64|
                final(self)@ == (NetworkView {
                    streams: with_stream(old(self)@.streams, peer_id),
                    connections: with_entry(
                        old(self)@.connections,
                        #[trigger] NetworkManager::dialled(peer_id, addr, now),
                    ),
                    ..old(self)@
                }),
            final(self).wf(),
    {
        let now = now_millis();
        self.peer_connected_at(peer_id, addr, now);
    }

    /// The entry of a peer that was dialled over TCP at `now`: no server,
    /// no latency known yet.
    pub open spec fn dialled(peer_id: String, addr: PeerAddr, now: i64) -> PeerEntry {
        PeerEntry {
            peer_id,
            connection: PeerConnection {
                addr,
                protocol: Protocol::TCP,
                is_server: false,
                ping_ms: None,
                last_seen: now,
            },
        }
    }

    /// Registers the stream to the peer at `addr` that this side opened at
    /// `now`, and starts its entry in the health table afresh.
    pub fn peer_connected_at(&mut self, peer_id: String, addr: PeerAddr, now: i64)
        requires
            old(self).wf(),
        ensures
            final(self)@ == (NetworkView {
                streams: with_stream(old(self)@.streams, peer_id),
                connections: with_entry(
                    old(self)@.connections,
                    NetworkManager::dialled(peer_id, addr, now),
                ),
                ..old(self)@
            }),
            final(self).wf(),
    {
        let connection = PeerConnection {
            addr,
            protocol: Protocol::TCP,
            is_server: false,
            ping_ms: None,
            last_seen: now,
        };
        let id_copy = peer_id.clone();
        self.peer_accepted(id_copy);
        match self.find_entry(peer_id.as_str()) {
            Some(i) => {
                self.connections.set(i, PeerEntry { peer_id, connection });
                assert forall|a: int, b: int| 0 <= a < b < self.connections.len() implies (
                #[trigger] self.connections[a]).peer_id@ != (
                #[trigger] self.connections[b]).peer_id@ by {
                    assert(self.connections[a].peer_id@ == old(self).connections[a].peer_id@);
                    assert(self.connections[b].peer_id@ == old(self).connections[b].peer_id@);
                }
            },
            None => {
                self.connections.push(PeerEntry { peer_id, connection });
            },
        }
    }

    /// The identifiers under which streams are registered, as they stand at
    /// this moment: the list a broadcast runs over.
    pub fn broadcast_targets(&self) -> (targets: Vec<String>)
        ensures
            targets@ == self.streams@,
    {
        let mut targets: Vec<String> = Vec::new();
        let mut i: usize = 0;
        while i < self.streams.len()
            invariant
                i <= self.streams.len(),
                targets@ == self.streams@.take(i as int),
            decreases self.streams.len() - i,
        {
            targets.push(self.streams[i].clone());
            assert(targets@ =~= self.streams@.take(i + 1));
            i += 1;
        }
        assert(self.streams@.take(i as int) =~= self.streams@);
        targets
    }

    /// Prepares a broadcast of the message document `document`: the frame
    /// to write, once for all, and the peers to write it to. The writes run
    /// as a [`FanOut`] over the targets.
    pub fn broadcast_message(&self, document: &str) -> (r: Result<(Vec<u8>, Vec<String>), TransportError>)
        ensures
            match r {
                Ok((frame, targets)) => document.spec_bytes().len() <= u32::MAX && frame@
                    == frame_of(document.spec_bytes()) && targets@ == self.streams@,
                Err(e) => e == TransportError::MessageTooLong && document.spec_bytes().len()
                    > u32::MAX,
            },
    {
        match encode_frame(document) {
            Ok(frame) => Ok((frame, self.broadcast_targets())),
            Err(e) => Err(e),
        }
    }

    /// The frame to write to peer `peer_id` for the message document
    /// `document`.
    pub fn send_to_peer(&self, peer_id: &str, document: &str) -> (r: Result<Vec<u8>, TransportError>)
        ensures
            match r {
                Ok(frame) => document.spec_bytes().len() <= u32::MAX && has_stream(
                    self.streams@,
                    peer_id@,
                ) && frame@ == frame_of(document.spec_bytes()),
                Err(TransportError::MessageTooLong) => document.spec_bytes().len() > u32::MAX,
                Err(TransportError::PeerNotFound) => document.spec_bytes().len() <= u32::MAX
                    && !has_stream(self.streams@, peer_id@),
            },
    {
        let frame = match encode_frame(document) {
            Ok(frame) => frame,
            Err(e) => {
                return Err(e);
            },
        };
        if self.is_registered(peer_id) {
            Ok(frame)
        } else {
            Err(TransportError::PeerNotFound)
        }
    }

    /// The health table as a list of identifier and connection.
    pub fn get_peer_list(&self) -> (list: Vec<(String, PeerConnection)>)
        ensures
            list.len() == self.connections.len(),
            forall|i: int|
                0 <= i < list.len() ==> (#[trigger] list[i]).0 == self.connections[i].peer_id
                    && list[i].1 == self.connections[i].connection,
    {
        let mut list: Vec<(String, PeerConnection)> = Vec::new();
        let mut i: usize = 0;
        while i < self.connections.len()
            invariant
                i <= self.connections.len(),
                list.len() == i,
                forall|k: int|
                    0 <= k < i ==> (#[trigger] list[k]).0 == self.connections[k].peer_id
                        && list[k].1 == self.connections[k].connection,
            decreases self.connections.len() - i,
        {
            list.push((self.connections[i].peer_id.clone(), self.connections[i].connection));
            i += 1;
        }
        list
    }

    /// Records a latency measured just now. See
    /// [`NetworkManager::update_ping_at`].
    pub fn update_ping(&mut self, peer_id: &str, ping_ms: u64)
        ensures
            exists|now: i64|
                final(self)@ == (NetworkView {
                    connections: #[trigger] pinged(old(self)@.connections, peer_id@, ping_ms, now),
                    ..old(self)@
                }),
            old(self).wf() ==> final(self).wf(),
    {
        let now = now_millis();
        self.update_ping_at(peer_id, ping_ms, now);
    }

    /// Records the latency `ping_ms` measured to peer `peer_id` at `now`.
    /// Nothing changes where the peer is not in the health table.
    pub fn update_ping_at(&mut self, peer_id: &str, ping_ms: u64, now: i64)
        ensures
            final(self)@ == (NetworkView {
                connections: pinged(old(self)@.connections, peer_id@, ping_ms, now),
                ..old(self)@
            }),
            old(self).wf() ==> final(self).wf(),
    {
        match self.find_entry(peer_id) {
            Some(i) => {
                self.connections[i].connection.ping_ms = Some(ping_ms);
                self.connections[i].connection.last_seen = now;
                assert(self.connections@ =~= pinged(old(self).connections@, peer_id@, ping_ms, now));
                assert(old(self).wf() ==> entries_distinct(self.connections@)) by {
                    if old(self).wf() {
                        assert forall|a: int, b: int|
                            0 <= a < b < self.connections.len() implies (
                        #[trigger] self.connections[a]).peer_id@ != (
                        #[trigger] self.connections[b]).peer_id@ by {
                            assert(self.connections[a].peer_id@ == old(self).connections[a].peer_id@);
                            assert(self.connections[b].peer_id@ == old(self).connections[b].peer_id@);
                        }
                    }
                }
            },
            None => {},
        }
    }

    /// Marks peer `peer_id` offline: its latency is forgotten, so it is
    /// neither healthy nor a candidate until the next measurement.
    pub fn mark_peer_offline(&mut self, peer_id: &str)
        ensures
            final(self)@ == (NetworkView {
                connections: silenced(old(self)@.connections, peer_id@),
                ..old(self)@
            }),
            old(self).wf() ==> final(self).wf(),
    {
        match self.find_entry(peer_id) {
            Some(i) => {
                self.connections[i].connection.ping_ms = None;
                assert(self.connections@ =~= silenced(old(self).connections@, peer_id@));
                assert(old(self).wf() ==> entries_distinct(self.connections@)) by {
                    if old(self).wf() {
                        assert forall|a: int, b: int|
                            0 <= a < b < self.connections.len() implies (
                        #[trigger] self.connections[a]).peer_id@ != (
                        #[trigger] self.connections[b]).peer_id@ by {
                            assert(self.connections[a].peer_id@ == old(self).connections[a].peer_id@);
                            assert(self.connections[b].peer_id@ == old(self).connections[b].peer_id@);
                        }
                    }
                }
            },
            None => {},
        }
    }

    /// Whether peer `peer_id` is healthy at the current time; see
    /// [`NetworkManager::is_peer_healthy_at`].
    pub fn is_peer_healthy(&self, peer_id: &str, timeout_minutes: i64) -> (healthy: bool)
        ensures
            exists|now: i64|
                healthy == #[trigger] peer_is_healthy(
                    self.connections@,
                    peer_id@,
                    timeout_minutes,
                    now,
                ),
    {
        let now = now_millis();
        self.is_peer_healthy_at(peer_id, timeout_minutes, now)
    }

    /// Whether peer `peer_id` is known, was seen within fewer than
    /// `timeout_minutes` whole minutes before `now`, and has a latency on
    /// record.
    pub fn is_peer_healthy_at(&self, peer_id: &str, timeout_minutes: i64, now: i64) -> (healthy:
        bool)
        ensures
            healthy == peer_is_healthy(self.connections@, peer_id@, timeout_minutes, now),
    {
        match self.find_entry(peer_id) {
            Some(i) => {
                let c = &self.connections[i].connection;
                elapsed_minutes(now, c.last_seen) < timeout_minutes && c.ping_ms.is_some()
            },
            None => false,
        }
    }

    /// Drops stale entries as of the current time; see
    /// [`NetworkManager::cleanup_stale_connections_at`].
    pub fn cleanup_stale_connections(&mut self, timeout_minutes: i64)
        ensures
            exists|now: i64|
                final(self)@ == (NetworkView {
                    connections: #[trigger] without_stale(
                        old(self)@.connections,
                        timeout_minutes,
                        now,
                    ),
                    ..old(self)@
                }),
            old(self).wf() ==> final(self).wf(),
    {
        let now = now_millis();
        self.cleanup_stale_connections_at(timeout_minutes, now);
    }

    /// Drops from the health table every entry that has been silent for more
    /// than `timeout_minutes` minutes at `now`.
    pub fn cleanup_stale_connections_at(&mut self, timeout_minutes: i64, now: i64)
        ensures
            final(self)@ == (NetworkView {
                connections: without_stale(old(self)@.connections, timeout_minutes, now),
                ..old(self)@
            }),
            old(self).wf() ==> final(self).wf(),
    {
        let ghost keep = |e: PeerEntry| !entry_is_stale(e, timeout_minutes, now);
        let ghost before = self.connections@;
        let ghost mut source: Seq<int> = Seq::empty();
        let mut kept: Vec<PeerEntry> = Vec::new();
        let mut rest: Vec<PeerEntry> = Vec::new();
        std::mem::swap(&mut rest, &mut self.connections);
        let mut i: usize = 0;
        while i < rest.len()
            invariant
                i <= rest.len(),
                rest@ == before,
                keep == (|e: PeerEntry| !entry_is_stale(e, timeout_minutes, now)),
                kept@ == before.take(i as int).filter(keep),
                source.len() == kept.len(),
                forall|k: int|
                    0 <= k < kept.len() ==> 0 <= #[trigger] source[k] < i && kept[k] == before[source[k]],
                forall|a: int, b: int|
                    0 <= a < b < source.len() ==> #[trigger] source[a] < #[trigger] source[b],
            decreases rest.len() - i,
        {
            let stale = check_silence_exceeds(now, rest[i].connection.last_seen, timeout_minutes);
            proof {
                let seen = before.take(i as int);
                assert(before.take(i + 1) =~= seen.push(before[i as int]));
                seen.lemma_filter_push(before[i as int], keep);
            }
            if !stale {
                kept.push(
                    PeerEntry {
                        peer_id: rest[i].peer_id.clone(),
                        connection: rest[i].connection,
                    },
                );
                proof {
                    source = source.push(i as int);
                }
            }
            i += 1;
        }
        assert(before.take(i as int) =~= before);
        assert(entries_distinct(before) ==> entries_distinct(kept@)) by {
            if entries_distinct(before) {
                assert forall|a: int, b: int| 0 <= a < b < kept.len() implies (
                #[trigger] kept[a]).peer_id@ != (#[trigger] kept[b]).peer_id@ by {
                    assert(source[a] < source[b]);
                    assert(before[source[a]].peer_id@ != before[source[b]].peer_id@);
                }
            }
        }
        self.connections = kept;
    }

    /// The peer with the lowest latency on record, or nobody where no
    /// latency is on record.
    pub fn get_best_server_candidate(&self) -> (best: Option<String>)
        ensures
            match best {
                Some(id) => exists|i: int|
                    is_best_entry(self.connections@, i) && id == (#[trigger] self.connections[i]).peer_id,
                None => forall|i: int|
                    0 <= i < self.connections.len() ==> (
                    #[trigger] self.connections[i]).connection.ping_ms is None,
            },
    {
        let mut best: Option<usize> = None;
        let mut i: usize = 0;
        while i < self.connections.len()
            invariant
                i <= self.connections.len(),
                match best {
                    Some(b) => b < i && self.connections[b as int].connection.ping_ms is Some
                        && forall|k: int|
                        0 <= k < i && (#[trigger] self.connections[k]).connection.ping_ms is Some ==> {
                            let low = self.connections[b as int].connection.ping_ms->0;
                            let other = self.connections[k].connection.ping_ms->0;
                            low < other || (low == other && b <= k)
                        },
                    None => forall|k: int|
                        0 <= k < i ==> (#[trigger] self.connections[k]).connection.ping_ms is None,
                },
            decreases self.connections.len() - i,
        {
            match self.connections[i].connection.ping_ms {
                Some(ping) => {
                    let better = match best {
                        Some(b) => match self.connections[b].connection.ping_ms {
                            Some(low) => ping < low,
                            None => true,
                        },
                        None => true,
                    };
                    if better {
                        best = Some(i);
                    }
                },
                None => {},
            }
            i += 1;
        }
        match best {
            Some(b) => {
                assert(is_best_entry(self.connections@, b as int));
                Some(self.connections[b].peer_id.clone())
            },
            None => None,
        }
    }

    /// Forgets every peer and lays the server role down.
    pub fn disconnect_all(&mut self) -> (r: Result<(), TransportError>)
        ensures
            r is Ok,
            final(self)@ == (NetworkView {
                connections: Seq::empty(),
                streams: Seq::empty(),
                is_server: false,
                server_peer: None,
                ..old(self)@
            }),
            final(self).wf(),
    {
        self.connections = Vec::new();
        self.streams = Vec::new();
        self.is_server = false;
        self.server_peer = None;
        assert(self@.connections =~= Seq::empty());
        assert(self@.streams =~= Seq::empty());
        Ok(())
    }

    /// Changes the transport to `new_protocol` and says how each of `peers`
    /// is reached again, in their order. The reconnects run as a
    /// [`FanOut`]. Before this, the change is announced with
    /// [`protocol_notice`] and peers are given [`SWITCH_GRACE_MILLIS`].
    pub fn switch_protocol(&mut self, new_protocol: Protocol, peers: &Vec<PeerAddr>) -> (actions:
        Vec<ConnectAction>)
        ensures
            final(self)@ == (NetworkView { current_protocol: new_protocol, ..old(self)@ }),
            actions.len() == peers.len(),
            forall|i: int|
                0 <= i < peers.len() ==> #[trigger] actions[i] == connect_action(
                    peers[i],
                    new_protocol,
                ),
    {
        self.current_protocol = new_protocol;
        let mut actions: Vec<ConnectAction> = Vec::new();
        let mut i: usize = 0;
        while i < peers.len()
            invariant
                i <= peers.len(),
                actions.len() == i,
                forall|k: int|
                    0 <= k < i ==> #[trigger] actions[k] == connect_action(peers[k], new_protocol),
            decreases peers.len() - i,
        {
            let action = self.connect_to_peer(peers[i], new_protocol);
            actions.push(action);
            i += 1;
        }
        actions
    }
}

} // verus!
