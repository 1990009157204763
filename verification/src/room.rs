//! Room state: membership, the message window, latency records and the
//! election of the room server.

use vstd::prelude::*;
use crate::addr::{contains_addr, PeerAddr};
use crate::ident::{fresh_id, is_random_id};
use crate::networking::Protocol;
use crate::order::{arrange, is_stable_order, precedes, stable_order};
use crate::time::{
    check_recent, check_silence_exceeds, is_recent, now_millis, silence_exceeds, RECENT_MINUTES,
};
use crate::election::{elects, is_best_candidate, is_first_online, is_live_candidate};
use crate::naming::{
    is_next_suffix, lemma_free_name_keeps_names_distinct, lemma_resolved_name_is_free,
    name_taken, names_distinct, resolves_to, suffix_demand,
};
use crate::numerals::{
    are_digits, is_less, lemma_number_push, number, read_digits, successor, write_digits,
};
use crate::text::{str_equal, strip_prefix};
use crate::user::User;
use vstd::string::StringExecFns;

verus! {

/// The most messages a room keeps; older ones are dropped first.
pub const MAX_MESSAGES: usize = 1000;

/// The latency recorded for users of whom no measurement is known.
pub const NO_PING: u64 = u64::MAX;

/// One chat line. The author's name is the one held when the line was sent.
#[derive(Debug)]
pub struct ChatMessage {
    pub id: u128,
    pub user_id: u128,
    pub user_name: String,
    pub content: String,
    pub timestamp: i64,
}

impl Clone for ChatMessage {
    fn clone(&self) -> (r: Self)
        ensures
            r == *self,
    {
        ChatMessage {
            id: self.id,
            user_id: self.user_id,
            user_name: self.user_name.clone(),
            content: self.content.clone(),
            timestamp: self.timestamp,
        }
    }
}

/// The latest latency measured to one user, in milliseconds.
#[derive(Clone, Copy, Debug, PartialEq, Eq, Structural)]
pub struct PingRecord {
    pub user_id: u128,
    pub ping_ms: u64,
}

/// Why a change to a room was refused.
#[derive(Clone, Copy, Debug, PartialEq, Eq, Structural)]
pub enum RoomError {
    /// A user with the same identifier is already a member.
    DuplicateUser,
}

/// A room: its members in the order they joined, its recent messages, and
/// who currently serves it.
#[derive(Debug)]
pub struct Room {
    pub id: u128,
    pub name: String,
    pub creator_id: u128,
    pub users: Vec<User>,
    pub messages: Vec<ChatMessage>,
    pub server_user_id: Option<u128>,
    pub protocol: Protocol,
    pub peer_addresses: Vec<PeerAddr>,
    pub ping_measurements: Vec<PingRecord>,
    pub created_at: i64,
    pub is_voice_enabled: bool,
    pub call_server_id: Option<u128>,
    pub is_call_active: bool,
}

/// The contents of a [`Room`] as mathematical values.
pub struct RoomView {
    pub id: u128,
    pub name: Seq<char>,
    pub creator_id: u128,
    pub users: Seq<User>,
    pub messages: Seq<ChatMessage>,
    pub server_user_id: Option<u128>,
    pub protocol: Protocol,
    pub peer_addresses: Seq<PeerAddr>,
    pub ping_measurements: Seq<PingRecord>,
    pub created_at: i64,
    pub is_voice_enabled: bool,
    pub call_server_id: Option<u128>,
    pub is_call_active: bool,
}

impl View for Room {
    type V = RoomView;

    open spec fn view(&self) -> RoomView {
        RoomView {
            id: self.id,
            name: self.name@,
            creator_id: self.creator_id,
            users: self.users@,
            messages: self.messages@,
            server_user_id: self.server_user_id,
            protocol: self.protocol,
            peer_addresses: self.peer_addresses@,
            ping_measurements: self.ping_measurements@,
            created_at: self.created_at,
            is_voice_enabled: self.is_voice_enabled,
            call_server_id: self.call_server_id,
            is_call_active: self.is_call_active,
        }
    }
}

/// No two users share an identifier.
pub open spec fn ids_distinct(users: Seq<User>) -> bool {
    forall|i: int, j: int|
        0 <= i < j < users.len() ==> (#[trigger] users[i]).id != (#[trigger] users[j]).id
}

/// No user has two latency records.
pub open spec fn records_distinct(pings: Seq<PingRecord>) -> bool {
    forall|i: int, j: int|
        0 <= i < j < pings.len() ==> (#[trigger] pings[i]).user_id != (#[trigger] pings[j]).user_id
}

/// Whether some user carries the identifier `id`.
pub open spec fn has_member(users: Seq<User>, id: u128) -> bool {
    exists|i: int| 0 <= i < users.len() && (#[trigger] users[i]).id == id
}

/// The last `limit` items of `items`, or all of them where there are fewer.
pub open spec fn newest<T>(items: Seq<T>, limit: nat) -> Seq<T> {
    if items.len() <= limit {
        items
    } else {
        items.skip(items.len() - limit)
    }
}

/// Whether position `i` holds the first member with identifier `id`.
pub open spec fn is_first_with_id(users: Seq<User>, id: u128, i: int) -> bool {
    &&& 0 <= i < users.len()
    &&& users[i].id == id
    &&& forall|k: int| 0 <= k < i ==> (#[trigger] users[k]).id != id
}

/// The position of the member with identifier `id`.
pub open spec fn member_position(users: Seq<User>, id: u128) -> Option<int> {
    if exists|i: int| is_first_with_id(users, id, i) {
        Some(choose|i: int| is_first_with_id(users, id, i))
    } else {
        None
    }
}

/// Whether position `j` holds the first latency record of user `id`.
pub open spec fn is_first_record_of(pings: Seq<PingRecord>, id: u128, j: int) -> bool {
    &&& 0 <= j < pings.len()
    &&& pings[j].user_id == id
    &&& forall|k: int| 0 <= k < j ==> (#[trigger] pings[k]).user_id != id
}

/// The position of the latency record of user `id`.
pub open spec fn record_position(pings: Seq<PingRecord>, id: u128) -> Option<int> {
    if exists|j: int| is_first_record_of(pings, id, j) {
        Some(choose|j: int| is_first_record_of(pings, id, j))
    } else {
        None
    }
}

/// The first member with identifier `id` stands at `i`.
pub proof fn lemma_member_position(users: Seq<User>, id: u128, i: int)
    requires
        is_first_with_id(users, id, i),
    ensures
        member_position(users, id) == Some(i),
        has_member(users, id),
{
    let c = choose|c: int| is_first_with_id(users, id, c);
    assert(is_first_with_id(users, id, c));
    assert(c == i) by {
        if c < i {
            assert(users[c].id != id);
        }
        if i < c {
            assert(users[i].id != id);
        }
    }
}

/// Without a member of identifier `id` there is no position.
pub proof fn lemma_no_member_position(users: Seq<User>, id: u128)
    requires
        !has_member(users, id),
    ensures
        member_position(users, id) is None,
{
    if exists|i: int| is_first_with_id(users, id, i) {
        let c = choose|c: int| is_first_with_id(users, id, c);
        assert(users[c].id == id);
    }
}

/// The first record of user `id` stands at `j`.
pub proof fn lemma_record_position(pings: Seq<PingRecord>, id: u128, j: int)
    requires
        is_first_record_of(pings, id, j),
    ensures
        record_position(pings, id) == Some(j),
{
    let c = choose|c: int| is_first_record_of(pings, id, c);
    assert(is_first_record_of(pings, id, c));
    assert(c == j) by {
        if c < j {
            assert(pings[c].user_id != id);
        }
        if j < c {
            assert(pings[j].user_id != id);
        }
    }
}

/// The members after `id` went offline; unchanged where `id` is no member.
pub open spec fn marked_offline(users: Seq<User>, id: u128) -> Seq<User> {
    match member_position(users, id) {
        Some(i) => users.update(i, User { is_online: false, ..users[i] }),
        None => users,
    }
}

/// The members after a liveness signal of `id` at `now`: that member is
/// online and was last seen at `now`.
pub open spec fn seen_online(users: Seq<User>, id: u128, now: i64) -> Seq<User> {
    match member_position(users, id) {
        Some(i) => users.update(i, User { is_online: true, last_seen: now, ..users[i] }),
        None => users,
    }
}

/// The latency records after `ping_ms` was measured to user `id`: the
/// user's record is replaced, or added at the end.
pub open spec fn with_record(pings: Seq<PingRecord>, id: u128, ping_ms: u64) -> Seq<PingRecord> {
    match record_position(pings, id) {
        Some(j) => pings.update(j, PingRecord { user_id: id, ping_ms }),
        None => pings.push(PingRecord { user_id: id, ping_ms }),
    }
}

/// The latency known of user `id`, or [`NO_PING`].
pub open spec fn known_ping(pings: Seq<PingRecord>, id: u128) -> u64 {
    match record_position(pings, id) {
        Some(j) => pings[j].ping_ms,
        None => NO_PING,
    }
}

/// `list` with `addr` at the end, unless it is in the list already.
pub open spec fn with_address(list: Seq<PeerAddr>, addr: PeerAddr) -> Seq<PeerAddr> {
    if list.contains(addr) {
        list
    } else {
        list.push(addr)
    }
}

/// Whether an online member has been silent for more than
/// `threshold_minutes` minutes at `now`.
pub open spec fn is_stale(user: User, threshold_minutes: i64, now: i64) -> bool {
    user.is_online && silence_exceeds(now, user.last_seen, threshold_minutes)
}

/// `user` after a sweep: offline where it was stale.
pub open spec fn sweep_one(user: User, threshold_minutes: i64, now: i64) -> User {
    if is_stale(user, threshold_minutes, now) {
        User { is_online: false, ..user }
    } else {
        user
    }
}

/// The members after every stale one was marked offline.
pub open spec fn swept(users: Seq<User>, threshold_minutes: i64, now: i64) -> Seq<User> {
    Seq::new(users.len(), |i: int| sweep_one(users[i], threshold_minutes, now))
}

/// Whether a latency record is kept in a sweep: it belongs to a member,
/// and that member is online or has not been silent for more than
/// [`RECENT_MINUTES`].
pub open spec fn keeps_record(users: Seq<User>, record: PingRecord, now: i64) -> bool {
    exists|i: int|
        0 <= i < users.len() && (#[trigger] users[i]).id == record.user_id && (users[i].is_online
            || !silence_exceeds(now, users[i].last_seen, RECENT_MINUTES))
}

/// Whether the sweep marks the member with identifier `id` offline.
pub open spec fn sweeps_member(users: Seq<User>, id: u128, threshold_minutes: i64, now: i64) -> bool {
    exists|i: int|
        0 <= i < users.len() && (#[trigger] users[i]).id == id && is_stale(
            users[i],
            threshold_minutes,
            now,
        )
}

/// The sort keys of the members: each one's known latency.
pub open spec fn peer_keys(users: Seq<User>, pings: Seq<PingRecord>) -> Seq<i128> {
    Seq::new(users.len(), |i: int| known_ping(pings, users[i].id) as i128)
}

/// The members' addresses in join order.
pub open spec fn member_addresses(users: Seq<User>) -> Seq<PeerAddr> {
    Seq::new(users.len(), |i: int| users[i].address)
}

/// The sort keys of messages: their timestamps.
pub open spec fn message_keys(messages: Seq<ChatMessage>) -> Seq<i128> {
    Seq::new(messages.len(), |i: int| messages[i].timestamp as i128)
}

/// Whether `messages` are in ascending order of timestamp.
pub open spec fn in_time_order(messages: Seq<ChatMessage>) -> bool {
    forall|i: int, j: int|
        0 <= i < j < messages.len() ==> (#[trigger] messages[i]).timestamp <= (
        #[trigger] messages[j]).timestamp
}

/// Adding to a full window drops exactly the oldest message and keeps the
/// others in their order.
pub proof fn lemma_full_window_drops_oldest(messages: Seq<ChatMessage>, message: ChatMessage)
    requires
        messages.len() == MAX_MESSAGES,
    ensures
        newest(messages.push(message), MAX_MESSAGES as nat) == messages.skip(1).push(message),
        newest(messages.push(message), MAX_MESSAGES as nat).len() == MAX_MESSAGES,
{
    assert(newest(messages.push(message), MAX_MESSAGES as nat) =~= messages.skip(1).push(message));
}

/// Below the limit a window keeps everything.
pub proof fn lemma_window_keeps_all(messages: Seq<ChatMessage>, message: ChatMessage)
    requires
        messages.len() < MAX_MESSAGES,
    ensures
        newest(messages.push(message), MAX_MESSAGES as nat) == messages.push(message),
{
}

impl RoomView {
    /// The validity of a room: identifiers are unique among the members and
    /// among the latency records, and the message window is within its limit.
    pub open spec fn wf(self) -> bool {
        &&& ids_distinct(self.users)
        &&& records_distinct(self.ping_measurements)
        &&& self.messages.len() <= MAX_MESSAGES
    }

    /// The room that `creator` founds at `now` under the identifier `id`:
    /// the creator is its only member and holds the server role.
    pub open spec fn founded(
        id: u128,
        name: Seq<char>,
        creator: User,
        protocol: Protocol,
        now: i64,
    ) -> RoomView {
        RoomView {
            id,
            name,
            creator_id: creator.id,
            users: seq![creator],
            messages: Seq::empty(),
            server_user_id: Some(creator.id),
            protocol,
            peer_addresses: seq![creator.address],
            ping_measurements: Seq::empty(),
            created_at: now,
            is_voice_enabled: false,
            call_server_id: Some(creator.id),
            is_call_active: false,
        }
    }

    /// The room after `ping_ms` was measured to user `id` at `now`. A
    /// measurement is a liveness signal too.
    pub open spec fn after_ping(self, id: u128, ping_ms: u64, now: i64) -> RoomView {
        RoomView {
            ping_measurements: with_record(self.ping_measurements, id, ping_ms),
            users: seen_online(self.users, id, now),
            ..self
        }
    }

    /// The room after member `id` was seen online at `now`.
    pub open spec fn after_online(self, id: u128, now: i64) -> RoomView {
        RoomView { users: seen_online(self.users, id, now), ..self }
    }

    /// `after` is this room once `user` was admitted: the user stands last
    /// among the members, under the name that [`resolves_to`] gives, which no
    /// member had, and the user's address is noted where it was new.
    pub open spec fn admits(self, user: User, after: RoomView) -> bool {
        let joined = after.users.last();
        &&& after == (RoomView {
            users: self.users.push(joined),
            peer_addresses: with_address(self.peer_addresses, user.address),
            ..self
        })
        &&& resolves_to(self.users, user.name@, joined.name@)
        &&& !name_taken(self.users, joined.name@)
        &&& joined == (User { name: joined.name, ..user })
    }

    /// `after` is this room with the server role handed out anew at `now`.
    pub open spec fn reelects(self, now: i64, after: RoomView) -> bool {
        &&& after == (RoomView { server_user_id: after.server_user_id, ..self })
        &&& elects(self.users, self.ping_measurements, now, after.server_user_id)
    }

    /// `after` is this room once member `id` went offline at `now`: where
    /// that member held the server role, the role is handed out anew.
    pub open spec fn goes_offline(self, id: u128, now: i64, after: RoomView) -> bool {
        let marked = RoomView { users: marked_offline(self.users, id), ..self };
        if has_member(self.users, id) && self.server_user_id == Some(id) {
            marked.reelects(now, after)
        } else {
            after == marked
        }
    }

    /// `after` is this room once member `id` left at `now`: the member and
    /// every copy of its address are gone, and where it held the server role,
    /// the role is handed out anew.
    pub open spec fn loses_member(self, id: u128, now: i64, after: RoomView) -> bool {
        match member_position(self.users, id) {
            Some(i) => {
                let gone = self.users[i].address;
                let reduced = RoomView {
                    users: self.users.remove(i),
                    peer_addresses: self.peer_addresses.filter(|a: PeerAddr| a != gone),
                    ..self
                };
                if self.server_user_id == Some(id) {
                    reduced.reelects(now, after)
                } else {
                    after == reduced
                }
            },
            None => after == self,
        }
    }

    /// `after` is this room once it was swept at `now`: stale members are
    /// offline; where the server was one of them, the role is handed out
    /// anew; latency records of strangers, and of members who are offline
    /// and silent for more than [`RECENT_MINUTES`], are gone.
    pub open spec fn swept_to(self, threshold_minutes: i64, now: i64, after: RoomView) -> bool {
        let users = swept(self.users, threshold_minutes, now);
        let server_swept = match self.server_user_id {
            Some(server) => sweeps_member(self.users, server, threshold_minutes, now),
            None => false,
        };
        &&& after == (RoomView {
            users,
            server_user_id: after.server_user_id,
            ping_measurements: self.ping_measurements.filter(
                |r: PingRecord| keeps_record(users, r, now),
            ),
            ..self
        })
        &&& if server_swept {
            elects(users, self.ping_measurements, now, after.server_user_id)
        } else {
            after.server_user_id == self.server_user_id
        }
    }

    /// Whether the server role is held by an online member who was last seen
    /// recently at `now`.
    pub open spec fn server_is_healthy(self, now: i64) -> bool {
        match self.server_user_id {
            Some(server) => match member_position(self.users, server) {
                Some(i) => self.users[i].is_online && is_recent(now, self.users[i].last_seen),
                None => false,
            },
            None => false,
        }
    }

    /// `after` is this room once the server's health was checked at `now`:
    /// untouched where the server is healthy, re-elected where it is not.
    pub open spec fn health_checked(self, now: i64, after: RoomView) -> bool {
        if self.server_is_healthy(now) {
            after == self
        } else {
            self.reelects(now, after)
        }
    }
}

/// Replacing a member by one of the same identifier keeps identifiers unique.
pub proof fn lemma_update_keeps_ids(users: Seq<User>, i: int, user: User)
    requires
        ids_distinct(users),
        0 <= i < users.len(),
        user.id == users[i].id,
    ensures
        ids_distinct(users.update(i, user)),
{
    let after = users.update(i, user);
    assert forall|a: int, b: int| 0 <= a < b < after.len() implies (#[trigger] after[a]).id != (
    #[trigger] after[b]).id by {
        assert(after[a].id == users[a].id);
        assert(after[b].id == users[b].id);
    }
}

/// Taking a member out keeps identifiers unique.
pub proof fn lemma_remove_keeps_ids(users: Seq<User>, i: int)
    requires
        ids_distinct(users),
        0 <= i < users.len(),
    ensures
        ids_distinct(users.remove(i)),
{
    let after = users.remove(i);
    assert forall|a: int, b: int| 0 <= a < b < after.len() implies (#[trigger] after[a]).id != (
    #[trigger] after[b]).id by {
        let a0 = if a < i { a } else { a + 1 };
        let b0 = if b < i { b } else { b + 1 };
        assert(after[a] == users[a0]);
        assert(after[b] == users[b0]);
    }
}

impl Room {
    /// The validity of a room; see [`RoomView::wf`].
    pub open spec fn wf(&self) -> bool {
        self@.wf()
    }

    /// Appends a message; beyond [`MAX_MESSAGES`] the oldest are dropped, so
    /// the newest always stay.
    pub fn add_message(&mut self, message: ChatMessage)
        ensures
            final(self)@ == (RoomView {
                messages: newest(old(self)@.messages.push(message), MAX_MESSAGES as nat),
                ..old(self)@
            }),
            old(self).wf() ==> final(self).wf(),
    {
        self.messages.push(message);
        let len = self.messages.len();
        if len > MAX_MESSAGES {
            let kept = self.messages.split_off(len - MAX_MESSAGES);
            self.messages = kept;
        }
    }

    /// Whether `user_id` is a member who was last seen recently at `now`.
    pub fn is_ping_recent_at(&self, user_id: u128, now: i64) -> (r: bool)
        ensures
            r == exists|i: int|
                0 <= i < self.users.len() && (#[trigger] self.users[i]).id == user_id && is_recent(
                    now,
                    self.users[i].last_seen,
                ) && forall|k: int| 0 <= k < i ==> self.users[k].id != user_id,
    {
        match self.find_user(user_id) {
            Some(i) => check_recent(now, self.users[i].last_seen),
            None => false,
        }
    }

    /// Hands the server role out anew, as of the current time. See
    /// [`Room::elect_new_server_at`]; the time is read from the clock.
    pub fn elect_new_server(&mut self)
        requires
            old(self).wf(),
        ensures
            exists|now: i64|
                elects(
                    old(self)@.users,
                    old(self)@.ping_measurements,
                    now,
                    final(self).server_user_id,
                ),
            final(self)@ == (RoomView {
                server_user_id: final(self).server_user_id,
                ..old(self)@
            }),
    {
        let now = now_millis();
        self.elect_new_server_at(now);
    }

    /// Hands the server role out anew, as of `now`: to the online, recently
    /// seen member with the lowest known latency; failing that, to the first
    /// online member; failing that, to nobody.
    pub fn elect_new_server_at(&mut self, now: i64)
        requires
            old(self).wf(),
        ensures
            elects(
                old(self)@.users,
                old(self)@.ping_measurements,
                now,
                final(self).server_user_id,
            ),
            final(self)@ == (RoomView {
                server_user_id: final(self).server_user_id,
                ..old(self)@
            }),
    {
        let winner = self.election_winner(now);
        self.server_user_id = winner;
    }

    /// Who an election at `now` would choose.
    pub fn election_winner(&self, now: i64) -> (winner: Option<u128>)
        requires
            self.wf(),
        ensures
            elects(self@.users, self@.ping_measurements, now, winner),
    {
        let ghost users = self.users@;
        let ghost pings = self.ping_measurements@;
        let mut best: Option<usize> = None;
        let mut j: usize = 0;
        while j < self.ping_measurements.len()
            invariant
                self.wf(),
                users == self.users@,
                pings == self.ping_measurements@,
                j <= pings.len(),
                match best {
                    Some(b) => b < j && is_live_candidate(users, pings, b as int, now) && forall|
                        k: int,
                    |
                        0 <= k < j && #[trigger] is_live_candidate(users, pings, k, now)
                            ==> pings[b as int].ping_ms < pings[k].ping_ms || (pings[b as int].ping_ms
                            == pings[k].ping_ms && b <= k),
                    None => forall|k: int|
                        0 <= k < j ==> !#[trigger] is_live_candidate(users, pings, k, now),
                },
            decreases pings.len() - j,
        {
            let record = self.ping_measurements[j];
            let live = record.ping_ms < NO_PING && match self.find_user(record.user_id) {
                Some(i) => {
                    let user = &self.users[i];
                    user.is_online && check_recent(now, user.last_seen)
                },
                None => false,
            };
            assert(live == is_live_candidate(users, pings, j as int, now));
            if live {
                let better = match best {
                    Some(b) => record.ping_ms < self.ping_measurements[b].ping_ms,
                    None => true,
                };
                if better {
                    best = Some(j);
                }
            }
            j += 1;
        }
        match best {
            Some(b) => {
                assert(is_best_candidate(users, pings, b as int, now));
                Some(self.ping_measurements[b].user_id)
            },
            None => {
                let mut i: usize = 0;
                while i < self.users.len()
                    invariant
                        users == self.users@,
                        pings == self.ping_measurements@,
                        i <= users.len(),
                        forall|k: int| !#[trigger] is_live_candidate(users, pings, k, now),
                        forall|k: int| 0 <= k < i ==> !(#[trigger] users[k]).is_online,
                    decreases users.len() - i,
                {
                    if self.users[i].is_online {
                        assert(is_first_online(users, i as int));
                        return Some(self.users[i].id);
                    }
                    i += 1;
                }
                None
            },
        }
    }

    /// Founds a room under a random identifier at the current time.
    pub fn new(name: String, creator: User, protocol: Protocol) -> (room: Room)
        ensures
            is_random_id(room.id),
            room@ == RoomView::founded(room.id, name@, creator, protocol, room.created_at),
            room.wf(),
    {
        let id = fresh_id();
        let now = now_millis();
        Room::new_at(id, name, creator, protocol, now)
    }

    /// Founds a room under the identifier `id` at `now`.
    pub fn new_at(id: u128, name: String, creator: User, protocol: Protocol, now: i64) -> (room:
        Room)
        ensures
            room@ == RoomView::founded(id, name@, creator, protocol, now),
            room.wf(),
    {
        let creator_id = creator.id;
        let mut peer_addresses: Vec<PeerAddr> = Vec::new();
        peer_addresses.push(creator.address);
        let mut users: Vec<User> = Vec::new();
        users.push(creator);
        let room = Room {
            id,
            name,
            creator_id,
            users,
            messages: Vec::new(),
            server_user_id: Some(creator_id),
            protocol,
            peer_addresses,
            ping_measurements: Vec::new(),
            created_at: now,
            is_voice_enabled: false,
            call_server_id: Some(creator_id),
            is_call_active: false,
        };
        assert(room@.users =~= seq![creator]);
        assert(room@.peer_addresses =~= seq![creator.address]);
        assert(room@.messages =~= Seq::empty());
        assert(room@.ping_measurements =~= Seq::empty());
        room
    }

    /// Records a latency measured just now. See [`Room::update_ping_at`].
    pub fn update_ping(&mut self, user_id: u128, ping_ms: u64)
        requires
            old(self).wf(),
        ensures
            exists|now: i64| final(self)@ == #[trigger] old(self)@.after_ping(user_id, ping_ms, now),
            final(self).wf(),
    {
        let now = now_millis();
        self.update_ping_at(user_id, ping_ms, now);
    }

    /// Records the latency `ping_ms` measured to `user_id` at `now`, and
    /// takes the measurement as a sign of life of that member.
    pub fn update_ping_at(&mut self, user_id: u128, ping_ms: u64, now: i64)
        requires
            old(self).wf(),
        ensures
            final(self)@ == old(self)@.after_ping(user_id, ping_ms, now),
            final(self).wf(),
    {
        let record = PingRecord { user_id, ping_ms };
        match self.find_record(user_id) {
            Some(j) => {
                self.ping_measurements.set(j, record);
                assert forall|a: int, b: int|
                    0 <= a < b < self.ping_measurements.len() implies (
                #[trigger] self.ping_measurements[a]).user_id != (
                #[trigger] self.ping_measurements[b]).user_id by {
                    assert(self.ping_measurements[a].user_id == old(
                        self,
                    ).ping_measurements[a].user_id);
                    assert(self.ping_measurements[b].user_id == old(
                        self,
                    ).ping_measurements[b].user_id);
                }
            },
            None => {
                self.ping_measurements.push(record);
            },
        }
        self.see_online(user_id, now);
    }

    fn see_online(&mut self, user_id: u128, now: i64)
        requires
            old(self).wf(),
        ensures
            final(self)@ == old(self)@.after_online(user_id, now),
            final(self).wf(),
    {
        match self.find_user(user_id) {
            Some(i) => {
                self.users[i].is_online = true;
                self.users[i].last_seen = now;
                proof {
                    lemma_update_keeps_ids(old(self).users@, i as int, self.users[i as int]);
                }
                assert(self.users@ =~= seen_online(old(self).users@, user_id, now));
            },
            None => {},
        }
    }

    /// Marks a member online as of the current time. See
    /// [`Room::mark_user_online_at`].
    pub fn mark_user_online(&mut self, user_id: u128) -> (r: Result<(), RoomError>)
        requires
            old(self).wf(),
        ensures
            r is Ok,
            exists|now: i64| final(self)@ == #[trigger] old(self)@.after_online(user_id, now),
            final(self).wf(),
    {
        let now = now_millis();
        self.mark_user_online_at(user_id, now)
    }

    /// Marks member `user_id` online and last seen at `now`. Nothing changes
    /// where there is no such member.
    pub fn mark_user_online_at(&mut self, user_id: u128, now: i64) -> (r: Result<(), RoomError>)
        requires
            old(self).wf(),
        ensures
            r is Ok,
            final(self)@ == old(self)@.after_online(user_id, now),
            final(self).wf(),
    {
        self.see_online(user_id, now);
        Ok(())
    }

    /// Marks a member offline as of the current time. See
    /// [`Room::mark_user_offline_at`].
    pub fn mark_user_offline(&mut self, user_id: u128) -> (r: Result<(), RoomError>)
        requires
            old(self).wf(),
        ensures
            r is Ok,
            exists|now: i64| #[trigger] old(self)@.goes_offline(user_id, now, final(self)@),
            final(self).wf(),
    {
        let now = now_millis();
        self.mark_user_offline_at(user_id, now)
    }

    /// Marks member `user_id` offline. Where that member held the server
    /// role, the role is handed out anew as of `now`. Nothing changes where
    /// there is no such member.
    pub fn mark_user_offline_at(&mut self, user_id: u128, now: i64) -> (r: Result<(), RoomError>)
        requires
            old(self).wf(),
        ensures
            r is Ok,
            old(self)@.goes_offline(user_id, now, final(self)@),
            final(self).wf(),
    {
        match self.find_user(user_id) {
            Some(i) => {
                self.users[i].is_online = false;
                proof {
                    lemma_update_keeps_ids(old(self).users@, i as int, self.users[i as int]);
                }
                assert(self.users@ =~= marked_offline(old(self).users@, user_id));
                if self.is_user_server(user_id) {
                    self.elect_new_server_at(now);
                }
            },
            None => {},
        }
        Ok(())
    }

    /// Removes a member as of the current time. See
    /// [`Room::remove_user_at`].
    pub fn remove_user(&mut self, user_id: u128) -> (r: Result<(), RoomError>)
        requires
            old(self).wf(),
        ensures
            r is Ok,
            exists|now: i64| #[trigger] old(self)@.loses_member(user_id, now, final(self)@),
            final(self).wf(),
    {
        let now = now_millis();
        self.remove_user_at(user_id, now)
    }

    /// Removes member `user_id` and its address. Where that member held the
    /// server role, the role is handed out anew as of `now`. Nothing changes
    /// where there is no such member.
    pub fn remove_user_at(&mut self, user_id: u128, now: i64) -> (r: Result<(), RoomError>)
        requires
            old(self).wf(),
        ensures
            r is Ok,
            old(self)@.loses_member(user_id, now, final(self)@),
            final(self).wf(),
    {
        match self.find_user(user_id) {
            Some(i) => {
                let user = self.users.remove(i);
                proof {
                    lemma_remove_keeps_ids(old(self).users@, i as int);
                }
                let gone = user.address;
                let ghost keep = |a: PeerAddr| a != gone;
                let mut kept: Vec<PeerAddr> = Vec::new();
                let mut k: usize = 0;
                while k < self.peer_addresses.len()
                    invariant
                        k <= self.peer_addresses.len(),
                        keep == (|a: PeerAddr| a != gone),
                        kept@ == self.peer_addresses@.take(k as int).filter(keep),
                    decreases self.peer_addresses.len() - k,
                {
                    let a = self.peer_addresses[k];
                    proof {
                        let seen = self.peer_addresses@.take(k as int);
                        assert(self.peer_addresses@.take(k + 1) =~= seen.push(a));
                        seen.lemma_filter_push(a, keep);
                    }
                    if a != gone {
                        kept.push(a);
                    }
                    k += 1;
                }
                assert(self.peer_addresses@.take(k as int) =~= self.peer_addresses@);
                self.peer_addresses = kept;
                if self.is_user_server(user_id) {
                    self.elect_new_server_at(now);
                }
            },
            None => {},
        }
        Ok(())
    }

    /// Checks the server's health as of the current time. See
    /// [`Room::check_server_health_at`].
    pub fn check_server_health(&mut self) -> (healthy: bool)
        requires
            old(self).wf(),
        ensures
            exists|now: i64|
                healthy == #[trigger] old(self)@.server_is_healthy(now) && old(
                    self,
                )@.health_checked(now, final(self)@),
            final(self).wf(),
    {
        let now = now_millis();
        self.check_server_health_at(now)
    }

    /// Whether the server role is held by an online member last seen
    /// recently at `now`. Where it is not, the role is handed out anew and
    /// the answer is still `false`.
    pub fn check_server_health_at(&mut self, now: i64) -> (healthy: bool)
        requires
            old(self).wf(),
        ensures
            healthy == old(self)@.server_is_healthy(now),
            old(self)@.health_checked(now, final(self)@),
            final(self).wf(),
    {
        let healthy = match self.server_user_id {
            Some(server) => match self.find_user(server) {
                Some(i) => self.users[i].is_online && check_recent(now, self.users[i].last_seen),
                None => false,
            },
            None => false,
        };
        if !healthy {
            self.elect_new_server_at(now);
        }
        healthy
    }

    /// The name under which a newcomer who asks for `desired_name` joins.
    pub fn resolve_name_collision(&self, desired_name: String) -> (name: String)
        ensures
            resolves_to(self.users@, desired_name@, name@),
            !name_taken(self.users@, name@),
    {
        let mut taken = false;
        let mut i: usize = 0;
        while i < self.users.len()
            invariant
                i <= self.users.len(),
                taken <==> exists|k: int|
                    0 <= k < i && (#[trigger] self.users[k]).name@ == desired_name@,
            decreases self.users.len() - i,
        {
            if self.users[i].name == desired_name {
                taken = true;
            }
            i += 1;
        }
        if !taken {
            return desired_name;
        }
        let mut head = desired_name.clone();
        head.append("-");
        proof {
            reveal_strlit("-");
            assert(head@ =~= desired_name@.push('-'));
        }
        let ghost base = desired_name@;
        let ghost users = self.users@;
        let mut highest: Vec<u8> = Room::small_number(1);
        let mut i: usize = 0;
        while i < self.users.len()
            invariant
                i <= self.users.len(),
                users == self.users@,
                base == desired_name@,
                head@ == base.push('-'),
                are_digits(highest@),
                number(highest@) >= 1,
                forall|k: int|
                    0 <= k < i ==> suffix_demand((#[trigger] users[k]).name@, base) <= number(
                        highest@,
                    ),
                number(highest@) == 1 || exists|k: int|
                    0 <= k < i && suffix_demand((#[trigger] users[k]).name@, base) == number(
                        highest@,
                    ),
            decreases self.users.len() - i,
        {
            let existing = self.users[i].name.as_str();
            let demand: Vec<u8> = match strip_prefix(existing, head.as_str()) {
                Some(rest) => match read_digits(rest) {
                    Some(suffix) => successor(suffix),
                    None => Room::small_number(1),
                },
                None => if str_equal(existing, desired_name.as_str()) {
                    Room::small_number(2)
                } else {
                    Room::small_number(1)
                },
            };
            assert(number(demand@) == suffix_demand(users[i as int].name@, base)) by {
                if head@.is_prefix_of(existing@) {
                    assert(existing@ != base);
                }
            }
            if is_less(&highest, &demand) {
                highest = demand;
            }
            i += 1;
        }
        let digits = write_digits(&highest);
        let mut name = head;
        name.append(digits.as_str());
        proof {
            assert(is_next_suffix(users, base, number(highest@)));
            lemma_resolved_name_is_free(users, base, name@);
        }
        name
    }

    fn small_number(d: u8) -> (ds: Vec<u8>)
        requires
            d <= 9,
        ensures
            are_digits(ds@),
            number(ds@) == d,
    {
        let mut ds: Vec<u8> = Vec::new();
        ds.push(d);
        proof {
            lemma_number_push(Seq::<u8>::empty(), d);
            assert(ds@ =~= Seq::<u8>::empty().push(d));
        }
        ds
    }

    /// Admits `user`, renamed where the name is taken, and notes the address
    /// where it is new. A user whose identifier is already a member's is
    /// refused and nothing changes.
    pub fn add_user(&mut self, user: User) -> (r: Result<(), RoomError>)
        requires
            old(self).wf(),
        ensures
            final(self).wf(),
            r is Err <==> has_member(old(self)@.users, user.id),
            r is Err ==> r == Err::<(), RoomError>(RoomError::DuplicateUser) && final(self)@ == old(
                self,
            )@,
            r is Ok ==> old(self)@.admits(user, final(self)@),
            names_distinct(old(self)@.users) ==> names_distinct(final(self)@.users),
    {
        if self.find_user(user.id).is_some() {
            return Err(RoomError::DuplicateUser);
        }
        let User {
            id,
            name,
            avatar,
            address,
            audio_input_device,
            audio_output_device,
            is_online,
            last_seen,
            is_in_call,
        } = user;
        let name = self.resolve_name_collision(name);
        let joined = User {
            id,
            name,
            avatar,
            address,
            audio_input_device,
            audio_output_device,
            is_online,
            last_seen,
            is_in_call,
        };
        if !contains_addr(&self.peer_addresses, address) {
            self.peer_addresses.push(address);
        }
        self.users.push(joined);
        proof {
            if names_distinct(old(self).users@) {
                lemma_free_name_keeps_names_distinct(old(self).users@, joined);
            }
        }
        assert(ids_distinct(self.users@)) by {
            assert forall|a: int, b: int| 0 <= a < b < self.users.len() implies (
            #[trigger] self.users[a]).id != (#[trigger] self.users[b]).id by {
                assert(self.users[a] == old(self).users[a]);
                if b < old(self).users.len() {
                    assert(self.users[b] == old(self).users[b]);
                }
            }
        }
        assert(self.users@.drop_last() =~= old(self).users@);
        Ok(())
    }

    /// Sweeps the room as of the current time. See
    /// [`Room::cleanup_offline_users_at`].
    pub fn cleanup_offline_users(&mut self, offline_threshold_minutes: i64)
        requires
            old(self).wf(),
        ensures
            exists|now: i64| #[trigger]
                old(self)@.swept_to(offline_threshold_minutes, now, final(self)@),
            final(self).wf(),
    {
        let now = now_millis();
        self.cleanup_offline_users_at(offline_threshold_minutes, now);
    }

    /// Marks every online member offline who has been silent for more than
    /// `offline_threshold_minutes` at `now`, hands the server role out anew
    /// where its holder was among them, and drops the latency records of
    /// strangers and of members who are offline and have been silent for
    /// more than [`RECENT_MINUTES`].
    pub fn cleanup_offline_users_at(&mut self, offline_threshold_minutes: i64, now: i64)
        requires
            old(self).wf(),
        ensures
            old(self)@.swept_to(offline_threshold_minutes, now, final(self)@),
            final(self).wf(),
    {
        let ghost before = self.users@;
        let mut server_swept = false;
        let mut i: usize = 0;
        while i < self.users.len()
            invariant
                i <= self.users.len(),
                before == old(self).users@,
                self.users.len() == before.len(),
                forall|k: int|
                    0 <= k < i ==> #[trigger] self.users[k] == sweep_one(
                        before[k],
                        offline_threshold_minutes,
                        now,
                    ),
                forall|k: int| i <= k < before.len() ==> #[trigger] self.users[k] == before[k],
                server_swept <==> exists|k: int|
                    0 <= k < i && Some((#[trigger] before[k]).id) == self.server_user_id && is_stale(
                        before[k],
                        offline_threshold_minutes,
                        now,
                    ),
                self@ == (RoomView { users: self.users@, ..old(self)@ }),
            decreases self.users.len() - i,
        {
            if self.users[i].is_online && check_silence_exceeds(
                now,
                self.users[i].last_seen,
                offline_threshold_minutes,
            ) {
                self.users[i].is_online = false;
                if self.is_user_server(self.users[i].id) {
                    server_swept = true;
                }
            }
            i += 1;
        }
        let ghost users = swept(before, offline_threshold_minutes, now);
        assert(self.users@ =~= users);
        assert(ids_distinct(users)) by {
            assert forall|a: int, b: int| 0 <= a < b < users.len() implies (#[trigger] users[a]).id
                != (#[trigger] users[b]).id by {
                assert(users[a].id == before[a].id);
                assert(users[b].id == before[b].id);
            }
        }
        assert(server_swept == match old(self).server_user_id {
            Some(server) => sweeps_member(before, server, offline_threshold_minutes, now),
            None => false,
        });
        if server_swept {
            self.elect_new_server_at(now);
        }
        let ghost keep = |r: PingRecord| keeps_record(users, r, now);
        let ghost mut source: Seq<int> = Seq::empty();
        let mut kept: Vec<PingRecord> = Vec::new();
        let mut j: usize = 0;
        while j < self.ping_measurements.len()
            invariant
                j <= self.ping_measurements.len(),
                self.users@ == users,
                ids_distinct(users),
                keep == (|r: PingRecord| keeps_record(users, r, now)),
                kept@ == self.ping_measurements@.take(j as int).filter(keep),
                source.len() == kept.len(),
                forall|k: int|
                    0 <= k < kept.len() ==> 0 <= #[trigger] source[k] < j && kept[k]
                        == self.ping_measurements[source[k]],
                forall|a: int, b: int|
                    0 <= a < b < source.len() ==> #[trigger] source[a] < #[trigger] source[b],
            decreases self.ping_measurements.len() - j,
        {
            let record = self.ping_measurements[j];
            let keeps = match self.find_user(record.user_id) {
                Some(m) => self.users[m].is_online || !check_silence_exceeds(
                    now,
                    self.users[m].last_seen,
                    RECENT_MINUTES,
                ),
                None => false,
            };
            proof {
                let seen = self.ping_measurements@.take(j as int);
                assert(self.ping_measurements@.take(j + 1) =~= seen.push(record));
                seen.lemma_filter_push(record, keep);
                assert(keeps == keeps_record(users, record, now));
            }
            if keeps {
                kept.push(record);
                proof {
                    source = source.push(j as int);
                }
            }
            j += 1;
        }
        assert(self.ping_measurements@.take(j as int) =~= self.ping_measurements@);
        assert(records_distinct(kept@)) by {
            assert forall|a: int, b: int| 0 <= a < b < kept.len() implies (#[trigger] kept[a]).user_id
                != (#[trigger] kept[b]).user_id by {
                assert(source[a] < source[b]);
                assert(self.ping_measurements[source[a]].user_id
                    != self.ping_measurements[source[b]].user_id);
            }
        }
        self.ping_measurements = kept;
    }

    /// The members' addresses, lowest known latency first; members without
    /// a measurement come last, and equal latencies keep join order.
    pub fn get_ordered_peer_list(&self) -> (list: Vec<PeerAddr>)
        ensures
            exists|order: Seq<usize>| #[trigger]
                is_stable_order(peer_keys(self@.users, self@.ping_measurements), order) && list@
                    == arrange(member_addresses(self@.users), order),
    {
        let ghost keys_spec = peer_keys(self@.users, self@.ping_measurements);
        let mut keys: Vec<i128> = Vec::new();
        let mut i: usize = 0;
        while i < self.users.len()
            invariant
                i <= self.users.len(),
                keys.len() == i,
                keys_spec == peer_keys(self@.users, self@.ping_measurements),
                forall|k: int| 0 <= k < i ==> keys[k] == keys_spec[k],
            decreases self.users.len() - i,
        {
            let ping = match self.find_record(self.users[i].id) {
                Some(j) => self.ping_measurements[j].ping_ms,
                None => NO_PING,
            };
            keys.push(ping as i128);
            i += 1;
        }
        assert(keys@ =~= keys_spec);
        let order = stable_order(&keys);
        let ghost addresses = member_addresses(self@.users);
        let mut list: Vec<PeerAddr> = Vec::new();
        let mut i: usize = 0;
        while i < order.len()
            invariant
                i <= order.len(),
                list.len() == i,
                is_stable_order(keys_spec, order@),
                keys_spec.len() == self.users.len(),
                addresses == member_addresses(self@.users),
                forall|k: int| 0 <= k < i ==> list[k] == addresses[order[k] as int],
            decreases order.len() - i,
        {
            list.push(self.users[order[i]].address);
            i += 1;
        }
        assert(list@ =~= arrange(addresses, order@));
        list
    }

    /// Puts the messages in ascending order of timestamp; messages of equal
    /// timestamp keep their order, and none is lost or added.
    pub fn sync_messages(&mut self)
        ensures
            exists|order: Seq<usize>| #[trigger]
                is_stable_order(message_keys(old(self)@.messages), order) && final(self)@ == (
                RoomView { messages: arrange(old(self)@.messages, order), ..old(self)@ }),
            in_time_order(final(self)@.messages),
            final(self)@.messages.len() == old(self)@.messages.len(),
            old(self).wf() ==> final(self).wf(),
    {
        let ghost before = self.messages@;
        let ghost keys_spec = message_keys(before);
        let mut keys: Vec<i128> = Vec::new();
        let mut i: usize = 0;
        while i < self.messages.len()
            invariant
                i <= self.messages.len(),
                keys.len() == i,
                before == self.messages@,
                keys_spec == message_keys(before),
                forall|k: int| 0 <= k < i ==> keys[k] == keys_spec[k],
            decreases self.messages.len() - i,
        {
            keys.push(self.messages[i].timestamp as i128);
            i += 1;
        }
        assert(keys@ =~= keys_spec);
        let order = stable_order(&keys);
        let mut sorted: Vec<ChatMessage> = Vec::new();
        let mut i: usize = 0;
        while i < order.len()
            invariant
                i <= order.len(),
                sorted.len() == i,
                before == self.messages@,
                is_stable_order(keys_spec, order@),
                keys_spec.len() == before.len(),
                forall|k: int| 0 <= k < i ==> sorted[k] == before[order[k] as int],
            decreases order.len() - i,
        {
            sorted.push(self.messages[order[i]].clone());
            i += 1;
        }
        assert(sorted@ =~= arrange(before, order@));
        assert(in_time_order(sorted@)) by {
            assert forall|a: int, b: int| 0 <= a < b < sorted.len() implies (
            #[trigger] sorted[a]).timestamp <= (#[trigger] sorted[b]).timestamp by {
                assert(precedes(keys_spec, order[a] as int, order[b] as int));
            }
        }
        self.messages = sorted;
        assert(is_stable_order(message_keys(old(self)@.messages), order@));
        assert(self@.messages == arrange(old(self)@.messages, order@));
        assert(self@ == (RoomView { messages: arrange(old(self)@.messages, order@), ..old(self)@ }));
    }

    /// Whether the room is valid; see [`RoomView::wf`].
    pub fn is_well_formed(&self) -> (r: bool)
        ensures
            r == self.wf(),
    {
        if self.messages.len() > MAX_MESSAGES {
            return false;
        }
        let mut b: usize = 0;
        while b < self.users.len()
            invariant
                b <= self.users.len(),
                forall|i: int, j: int|
                    0 <= i < j < b ==> (#[trigger] self.users[i]).id != (#[trigger] self.users[j]).id,
            decreases self.users.len() - b,
        {
            let mut a: usize = 0;
            while a < b
                invariant
                    a <= b < self.users.len(),
                    forall|i: int| 0 <= i < a ==> (#[trigger] self.users[i]).id != self.users[b as int].id,
                decreases b - a,
            {
                if self.users[a].id == self.users[b].id {
                    return false;
                }
                a += 1;
            }
            b += 1;
        }
        let mut b: usize = 0;
        while b < self.ping_measurements.len()
            invariant
                b <= self.ping_measurements.len(),
                ids_distinct(self.users@),
                forall|i: int, j: int|
                    0 <= i < j < b ==> (#[trigger] self.ping_measurements[i]).user_id != (
                    #[trigger] self.ping_measurements[j]).user_id,
            decreases self.ping_measurements.len() - b,
        {
            let mut a: usize = 0;
            while a < b
                invariant
                    a <= b < self.ping_measurements.len(),
                    forall|i: int|
                        0 <= i < a ==> (#[trigger] self.ping_measurements[i]).user_id
                            != self.ping_measurements[b as int].user_id,
                decreases b - a,
            {
                if self.ping_measurements[a].user_id == self.ping_measurements[b].user_id {
                    return false;
                }
                a += 1;
            }
            b += 1;
        }
        true
    }

    /// Sets the transport kind of the room.
    pub fn switch_protocol(&mut self, new_protocol: Protocol)
        ensures
            final(self)@ == (RoomView { protocol: new_protocol, ..old(self)@ }),
    {
        self.protocol = new_protocol;
    }

    /// Whether `user_id` currently holds the server role.
    pub fn is_user_server(&self, user_id: u128) -> (r: bool)
        ensures
            r == (self.server_user_id == Some(user_id)),
    {
        match self.server_user_id {
            Some(id) => id == user_id,
            None => false,
        }
    }

    /// The position of the member with identifier `id`.
    pub fn find_user(&self, id: u128) -> (r: Option<usize>)
        ensures
            match r {
                Some(i) => is_first_with_id(self.users@, id, i as int) && member_position(
                    self.users@,
                    id,
                ) == Some(i as int),
                None => !has_member(self.users@, id) && member_position(self.users@, id) is None,
            },
    {
        let mut i: usize = 0;
        while i < self.users.len()
            invariant
                i <= self.users.len(),
                forall|k: int| 0 <= k < i ==> self.users[k].id != id,
            decreases self.users.len() - i,
        {
            if self.users[i].id == id {
                proof {
                    lemma_member_position(self.users@, id, i as int);
                }
                return Some(i);
            }
            i += 1;
        }
        proof {
            lemma_no_member_position(self.users@, id);
        }
        None
    }

    /// The position of the latency record of user `id`.
    pub fn find_record(&self, id: u128) -> (r: Option<usize>)
        ensures
            match r {
                Some(j) => is_first_record_of(self.ping_measurements@, id, j as int)
                    && record_position(self.ping_measurements@, id) == Some(j as int),
                None => record_position(self.ping_measurements@, id) is None && forall|k: int|
                    0 <= k < self.ping_measurements.len() ==> self.ping_measurements[k].user_id
                        != id,
            },
    {
        let mut j: usize = 0;
        while j < self.ping_measurements.len()
            invariant
                j <= self.ping_measurements.len(),
                forall|k: int| 0 <= k < j ==> self.ping_measurements[k].user_id != id,
            decreases self.ping_measurements.len() - j,
        {
            if self.ping_measurements[j].user_id == id {
                proof {
                    lemma_record_position(self.ping_measurements@, id, j as int);
                }
                return Some(j);
            }
            j += 1;
        }
        assert(record_position(self.ping_measurements@, id) is None) by {
            if exists|c: int| is_first_record_of(self.ping_measurements@, id, c) {
                let c = choose|c: int| is_first_record_of(self.ping_measurements@, id, c);
                assert(self.ping_measurements[c].user_id == id);
            }
        }
        None
    }

    /// The member with identifier `id`, if there is one.
    pub fn get_user(&self, id: u128) -> (r: Option<&User>)
        ensures
            match r {
                Some(u) => u.id == id && self.users@.contains(*u),
                None => !has_member(self.users@, id),
            },
    {
        match self.find_user(id) {
            Some(i) => Some(&self.users[i]),
            None => None,
        }
    }

    /// The member who holds the server role, if the role is assigned to a
    /// member.
    pub fn get_server_user(&self) -> (r: Option<&User>)
        ensures
            match r {
                Some(u) => self.server_user_id == Some(u.id) && self.users@.contains(*u),
                None => self.server_user_id is None || !has_member(
                    self.users@,
                    self.server_user_id->0,
                ),
            },
    {
        match self.server_user_id {
            Some(id) => self.get_user(id),
            None => None,
        }
    }
}

} // verus!
