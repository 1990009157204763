//! What holds of every room, whatever is done to it.

use vstd::prelude::*;
use crate::election::lemma_elected_is_online;
use crate::room::{
    has_member, is_first_with_id, is_stale, marked_offline, member_position, seen_online,
    sweep_one, sweeps_member, swept, RoomView,
};
use crate::user::User;

verus! {

/// Whether the server role, if it is assigned, is held by an online member.
pub open spec fn server_is_live(room: RoomView) -> bool {
    match room.server_user_id {
        Some(server) => exists|i: int|
            0 <= i < room.users.len() && (#[trigger] room.users[i]).id == server
                && room.users[i].is_online,
        None => true,
    }
}

/// After an election the server role is held by an online member, or by
/// nobody.
pub proof fn lemma_election_leaves_server_live(before: RoomView, now: i64, after: RoomView)
    requires
        before.reelects(now, after),
    ensures
        server_is_live(after),
{
    if let Some(winner) = after.server_user_id {
        lemma_elected_is_online(before.users, before.ping_measurements, now, winner);
    }
}

/// A member going offline never leaves the server role with an offline
/// member: either another member held it, or it is handed out anew.
pub proof fn lemma_going_offline_keeps_server_live(
    before: RoomView,
    id: u128,
    now: i64,
    after: RoomView,
)
    requires
        before.wf(),
        server_is_live(before),
        before.goes_offline(id, now, after),
    ensures
        server_is_live(after),
{
    let marked = RoomView { users: marked_offline(before.users, id), ..before };
    if has_member(before.users, id) && before.server_user_id == Some(id) {
        lemma_election_leaves_server_live(marked, now, after);
    } else if let Some(server) = before.server_user_id {
        let i = choose|i: int|
            0 <= i < before.users.len() && (#[trigger] before.users[i]).id == server
                && before.users[i].is_online;
        match member_position(before.users, id) {
            Some(p) => {
                assert(is_first_with_id(before.users, id, p));
                assert(p != i);
                assert(after.users[i] == before.users[i]);
            },
            None => {},
        }
        assert(after.users[i].id == server && after.users[i].is_online);
    }
}

/// A member leaving never leaves the server role with someone who is gone.
pub proof fn lemma_leaving_keeps_server_live(before: RoomView, id: u128, now: i64, after: RoomView)
    requires
        before.wf(),
        server_is_live(before),
        before.loses_member(id, now, after),
    ensures
        server_is_live(after),
{
    match member_position(before.users, id) {
        Some(p) => {
            assert(is_first_with_id(before.users, id, p));
            let gone = before.users[p].address;
            let reduced = RoomView {
                users: before.users.remove(p),
                peer_addresses: before.peer_addresses.filter(
                    |a: crate::addr::PeerAddr| a != gone,
                ),
                ..before
            };
            if before.server_user_id == Some(id) {
                lemma_election_leaves_server_live(reduced, now, after);
            } else if let Some(server) = before.server_user_id {
                let i = choose|i: int|
                    0 <= i < before.users.len() && (#[trigger] before.users[i]).id == server
                        && before.users[i].is_online;
                assert(i != p);
                let j = if i < p {
                    i
                } else {
                    i - 1
                };
                assert(after.users[j] == before.users[i]);
                assert(after.users[j].id == server && after.users[j].is_online);
            }
        },
        None => {},
    }
}

/// A sweep never leaves the server role with a member it marked offline.
pub proof fn lemma_sweep_keeps_server_live(
    before: RoomView,
    threshold_minutes: i64,
    now: i64,
    after: RoomView,
)
    requires
        before.wf(),
        server_is_live(before),
        before.swept_to(threshold_minutes, now, after),
    ensures
        server_is_live(after),
{
    let users = swept(before.users, threshold_minutes, now);
    match before.server_user_id {
        Some(server) => {
            if sweeps_member(before.users, server, threshold_minutes, now) {
                if let Some(winner) = after.server_user_id {
                    lemma_elected_is_online(users, before.ping_measurements, now, winner);
                }
            } else {
                let i = choose|i: int|
                    0 <= i < before.users.len() && (#[trigger] before.users[i]).id == server
                        && before.users[i].is_online;
                assert(!is_stale(before.users[i], threshold_minutes, now));
                assert(users[i] == sweep_one(before.users[i], threshold_minutes, now));
                assert(after.users[i].id == server && after.users[i].is_online);
            }
        },
        None => {},
    }
}

/// After a health check the server role is held by an online member, or by
/// nobody, whatever was the case before.
pub proof fn lemma_health_check_leaves_server_live(before: RoomView, now: i64, after: RoomView)
    requires
        before.health_checked(now, after),
    ensures
        server_is_live(after),
{
    if before.server_is_healthy(now) {
        let server = before.server_user_id->0;
        let i = member_position(before.users, server)->0;
        assert(is_first_with_id(before.users, server, i));
        assert(before.users[i].id == server && before.users[i].is_online);
    } else {
        lemma_election_leaves_server_live(before, now, after);
    }
}

/// A sign of life of any member leaves the server as live as it was.
pub proof fn lemma_sign_of_life_keeps_server_live(before: RoomView, id: u128, now: i64)
    requires
        server_is_live(before),
    ensures
        server_is_live(before.after_online(id, now)),
        forall|ping_ms: u64| server_is_live(#[trigger] before.after_ping(id, ping_ms, now)),
{
    let after = seen_online(before.users, id, now);
    if let Some(server) = before.server_user_id {
        let i = choose|i: int|
            0 <= i < before.users.len() && (#[trigger] before.users[i]).id == server
                && before.users[i].is_online;
        match member_position(before.users, id) {
            Some(p) => {
                assert(is_first_with_id(before.users, id, p));
            },
            None => {},
        }
        assert(after[i].id == server && after[i].is_online);
        assert forall|ping_ms: u64| server_is_live(
            #[trigger] before.after_ping(id, ping_ms, now),
        ) by {
            let room = before.after_ping(id, ping_ms, now);
            assert(room.users[i].id == server && room.users[i].is_online);
        }
    }
}

/// Admitting a user leaves the server as live as it was.
pub proof fn lemma_admission_keeps_server_live(before: RoomView, user: User, after: RoomView)
    requires
        server_is_live(before),
        before.admits(user, after),
    ensures
        server_is_live(after),
{
    if let Some(server) = before.server_user_id {
        let i = choose|i: int|
            0 <= i < before.users.len() && (#[trigger] before.users[i]).id == server
                && before.users[i].is_online;
        assert(after.users[i] == before.users[i]);
        assert(after.users[i].id == server && after.users[i].is_online);
    }
}

} // verus!
