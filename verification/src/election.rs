//! Who serves a room: the rule of the election.

use vstd::prelude::*;
use crate::room::{PingRecord, NO_PING};
use crate::time::is_recent;
use crate::user::User;

verus! {

/// Whether the latency record at position `j` belongs to a member who may
/// be elected at `now`: a measurement is known, the member is online, and
/// the member was last seen recently.
pub open spec fn is_live_candidate(
    users: Seq<User>,
    pings: Seq<PingRecord>,
    j: int,
    now: i64,
) -> bool {
    &&& 0 <= j < pings.len()
    &&& pings[j].ping_ms < NO_PING
    &&& exists|i: int|
        0 <= i < users.len() && (#[trigger] users[i]).id == pings[j].user_id && users[i].is_online
            && is_recent(now, users[i].last_seen)
}

/// Whether the record at `j` is the candidate with the lowest latency; of
/// candidates with equal latency the one measured first stands.
pub open spec fn is_best_candidate(
    users: Seq<User>,
    pings: Seq<PingRecord>,
    j: int,
    now: i64,
) -> bool {
    &&& is_live_candidate(users, pings, j, now)
    &&& forall|k: int| #[trigger]
        is_live_candidate(users, pings, k, now) ==> pings[j].ping_ms < pings[k].ping_ms || (
        pings[j].ping_ms == pings[k].ping_ms && j <= k)
}

/// Whether the member at position `i` is the first online member in join
/// order.
pub open spec fn is_first_online(users: Seq<User>, i: int) -> bool {
    &&& 0 <= i < users.len()
    &&& users[i].is_online
    &&& forall|k: int| 0 <= k < i ==> !(#[trigger] users[k]).is_online
}

/// The outcome of an election at `now`: the best candidate; without any
/// candidate, the first online member; without any online member, nobody.
pub open spec fn elects(
    users: Seq<User>,
    pings: Seq<PingRecord>,
    now: i64,
    winner: Option<u128>,
) -> bool {
    if exists|j: int| is_live_candidate(users, pings, j, now) {
        exists|j: int| is_best_candidate(users, pings, j, now) && winner == Some(pings[j].user_id)
    } else if exists|i: int| 0 <= i < users.len() && (#[trigger] users[i]).is_online {
        exists|i: int| is_first_online(users, i) && winner == Some(users[i].id)
    } else {
        winner is None
    }
}

/// An election has one outcome.
pub proof fn lemma_election_is_deterministic(
    users: Seq<User>,
    pings: Seq<PingRecord>,
    now: i64,
    a: Option<u128>,
    b: Option<u128>,
)
    requires
        elects(users, pings, now, a),
        elects(users, pings, now, b),
    ensures
        a == b,
{
    if exists|j: int| is_live_candidate(users, pings, j, now) {
        let ja = choose|j: int| is_best_candidate(users, pings, j, now) && a == Some(pings[j].user_id);
        let jb = choose|j: int| is_best_candidate(users, pings, j, now) && b == Some(pings[j].user_id);
        assert(ja == jb);
    } else if exists|i: int| 0 <= i < users.len() && (#[trigger] users[i]).is_online {
        let ia = choose|i: int| is_first_online(users, i) && a == Some(users[i].id);
        let ib = choose|i: int| is_first_online(users, i) && b == Some(users[i].id);
        assert(ia == ib);
    }
}

/// Whoever is elected is an online member.
pub proof fn lemma_elected_is_online(
    users: Seq<User>,
    pings: Seq<PingRecord>,
    now: i64,
    winner: u128,
)
    requires
        elects(users, pings, now, Some(winner)),
    ensures
        exists|i: int| 0 <= i < users.len() && (#[trigger] users[i]).id == winner && users[i].is_online,
{
    if exists|j: int| is_live_candidate(users, pings, j, now) {
        let j = choose|j: int|
            is_best_candidate(users, pings, j, now) && Some(winner) == Some(pings[j].user_id);
        let i = choose|i: int|
            0 <= i < users.len() && (#[trigger] users[i]).id == pings[j].user_id
                && users[i].is_online && is_recent(now, users[i].last_seen);
        assert(users[i].id == winner && users[i].is_online);
    } else {
        let i = choose|i: int| is_first_online(users, i) && Some(winner) == Some(users[i].id);
        assert(users[i].id == winner && users[i].is_online);
    }
}

} // verus!
