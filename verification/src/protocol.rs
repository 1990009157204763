//! The phases of a protocol switch, one switch per room at a time.

use vstd::prelude::*;
use crate::addr::PeerAddr;
use crate::networking::{protocol_notice, is_protocol_notice, NetworkMessage, Protocol};
use crate::ident::is_random_id;
use crate::time::now_millis;

verus! {

/// How long acknowledgments of a preparation notice are waited for, in
/// seconds. When the time is up the switch goes on with the peers as they
/// are.
pub const ACK_TIMEOUT_SECS: u64 = 10;

/// How long all sides are given to arm themselves between preparing and
/// reconnecting, in milliseconds.
pub const SWITCH_PAUSE_MILLIS: u64 = 1000;

/// How long a finished switch is kept for observers, in milliseconds.
pub const FINISHED_KEPT_MILLIS: i64 = 3_600_000;

/// Why a switch failed.
#[derive(Clone, Copy, Debug, PartialEq, Eq, Structural)]
pub enum SwitchFailure {
    /// The preparation notice could not be sent to this peer.
    NotifyFailed { peer: PeerAddr },
    /// There were peers to reconnect to, and none was reached.
    NoPeerReconnected,
    /// The switch was cancelled.
    Cancelled,
}

/// The phase a switch is in.
#[derive(Clone, Copy, Debug, PartialEq, Eq, Structural)]
pub enum ProtocolSwitchState {
    Idle,
    Preparing,
    Switching,
    Reconnecting,
    Complete,
    Failed(SwitchFailure),
}

/// A switch of one room and how far it has come.
#[derive(Debug)]
pub struct ProtocolSwitchEvent {
    pub room_id: u128,
    pub from_protocol: Protocol,
    pub to_protocol: Protocol,
    pub state: ProtocolSwitchState,
    pub affected_peers: Vec<PeerAddr>,
    pub timestamp: i64,
}

/// A [`ProtocolSwitchEvent`] as a mathematical value.
pub struct SwitchEventView {
    pub room_id: u128,
    pub from_protocol: Protocol,
    pub to_protocol: Protocol,
    pub state: ProtocolSwitchState,
    pub affected_peers: Seq<PeerAddr>,
    pub timestamp: i64,
}

impl View for ProtocolSwitchEvent {
    type V = SwitchEventView;

    open spec fn view(&self) -> SwitchEventView {
        SwitchEventView {
            room_id: self.room_id,
            from_protocol: self.from_protocol,
            to_protocol: self.to_protocol,
            state: self.state,
            affected_peers: self.affected_peers@,
            timestamp: self.timestamp,
        }
    }
}

impl Clone for ProtocolSwitchEvent {
    fn clone(&self) -> (r: Self)
        ensures
            r@ == self@,
    {
        ProtocolSwitchEvent {
            room_id: self.room_id,
            from_protocol: self.from_protocol,
            to_protocol: self.to_protocol,
            state: self.state,
            affected_peers: self.affected_peers.clone(),
            timestamp: self.timestamp,
        }
    }
}

/// Why a switch was not begun.
#[derive(Clone, Copy, Debug, PartialEq, Eq, Structural)]
pub enum SwitchError {
    /// The room has a switch that has neither completed nor failed.
    SwitchInProgress,
}

/// What the caller reports back to the coordinator.
#[derive(Clone, Copy, Debug, PartialEq, Eq, Structural)]
pub enum SwitchInput {
    /// Every affected peer was sent the notice and the wait for
    /// acknowledgments is over.
    Prepared,
    /// The notice could not be sent to this peer; later peers were not
    /// tried.
    PrepareFailed { peer: PeerAddr },
    /// The pause is over.
    PauseOver,
    /// Reconnecting was tried with every affected peer and reached this
    /// many.
    Reconnected { reached: usize },
}

/// What the caller is to do next.
#[derive(Clone, Copy, Debug, PartialEq, Eq, Structural)]
pub enum SwitchAction {
    /// Send each affected peer the preparation notice, stopping at the first
    /// that cannot be sent, then wait up to [`ACK_TIMEOUT_SECS`] for
    /// acknowledgments.
    Prepare,
    /// Pause for [`SWITCH_PAUSE_MILLIS`].
    Pause,
    /// Reconnect to every affected peer under the new protocol, trying each
    /// whatever became of the others.
    Reconnect,
    /// The switch is complete.
    Finish,
    /// The switch has failed.
    Abort,
    /// The report fits no switch in its present phase; nothing changed.
    Ignore,
}

/// Whether a phase is final.
pub open spec fn is_terminal(state: ProtocolSwitchState) -> bool {
    state is Complete || state is Failed
}

/// The phase that follows `state` on the report `input`, for a switch that
/// affects `peers` peers, and what is to be done then. A report that the
/// phase does not wait for changes nothing.
pub open spec fn switch_rule(state: ProtocolSwitchState, input: SwitchInput, peers: nat) -> (
    ProtocolSwitchState,
    SwitchAction,
) {
    match (state, input) {
        (ProtocolSwitchState::Preparing, SwitchInput::Prepared) => (
            ProtocolSwitchState::Switching,
            SwitchAction::Pause,
        ),
        (ProtocolSwitchState::Preparing, SwitchInput::PrepareFailed { peer }) => (
            ProtocolSwitchState::Failed(SwitchFailure::NotifyFailed { peer }),
            SwitchAction::Abort,
        ),
        (ProtocolSwitchState::Switching, SwitchInput::PauseOver) => (
            ProtocolSwitchState::Reconnecting,
            SwitchAction::Reconnect,
        ),
        (ProtocolSwitchState::Reconnecting, SwitchInput::Reconnected { reached }) => if peers > 0
            && reached == 0 {
            (ProtocolSwitchState::Failed(SwitchFailure::NoPeerReconnected), SwitchAction::Abort)
        } else {
            (ProtocolSwitchState::Complete, SwitchAction::Finish)
        },
        _ => (state, SwitchAction::Ignore),
    }
}

/// Whether position `i` holds the first switch of room `room_id`.
pub open spec fn is_first_switch_of(switches: Seq<SwitchEventView>, room_id: u128, i: int) -> bool {
    &&& 0 <= i < switches.len()
    &&& switches[i].room_id == room_id
    &&& forall|k: int| 0 <= k < i ==> (#[trigger] switches[k]).room_id != room_id
}

/// The position of the switch of room `room_id`.
pub open spec fn switch_position(switches: Seq<SwitchEventView>, room_id: u128) -> Option<int> {
    if exists|i: int| is_first_switch_of(switches, room_id, i) {
        Some(choose|i: int| is_first_switch_of(switches, room_id, i))
    } else {
        None
    }
}

/// The first switch of room `room_id` stands at `i`.
pub proof fn lemma_switch_position(switches: Seq<SwitchEventView>, room_id: u128, i: int)
    requires
        is_first_switch_of(switches, room_id, i),
    ensures
        switch_position(switches, room_id) == Some(i),
{
    let c = choose|c: int| is_first_switch_of(switches, room_id, c);
    assert(is_first_switch_of(switches, room_id, c));
    assert(c == i) by {
        if c < i {
            assert(switches[c].room_id != room_id);
        }
        if i < c {
            assert(switches[i].room_id != room_id);
        }
    }
}

/// Whether room `room_id` has a switch that is neither complete nor failed.
pub open spec fn has_active_switch(switches: Seq<SwitchEventView>, room_id: u128) -> bool {
    match switch_position(switches, room_id) {
        Some(i) => !is_terminal(switches[i].state),
        None => false,
    }
}

/// The switches with `event` in the place of its room's older switch, or at
/// the end.
pub open spec fn with_switch(switches: Seq<SwitchEventView>, event: SwitchEventView) -> Seq<
    SwitchEventView,
> {
    match switch_position(switches, event.room_id) {
        Some(i) => switches.update(i, event),
        None => switches.push(event),
    }
}

/// Whether a switch is kept by a clean-up at `now`: it is still running, or
/// it finished no longer than [`FINISHED_KEPT_MILLIS`] ago.
pub open spec fn is_kept(event: SwitchEventView, now: i64) -> bool {
    !is_terminal(event.state) || event.timestamp as int >= now as int - FINISHED_KEPT_MILLIS as int
}

/// The views of a list of events.
pub open spec fn event_views(events: Seq<ProtocolSwitchEvent>) -> Seq<SwitchEventView> {
    events.map_values(|e: ProtocolSwitchEvent| e@)
}

/// The switches that are neither complete nor failed, in their order.
pub open spec fn active_ones(switches: Seq<SwitchEventView>) -> Seq<SwitchEventView> {
    switches.filter(|e: SwitchEventView| !is_terminal(e.state))
}

/// The switches that a clean-up at `now` keeps.
pub open spec fn kept_ones(switches: Seq<SwitchEventView>, now: i64) -> Seq<SwitchEventView> {
    switches.filter(|e: SwitchEventView| is_kept(e, now))
}

/// No room has two switches.
pub open spec fn rooms_distinct(switches: Seq<SwitchEventView>) -> bool {
    forall|i: int, j: int|
        0 <= i < j < switches.len() ==> (#[trigger] switches[i]).room_id != (
        #[trigger] switches[j]).room_id
}

/// The coordinator: the latest switch of each room, and the events
/// published for observers that nobody has taken yet.
#[derive(Debug)]
pub struct ProtocolManager {
    pub current_switches: Vec<ProtocolSwitchEvent>,
    pub published: Vec<ProtocolSwitchEvent>,
}

/// A [`ProtocolManager`] as a mathematical value.
pub struct CoordinatorView {
    pub switches: Seq<SwitchEventView>,
    pub published: Seq<SwitchEventView>,
}

impl View for ProtocolManager {
    type V = CoordinatorView;

    open spec fn view(&self) -> CoordinatorView {
        CoordinatorView {
            switches: event_views(self.current_switches@),
            published: event_views(self.published@),
        }
    }
}

impl CoordinatorView {
    /// The validity of the coordinator: no room has two switches.
    pub open spec fn wf(self) -> bool {
        rooms_distinct(self.switches)
    }

    /// The coordinator after the switch of room `room_id` was set to `state`
    /// at `now` and published. Nothing changes where the room has no switch.
    pub open spec fn with_state(self, room_id: u128, state: ProtocolSwitchState, now: i64) -> CoordinatorView {
        match switch_position(self.switches, room_id) {
            Some(i) => {
                let event = SwitchEventView { state, timestamp: now, ..self.switches[i] };
                CoordinatorView {
                    switches: self.switches.update(i, event),
                    published: self.published.push(event),
                }
            },
            None => self,
        }
    }

    /// The coordinator after a switch of room `room_id` was begun at `now`:
    /// the new switch stands in the room's place and is published twice, as
    /// begun and as preparing.
    pub open spec fn with_begun(
        self,
        room_id: u128,
        from_protocol: Protocol,
        to_protocol: Protocol,
        peers: Seq<PeerAddr>,
        now: i64,
    ) -> CoordinatorView {
        let event = SwitchEventView {
            room_id,
            from_protocol,
            to_protocol,
            state: ProtocolSwitchState::Preparing,
            affected_peers: peers,
            timestamp: now,
        };
        CoordinatorView {
            switches: with_switch(self.switches, event),
            published: self.published.push(event).push(event),
        }
    }

    /// The coordinator after the report `input` on the switch of room
    /// `room_id` was taken in at `now`, and what is to be done then.
    pub open spec fn advanced(self, room_id: u128, input: SwitchInput, now: i64) -> (
        CoordinatorView,
        SwitchAction,
    ) {
        match switch_position(self.switches, room_id) {
            Some(i) => {
                let (state, action) = switch_rule(
                    self.switches[i].state,
                    input,
                    self.switches[i].affected_peers.len(),
                );
                if action == SwitchAction::Ignore {
                    (self, action)
                } else {
                    (self.with_state(room_id, state, now), action)
                }
            },
            None => (self, SwitchAction::Ignore),
        }
    }
}

impl ProtocolManager {
    /// The validity of the coordinator; see [`CoordinatorView::wf`].
    pub open spec fn wf(&self) -> bool {
        self@.wf()
    }

    /// A coordinator without switches.
    pub fn new() -> (m: ProtocolManager)
        ensures
            m@.switches == Seq::<SwitchEventView>::empty(),
            m@.published == Seq::<SwitchEventView>::empty(),
            m.wf(),
    {
        let m = ProtocolManager { current_switches: Vec::new(), published: Vec::new() };
        assert(m@.switches =~= Seq::empty());
        assert(m@.published =~= Seq::empty());
        m
    }

    /// Whether the coordinator is valid; see [`CoordinatorView::wf`].
    pub fn is_well_formed(&self) -> (r: bool)
        ensures
            r == self.wf(),
    {
        let ghost views = self@.switches;
        let mut b: usize = 0;
        while b < self.current_switches.len()
            invariant
                b <= self.current_switches.len(),
                views == event_views(self.current_switches@),
                forall|i: int, j: int|
                    0 <= i < j < b ==> (#[trigger] views[i]).room_id != (#[trigger] views[j]).room_id,
            decreases self.current_switches.len() - b,
        {
            let mut a: usize = 0;
            while a < b
                invariant
                    a <= b < self.current_switches.len(),
                    views == event_views(self.current_switches@),
                    forall|i: int| 0 <= i < a ==> (#[trigger] views[i]).room_id != views[b as int].room_id,
                decreases b - a,
            {
                if self.current_switches[a].room_id == self.current_switches[b].room_id {
                    assert(views[a as int].room_id == views[b as int].room_id);
                    return false;
                }
                assert(views[a as int].room_id != views[b as int].room_id);
                a += 1;
            }
            b += 1;
        }
        true
    }

    /// The position of the switch of room `room_id`.
    pub fn find_switch(&self, room_id: u128) -> (r: Option<usize>)
        ensures
            match r {
                Some(i) => is_first_switch_of(self@.switches, room_id, i as int) && switch_position(
                    self@.switches,
                    room_id,
                ) == Some(i as int) && i < self.current_switches.len(),
                None => switch_position(self@.switches, room_id) is None,
            },
    {
        let ghost views = self@.switches;
        let mut i: usize = 0;
        while i < self.current_switches.len()
            invariant
                i <= self.current_switches.len(),
                views == event_views(self.current_switches@),
                forall|k: int| 0 <= k < i ==> (#[trigger] views[k]).room_id != room_id,
            decreases self.current_switches.len() - i,
        {
            if self.current_switches[i].room_id == room_id {
                proof {
                    assert(views[i as int].room_id == room_id);
                    lemma_switch_position(views, room_id, i as int);
                }
                return Some(i);
            }
            assert(views[i as int].room_id != room_id);
            i += 1;
        }
        assert(switch_position(views, room_id) is None) by {
            if exists|c: int| is_first_switch_of(views, room_id, c) {
                let c = choose|c: int| is_first_switch_of(views, room_id, c);
                assert(views[c].room_id == room_id);
            }
        }
        None
    }

    /// The events published since they were last taken, oldest first. The
    /// coordinator forgets them.
    pub fn take_events(&mut self) -> (events: Vec<ProtocolSwitchEvent>)
        ensures
            event_views(events@) == old(self)@.published,
            final(self)@ == (CoordinatorView { published: Seq::empty(), ..old(self)@ }),
    {
        let mut events: Vec<ProtocolSwitchEvent> = Vec::new();
        std::mem::swap(&mut events, &mut self.published);
        assert(self@.published =~= Seq::empty());
        events
    }

    /// Begins a switch as of the current time. See
    /// [`ProtocolManager::initiate_protocol_switch_at`].
    pub fn initiate_protocol_switch(
        &mut self,
        room_id: u128,
        from_protocol: Protocol,
        to_protocol: Protocol,
        peers: Vec<PeerAddr>,
    ) -> (r: Result<SwitchAction, SwitchError>)
        requires
            old(self).wf(),
        ensures
            r is Err <==> has_active_switch(old(self)@.switches, room_id),
            r is Err ==> r == Err::<SwitchAction, SwitchError>(SwitchError::SwitchInProgress)
                && final(self)@ == old(self)@,
            r is Ok ==> r == Ok::<SwitchAction, SwitchError>(SwitchAction::Prepare) && exists|
                now: i64,
            |
                final(self)@ == #[trigger] old(self)@.with_begun(
                    room_id,
                    from_protocol,
                    to_protocol,
                    peers@,
                    now,
                ),
            final(self).wf(),
    {
        let now = now_millis();
        self.initiate_protocol_switch_at(room_id, from_protocol, to_protocol, peers, now)
    }

    /// Begins a switch of room `room_id` at `now`, unless the room has one
    /// that has neither completed nor failed. The new switch starts out
    /// preparing.
    pub fn initiate_protocol_switch_at(
        &mut self,
        room_id: u128,
        from_protocol: Protocol,
        to_protocol: Protocol,
        peers: Vec<PeerAddr>,
        now: i64,
    ) -> (r: Result<SwitchAction, SwitchError>)
        requires
            old(self).wf(),
        ensures
            r is Err <==> has_active_switch(old(self)@.switches, room_id),
            r is Err ==> r == Err::<SwitchAction, SwitchError>(SwitchError::SwitchInProgress)
                && final(self)@ == old(self)@,
            r is Ok ==> r == Ok::<SwitchAction, SwitchError>(SwitchAction::Prepare) && final(self)@
                == old(self)@.with_begun(room_id, from_protocol, to_protocol, peers@, now),
            final(self).wf(),
    {
        let found = self.find_switch(room_id);
        if let Some(i) = found {
            let running = match self.current_switches[i].state {
                ProtocolSwitchState::Complete => false,
                ProtocolSwitchState::Failed(_) => false,
                _ => true,
            };
            assert(running == !is_terminal(self@.switches[i as int].state));
            if running {
                return Err(SwitchError::SwitchInProgress);
            }
        }
        let event = ProtocolSwitchEvent {
            room_id,
            from_protocol,
            to_protocol,
            state: ProtocolSwitchState::Preparing,
            affected_peers: peers,
            timestamp: now,
        };
        let first = event.clone();
        let second = event.clone();
        let ghost before = self@;
        match found {
            Some(i) => {
                self.current_switches.set(i, event);
                assert(event_views(self.current_switches@) =~= before.switches.update(
                    i as int,
                    event@,
                ));
            },
            None => {
                self.current_switches.push(event);
                assert(event_views(self.current_switches@) =~= before.switches.push(event@));
            },
        }
        self.published.push(first);
        self.published.push(second);
        assert(event_views(self.published@) =~= before.published.push(event@).push(event@));
        proof {
            lemma_with_switch_distinct(before.switches, event@);
        }
        Ok(SwitchAction::Prepare)
    }

    fn set_state(&mut self, i: usize, state: ProtocolSwitchState, now: i64)
        requires
            old(self).wf(),
            i < old(self).current_switches.len(),
            switch_position(old(self)@.switches, old(self)@.switches[i as int].room_id) == Some(
                i as int,
            ),
        ensures
            final(self)@ == old(self)@.with_state(old(self)@.switches[i as int].room_id, state, now),
            final(self).wf(),
    {
        let ghost before = self@;
        self.current_switches[i].state = state;
        self.current_switches[i].timestamp = now;
        let copy = self.current_switches[i].clone();
        self.published.push(copy);
        let ghost event = SwitchEventView { state, timestamp: now, ..before.switches[i as int] };
        assert(event_views(self.current_switches@) =~= before.switches.update(i as int, event));
        assert(event_views(self.published@) =~= before.published.push(event));
        assert(rooms_distinct(self@.switches)) by {
            assert forall|a: int, b: int| 0 <= a < b < self@.switches.len() implies (
            #[trigger] self@.switches[a]).room_id != (#[trigger] self@.switches[b]).room_id by {
                assert(self@.switches[a].room_id == before.switches[a].room_id);
                assert(self@.switches[b].room_id == before.switches[b].room_id);
            }
        }
    }

    /// Takes in a report as of the current time. See
    /// [`ProtocolManager::advance_at`].
    pub fn advance(&mut self, room_id: u128, input: SwitchInput) -> (action: SwitchAction)
        requires
            old(self).wf(),
        ensures
            exists|now: i64|
                (final(self)@, action) == #[trigger] old(self)@.advanced(room_id, input, now),
            final(self).wf(),
    {
        let now = now_millis();
        self.advance_at(room_id, input, now)
    }

    /// Takes in the report `input` on the switch of room `room_id` at `now`:
    /// moves the switch to its next phase, publishes it, and says what is to
    /// be done next. See [`switch_rule`].
    pub fn advance_at(&mut self, room_id: u128, input: SwitchInput, now: i64) -> (action:
        SwitchAction)
        requires
            old(self).wf(),
        ensures
            (final(self)@, action) == old(self)@.advanced(room_id, input, now),
            final(self).wf(),
    {
        match self.find_switch(room_id) {
            Some(i) => {
                let peers = self.current_switches[i].affected_peers.len();
                let (state, action) = next_phase(self.current_switches[i].state, input, peers);
                match action {
                    SwitchAction::Ignore => {},
                    _ => {
                        self.set_state(i, state, now);
                    },
                }
                action
            },
            None => SwitchAction::Ignore,
        }
    }

    /// The switch of room `room_id`, if the room has one.
    pub fn get_switch_status(&self, room_id: &u128) -> (r: Option<&ProtocolSwitchEvent>)
        ensures
            match r {
                Some(e) => switch_position(self@.switches, *room_id) is Some && e@
                    == self@.switches[switch_position(self@.switches, *room_id)->0],
                None => switch_position(self@.switches, *room_id) is None,
            },
    {
        match self.find_switch(*room_id) {
            Some(i) => Some(&self.current_switches[i]),
            None => None,
        }
    }

    /// Forgets long-finished switches as of the current time. See
    /// [`ProtocolManager::cleanup_completed_switches_at`].
    pub fn cleanup_completed_switches(&mut self)
        ensures
            exists|now: i64|
                final(self)@ == (CoordinatorView {
                    switches: #[trigger] kept_ones(old(self)@.switches, now),
                    ..old(self)@
                }),
            old(self).wf() ==> final(self).wf(),
    {
        let now = now_millis();
        self.cleanup_completed_switches_at(now);
    }

    /// Forgets every switch that completed or failed more than
    /// [`FINISHED_KEPT_MILLIS`] before `now`. Running switches stay, however
    /// old.
    pub fn cleanup_completed_switches_at(&mut self, now: i64)
        ensures
            final(self)@ == (CoordinatorView {
                switches: kept_ones(old(self)@.switches, now),
                ..old(self)@
            }),
            old(self).wf() ==> final(self).wf(),
    {
        let ghost keep = |e: SwitchEventView| is_kept(e, now);
        let ghost before = self@.switches;
        let ghost mut source: Seq<int> = Seq::empty();
        let cutoff: i128 = now as i128 - FINISHED_KEPT_MILLIS as i128;
        let mut rest: Vec<ProtocolSwitchEvent> = Vec::new();
        std::mem::swap(&mut rest, &mut self.current_switches);
        let mut kept: Vec<ProtocolSwitchEvent> = Vec::new();
        let mut i: usize = 0;
        while i < rest.len()
            invariant
                i <= rest.len(),
                before == event_views(rest@),
                cutoff == now as int - FINISHED_KEPT_MILLIS as int,
                keep == (|e: SwitchEventView| is_kept(e, now)),
                event_views(kept@) == before.take(i as int).filter(keep),
                source.len() == kept.len(),
                forall|k: int|
                    0 <= k < kept.len() ==> 0 <= #[trigger] source[k] < i && kept[k]@
                        == before[source[k]],
                forall|a: int, b: int|
                    0 <= a < b < source.len() ==> #[trigger] source[a] < #[trigger] source[b],
            decreases rest.len() - i,
        {
            let finished = match rest[i].state {
                ProtocolSwitchState::Complete => true,
                ProtocolSwitchState::Failed(_) => true,
                _ => false,
            };
            let keeps = !finished || (rest[i].timestamp as i128) >= cutoff;
            proof {
                let seen = before.take(i as int);
                assert(before[i as int] == rest[i as int]@);
                assert(before.take(i + 1) =~= seen.push(before[i as int]));
                seen.lemma_filter_push(before[i as int], keep);
                assert(keeps == is_kept(before[i as int], now));
            }
            if keeps {
                let ghost shorter = event_views(kept@);
                let copy = rest[i].clone();
                kept.push(copy);
                assert(event_views(kept@) =~= shorter.push(before[i as int]));
                proof {
                    source = source.push(i as int);
                }
            }
            i += 1;
        }
        assert(before.take(i as int) =~= before);
        assert(rooms_distinct(before) ==> rooms_distinct(event_views(kept@))) by {
            if rooms_distinct(before) {
                let views = event_views(kept@);
                assert forall|a: int, b: int| 0 <= a < b < views.len() implies (
                #[trigger] views[a]).room_id != (#[trigger] views[b]).room_id by {
                    assert(source[a] < source[b]);
                    assert(views[a] == kept[a]@ && views[b] == kept[b]@);
                    assert(before[source[a]].room_id != before[source[b]].room_id);
                }
            }
        }
        self.current_switches = kept;
    }

    /// Cancels a switch as of the current time. See
    /// [`ProtocolManager::cancel_switch_at`].
    pub fn cancel_switch(&mut self, room_id: u128) -> (r: Result<(), SwitchError>)
        requires
            old(self).wf(),
        ensures
            r is Ok,
            exists|now: i64|
                final(self)@ == #[trigger] old(self)@.with_state(
                    room_id,
                    ProtocolSwitchState::Failed(SwitchFailure::Cancelled),
                    now,
                ),
            final(self).wf(),
    {
        let now = now_millis();
        self.cancel_switch_at(room_id, now)
    }

    /// Forces the switch of room `room_id` to failed, as cancelled at `now`,
    /// and publishes it. Nothing changes where the room has no switch.
    pub fn cancel_switch_at(&mut self, room_id: u128, now: i64) -> (r: Result<(), SwitchError>)
        requires
            old(self).wf(),
        ensures
            r is Ok,
            final(self)@ == old(self)@.with_state(
                room_id,
                ProtocolSwitchState::Failed(SwitchFailure::Cancelled),
                now,
            ),
            final(self).wf(),
    {
        match self.find_switch(room_id) {
            Some(i) => {
                self.set_state(i, ProtocolSwitchState::Failed(SwitchFailure::Cancelled), now);
            },
            None => {},
        }
        Ok(())
    }

    /// The switches that are neither complete nor failed.
    pub fn get_active_switches(&self) -> (active: Vec<ProtocolSwitchEvent>)
        ensures
            event_views(active@) == active_ones(self@.switches),
    {
        let ghost keep = |e: SwitchEventView| !is_terminal(e.state);
        let ghost all = self@.switches;
        let mut active: Vec<ProtocolSwitchEvent> = Vec::new();
        let mut i: usize = 0;
        while i < self.current_switches.len()
            invariant
                i <= self.current_switches.len(),
                all == event_views(self.current_switches@),
                keep == (|e: SwitchEventView| !is_terminal(e.state)),
                event_views(active@) == all.take(i as int).filter(keep),
            decreases self.current_switches.len() - i,
        {
            let finished = match self.current_switches[i].state {
                ProtocolSwitchState::Complete => true,
                ProtocolSwitchState::Failed(_) => true,
                _ => false,
            };
            proof {
                let seen = all.take(i as int);
                assert(all[i as int] == self.current_switches[i as int]@);
                assert(all.take(i + 1) =~= seen.push(all[i as int]));
                seen.lemma_filter_push(all[i as int], keep);
            }
            if !finished {
                let ghost shorter = event_views(active@);
                let copy = self.current_switches[i].clone();
                active.push(copy);
                assert(event_views(active@) =~= shorter.push(all[i as int]));
            }
            i += 1;
        }
        assert(all.take(i as int) =~= all);
        active
    }
}

/// Computes [`switch_rule`].
pub fn next_phase(state: ProtocolSwitchState, input: SwitchInput, peers: usize) -> (r: (
    ProtocolSwitchState,
    SwitchAction,
))
    ensures
        r == switch_rule(state, input, peers as nat),
{
    match (state, input) {
        (ProtocolSwitchState::Preparing, SwitchInput::Prepared) => (
            ProtocolSwitchState::Switching,
            SwitchAction::Pause,
        ),
        (ProtocolSwitchState::Preparing, SwitchInput::PrepareFailed { peer }) => (
            ProtocolSwitchState::Failed(SwitchFailure::NotifyFailed { peer }),
            SwitchAction::Abort,
        ),
        (ProtocolSwitchState::Switching, SwitchInput::PauseOver) => (
            ProtocolSwitchState::Reconnecting,
            SwitchAction::Reconnect,
        ),
        (ProtocolSwitchState::Reconnecting, SwitchInput::Reconnected { reached }) => {
            if peers > 0 && reached == 0 {
                (ProtocolSwitchState::Failed(SwitchFailure::NoPeerReconnected), SwitchAction::Abort)
            } else {
                (ProtocolSwitchState::Complete, SwitchAction::Finish)
            }
        },
        _ => (state, SwitchAction::Ignore),
    }
}

/// The notice that prepares the peer `peer_id` for a switch to `protocol`.
pub fn preparation_notice(protocol: Protocol, peer_id: String) -> (message: NetworkMessage)
    ensures
        is_random_id(message.id),
        is_protocol_notice(message, protocol, Some(peer_id), message.id, message.timestamp),
{
    protocol_notice(protocol, Some(peer_id))
}

/// Putting a switch in its room's place keeps rooms distinct.
pub proof fn lemma_with_switch_distinct(switches: Seq<SwitchEventView>, event: SwitchEventView)
    requires
        rooms_distinct(switches),
    ensures
        rooms_distinct(with_switch(switches, event)),
{
    let after = with_switch(switches, event);
    match switch_position(switches, event.room_id) {
        Some(i) => {
            assert(is_first_switch_of(switches, event.room_id, i));
            assert forall|a: int, b: int| 0 <= a < b < after.len() implies (#[trigger] after[a]).room_id
                != (#[trigger] after[b]).room_id by {
                assert(after[a].room_id == switches[a].room_id);
                assert(after[b].room_id == switches[b].room_id);
            }
        },
        None => {
            assert forall|a: int, b: int| 0 <= a < b < after.len() implies (#[trigger] after[a]).room_id
                != (#[trigger] after[b]).room_id by {
                assert(after[a] == switches[a]);
                if b < switches.len() {
                    assert(after[b] == switches[b]);
                } else if switches[a].room_id == event.room_id {
                    lemma_some_switch(switches, event.room_id, a);
                }
            }
        },
    }
}

/// Where some switch is of room `room_id`, a first one is.
pub proof fn lemma_some_switch(switches: Seq<SwitchEventView>, room_id: u128, at: int)
    requires
        0 <= at < switches.len(),
        switches[at].room_id == room_id,
    ensures
        switch_position(switches, room_id) is Some,
    decreases at,
{
    if forall|k: int| 0 <= k < at ==> (#[trigger] switches[k]).room_id != room_id {
        assert(is_first_switch_of(switches, room_id, at));
    } else {
        let k = choose|k: int| 0 <= k < at && (#[trigger] switches[k]).room_id == room_id;
        lemma_some_switch(switches, room_id, k);
    }
}

/// One switch per room at a time: while a room's switch is neither complete
/// nor failed, no second one can be begun; once it is, one can.
pub proof fn lemma_single_flight(
    before: CoordinatorView,
    room_id: u128,
    from_protocol: Protocol,
    to_protocol: Protocol,
    peers: Seq<PeerAddr>,
    now: i64,
)
    requires
        before.wf(),
        !has_active_switch(before.switches, room_id),
    ensures
        ({
            let begun = before.with_begun(room_id, from_protocol, to_protocol, peers, now);
            &&& has_active_switch(begun.switches, room_id)
            &&& forall|state: ProtocolSwitchState, at: i64|
                is_terminal(state) ==> !has_active_switch(
                    (#[trigger] begun.with_state(room_id, state, at)).switches,
                    room_id,
                )
        }),
{
    let event = SwitchEventView {
        room_id,
        from_protocol,
        to_protocol,
        state: ProtocolSwitchState::Preparing,
        affected_peers: peers,
        timestamp: now,
    };
    let begun = before.with_begun(room_id, from_protocol, to_protocol, peers, now);
    let i = lemma_begun_position(before.switches, event);
    assert forall|state: ProtocolSwitchState, at: i64| is_terminal(state) implies !has_active_switch(
        (#[trigger] begun.with_state(room_id, state, at)).switches,
        room_id,
    ) by {
        let after = begun.with_state(room_id, state, at).switches;
        assert(after == begun.switches.update(i, SwitchEventView { state, timestamp: at, ..event }));
        assert(is_first_switch_of(after, room_id, i)) by {
            assert(is_first_switch_of(begun.switches, room_id, i));
            assert forall|k: int| 0 <= k < i implies (#[trigger] after[k]).room_id != room_id by {
                assert(after[k] == begun.switches[k]);
            }
        }
        lemma_switch_position(after, room_id, i);
    }
}

/// Where the switch that was just begun stands.
proof fn lemma_begun_position(switches: Seq<SwitchEventView>, event: SwitchEventView) -> (i: int)
    ensures
        switch_position(with_switch(switches, event), event.room_id) == Some(i),
        is_first_switch_of(with_switch(switches, event), event.room_id, i),
        with_switch(switches, event)[i] == event,
{
    let after = with_switch(switches, event);
    match switch_position(switches, event.room_id) {
        Some(i) => {
            assert(is_first_switch_of(switches, event.room_id, i));
            assert(is_first_switch_of(after, event.room_id, i)) by {
                assert forall|k: int| 0 <= k < i implies (#[trigger] after[k]).room_id
                    != event.room_id by {
                    assert(after[k] == switches[k]);
                }
            }
            lemma_switch_position(after, event.room_id, i);
            i
        },
        None => {
            let i = switches.len() as int;
            assert(is_first_switch_of(after, event.room_id, i)) by {
                assert forall|k: int| 0 <= k < i implies (#[trigger] after[k]).room_id
                    != event.room_id by {
                    assert(after[k] == switches[k]);
                    if switches[k].room_id == event.room_id {
                        lemma_some_switch(switches, event.room_id, k);
                    }
                }
            }
            lemma_switch_position(after, event.room_id, i);
            i
        },
    }
}

} // verus!
