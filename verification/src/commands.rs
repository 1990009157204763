//! The command surface: what each request of the user interface does to the
//! session, and what is left for the caller to carry out on the network.

use vstd::prelude::*;
use vstd::string::StringExecFns;
use crate::addr::PeerAddr;
use crate::ident::{fresh_id, is_random_id, parse_uuid, uuid_parsed, uuid_text, write_uuid, NIL_ID};
use crate::invite::{is_older_than, InviteData, InviteError};
use crate::networking::{
    MessageType, NetworkManager, NetworkMessage, NetworkView, Protocol, ServerAction,
};
use crate::room::{member_position, newest, ChatMessage, Room, RoomView, MAX_MESSAGES};
use crate::time::now_millis;
use crate::user::User;

verus! {

/// The port a node serves on.
pub const DEFAULT_PORT: u16 = 8080;

/// How old an invite may be when it is used, in hours.
pub const INVITE_MAX_AGE_HOURS: u64 = 24;

/// After how many silent minutes a health check marks a member offline.
pub const HEALTH_THRESHOLD_MINUTES: i64 = 5;

/// A request to found a room.
#[derive(Debug)]
pub struct CreateRoomRequest {
    pub name: String,
    pub protocol: Option<Protocol>,
}

/// A request to join a room by its invite token.
#[derive(Debug)]
pub struct JoinRoomRequest {
    pub invite_code: String,
}

/// The profile a user sets up before founding or joining a room.
#[derive(Debug)]
pub struct UserSettings {
    pub name: String,
    pub avatar: Option<String>,
    pub audio_input_device: Option<String>,
    pub audio_output_device: Option<String>,
}

/// The session of one node: the room it is in, if any, the local user, if
/// a profile was set up, and the transport's registry.
#[derive(Debug)]
pub struct AppState {
    pub current_party: Option<Room>,
    pub current_user: Option<User>,
    pub networking: NetworkManager,
}

/// A peer that could not be reached while joining, and why.
#[derive(Debug)]
pub struct PeerFailure {
    pub addr: PeerAddr,
    /// Whether the peer was the primary one of the invite.
    pub primary: bool,
    pub cause: String,
}

/// Why a command was refused.
#[derive(Debug)]
pub enum CommandError {
    /// The node is in a room already.
    PartyAlreadyActive,
    /// No profile was set up.
    NoUserConfigured,
    /// The node is in no room.
    NotInParty,
    /// The local user is no member of the room.
    UserNotInParty,
    /// The local user is in the call already.
    AlreadyInCall,
    /// The local user is not in the call.
    NotInCall,
    /// The invite token could not be read.
    InvalidInvite(InviteError),
    /// The invite is older than [`INVITE_MAX_AGE_HOURS`].
    InviteExpired,
    /// The invite names no peer.
    NoPeerAddresses,
    /// The text is no room identifier.
    InvalidRoomId(uuid::Error),
    /// The text is no user identifier.
    InvalidUserId(uuid::Error),
    /// The node is not in the room asked for.
    RoomNotFound,
    /// None of the invite's peers could be reached.
    NoPeerReachable { failures: Vec<PeerFailure> },
}

impl AppState {
    /// The validity of the session: the room, if any, and the registry are
    /// valid.
    pub open spec fn wf(&self) -> bool {
        &&& self.current_party matches Some(party) ==> party.wf()
        &&& self.networking.wf()
    }

    /// Whether the session is valid; see [`AppState::wf`].
    pub fn is_well_formed(&self) -> (r: bool)
        ensures
            r == self.wf(),
    {
        let party_ok = match &self.current_party {
            Some(party) => party.is_well_formed(),
            None => true,
        };
        party_ok && self.networking.is_well_formed()
    }

    /// A session without room or user.
    pub fn new() -> (state: AppState)
        ensures
            state.current_party is None,
            state.current_user is None,
            state.networking@ == NetworkManager::new_view(),
            state.wf(),
    {
        AppState { current_party: None, current_user: None, networking: NetworkManager::new() }
    }
}

/// The envelope of a message that the local user sends to everyone.
pub open spec fn is_broadcast_from(
    message: NetworkMessage,
    sender: u128,
    message_type: MessageType,
    payload: String,
) -> bool {
    &&& is_random_id(message.id)
    &&& message.from@ == uuid_text(sender)
    &&& message.to is None
    &&& message.message_type == message_type
    &&& message.payload == payload
}

/// Wraps the document `payload` in an envelope from user `sender` to
/// everyone, under a random identifier and stamped with the current time.
pub fn broadcast_envelope(sender: u128, message_type: MessageType, payload: String) -> (message:
    NetworkMessage)
    ensures
        is_broadcast_from(message, sender, message_type, payload),
{
    NetworkMessage {
        id: fresh_id(),
        from: write_uuid(sender),
        to: None,
        message_type,
        payload,
        timestamp: now_millis(),
    }
}

/// Sets up the local user's profile: a new user of that name at
/// `local_addr`, on [`DEFAULT_PORT`].
pub fn set_user_settings(state: &mut AppState, settings: UserSettings, local_addr: PeerAddr)
    ensures
        final(state).current_party == old(state).current_party,
        final(state).networking == old(state).networking,
        final(state).current_user matches Some(user) && is_random_id(user.id) && user == (User {
            avatar: settings.avatar,
            audio_input_device: settings.audio_input_device,
            audio_output_device: settings.audio_output_device,
            ..User::fresh(user.id, settings.name, on_default_port(local_addr), user.last_seen)
        }),
{
    let address = match local_addr {
        PeerAddr::V4 { ip, .. } => PeerAddr::V4 { ip, port: DEFAULT_PORT },
        PeerAddr::V6 { ip6, flowinfo, scope_id, .. } => PeerAddr::V6 {
            ip6,
            port: DEFAULT_PORT,
            flowinfo,
            scope_id,
        },
    };
    let mut user = User::new(settings.name, address);
    user.set_avatar(settings.avatar);
    user.set_audio_devices(settings.audio_input_device, settings.audio_output_device);
    state.current_user = Some(user);
}

/// `addr` with its port replaced by [`DEFAULT_PORT`].
pub open spec fn on_default_port(addr: PeerAddr) -> PeerAddr {
    match addr {
        PeerAddr::V4 { ip, .. } => PeerAddr::V4 { ip, port: DEFAULT_PORT },
        PeerAddr::V6 { ip6, flowinfo, scope_id, .. } => PeerAddr::V6 {
            ip6,
            port: DEFAULT_PORT,
            flowinfo,
            scope_id,
        },
    }
}

/// Founds a room with the local user as creator and server, and says how to
/// start serving it on [`DEFAULT_PORT`]. Without a protocol the room runs
/// on TCP.
pub fn create_party(state: &mut AppState, name: String, protocol: Option<Protocol>) -> (r: Result<
    ServerAction,
    CommandError,
>)
    requires
        old(state).wf(),
    ensures
        final(state).wf(),
        final(state).current_user == old(state).current_user,
        match r {
            Ok(action) => {
                let chosen = chosen_protocol(protocol);
                &&& old(state).current_party is None
                &&& old(state).current_user is Some
                &&& final(state).current_party matches Some(party) && is_random_id(party.id)
                    && party@ == RoomView::founded(
                    party.id,
                    name@,
                    old(state).current_user->0,
                    chosen,
                    party.created_at,
                )
                &&& final(state).networking@ == (NetworkView {
                    is_server: true,
                    current_protocol: chosen,
                    ..old(state).networking@
                })
                &&& action == match chosen {
                    Protocol::TCP => ServerAction::ListenTcp { port: DEFAULT_PORT },
                    _ => ServerAction::Nothing,
                }
            },
            Err(e) => {
                &&& final(state).current_party == old(state).current_party
                &&& final(state).networking == old(state).networking
                &&& (e is PartyAlreadyActive <==> old(state).current_party is Some)
                &&& (e is NoUserConfigured <==> old(state).current_party is None && old(
                    state,
                ).current_user is None)
                &&& (e is PartyAlreadyActive || e is NoUserConfigured)
            },
        },
{
    let chosen = match protocol {
        Some(p) => p,
        None => Protocol::TCP,
    };
    if state.current_party.is_some() {
        return Err(CommandError::PartyAlreadyActive);
    }
    let creator = match &state.current_user {
        Some(user) => user.clone(),
        None => {
            return Err(CommandError::NoUserConfigured);
        },
    };
    let party = Room::new(name, creator, chosen);
    state.current_party = Some(party);
    let action = state.networking.start_server(DEFAULT_PORT, chosen);
    Ok(action)
}

/// The protocol a room is founded on: the one asked for, else TCP.
pub open spec fn chosen_protocol(protocol: Option<Protocol>) -> Protocol {
    match protocol {
        Some(p) => p,
        None => Protocol::TCP,
    }
}

/// Leaves the room and forgets every peer.
pub fn leave_party(state: &mut AppState) -> (r: Result<(), CommandError>)
    ensures
        final(state).current_user == old(state).current_user,
        match r {
            Ok(_) => {
                &&& old(state).current_party is Some
                &&& final(state).current_party is None
                &&& final(state).networking@ == (NetworkView {
                    connections: Seq::empty(),
                    streams: Seq::empty(),
                    is_server: false,
                    server_peer: None,
                    ..old(state).networking@
                })
                &&& final(state).wf()
            },
            Err(e) => e is NotInParty && old(state).current_party is None && final(state).current_party
                is None && final(state).networking == old(state).networking,
        },
{
    if state.current_party.is_some() {
        state.current_party = None;
        let _ = state.networking.disconnect_all();
        Ok(())
    } else {
        Err(CommandError::NotInParty)
    }
}

/// The chat line that user `author` sends with the text `content`.
pub open spec fn is_line_of(message: ChatMessage, author: User, content: String) -> bool {
    &&& is_random_id(message.id)
    &&& message.user_id == author.id
    &&& message.user_name == author.name
    &&& message.content == content
}

/// Adds a chat line of the local user to the room and hands it back, to be
/// sent to the peers in a [`broadcast_envelope`].
pub fn send_message(state: &mut AppState, content: String) -> (r: Result<ChatMessage, CommandError>)
    requires
        old(state).wf(),
    ensures
        final(state).wf(),
        final(state).current_user == old(state).current_user,
        final(state).networking == old(state).networking,
        match r {
            Ok(message) => {
                &&& old(state).current_user matches Some(author) && is_line_of(
                    message,
                    author,
                    content,
                )
                &&& old(state).current_party matches Some(before) && final(state).current_party matches Some(after) && after@ == (RoomView {
                    messages: newest(before@.messages.push(message), MAX_MESSAGES as nat),
                    ..before@
                })
            },
            Err(e) => {
                &&& final(state).current_party == old(state).current_party
                &&& (e is NoUserConfigured <==> old(state).current_user is None)
                &&& (e is NotInParty <==> old(state).current_user is Some && old(
                    state,
                ).current_party is None)
                &&& (e is NoUserConfigured || e is NotInParty)
            },
        },
{
    let (user_id, user_name) = match &state.current_user {
        Some(user) => (user.id, user.name.clone()),
        None => {
            return Err(CommandError::NoUserConfigured);
        },
    };
    let message = ChatMessage {
        id: fresh_id(),
        user_id,
        user_name,
        content,
        timestamp: now_millis(),
    };
    match state.current_party.take() {
        Some(mut party) => {
            let copy = message.clone();
            party.add_message(copy);
            state.current_party = Some(party);
            Ok(message)
        },
        None => Err(CommandError::NotInParty),
    }
}

/// The invite to the room the node is in, made by the local user at the
/// current time. Its document is turned into a token by
/// [`InviteData::generate_invite_code`].
pub fn generate_invite(state: &AppState) -> (r: Result<InviteData, CommandError>)
    ensures
        match r {
            Ok(invite) => {
                &&& state.current_party matches Some(party) && state.current_user matches Some(
                    user,
                ) && invite.room_id == party.id && invite.room_name@ == party.name@
                    && invite.creator_name@ == user.name@ && invite.peer_addresses@
                    == party.peer_addresses@ && invite.protocol == party.protocol
            },
            Err(e) => {
                &&& (e is NotInParty <==> state.current_party is None)
                &&& (e is NoUserConfigured <==> state.current_party is Some && state.current_user
                    is None)
                &&& (e is NotInParty || e is NoUserConfigured)
            },
        },
{
    match &state.current_party {
        Some(party) => match &state.current_user {
            Some(user) => Ok(
                InviteData::new(
                    party.id,
                    party.name.clone(),
                    user.name.clone(),
                    party.peer_addresses.clone(),
                    party.protocol,
                ),
            ),
            None => Err(CommandError::NoUserConfigured),
        },
        None => Err(CommandError::NotInParty),
    }
}

/// What a valid invite says, for the user to look at.
#[derive(Debug)]
pub struct InviteSummary {
    pub room_name: String,
    pub creator_name: String,
    pub protocol: Protocol,
    pub peer_count: usize,
    pub created_at: i64,
}

/// Whether `summary` says what `invite` holds.
pub open spec fn summarizes(summary: InviteSummary, invite: InviteData) -> bool {
    &&& summary.room_name@ == invite.room_name@
    &&& summary.creator_name@ == invite.creator_name@
    &&& summary.protocol == invite.protocol
    &&& summary.peer_count == invite.peer_addresses.len()
    &&& summary.created_at == invite.created_at
}

/// Checks an invite as of the current time. See [`validate_invite_at`].
pub fn validate_invite(invite: &InviteData) -> (r: Result<InviteSummary, CommandError>)
    ensures
        exists|now: i64| #[trigger] validated(invite, now, r),
{
    let now = now_millis();
    let r = validate_invite_at(invite, now);
    assert(validated(invite, now, r));
    r
}

/// `r` is the verdict on `invite` at `now`: expired; else without peers;
/// else valid, with its summary.
pub open spec fn validated(invite: &InviteData, now: i64, r: Result<InviteSummary, CommandError>) -> bool {
    if is_older_than(invite.created_at, now, INVITE_MAX_AGE_HOURS) {
        r matches Err(CommandError::InviteExpired)
    } else if invite.peer_addresses.len() == 0 {
        r matches Err(CommandError::NoPeerAddresses)
    } else {
        r matches Ok(summary) && summarizes(summary, *invite)
    }
}

/// Checks an invite at `now`: it must be no older than
/// [`INVITE_MAX_AGE_HOURS`] and name at least one peer.
pub fn validate_invite_at(invite: &InviteData, now: i64) -> (r: Result<InviteSummary, CommandError>)
    ensures
        validated(invite, now, r),
{
    if invite.is_expired_at(now, INVITE_MAX_AGE_HOURS) {
        return Err(CommandError::InviteExpired);
    }
    if invite.peer_addresses.len() == 0 {
        return Err(CommandError::NoPeerAddresses);
    }
    Ok(
        InviteSummary {
            room_name: invite.room_name.clone(),
            creator_name: invite.creator_name.clone(),
            protocol: invite.protocol,
            peer_count: invite.peer_addresses.len(),
            created_at: invite.created_at,
        },
    )
}

/// Checks the health of the room as of the current time. See
/// [`check_room_health_at`].
pub fn check_room_health(state: &mut AppState) -> (r: Result<bool, CommandError>)
    requires
        old(state).wf(),
    ensures
        final(state).wf(),
        exists|now: i64| #[trigger] health_checked(*old(state), now, *final(state), r),
{
    let now = now_millis();
    let r = check_room_health_at(state, now);
    assert(health_checked(*old(state), now, *state, r));
    r
}

/// `after` and `r` are what a health check at `now` makes of the session
/// `before`: the room is swept with [`HEALTH_THRESHOLD_MINUTES`], then its
/// server is checked.
pub open spec fn health_checked(
    before: AppState,
    now: i64,
    after: AppState,
    r: Result<bool, CommandError>,
) -> bool {
    &&& after.current_user == before.current_user
    &&& after.networking == before.networking
    &&& match before.current_party {
        Some(party) => exists|swept: RoomView|
            {
                &&& #[trigger] party@.swept_to(HEALTH_THRESHOLD_MINUTES, now, swept)
                &&& after.current_party matches Some(checked) && swept.health_checked(now, checked@)
                &&& r matches Ok(healthy) && healthy == swept.server_is_healthy(now)
            },
        None => after.current_party is None && r matches Err(CommandError::NotInParty),
    }
}

/// Sweeps the room at `now` and checks its server; says whether the server
/// was healthy.
pub fn check_room_health_at(state: &mut AppState, now: i64) -> (r: Result<bool, CommandError>)
    requires
        old(state).wf(),
    ensures
        final(state).wf(),
        health_checked(*old(state), now, *final(state), r),
{
    match state.current_party.take() {
        Some(mut party) => {
            party.cleanup_offline_users_at(HEALTH_THRESHOLD_MINUTES, now);
            let ghost swept = party@;
            let healthy = party.check_server_health_at(now);
            state.current_party = Some(party);
            assert(old(state).current_party->0@.swept_to(HEALTH_THRESHOLD_MINUTES, now, swept));
            Ok(healthy)
        },
        None => Err(CommandError::NotInParty),
    }
}

/// A copy of a list of messages.
pub fn copy_messages(messages: &Vec<ChatMessage>) -> (copy: Vec<ChatMessage>)
    ensures
        copy@ == messages@,
{
    let mut copy: Vec<ChatMessage> = Vec::new();
    let mut i: usize = 0;
    while i < messages.len()
        invariant
            i <= messages.len(),
            copy@ == messages@.take(i as int),
        decreases messages.len() - i,
    {
        copy.push(messages[i].clone());
        assert(copy@ =~= messages@.take(i + 1));
        i += 1;
    }
    assert(messages@.take(i as int) =~= messages@);
    copy
}

/// Whether the node is in the room that `room_id` spells.
pub open spec fn is_in_room(state: AppState, room_id: Seq<char>) -> bool {
    uuid_parsed(room_id) matches Some(id) && state.current_party matches Some(party) && party.id
        == id
}

/// The refusal that a command on the room spelled `room_id` meets, if any:
/// the text spells no identifier, or the node is not in that room.
pub open spec fn room_refusal(state: AppState, room_id: Seq<char>, e: CommandError) -> bool {
    if uuid_parsed(room_id) is None {
        e is InvalidRoomId
    } else {
        e is RoomNotFound && !is_in_room(state, room_id)
    }
}

fn check_room(state: &AppState, room_id: &str) -> (r: Result<(), CommandError>)
    ensures
        match r {
            Ok(_) => is_in_room(*state, room_id@),
            Err(e) => room_refusal(*state, room_id@, e),
        },
{
    let id = match parse_uuid(room_id) {
        Ok(id) => id,
        Err(e) => {
            return Err(CommandError::InvalidRoomId(e));
        },
    };
    match &state.current_party {
        Some(party) => if party.id == id {
            Ok(())
        } else {
            Err(CommandError::RoomNotFound)
        },
        None => Err(CommandError::RoomNotFound),
    }
}

/// The messages of the room spelled `room_id`.
pub fn get_room_messages(state: &AppState, room_id: &str) -> (r: Result<
    Vec<ChatMessage>,
    CommandError,
>)
    ensures
        match r {
            Ok(messages) => is_in_room(*state, room_id@) && messages@
                == state.current_party->0.messages@,
            Err(e) => room_refusal(*state, room_id@, e),
        },
{
    match check_room(state, room_id) {
        Ok(_) => {},
        Err(e) => {
            return Err(e);
        },
    }
    match &state.current_party {
        Some(party) => Ok(copy_messages(&party.messages)),
        None => Err(CommandError::RoomNotFound),
    }
}

/// Puts the messages of the room spelled `room_id` in ascending order of
/// timestamp, as [`Room::sync_messages`] does, and hands them out.
pub fn sync_messages(state: &mut AppState, room_id: &str) -> (r: Result<
    Vec<ChatMessage>,
    CommandError,
>)
    ensures
        final(state).current_user == old(state).current_user,
        final(state).networking == old(state).networking,
        old(state).wf() ==> final(state).wf(),
        match r {
            Ok(messages) => {
                &&& is_in_room(*old(state), room_id@)
                &&& final(state).current_party matches Some(after) && messages@ == after.messages@
                    && crate::room::in_time_order(messages@) && exists|order: Seq<usize>|
                    #[trigger] crate::order::is_stable_order(
                        crate::room::message_keys(old(state).current_party->0@.messages),
                        order,
                    ) && after@ == (RoomView {
                        messages: crate::order::arrange(
                            old(state).current_party->0@.messages,
                            order,
                        ),
                        ..old(state).current_party->0@
                    })
            },
            Err(e) => room_refusal(*old(state), room_id@, e) && final(state).current_party == old(
                state,
            ).current_party,
        },
{
    match check_room(state, room_id) {
        Ok(_) => {},
        Err(e) => {
            return Err(e);
        },
    }
    match state.current_party.take() {
        Some(mut party) => {
            party.sync_messages();
            let messages = copy_messages(&party.messages);
            state.current_party = Some(party);
            Ok(messages)
        },
        None => Err(CommandError::RoomNotFound),
    }
}

/// Marks a member offline as of the current time. See
/// [`mark_user_offline_cmd_at`].
pub fn mark_user_offline_cmd(state: &mut AppState, room_id: &str, user_id: &str) -> (r: Result<
    (),
    CommandError,
>)
    requires
        old(state).wf(),
    ensures
        final(state).wf(),
        exists|now: i64| #[trigger]
            marked_offline_by_command(*old(state), room_id@, user_id@, now, *final(state), r),
{
    let now = now_millis();
    let r = mark_user_offline_cmd_at(state, room_id, user_id, now);
    assert(marked_offline_by_command(*old(state), room_id@, user_id@, now, *state, r));
    r
}

/// `after` and `r` are what the command to mark the user spelled `user_id`
/// offline in the room spelled `room_id` makes of `before` at `now`.
pub open spec fn marked_offline_by_command(
    before: AppState,
    room_id: Seq<char>,
    user_id: Seq<char>,
    now: i64,
    after: AppState,
    r: Result<(), CommandError>,
) -> bool {
    &&& after.current_user == before.current_user
    &&& after.networking == before.networking
    &&& match r {
        Ok(_) => {
            &&& is_in_room(before, room_id)
            &&& uuid_parsed(user_id) matches Some(user)
            &&& after.current_party matches Some(party) && before.current_party->0@.goes_offline(
                user,
                now,
                party@,
            )
        },
        Err(e) => {
            &&& after.current_party == before.current_party
            &&& if uuid_parsed(room_id) is None {
                e is InvalidRoomId
            } else if uuid_parsed(user_id) is None {
                e is InvalidUserId
            } else {
                e is RoomNotFound && !is_in_room(before, room_id)
            }
        },
    }
}

/// Marks the member spelled `user_id` offline in the room spelled
/// `room_id`, as [`Room::mark_user_offline_at`] does.
pub fn mark_user_offline_cmd_at(state: &mut AppState, room_id: &str, user_id: &str, now: i64) -> (r:
    Result<(), CommandError>)
    requires
        old(state).wf(),
    ensures
        final(state).wf(),
        marked_offline_by_command(*old(state), room_id@, user_id@, now, *final(state), r),
{
    let room = match parse_uuid(room_id) {
        Ok(id) => id,
        Err(e) => {
            return Err(CommandError::InvalidRoomId(e));
        },
    };
    let user = match parse_uuid(user_id) {
        Ok(id) => id,
        Err(e) => {
            return Err(CommandError::InvalidUserId(e));
        },
    };
    match state.current_party.take() {
        Some(mut party) => {
            if party.id == room {
                let _ = party.mark_user_offline_at(user, now);
                state.current_party = Some(party);
                Ok(())
            } else {
                state.current_party = Some(party);
                Err(CommandError::RoomNotFound)
            }
        },
        None => Err(CommandError::RoomNotFound),
    }
}

/// Changes the protocol of the room and of the transport, and says how each
/// peer of the room is reached again. Before the reconnects the change is
/// announced to the peers with [`crate::networking::protocol_notice`].
pub fn change_protocol(state: &mut AppState, new_protocol: Protocol) -> (r: Result<
    Vec<crate::networking::ConnectAction>,
    CommandError,
>)
    ensures
        final(state).current_user == old(state).current_user,
        old(state).wf() ==> final(state).wf(),
        match r {
            Ok(actions) => {
                &&& old(state).current_party matches Some(before) && final(state).current_party matches Some(after) && after@ == (RoomView {
                    protocol: new_protocol,
                    ..before@
                }) && actions.len() == before.peer_addresses.len() && forall|i: int|
                    0 <= i < actions.len() ==> #[trigger] actions[i]
                        == crate::networking::connect_action(before.peer_addresses[i], new_protocol)
                &&& final(state).networking@ == (NetworkView {
                    current_protocol: new_protocol,
                    ..old(state).networking@
                })
            },
            Err(e) => e is NotInParty && old(state).current_party is None && final(state).current_party is None && final(state).networking == old(state).networking,
        },
{
    match state.current_party.take() {
        Some(mut party) => {
            let actions = state.networking.switch_protocol(new_protocol, &party.peer_addresses);
            party.switch_protocol(new_protocol);
            state.current_party = Some(party);
            Ok(actions)
        },
        None => Err(CommandError::NotInParty),
    }
}

// ---------------------------------------------------------------------------
// The call
// ---------------------------------------------------------------------------
/// The name under which the room itself speaks.
pub open spec fn system_name() -> Seq<char> {
    "System"@
}

/// What the room says when `name` enters the call.
pub open spec fn connected_notice(name: Seq<char>) -> Seq<char> {
    "**"@ + name + "** connected to call"@
}

/// What the room says when `name` leaves the call.
pub open spec fn disconnected_notice(name: Seq<char>) -> Seq<char> {
    "**"@ + name + "** disconnected from call"@
}

/// A line that the room itself says at `now`: under the nil identifier and
/// the system's name.
pub open spec fn is_system_line(message: ChatMessage, content: Seq<char>, now: i64) -> bool {
    &&& is_random_id(message.id)
    &&& message.user_id == NIL_ID
    &&& message.user_name@ == system_name()
    &&& message.content@ == content
    &&& message.timestamp == now
}

/// Whether any member is in the call.
pub open spec fn anyone_in_call(users: Seq<User>) -> bool {
    exists|i: int| 0 <= i < users.len() && (#[trigger] users[i]).is_in_call
}

/// `after` is `before` once the member at position `i` entered the call at
/// `now`: the member is in the call and was just seen, the call is active
/// (served by that member where it was not active before), and the room
/// says so in a line.
pub open spec fn enters_call(before: RoomView, i: int, now: i64, after: RoomView) -> bool {
    let member = before.users[i];
    let line = after.messages.last();
    &&& after == (RoomView {
        users: before.users.update(i, User { is_in_call: true, last_seen: now, ..member }),
        is_call_active: true,
        call_server_id: if before.is_call_active {
            before.call_server_id
        } else {
            Some(member.id)
        },
        messages: newest(before.messages.push(line), MAX_MESSAGES as nat),
        ..before
    })
    &&& is_system_line(line, connected_notice(member.name@), now)
}

/// `after` is `before` once the member at position `i`, known locally as
/// `name`, left the call at `now`: the member is out of the call and was
/// just seen, the room says so in a line, and the call ends where nobody
/// is left in it.
pub open spec fn exits_call(before: RoomView, i: int, name: Seq<char>, now: i64, after: RoomView) -> bool {
    let member = before.users[i];
    let users = before.users.update(i, User { is_in_call: false, last_seen: now, ..member });
    let line = after.messages.last();
    &&& after == (RoomView {
        users,
        is_call_active: if anyone_in_call(users) {
            before.is_call_active
        } else {
            false
        },
        call_server_id: if anyone_in_call(users) {
            before.call_server_id
        } else {
            None
        },
        messages: newest(before.messages.push(line), MAX_MESSAGES as nat),
        ..before
    })
    &&& is_system_line(line, disconnected_notice(name), now)
}

fn system_line(content: String, now: i64) -> (message: ChatMessage)
    ensures
        is_system_line(message, content@, now),
        message.content == content,
{
    ChatMessage {
        id: fresh_id(),
        user_id: NIL_ID,
        user_name: String::from_str("System"),
        content,
        timestamp: now,
    }
}

/// `after` and `r` are what the local user's entering the call makes of
/// `before` at `now`.
pub open spec fn call_joined(before: AppState, now: i64, after: AppState, r: Result<(), CommandError>) -> bool {
    &&& after.current_user == before.current_user
    &&& after.networking == before.networking
    &&& match r {
        Ok(_) => {
            &&& before.current_user matches Some(user)
            &&& before.current_party matches Some(party)
            &&& member_position(party@.users, user.id) matches Some(i)
            &&& !party@.users[i].is_in_call
            &&& after.current_party matches Some(room) && enters_call(party@, i, now, room@)
        },
        Err(e) => {
            &&& after.current_party == before.current_party
            &&& match (before.current_user, before.current_party) {
                (None, _) => e is NoUserConfigured,
                (Some(_), None) => e is NotInParty,
                (Some(user), Some(party)) => match member_position(party@.users, user.id) {
                    None => e is UserNotInParty,
                    Some(i) => e is AlreadyInCall && party@.users[i].is_in_call,
                },
            }
        },
    }
}

/// The local user enters the call, as of the current time. See
/// [`join_call_at`].
pub fn join_call(state: &mut AppState) -> (r: Result<(), CommandError>)
    requires
        old(state).wf(),
    ensures
        final(state).wf(),
        exists|now: i64| #[trigger] call_joined(*old(state), now, *final(state), r),
{
    let now = now_millis();
    let r = join_call_at(state, now);
    assert(call_joined(*old(state), now, *state, r));
    r
}

/// The local user enters the call at `now`. The first to enter starts the
/// call and serves it.
pub fn join_call_at(state: &mut AppState, now: i64) -> (r: Result<(), CommandError>)
    requires
        old(state).wf(),
    ensures
        final(state).wf(),
        call_joined(*old(state), now, *final(state), r),
{
    let user_id = match &state.current_user {
        Some(user) => user.id,
        None => {
            return Err(CommandError::NoUserConfigured);
        },
    };
    let mut party = match state.current_party.take() {
        Some(party) => party,
        None => {
            return Err(CommandError::NotInParty);
        },
    };
    let i = match party.find_user(user_id) {
        Some(i) => i,
        None => {
            state.current_party = Some(party);
            return Err(CommandError::UserNotInParty);
        },
    };
    if party.users[i].is_in_call {
        state.current_party = Some(party);
        return Err(CommandError::AlreadyInCall);
    }
    let ghost before = party@;
    party.users[i].join_call_at(now);
    proof {
        crate::room::lemma_update_keeps_ids(before.users, i as int, party.users[i as int]);
    }
    if !party.is_call_active {
        party.is_call_active = true;
        party.call_server_id = Some(user_id);
    }
    let mut content = String::from_str("**");
    content.append(party.users[i].name.as_str());
    content.append("** connected to call");
    let line = system_line(content, now);
    let ghost line_copy = line;
    party.add_message(line);
    proof {
        assert(party@.users =~= before.users.update(
            i as int,
            User { is_in_call: true, last_seen: now, ..before.users[i as int] },
        ));
        lemma_newest_keeps_last(before.messages, line_copy);
    }
    state.current_party = Some(party);
    Ok(())
}

/// The message that was added last is the last of the window.
pub proof fn lemma_newest_keeps_last(messages: Seq<ChatMessage>, line: ChatMessage)
    ensures
        newest(messages.push(line), MAX_MESSAGES as nat).last() == line,
        newest(messages.push(line), MAX_MESSAGES as nat).len() <= MAX_MESSAGES,
        newest(messages.push(line), MAX_MESSAGES as nat).len() >= 1,
{
}

/// `after` and `r` are what the local user's leaving the call makes of
/// `before` at `now`.
pub open spec fn call_left(before: AppState, now: i64, after: AppState, r: Result<(), CommandError>) -> bool {
    &&& after.current_user == before.current_user
    &&& after.networking == before.networking
    &&& match r {
        Ok(_) => {
            &&& before.current_user matches Some(user)
            &&& before.current_party matches Some(party)
            &&& member_position(party@.users, user.id) matches Some(i)
            &&& party@.users[i].is_in_call
            &&& after.current_party matches Some(room) && exits_call(
                party@,
                i,
                user.name@,
                now,
                room@,
            )
        },
        Err(e) => {
            &&& after.current_party == before.current_party
            &&& match (before.current_user, before.current_party) {
                (None, _) => e is NoUserConfigured,
                (Some(_), None) => e is NotInParty,
                (Some(user), Some(party)) => match member_position(party@.users, user.id) {
                    None => e is UserNotInParty,
                    Some(i) => e is NotInCall && !party@.users[i].is_in_call,
                },
            }
        },
    }
}

/// The local user leaves the call, as of the current time. See
/// [`leave_call_at`].
pub fn leave_call(state: &mut AppState) -> (r: Result<(), CommandError>)
    requires
        old(state).wf(),
    ensures
        final(state).wf(),
        exists|now: i64| #[trigger] call_left(*old(state), now, *final(state), r),
{
    let now = now_millis();
    let r = leave_call_at(state, now);
    assert(call_left(*old(state), now, *state, r));
    r
}

/// The local user leaves the call at `now`. When the last one leaves, the
/// call ends.
pub fn leave_call_at(state: &mut AppState, now: i64) -> (r: Result<(), CommandError>)
    requires
        old(state).wf(),
    ensures
        final(state).wf(),
        call_left(*old(state), now, *final(state), r),
{
    let (user_id, user_name) = match &state.current_user {
        Some(user) => (user.id, user.name.clone()),
        None => {
            return Err(CommandError::NoUserConfigured);
        },
    };
    let mut party = match state.current_party.take() {
        Some(party) => party,
        None => {
            return Err(CommandError::NotInParty);
        },
    };
    let i = match party.find_user(user_id) {
        Some(i) => i,
        None => {
            state.current_party = Some(party);
            return Err(CommandError::UserNotInParty);
        },
    };
    if !party.users[i].is_in_call {
        state.current_party = Some(party);
        return Err(CommandError::NotInCall);
    }
    let ghost before = party@;
    party.users[i].leave_call_at(now);
    proof {
        crate::room::lemma_update_keeps_ids(before.users, i as int, party.users[i as int]);
        assert(party@.users =~= before.users.update(
            i as int,
            User { is_in_call: false, last_seen: now, ..before.users[i as int] },
        ));
    }
    let mut content = String::from_str("**");
    content.append(user_name.as_str());
    content.append("** disconnected from call");
    let line = system_line(content, now);
    let ghost line_copy = line;
    party.add_message(line);
    proof {
        lemma_newest_keeps_last(before.messages, line_copy);
    }
    let mut someone = false;
    let mut k: usize = 0;
    while k < party.users.len()
        invariant
            k <= party.users.len(),
            someone <==> exists|m: int| 0 <= m < k && (#[trigger] party.users[m]).is_in_call,
        decreases party.users.len() - k,
    {
        if party.users[k].is_in_call {
            someone = true;
        }
        k += 1;
    }
    assert(someone == anyone_in_call(party@.users));
    if !someone {
        party.is_call_active = false;
        party.call_server_id = None;
    }
    state.current_party = Some(party);
    Ok(())
}

// ---------------------------------------------------------------------------
// Inbound messages
// ---------------------------------------------------------------------------
/// What the payload of an inbound message is to be read as.
#[derive(Clone, Copy, Debug, PartialEq, Eq, Structural)]
pub enum PayloadKind {
    /// A chat line.
    ChatLine,
    /// A user record.
    UserRecord,
    /// The text of a user identifier.
    UserIdText,
    /// Nothing the room acts on.
    Ignored,
}

/// How the payload of a message of type `message_type` is read.
pub fn expected_payload(message_type: MessageType) -> (kind: PayloadKind)
    ensures
        kind == match message_type {
            MessageType::ChatMessage => PayloadKind::ChatLine,
            MessageType::UserJoined => PayloadKind::UserRecord,
            MessageType::UserLeft => PayloadKind::UserIdText,
            _ => PayloadKind::Ignored,
        },
{
    match message_type {
        MessageType::ChatMessage => PayloadKind::ChatLine,
        MessageType::UserJoined => PayloadKind::UserRecord,
        MessageType::UserLeft => PayloadKind::UserIdText,
        _ => PayloadKind::Ignored,
    }
}

/// An inbound message with its payload read.
#[derive(Debug)]
pub enum Inbound {
    /// A peer sent a chat line.
    Chat(ChatMessage),
    /// A peer announced a user.
    Joined(User),
    /// A peer announced that the user of this identifier text left.
    Left(String),
    /// A message the room does not act on, or whose payload was not what
    /// its type promised.
    Other,
}

/// `after` is what the inbound message makes of the room `before` at `now`:
/// a chat line is added; an announced user is admitted, unless the
/// identifier is a member's already; a user who left is removed, if the
/// text spells an identifier; anything else changes nothing.
pub open spec fn room_after_inbound(before: RoomView, inbound: Inbound, now: i64, after: RoomView) -> bool {
    match inbound {
        Inbound::Chat(message) => after == (RoomView {
            messages: newest(before.messages.push(message), MAX_MESSAGES as nat),
            ..before
        }),
        Inbound::Joined(user) => if crate::room::has_member(before.users, user.id) {
            after == before
        } else {
            before.admits(user, after)
        },
        Inbound::Left(text) => match uuid_parsed(text@) {
            Some(id) => before.loses_member(id, now, after),
            None => after == before,
        },
        Inbound::Other => after == before,
    }
}

/// `after` is what the inbound message makes of the session `before` at
/// `now`. Outside a room nothing changes.
pub open spec fn inbound_handled(before: AppState, inbound: Inbound, now: i64, after: AppState) -> bool {
    &&& after.current_user == before.current_user
    &&& after.networking == before.networking
    &&& match before.current_party {
        Some(party) => after.current_party matches Some(room) && room_after_inbound(
            party@,
            inbound,
            now,
            room@,
        ),
        None => after.current_party is None,
    }
}

/// Takes in an inbound message as of the current time. See
/// [`handle_incoming_message_at`].
pub fn handle_incoming_message(state: &mut AppState, inbound: Inbound)
    requires
        old(state).wf(),
    ensures
        final(state).wf(),
        exists|now: i64| #[trigger] inbound_handled(*old(state), inbound, now, *final(state)),
{
    let now = now_millis();
    handle_incoming_message_at(state, inbound, now);
    assert(inbound_handled(*old(state), inbound, now, *state));
}

/// Takes in an inbound message at `now`; see [`room_after_inbound`].
pub fn handle_incoming_message_at(state: &mut AppState, inbound: Inbound, now: i64)
    requires
        old(state).wf(),
    ensures
        final(state).wf(),
        inbound_handled(*old(state), inbound, now, *final(state)),
{
    let mut party = match state.current_party.take() {
        Some(party) => party,
        None => {
            return ;
        },
    };
    match inbound {
        Inbound::Chat(message) => {
            party.add_message(message);
        },
        Inbound::Joined(user) => {
            let _ = party.add_user(user);
        },
        Inbound::Left(text) => {
            match parse_uuid(text.as_str()) {
                Ok(id) => {
                    let _ = party.remove_user_at(id, now);
                },
                Err(_) => {},
            }
        },
        Inbound::Other => {},
    }
    state.current_party = Some(party);
}

// ---------------------------------------------------------------------------
// Joining
// ---------------------------------------------------------------------------
/// Reads the invite token of a request to join. The document it holds is
/// decoded by the caller and handed to [`begin_join`].
pub fn join_party(state: &AppState, invite_code: &str) -> (r: Result<String, CommandError>)
    ensures
        match r {
            Ok(document) => state.current_party is None && crate::invite::token_document(
                invite_code@,
            ) == Some(document@),
            Err(CommandError::PartyAlreadyActive) => state.current_party is Some,
            Err(CommandError::InvalidInvite(_)) => state.current_party is None
                && crate::invite::token_document(invite_code@) is None,
            Err(_) => false,
        },
{
    if state.current_party.is_some() {
        return Err(CommandError::PartyAlreadyActive);
    }
    match InviteData::parse_invite_code(invite_code) {
        Ok(document) => Ok(document),
        Err(e) => Err(CommandError::InvalidInvite(e)),
    }
}

/// An attempt to join the room of an invite: the invite's peers are tried
/// in their order, the primary first, until one is reached.
#[derive(Debug)]
pub struct JoinAttempt {
    pub invite: InviteData,
    pub user: User,
    /// How many peers were tried without success.
    pub tried: usize,
    pub failures: Vec<PeerFailure>,
    pub connected: bool,
}

impl JoinAttempt {
    /// The validity of an attempt: one failure for each peer tried in vain,
    /// in the order of the invite.
    pub open spec fn wf(&self) -> bool {
        &&& self.tried <= self.invite.peer_addresses.len()
        &&& self.failures.len() == self.tried
        &&& forall|i: int|
            0 <= i < self.tried ==> (#[trigger] self.failures[i]).addr
                == self.invite.peer_addresses[i] && self.failures[i].primary == (i == 0)
    }

    /// Whether the attempt is valid; see [`JoinAttempt::wf`].
    pub fn is_well_formed(&self) -> (r: bool)
        ensures
            r == self.wf(),
    {
        if self.tried > self.invite.peer_addresses.len() || self.failures.len() != self.tried {
            return false;
        }
        let mut i: usize = 0;
        while i < self.tried
            invariant
                i <= self.tried <= self.invite.peer_addresses.len(),
                self.failures.len() == self.tried,
                forall|k: int|
                    0 <= k < i ==> (#[trigger] self.failures[k]).addr
                        == self.invite.peer_addresses[k] && self.failures[k].primary == (k == 0),
            decreases self.tried - i,
        {
            if self.failures[i].addr != self.invite.peer_addresses[i] || self.failures[i].primary
                != (i == 0) {
                return false;
            }
            i += 1;
        }
        true
    }

    /// The peer to try next, and the protocol to try it under; nothing once
    /// a peer was reached or all were tried.
    pub fn next_peer(&self) -> (next: Option<(PeerAddr, Protocol)>)
        requires
            self.wf(),
        ensures
            next == if !self.connected && self.tried < self.invite.peer_addresses.len() {
                Some((self.invite.peer_addresses[self.tried as int], self.invite.protocol))
            } else {
                None
            },
    {
        if !self.connected && self.tried < self.invite.peer_addresses.len() {
            Some((self.invite.peer_addresses[self.tried], self.invite.protocol))
        } else {
            None
        }
    }

    /// Notes that the peer that was due could not be reached, and why. The
    /// next peer is due. Nothing changes where no peer was due.
    pub fn peer_failed(&mut self, cause: String)
        requires
            old(self).wf(),
        ensures
            final(self).wf(),
            final(self).invite == old(self).invite,
            final(self).user == old(self).user,
            final(self).connected == old(self).connected,
            if !old(self).connected && old(self).tried < old(self).invite.peer_addresses.len() {
                &&& final(self).tried == old(self).tried + 1
                &&& final(self).failures@ == old(self).failures@.push(final(self).failures@.last())
                &&& final(self).failures@.last().cause == cause
            } else {
                final(self).tried == old(self).tried && final(self).failures == old(self).failures
            },
    {
        if !self.connected && self.tried < self.invite.peer_addresses.len() {
            let failure = PeerFailure {
                addr: self.invite.peer_addresses[self.tried],
                primary: self.tried == 0,
                cause,
            };
            self.failures.push(failure);
            self.tried = self.tried + 1;
            assert(self.failures@.drop_last() =~= old(self).failures@);
        }
    }

    /// Notes that the peer that was due was reached. No further peer is
    /// tried. Nothing changes where no peer was due.
    pub fn peer_connected(&mut self)
        requires
            old(self).wf(),
        ensures
            final(self).wf(),
            *final(self) == (JoinAttempt {
                connected: old(self).connected || old(self).tried < old(
                    self,
                ).invite.peer_addresses.len(),
                ..*old(self)
            }),
    {
        if self.tried < self.invite.peer_addresses.len() {
            self.connected = true;
        }
    }

    /// Ends the attempt as of the current time. See
    /// [`JoinAttempt::finish_at`].
    pub fn finish(self, state: &mut AppState) -> (r: Result<(), CommandError>)
        requires
            old(state).wf(),
            self.wf(),
        ensures
            final(state).wf(),
            exists|now: i64| #[trigger] join_finished(self, *old(state), now, *final(state), r),
    {
        let now = now_millis();
        let ghost attempt = self;
        let r = self.finish_at(state, now);
        assert(join_finished(attempt, *old(state), now, *state, r));
        r
    }

    /// Ends the attempt at `now`. Where a peer was reached, the node is in
    /// the invite's room from now on: a room of the invite's identifier,
    /// name, protocol and peers, with the local user as its only member so
    /// far. Where none was, the failures are handed back.
    pub fn finish_at(self, state: &mut AppState, now: i64) -> (r: Result<(), CommandError>)
        requires
            old(state).wf(),
            self.wf(),
        ensures
            final(state).wf(),
            join_finished(self, *old(state), now, *final(state), r),
    {
        if !self.connected {
            return Err(CommandError::NoPeerReachable { failures: self.failures });
        }
        let JoinAttempt { invite, user, tried: _, failures: _, connected: _ } = self;
        let InviteData { room_id, room_name, creator_name: _, peer_addresses, protocol, created_at: _ } =
            invite;
        let mut party = Room::new_at(room_id, room_name, user, protocol, now);
        party.peer_addresses = peer_addresses;
        state.current_party = Some(party);
        Ok(())
    }
}

/// `after` and `r` are what the end of `attempt` at `now` makes of the
/// session `before`.
pub open spec fn join_finished(
    attempt: JoinAttempt,
    before: AppState,
    now: i64,
    after: AppState,
    r: Result<(), CommandError>,
) -> bool {
    &&& after.current_user == before.current_user
    &&& after.networking == before.networking
    &&& if attempt.connected {
        &&& r is Ok
        &&& after.current_party matches Some(party) && party@ == (RoomView {
            peer_addresses: attempt.invite.peer_addresses@,
            ..RoomView::founded(
                attempt.invite.room_id,
                attempt.invite.room_name@,
                attempt.user,
                attempt.invite.protocol,
                now,
            )
        })
    } else {
        &&& after.current_party == before.current_party
        &&& r matches Err(CommandError::NoPeerReachable { failures }) && failures
            == attempt.failures
    }
}

/// `r` is what beginning to join by `invite` at `now` comes to: refused for
/// an invite older than [`INVITE_MAX_AGE_HOURS`]; else refused without a
/// profile; else an attempt with nothing tried yet.
pub open spec fn join_begun(state: AppState, invite: InviteData, now: i64, r: Result<JoinAttempt, CommandError>) -> bool {
    if is_older_than(invite.created_at, now, INVITE_MAX_AGE_HOURS) {
        r matches Err(CommandError::InviteExpired)
    } else if state.current_user is None {
        r matches Err(CommandError::NoUserConfigured)
    } else {
        r matches Ok(attempt) && attempt.invite == invite && attempt.user == state.current_user->0
            && attempt.tried == 0 && attempt.failures@ == Seq::<PeerFailure>::empty()
            && !attempt.connected && attempt.wf()
    }
}

/// Begins to join by `invite`, as of the current time. See
/// [`begin_join_at`].
pub fn begin_join(state: &AppState, invite: InviteData) -> (r: Result<JoinAttempt, CommandError>)
    ensures
        exists|now: i64| #[trigger] join_begun(*state, invite, now, r),
{
    let now = now_millis();
    let r = begin_join_at(state, invite, now);
    assert(join_begun(*state, invite, now, r));
    r
}

/// Begins to join by `invite` at `now`; see [`join_begun`].
pub fn begin_join_at(state: &AppState, invite: InviteData, now: i64) -> (r: Result<
    JoinAttempt,
    CommandError,
>)
    ensures
        join_begun(*state, invite, now, r),
{
    if invite.is_expired_at(now, INVITE_MAX_AGE_HOURS) {
        return Err(CommandError::InviteExpired);
    }
    let user = match &state.current_user {
        Some(user) => user.clone(),
        None => {
            return Err(CommandError::NoUserConfigured);
        },
    };
    Ok(JoinAttempt { invite, user, tried: 0, failures: Vec::new(), connected: false })
}

} // verus!
