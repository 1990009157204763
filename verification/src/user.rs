//! A participant of a room.

use vstd::prelude::*;
use crate::addr::PeerAddr;
use crate::ident::{fresh_id, is_random_id};
use crate::time::now_millis;

verus! {

/// A participant: identity, display name, endpoint and presence.
#[derive(Debug)]
pub struct User {
    pub id: u128,
    pub name: String,
    pub avatar: Option<String>,
    pub address: PeerAddr,
    pub audio_input_device: Option<String>,
    pub audio_output_device: Option<String>,
    pub is_online: bool,
    pub last_seen: i64,
    pub is_in_call: bool,
}

/// A copy of an optional string.
pub fn copy_optional_text(text: &Option<String>) -> (r: Option<String>)
    ensures
        r == *text,
{
    match text {
        Some(s) => Some(s.clone()),
        None => None,
    }
}

impl Clone for User {
    fn clone(&self) -> (r: Self)
        ensures
            r == *self,
    {
        User {
            id: self.id,
            name: self.name.clone(),
            avatar: copy_optional_text(&self.avatar),
            address: self.address,
            audio_input_device: copy_optional_text(&self.audio_input_device),
            audio_output_device: copy_optional_text(&self.audio_output_device),
            is_online: self.is_online,
            last_seen: self.last_seen,
            is_in_call: self.is_in_call,
        }
    }
}

impl User {
    /// The user that first appears at `now` under the identifier `id`:
    /// online, not in a call, with no avatar and no audio devices chosen.
    pub open spec fn fresh(id: u128, name: String, address: PeerAddr, now: i64) -> User {
        User {
            id,
            name,
            avatar: None,
            address,
            audio_input_device: None,
            audio_output_device: None,
            is_online: true,
            last_seen: now,
            is_in_call: false,
        }
    }

    /// A new user with a random identifier, first seen at the current time.
    pub fn new(name: String, address: PeerAddr) -> (user: User)
        ensures
            is_random_id(user.id),
            user == User::fresh(user.id, name, address, user.last_seen),
    {
        let id = fresh_id();
        let now = now_millis();
        User::new_at(id, name, address, now)
    }

    /// A new user with the given identifier, first seen at `now`.
    pub fn new_at(id: u128, name: String, address: PeerAddr, now: i64) -> (user: User)
        ensures
            user == User::fresh(id, name, address, now),
    {
        User {
            id,
            name,
            avatar: None,
            address,
            audio_input_device: None,
            audio_output_device: None,
            is_online: true,
            last_seen: now,
            is_in_call: false,
        }
    }

    /// Records a liveness signal at the current time. Only `last_seen`
    /// changes.
    pub fn update_last_seen(&mut self)
        ensures
            *final(self) == (User { last_seen: final(self).last_seen, ..*old(self) }),
    {
        let now = now_millis();
        self.touch(now);
    }

    /// Records a liveness signal at `now`.
    pub fn touch(&mut self, now: i64)
        ensures
            *final(self) == (User { last_seen: now, ..*old(self) }),
    {
        self.last_seen = now;
    }

    /// Chooses the audio devices; `None` leaves the choice to the system.
    pub fn set_audio_devices(&mut self, input: Option<String>, output: Option<String>)
        ensures
            *final(self) == (User {
                audio_input_device: input,
                audio_output_device: output,
                ..*old(self)
            }),
    {
        self.audio_input_device = input;
        self.audio_output_device = output;
    }

    /// Sets or clears the avatar.
    pub fn set_avatar(&mut self, avatar: Option<String>)
        ensures
            *final(self) == (User { avatar, ..*old(self) }),
    {
        self.avatar = avatar;
    }

    /// Enters the call, which counts as a liveness signal at the current time.
    pub fn join_call(&mut self)
        ensures
            *final(self) == (User {
                is_in_call: true,
                last_seen: final(self).last_seen,
                ..*old(self)
            }),
    {
        let now = now_millis();
        self.join_call_at(now);
    }

    /// Enters the call at `now`.
    pub fn join_call_at(&mut self, now: i64)
        ensures
            *final(self) == (User { is_in_call: true, last_seen: now, ..*old(self) }),
    {
        self.is_in_call = true;
        self.touch(now);
    }

    /// Leaves the call, which counts as a liveness signal at the current time.
    pub fn leave_call(&mut self)
        ensures
            *final(self) == (User {
                is_in_call: false,
                last_seen: final(self).last_seen,
                ..*old(self)
            }),
    {
        let now = now_millis();
        self.leave_call_at(now);
    }

    /// Leaves the call at `now`.
    pub fn leave_call_at(&mut self, now: i64)
        ensures
            *final(self) == (User { is_in_call: false, last_seen: now, ..*old(self) }),
    {
        self.is_in_call = false;
        self.touch(now);
    }
}

} // verus!
