//! The invite token: a room's coordinates as one line of text.
//!
//! A token is the prefix `shortgap://` followed by the URL-safe, unpadded
//! Base64 form of a UTF-8 document. This module frames and unframes the
//! document; what the document says is the caller's matter.

use base64::Engine;
use vstd::prelude::*;
use vstd::string::StringExecFns;
use vstd::string::StringSliceAdditionalSpecFns;
use vstd::utf8::{decode_utf8, encode_utf8, valid_utf8};
use crate::addr::PeerAddr;
use crate::networking::Protocol;
use crate::text::{strip_prefix, utf8_text};
use crate::time::now_millis;

verus! {

/// The error of the Base64 decoder.
#[verifier::external_type_specification]
#[verifier::external_body]
pub struct ExDecodeError(base64::DecodeError);

/// The URL-safe, unpadded Base64 text of `data`, as the `base64` crate
/// writes it.
pub uninterp spec fn base64url(data: Seq<u8>) -> Seq<char>;

/// The bytes that the `base64` crate reads from URL-safe, unpadded Base64
/// text, or nothing where it refuses the text.
pub uninterp spec fn base64url_decoded(text: Seq<char>) -> Option<Seq<u8>>;

/// Whether `c` belongs to the URL-safe Base64 alphabet: a letter, a digit,
/// `-` or `_`.
pub open spec fn is_url_safe(c: char) -> bool {
    ||| 'A' as u32 <= c as u32 <= 'Z' as u32
    ||| 'a' as u32 <= c as u32 <= 'z' as u32
    ||| '0' as u32 <= c as u32 <= '9' as u32
    ||| c == '-'
    ||| c == '_'
}

/// The length of the unpadded Base64 text of `n` bytes: four characters for
/// every three bytes, and two or three for a rest of one or two.
pub open spec fn encoded_length(n: nat) -> nat {
    (n / 3) * 4 + if n % 3 == 0 {
        0nat
    } else if n % 3 == 1 {
        2nat
    } else {
        3nat
    }
}

/// The longest input whose Base64 text still has a length that fits the
/// machine.
pub open spec fn max_encodable() -> nat {
    (usize::MAX / 4 * 3) as nat
}

/// Writes `data` in URL-safe, unpadded Base64. Wraps `Engine::encode` of
/// `base64::engine::general_purpose::URL_SAFE_NO_PAD`. Trusted of it: the
/// text has the length the crate computes for it, holds only characters of
/// the URL-safe alphabet, and is read back by the same engine as `data`. The
/// crate panics where the length does not fit; such input is excluded.
#[verifier::external_body]
pub(crate) fn base64url_encode(data: &[u8]) -> (text: String)
    requires
        data@.len() <= max_encodable(),
    ensures
        text@ == base64url(data@),
        text@.len() == encoded_length(data@.len()),
        forall|i: int| 0 <= i < text@.len() ==> is_url_safe(#[trigger] text@[i]),
        base64url_decoded(text@) == Some(data@),
{
    base64::engine::general_purpose::URL_SAFE_NO_PAD.encode(data)
}

/// Reads URL-safe, unpadded Base64. Wraps `Engine::decode` of
/// `base64::engine::general_purpose::URL_SAFE_NO_PAD`; the bytes, or the
/// crate's refusal, are what [`base64url_decoded`] names.
#[verifier::external_body]
pub(crate) fn base64url_decode(text: &str) -> (r: Result<Vec<u8>, base64::DecodeError>)
    ensures
        r is Ok <==> base64url_decoded(text@) is Some,
        r is Ok ==> r->Ok_0@ == base64url_decoded(text@)->0,
{
    base64::engine::general_purpose::URL_SAFE_NO_PAD.decode(text)
}

/// Why a token could not be made or read.
#[derive(Debug)]
pub enum InviteError {
    /// The document is too long to be encoded.
    TooLong,
    /// The token is not Base64; the decoder's complaint is attached.
    NotBase64(base64::DecodeError),
    /// The decoded bytes are not UTF-8; the complaint is attached.
    NotText(std::string::FromUtf8Error),
}

/// What every token starts with.
pub open spec fn invite_prefix() -> Seq<char> {
    "shortgap://"@
}

/// The part of a token that is Base64: what follows the prefix, or all of it
/// where the prefix is missing.
pub open spec fn token_body(code: Seq<char>) -> Seq<char> {
    if invite_prefix().is_prefix_of(code) {
        code.skip(invite_prefix().len() as int)
    } else {
        code
    }
}

/// The document that a token holds, or nothing where it is no token.
pub open spec fn token_document(code: Seq<char>) -> Option<Seq<char>> {
    match base64url_decoded(token_body(code)) {
        Some(bytes) => if valid_utf8(bytes) {
            Some(decode_utf8(bytes))
        } else {
            None
        },
        None => None,
    }
}

/// The token of a document.
pub open spec fn token_of(document: Seq<char>) -> Seq<char> {
    invite_prefix() + base64url(encode_utf8(document))
}

/// What a newcomer needs to find and join a room.
#[derive(Debug)]
pub struct InviteData {
    pub room_id: u128,
    pub room_name: String,
    pub creator_name: String,
    pub peer_addresses: Vec<PeerAddr>,
    pub protocol: Protocol,
    pub created_at: i64,
}

/// Whether an invite made at `created_at` is older at `now` than
/// `max_age_hours`.
pub open spec fn is_older_than(created_at: i64, now: i64, max_age_hours: u64) -> bool {
    now as int - created_at as int > max_age_hours as int * 3_600_000
}

/// An invite is never expired at the moment it was made.
pub proof fn lemma_fresh_invite_never_expired(now: i64, max_age_hours: u64)
    ensures
        !is_older_than(now, now, max_age_hours),
{
}

/// An invite that is expired under one limit is expired under every shorter
/// one.
pub proof fn lemma_expiry_is_monotone(created_at: i64, now: i64, shorter: u64, longer: u64)
    requires
        shorter <= longer,
        is_older_than(created_at, now, longer),
    ensures
        is_older_than(created_at, now, shorter),
{
    assert(shorter as int * 3_600_000 <= longer as int * 3_600_000) by (nonlinear_arith)
        requires
            shorter <= longer,
    ;
}

impl InviteData {
    /// An invite made at the current time.
    pub fn new(
        room_id: u128,
        room_name: String,
        creator_name: String,
        peer_addresses: Vec<PeerAddr>,
        protocol: Protocol,
    ) -> (invite: InviteData)
        ensures
            invite.room_id == room_id,
            invite.room_name == room_name,
            invite.creator_name == creator_name,
            invite.peer_addresses == peer_addresses,
            invite.protocol == protocol,
    {
        let now = now_millis();
        InviteData::new_at(room_id, room_name, creator_name, peer_addresses, protocol, now)
    }

    /// An invite made at `now`.
    pub fn new_at(
        room_id: u128,
        room_name: String,
        creator_name: String,
        peer_addresses: Vec<PeerAddr>,
        protocol: Protocol,
        now: i64,
    ) -> (invite: InviteData)
        ensures
            invite.room_id == room_id,
            invite.room_name == room_name,
            invite.creator_name == creator_name,
            invite.peer_addresses == peer_addresses,
            invite.protocol == protocol,
            invite.created_at == now,
    {
        InviteData { room_id, room_name, creator_name, peer_addresses, protocol, created_at: now }
    }

    /// The token of the invite document `document`. Reading the token gives
    /// the document back.
    pub fn generate_invite_code(document: &str) -> (r: Result<String, InviteError>)
        ensures
            match r {
                Ok(code) => {
                    &&& code@ == token_of(document@)
                    &&& token_document(code@) == Some(document@)
                    &&& encode_utf8(document@).len() <= max_encodable()
                    &&& code@.len() == invite_prefix().len() + encoded_length(
                        encode_utf8(document@).len(),
                    )
                    &&& forall|i: int|
                        invite_prefix().len() <= i < code@.len() ==> is_url_safe(#[trigger] code@[i])
                },
                Err(e) => e is TooLong && encode_utf8(document@).len() > max_encodable(),
            },
    {
        let bytes = document.as_bytes();
        if bytes.len() > usize::MAX / 4 * 3 {
            return Err(InviteError::TooLong);
        }
        let encoded = base64url_encode(bytes);
        let mut code = String::from_str("shortgap://");
        code.append(encoded.as_str());
        proof {
            let prefix = invite_prefix();
            assert(code@ == prefix + encoded@);
            assert(prefix.is_prefix_of(code@)) by {
                assert(code@.subrange(0, prefix.len() as int) =~= prefix);
            }
            assert(code@.skip(prefix.len() as int) =~= encoded@);
            vstd::utf8::encode_utf8_valid_utf8(document@);
            vstd::utf8::encode_utf8_decode_utf8(document@);
            assert forall|i: int| prefix.len() <= i < code@.len() implies is_url_safe(
                #[trigger] code@[i],
            ) by {
                assert(code@[i] == encoded@[i - prefix.len()]);
            }
        }
        Ok(code)
    }

    /// The document that the token `invite_code` holds. The prefix may be
    /// missing; the rest must be Base64 of UTF-8 text.
    pub fn parse_invite_code(invite_code: &str) -> (r: Result<String, InviteError>)
        ensures
            match r {
                Ok(document) => token_document(invite_code@) == Some(document@),
                Err(InviteError::NotBase64(_)) => base64url_decoded(token_body(invite_code@))
                    is None,
                Err(InviteError::NotText(_)) => base64url_decoded(token_body(invite_code@))
                    is Some && !valid_utf8(base64url_decoded(token_body(invite_code@))->0),
                Err(InviteError::TooLong) => false,
            },
    {
        let body = match strip_prefix(invite_code, "shortgap://") {
            Some(rest) => rest,
            None => invite_code,
        };
        let bytes = match base64url_decode(body) {
            Ok(bytes) => bytes,
            Err(e) => {
                return Err(InviteError::NotBase64(e));
            },
        };
        match utf8_text(bytes) {
            Ok(document) => Ok(document),
            Err(e) => Err(InviteError::NotText(e)),
        }
    }

    /// Whether the invite is older than `max_age_hours` at the current
    /// time. See [`InviteData::is_expired_at`].
    pub fn is_expired(&self, max_age_hours: u64) -> (expired: bool)
        ensures
            exists|now: i64| expired == #[trigger] is_older_than(self.created_at, now, max_age_hours),
    {
        let now = now_millis();
        self.is_expired_at(now, max_age_hours)
    }

    /// Whether more than `max_age_hours` have passed at `now` since the
    /// invite was made.
    pub fn is_expired_at(&self, now: i64, max_age_hours: u64) -> (expired: bool)
        ensures
            expired == is_older_than(self.created_at, now, max_age_hours),
    {
        let age: i128 = now as i128 - self.created_at as i128;
        let limit: i128 = (max_age_hours as i128) * 3_600_000;
        age > limit
    }

    /// The address to try first: the first of the list.
    pub fn get_primary_peer(&self) -> (primary: Option<PeerAddr>)
        ensures
            primary == if self.peer_addresses.len() > 0 {
                Some(self.peer_addresses[0])
            } else {
                None
            },
    {
        if self.peer_addresses.len() > 0 {
            Some(self.peer_addresses[0])
        } else {
            None
        }
    }

    /// The addresses to fall back on: all but the first, in their order.
    pub fn get_fallback_peers(&self) -> (fallback: Vec<PeerAddr>)
        ensures
            fallback@ == if self.peer_addresses.len() > 1 {
                self.peer_addresses@.skip(1)
            } else {
                Seq::empty()
            },
    {
        let mut fallback: Vec<PeerAddr> = Vec::new();
        let mut i: usize = 1;
        while i < self.peer_addresses.len()
            invariant
                1 <= i,
                i <= self.peer_addresses.len() || self.peer_addresses.len() == 0,
                self.peer_addresses.len() > 0 ==> fallback@ == self.peer_addresses@.subrange(
                    1,
                    i as int,
                ),
                self.peer_addresses.len() == 0 ==> fallback@ == Seq::<PeerAddr>::empty(),
            decreases self.peer_addresses.len() - i,
        {
            fallback.push(self.peer_addresses[i]);
            assert(fallback@ =~= self.peer_addresses@.subrange(1, i + 1));
            i += 1;
        }
        assert(self.peer_addresses.len() > 1 ==> fallback@ =~= self.peer_addresses@.skip(1));
        assert(self.peer_addresses.len() <= 1 ==> fallback@ =~= Seq::<PeerAddr>::empty());
        fallback
    }
}

} // verus!
