//! Identifiers of rooms, users and messages: 128-bit numbers, written as UUIDs.

use vstd::prelude::*;

verus! {

/// The identifier that no room, user or message of its own carries; system
/// messages are sent under it.
pub const NIL_ID: u128 = 0;

/// The bits that mark a random identifier: version 4, RFC 4122 variant.
pub open spec fn is_random_id(id: u128) -> bool {
    id & 0xF000_C000_0000_0000_0000u128 == 0x4000_8000_0000_0000_0000u128
}

/// A fresh random identifier. Wraps `uuid::Uuid::new_v4`, read through
/// `Uuid::as_u128`: the number is random except for the version and variant
/// bits, which that function sets.
#[verifier::external_body]
pub(crate) fn fresh_id() -> (id: u128)
    ensures
        is_random_id(id),
{
    uuid::Uuid::new_v4().as_u128()
}

/// A random identifier is never the nil identifier.
pub proof fn lemma_random_id_not_nil(id: u128)
    requires
        is_random_id(id),
    ensures
        id != NIL_ID,
{
    assert(id & 0xF000_C000_0000_0000_0000u128 == 0x4000_8000_0000_0000_0000u128 ==> id != 0u128)
        by (bit_vector);
}

/// The error of the UUID parser.
#[verifier::external_type_specification]
#[verifier::external_body]
pub struct ExUuidError(uuid::Error);

/// The identifier that the `uuid` crate reads from `text`, or nothing where
/// it refuses the text.
pub uninterp spec fn uuid_parsed(text: Seq<char>) -> Option<u128>;

/// The text that the `uuid` crate writes for an identifier: 32 lower-case
/// hexadecimal digits in five hyphenated groups.
pub uninterp spec fn uuid_text(id: u128) -> Seq<char>;

/// Reads an identifier. Wraps `uuid::Uuid::parse_str`, read through
/// `Uuid::as_u128`; the identifier, or the crate's refusal, is what
/// [`uuid_parsed`] names.
#[verifier::external_body]
pub(crate) fn parse_uuid(text: &str) -> (r: Result<u128, uuid::Error>)
    ensures
        r is Ok <==> uuid_parsed(text@) is Some,
        r is Ok ==> r->Ok_0 == uuid_parsed(text@)->0,
{
    match uuid::Uuid::parse_str(text) {
        Ok(id) => Ok(id.as_u128()),
        Err(e) => Err(e),
    }
}

/// Writes an identifier. Wraps the `Display` of `uuid::Uuid`, built by
/// `Uuid::from_u128`; the text is what [`uuid_text`] names. Trusted of it
/// besides: the parser of the same crate reads the text back as the
/// identifier.
#[verifier::external_body]
pub(crate) fn write_uuid(id: u128) -> (text: String)
    ensures
        text@ == uuid_text(id),
        uuid_parsed(text@) == Some(id),
{
    uuid::Uuid::from_u128(id).to_string()
}

/// Reads an identifier from its text, if it is one.
pub fn parse_id(text: &str) -> (id: Option<u128>)
    ensures
        id == uuid_parsed(text@),
{
    match parse_uuid(text) {
        Ok(id) => Some(id),
        Err(_) => None,
    }
}

/// The text of an identifier. Reading the text gives the identifier back.
pub fn id_text(id: u128) -> (text: String)
    ensures
        text@ == uuid_text(id),
        uuid_parsed(text@) == Some(id),
{
    write_uuid(id)
}

} // verus!
