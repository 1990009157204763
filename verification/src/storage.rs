//! Names under which rooms are kept in a store: one document per room,
//! called after the room's identifier.

use vstd::prelude::*;
use vstd::string::StringExecFns;
use crate::ident::{parse_id, uuid_parsed, uuid_text, write_uuid};
use crate::room::Room;

verus! {

/// The ending of a room document's name.
pub open spec fn document_suffix() -> Seq<char> {
    ".json"@
}

/// The identifiers that `stems` spell, in their order; stems that spell
/// none are passed over.
pub open spec fn spelled_ids(stems: Seq<String>) -> Seq<u128> {
    stems.filter_map(|stem: String| uuid_parsed(stem@))
}

/// The name of the document that holds the room of identifier `id`: the
/// text of the identifier and `.json`.
pub fn room_file_name(id: u128) -> (name: String)
    ensures
        name@ == uuid_text(id) + document_suffix(),
{
    let mut name = write_uuid(id);
    name.append(".json");
    name
}

impl Room {
    /// The name of the document that holds this room.
    pub fn file_name(&self) -> (name: String)
        ensures
            name@ == uuid_text(self.id) + document_suffix(),
    {
        room_file_name(self.id)
    }

    /// The rooms that a store holds, given the names of its documents
    /// without their endings: every name that spells an identifier stands
    /// for a room.
    pub fn list_saved_rooms(stems: &Vec<String>) -> (ids: Vec<u128>)
        ensures
            ids@ == spelled_ids(stems@),
    {
        let ghost spell = |stem: String| uuid_parsed(stem@);
        let mut ids: Vec<u128> = Vec::new();
        let mut i: usize = 0;
        while i < stems.len()
            invariant
                i <= stems.len(),
                spell == (|stem: String| uuid_parsed(stem@)),
                ids@ == stems@.take(i as int).filter_map(spell),
            decreases stems.len() - i,
        {
            proof {
                assert(stems@.take(i + 1).drop_last() =~= stems@.take(i as int));
                assert(stems@.take(i + 1).last() == stems@[i as int]);
            }
            match parse_id(stems[i].as_str()) {
                Some(id) => {
                    ids.push(id);
                    assert(ids@ =~= stems@.take(i as int).filter_map(spell) + seq![id]);
                },
                None => {},
            }
            i += 1;
        }
        assert(stems@.take(i as int) =~= stems@);
        ids
    }
}

} // verus!
