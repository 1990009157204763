//! What a newcomer is called when the name asked for is taken.

use vstd::prelude::*;
use crate::numerals::{decimal, lemma_decimal_reads_back, read_number};
use crate::user::User;

verus! {

/// The number `n` where `name` is `base`, a hyphen and `n` written in
/// decimal. The number may be of any size.
pub open spec fn suffix_of(name: Seq<char>, base: Seq<char>) -> Option<nat> {
    let head = base.push('-');
    if head.is_prefix_of(name) {
        read_number(name.skip(head.len() as int))
    } else {
        None
    }
}

/// The least suffix that a newcomer called `base` may take next to a member
/// called `name`: one above the member's suffix; two beside the bare name;
/// else one.
pub open spec fn suffix_demand(name: Seq<char>, base: Seq<char>) -> nat {
    match suffix_of(name, base) {
        Some(n) => n + 1,
        None => if name == base {
            2
        } else {
            1
        },
    }
}

/// Whether some member is called `name`.
pub open spec fn name_taken(users: Seq<User>, name: Seq<char>) -> bool {
    exists|i: int| 0 <= i < users.len() && (#[trigger] users[i]).name@ == name
}

/// `suffix` is the greatest demand that any member makes on a newcomer
/// called `base`, and one where there is no member.
pub open spec fn is_next_suffix(users: Seq<User>, base: Seq<char>, suffix: nat) -> bool {
    &&& suffix >= 1
    &&& forall|i: int|
        0 <= i < users.len() ==> suffix_demand((#[trigger] users[i]).name@, base) <= suffix
    &&& suffix == 1 || exists|i: int|
        0 <= i < users.len() && suffix_demand((#[trigger] users[i]).name@, base) == suffix
}

/// `name` is what a newcomer who asks for `desired` is called: `desired`
/// itself where nobody has it, else `desired`, a hyphen and the next suffix.
pub open spec fn resolves_to(users: Seq<User>, desired: Seq<char>, name: Seq<char>) -> bool {
    if name_taken(users, desired) {
        exists|suffix: nat| #[trigger]
            is_next_suffix(users, desired, suffix) && name == desired.push('-') + decimal(suffix)
    } else {
        name == desired
    }
}

/// A newcomer's name is determined by the members and the name asked for.
pub proof fn lemma_resolved_name_is_unique(
    users: Seq<User>,
    desired: Seq<char>,
    a: Seq<char>,
    b: Seq<char>,
)
    requires
        resolves_to(users, desired, a),
        resolves_to(users, desired, b),
    ensures
        a == b,
{
    if name_taken(users, desired) {
        let sa = choose|suffix: nat| #[trigger]
            is_next_suffix(users, desired, suffix) && a == desired.push('-') + decimal(suffix);
        let sb = choose|suffix: nat| #[trigger]
            is_next_suffix(users, desired, suffix) && b == desired.push('-') + decimal(suffix);
        assert(sa == sb);
    }
}

/// No two members share a name.
pub open spec fn names_distinct(users: Seq<User>) -> bool {
    forall|i: int, j: int|
        0 <= i < j < users.len() ==> (#[trigger] users[i]).name@ != (#[trigger] users[j]).name@
}

/// The name a newcomer is given is no member's name.
pub proof fn lemma_resolved_name_is_free(users: Seq<User>, desired: Seq<char>, name: Seq<char>)
    requires
        resolves_to(users, desired, name),
    ensures
        !name_taken(users, name),
{
    if name_taken(users, desired) {
        let suffix = choose|suffix: nat| #[trigger]
            is_next_suffix(users, desired, suffix) && name == desired.push('-') + decimal(suffix);
        let head = desired.push('-');
        lemma_decimal_reads_back(suffix);
        if name_taken(users, name) {
            let i = choose|i: int| 0 <= i < users.len() && (#[trigger] users[i]).name@ == name;
            assert(head.is_prefix_of(name)) by {
                assert(name.subrange(0, head.len() as int) =~= head);
            }
            assert(name.skip(head.len() as int) =~= decimal(suffix));
            assert(suffix_of(users[i].name@, desired) == Some(suffix));
            assert(suffix_demand(users[i].name@, desired) == suffix + 1);
        }
    }
}

/// A newcomer under a name that no member has leaves the names distinct.
pub proof fn lemma_free_name_keeps_names_distinct(users: Seq<User>, joined: User)
    requires
        names_distinct(users),
        !name_taken(users, joined.name@),
    ensures
        names_distinct(users.push(joined)),
{
    let after = users.push(joined);
    assert forall|i: int, j: int| 0 <= i < j < after.len() implies (#[trigger] after[i]).name@ != (
    #[trigger] after[j]).name@ by {
        assert(after[i] == users[i]);
        if j < users.len() {
            assert(after[j] == users[j]);
        }
    }
}

} // verus!
