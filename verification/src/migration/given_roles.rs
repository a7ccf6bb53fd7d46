use crate::error::KowalskiError;
use crate::reaction_roles::{Mapping, ReactionRole};
use crate::seqs::contains;
use vstd::prelude::*;

verus! {

/// A member of a guild and the roles it holds on the platform.
#[derive(Debug)]
pub struct Member {
    pub user: u64,
    pub roles: Vec<u64>,
}

/// The migration that writes down, for a guild whose reaction roles only
/// had a counter of free slots, who holds each role.
#[derive(Debug, Default)]
pub struct GivenRoles {}

/// The members, among `members` and in their order, that hold `role`,
/// each once.
pub open spec fn holders_of(members: Seq<Member>, role: u64) -> Seq<u64>
    decreases members.len(),
{
    if members.len() == 0 {
        Seq::empty()
    } else {
        let earlier = holders_of(members.drop_last(), role);
        let last = members.last();
        if last.roles@.contains(role) && !earlier.contains(last.user) {
            earlier.push(last.user)
        } else {
            earlier
        }
    }
}

/// The mapping that the migration leaves: the free slots are what the
/// counter said, the holders are the members that hold the role, and the
/// capacity is both together.
pub open spec fn migrated(slots: Option<nat>, holders: Seq<u64>) -> Mapping {
    Mapping {
        capacity: match slots {
            Some(n) => Some(n + holders.len()),
            None => None,
        },
        slots,
        holders,
    }
}

/// Among more members there are no fewer holders.
pub proof fn lemma_holders_grow(members: Seq<Member>, role: u64, k: int)
    requires
        0 <= k <= members.len(),
    ensures
        holders_of(members.take(k), role).len() <= holders_of(members, role).len(),
    decreases members.len(),
{
    if k == members.len() {
        assert(members.take(k) == members);
    } else {
        lemma_holders_grow(members.drop_last(), role, k);
        assert(members.drop_last().take(k) == members.take(k));
    }
}

impl GivenRoles {
    /// Migrates one reaction-role mapping. `slots` is the old counter of
    /// free slots, `members` are the guild's members with their roles.
    /// The migration fails, with the store's error, exactly where the
    /// capacity would not fit the counter any more.
    pub fn migrate(&self, role: u64, slots: Option<usize>, members: &Vec<Member>) -> (r: Result<
        ReactionRole,
        KowalskiError,
    >)
        ensures
            r is Ok <==> slots is None || slots->0 + holders_of(members@, role).len()
                <= usize::MAX,
            match r {
                Ok(m) => m.wf() && m.spec_role() == role && m@ == migrated(
                    match slots {
                        Some(n) => Some(n as nat),
                        None => None,
                    },
                    holders_of(members@, role),
                ),
                Err(e) => e is DatabaseError,
            },
    {
        let mut mapping = ReactionRole::new(role, slots);
        let ghost free: Option<nat> = match slots {
            Some(n) => Some(n as nat),
            None => None,
        };
        let mut i: usize = 0;
        proof {
            assert(members@.take(0).len() == 0);
            assert(mapping@ == migrated(free, Seq::<u64>::empty()));
        }
        while i < members.len()
            invariant
                0 <= i <= members@.len(),
                mapping.wf(),
                mapping.spec_role() == role,
                free == match slots {
                    Some(n) => Some(n as nat),
                    None => None,
                },
                mapping@ == migrated(free, holders_of(members@.take(i as int), role)),
            decreases members.len() - i,
        {
            proof {
                assert(members@.take(i + 1).drop_last() == members@.take(i as int));
                assert(members@.take(i + 1).last() == members@[i as int]);
            }
            if contains(&members[i].roles, role) {
                match mapping.adopt(members[i].user) {
                    Ok(_) => {},
                    Err(e) => {
                        proof {
                            lemma_holders_grow(members@, role, i + 1);
                        }
                        return Err(e);
                    },
                }
            }
            i += 1;
        }
        proof {
            assert(members@.take(members@.len() as int) == members@);
            mapping.lemma_counters_fit();
        }
        Ok(mapping)
    }
}

} // verus!
