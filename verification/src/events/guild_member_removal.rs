use crate::events::reaction::{released_everywhere, GuildState};
use crate::ledger::{handed_over, received_by, selected, tally, unselected, Selector};
use vstd::prelude::*;

verus! {

/// What happens when a member leaves.
#[derive(Debug, Clone, Copy, PartialEq, Eq, Structural)]
pub enum Departure {
    /// The member's score drops into `channel`, where another member may
    /// pick it up; the member's rows stay until that offer is resolved.
    Offer { channel: u64, score: i64 },
    /// Nothing drops: the member's rows, `rows` of them, were deleted.
    Deleted { rows: usize },
}

impl GuildState {
    /// The member's score drops: the score module is on and the guild has
    /// a channel for drops.
    pub open spec fn drops(&self) -> bool {
        self.modules.score && self.score_drops@.len() > 0
    }

    /// Deletes what the guild holds of `user`: the votes it gave, the votes
    /// it has, and its place in every reaction-role mapping, whose slot is
    /// free again. Answers how many rows of the ledger went.
    pub fn delete_user(&mut self, user: u64) -> (rows: usize)
        requires
            old(self).wf(),
        ensures
            final(self).wf(),
            final(self).same_settings(old(self)),
            final(self).cooldowns == old(self).cooldowns,
            final(self).ledger@ == old(self).ledger@.filter(unselected(Selector::User { user })),
            rows == old(self).ledger@.filter(selected(Selector::User { user })).len(),
            released_everywhere(old(self).reaction_roles@, final(self).reaction_roles@, user),
    {
        let removed = self.ledger.remove_where(&Selector::User { user });
        let ghost start = self.reaction_roles@;
        let mut i: usize = 0;
        while i < self.reaction_roles.len()
            invariant
                0 <= i <= start.len(),
                self.wf(),
                self.same_settings(old(self)),
                self.cooldowns == old(self).cooldowns,
                self.ledger@ == old(self).ledger@.filter(unselected(Selector::User { user })),
                start == old(self).reaction_roles@,
                self.reaction_roles@.len() == start.len(),
                forall|j: int|
                    i <= j < start.len() ==> #[trigger] self.reaction_roles@[j] == start[j],
                forall|j: int|
                    0 <= j < i ==> {
                        let before = start[j];
                        let after = #[trigger] self.reaction_roles@[j];
                        &&& after.channel == before.channel
                        &&& after.message == before.message
                        &&& after.emoji == before.emoji
                        &&& after.mapping.spec_role() == before.mapping.spec_role()
                        &&& after.mapping@ == before.mapping@.released(user)
                    },
            decreases start.len() - i,
        {
            proof {
                assert(self.reaction_roles@[i as int] == start[i as int]);
            }
            let ghost seen = self.reaction_roles@;
            let b = &mut self.reaction_roles[i];
            b.mapping.release(user);
            proof {
                assert forall|j: int| 0 <= j < self.reaction_roles@.len() implies (
                #[trigger] self.reaction_roles@[j]).mapping.wf() by {
                    if j != i {
                        assert(self.reaction_roles@[j] == seen[j]);
                    }
                }
            }
            i += 1;
        }
        removed.len()
    }

    /// Handles the departure of a member. `draw` is a number drawn at
    /// random by the caller; it picks the channel for the drop.
    ///
    /// Where the score module is on and the guild has channels for drops,
    /// the member's score is offered in the channel that `draw` picks, and
    /// nothing is deleted yet. Otherwise the member is deleted at once.
    pub fn guild_member_removal(&mut self, user: u64, draw: u64) -> (r: Departure)
        requires
            old(self).wf(),
        ensures
            final(self).wf(),
            final(self).same_settings(old(self)),
            final(self).cooldowns == old(self).cooldowns,
            old(self).drops() ==> *final(self) == *old(self) && r == (Departure::Offer {
                channel: old(self).score_drops@[(draw as int) % (old(self).score_drops@.len() as int)],
                score: tally(old(self).ledger@, received_by(user)) as i64,
            }),
            !old(self).drops() ==> final(self).ledger@ == old(self).ledger@.filter(
                unselected(Selector::User { user }),
            ) && r == (Departure::Deleted {
                rows: old(self).ledger@.filter(selected(Selector::User { user })).len() as usize,
            }) && released_everywhere(
                old(self).reaction_roles@,
                final(self).reaction_roles@,
                user,
            ),
    {
        let n = self.score_drops.len();
        if self.modules.score && n > 0 {
            let pick = (draw % (n as u64)) as usize;
            let channel = self.score_drops[pick];
            let score = self.ledger.user_score(user);
            Departure::Offer { channel, score }
        } else {
            let rows = self.delete_user(user);
            Departure::Deleted { rows }
        }
    }

    /// Resolves the offer of a departed member's score. Where `picker`
    /// names a member, every vote that the departed member had is passed on
    /// to it first. Where it names nobody, the offer timed out, which counts
    /// as declined. Either way the departed member is then deleted. Answers
    /// how many votes were passed on.
    pub fn pickup_resolved(&mut self, user: u64, picker: Option<u64>) -> (moved: usize)
        requires
            old(self).wf(),
        ensures
            final(self).wf(),
            final(self).same_settings(old(self)),
            final(self).cooldowns == old(self).cooldowns,
            match picker {
                Some(p) => final(self).ledger@ == handed_over(old(self).ledger@, user, p).filter(
                    unselected(Selector::User { user }),
                ) && moved == crate::ledger::count(old(self).ledger@, received_by(user)),
                None => final(self).ledger@ == old(self).ledger@.filter(
                    unselected(Selector::User { user }),
                ) && moved == 0,
            },
            released_everywhere(old(self).reaction_roles@, final(self).reaction_roles@, user),
    {
        let moved = match picker {
            Some(p) => self.ledger.transfer_all(user, p),
            None => 0,
        };
        self.delete_user(user);
        moved
    }
}

} // verus!
