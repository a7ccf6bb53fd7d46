use crate::error::KowalskiError;
use crate::events::reaction::GuildState;
use crate::ledger::{selected, unselected, Selector};
use crate::moderation::PlatformReply;
use vstd::prelude::*;

verus! {

/// Where to go on reading the members who reacted, page by page: after the
/// last member of a page that came back full; nowhere after a page that came
/// back short, which was the last one.
pub fn next_page(page: &Vec<u64>, page_size: usize) -> (after: Option<u64>)
    ensures
        page@.len() > 0 && page@.len() >= page_size ==> after == Some(page@.last()),
        page@.len() == 0 || page@.len() < page_size ==> after is None,
{
    let n = page.len();
    if n > 0 && n >= page_size {
        Some(page[n - 1])
    } else {
        None
    }
}

impl GuildState {
    /// Sweeps one message of the ledger, given what the platform answered
    /// when asked for it. A message that is gone loses its rows, and the
    /// answer counts them; a message that is there keeps them; any other
    /// failure of the platform ends the sweep with that error and changes
    /// nothing.
    pub fn sweep_message(&mut self, channel: u64, message: u64, reply: PlatformReply) -> (r: Result<
        usize,
        KowalskiError,
    >)
        requires
            old(self).wf(),
        ensures
            final(self).wf(),
            final(self).same_settings(old(self)),
            final(self).cooldowns == old(self).cooldowns,
            final(self).reaction_roles == old(self).reaction_roles,
            reply is Done ==> r == Ok::<usize, KowalskiError>(0) && final(self).ledger == old(
                self).ledger,
            reply is Gone ==> final(self).ledger@ == old(self).ledger@.filter(
                unselected(Selector::Message { channel, message }),
            ) && r == Ok::<usize, KowalskiError>(
                old(self).ledger@.filter(
                    selected(Selector::Message { channel, message }),
                ).len() as usize,
            ),
            reply matches PlatformReply::Failed(why) ==> (r matches Err(
                KowalskiError::DiscordApiError(m),
            ) && m == why) && final(self).ledger == old(self).ledger,
    {
        match reply {
            PlatformReply::Done => Ok(0),
            PlatformReply::Gone => {
                let removed = self.ledger.remove_where(&Selector::Message { channel, message });
                Ok(removed.len())
            },
            PlatformReply::Failed(why) => Err(KowalskiError::DiscordApiError(why)),
        }
    }

    /// Sweeps the votes of one message and emoji: the rows whose reactor is
    /// not among `reactors`, the members whose reaction the platform still
    /// shows, are removed. Answers how many went.
    pub fn sweep_reactions(&mut self, channel: u64, message: u64, emoji: u64, reactors: Vec<u64>) -> (removed:
        usize)
        requires
            old(self).wf(),
        ensures
            final(self).wf(),
            final(self).same_settings(old(self)),
            final(self).cooldowns == old(self).cooldowns,
            final(self).reaction_roles == old(self).reaction_roles,
            final(self).ledger@ == old(self).ledger@.filter(
                unselected(Selector::Stale { channel, message, emoji, reactors }),
            ),
            removed == old(self).ledger@.filter(
                selected(Selector::Stale { channel, message, emoji, reactors }),
            ).len(),
    {
        let sel = Selector::Stale { channel, message, emoji, reactors };
        let gone = self.ledger.remove_where(&sel);
        gone.len()
    }

    /// Sweeps the members: the rows that involve someone who is not among
    /// `members`, the members that the guild still has, are removed.
    /// Answers how many went.
    pub fn sweep_members(&mut self, members: Vec<u64>) -> (removed: usize)
        requires
            old(self).wf(),
        ensures
            final(self).wf(),
            final(self).same_settings(old(self)),
            final(self).cooldowns == old(self).cooldowns,
            final(self).reaction_roles == old(self).reaction_roles,
            final(self).ledger@ == old(self).ledger@.filter(
                unselected(Selector::Departed { members }),
            ),
            removed == old(self).ledger@.filter(selected(Selector::Departed { members })).len(),
    {
        let sel = Selector::Departed { members };
        let gone = self.ledger.remove_where(&sel);
        gone.len()
    }

    /// Sweeps a channel that was deleted: all rows of its messages go.
    /// Answers how many went.
    pub fn channel_delete(&mut self, channel: u64) -> (removed: usize)
        requires
            old(self).wf(),
        ensures
            final(self).wf(),
            final(self).same_settings(old(self)),
            final(self).cooldowns == old(self).cooldowns,
            final(self).reaction_roles == old(self).reaction_roles,
            final(self).ledger@ == old(self).ledger@.filter(
                unselected(Selector::Channel { channel }),
            ),
            removed == old(self).ledger@.filter(selected(Selector::Channel { channel })).len(),
    {
        let gone = self.ledger.remove_where(&Selector::Channel { channel });
        gone.len()
    }
}

} // verus!
