use crate::commands::module::Modules;
use crate::cooldowns::{
    applicable_cooldown, is_cooldown, noted, on_cooldown, Accepted, Cooldown, Cooldowns,
};
use crate::error::KowalskiError;
use crate::ledger::{
    live_score, names_affected, received_by, same_reaction, taken_back, tally, unselected, Ledger,
    ScoreReaction, Selector,
};
use crate::levelup::{sync_level_up_roles, synced, RoleChange, ScoreRole};
use crate::moderation::{evaluate_auto_moderation, moderation_for, AutoModeration};
use crate::reaction_roles::{Decision, ReactionRole};
use vstd::prelude::*;

verus! {

/// How a guild counts an emoji: as an upvote or as a downvote.
#[derive(Debug, Clone, Copy, PartialEq, Eq, Structural)]
pub struct ScoreEmoji {
    pub emoji: u64,
    pub upvote: bool,
}

/// A reaction-role mapping and the message and emoji it is bound to.
#[derive(Debug)]
pub struct Binding {
    pub channel: u64,
    pub message: u64,
    pub emoji: u64,
    pub mapping: ReactionRole,
}

/// What the engine knows of one guild.
#[derive(Debug)]
pub struct GuildState {
    pub modules: Modules,
    pub ledger: Ledger,
    pub cooldowns: Cooldowns,
    pub cooldown_table: Vec<Cooldown>,
    pub default_cooldown: u64,
    pub score_emojis: Vec<ScoreEmoji>,
    pub reaction_roles: Vec<Binding>,
    pub score_roles: Vec<ScoreRole>,
    pub pin_at: Option<i64>,
    pub delete_at: Option<i64>,
    /// The channels into which the score of a departed member may drop.
    pub score_drops: Vec<u64>,
}

/// A reaction that a member added to a message.
#[derive(Debug)]
pub struct ReactionAdded {
    pub guild: u64,
    /// The member who reacted.
    pub user_from: u64,
    /// The author of the message.
    pub user_to: u64,
    pub channel: u64,
    pub message: u64,
    /// The emoji's identifier; `None` for an emoji that was never registered.
    pub emoji: Option<u64>,
    /// Whether the reactor is a bot.
    pub bot: bool,
    /// The roles of the reactor.
    pub roles: Vec<u64>,
    /// When the reaction arrived, in seconds.
    pub now: u64,
}

/// What is to be done about one reaction-role mapping.
#[derive(Debug, Clone, Copy, PartialEq, Eq, Structural)]
pub struct RoleStep {
    /// The place of the mapping among the guild's reaction roles.
    pub binding: usize,
    pub role: u64,
    pub decision: Decision,
}

/// What the caller does after a reaction was added.
#[derive(Debug)]
pub enum Reacted {
    /// Nothing: the reaction does not count.
    Nothing,
    /// The reaction asked for roles: it is retracted, and each step is
    /// carried out on the platform and its outcome booked.
    Roles(Vec<RoleStep>),
    /// The reactor is on cooldown: the reaction is retracted.
    Retract,
    /// The vote was written: the author's level-up roles are brought in
    /// line and the message is moderated.
    Scored,
}

/// How `emojis` counts `emoji`, going by the newest entry for it.
pub open spec fn classification(emojis: Seq<ScoreEmoji>, emoji: u64) -> Option<bool>
    decreases emojis.len(),
{
    if emojis.len() == 0 {
        None
    } else if emojis.last().emoji == emoji {
        Some(emojis.last().upvote)
    } else {
        classification(emojis.drop_last(), emoji)
    }
}

/// The binding is one for this message and emoji.
pub open spec fn bound_to(b: Binding, channel: u64, message: u64, emoji: u64) -> bool {
    b.channel == channel && b.message == message && b.emoji == emoji
}

/// The steps for the mappings bound to a message and emoji, in the order
/// of the bindings, for a reaction of `user`.
pub open spec fn role_steps(
    bindings: Seq<Binding>,
    channel: u64,
    message: u64,
    emoji: u64,
    user: u64,
) -> Seq<RoleStep>
    decreases bindings.len(),
{
    if bindings.len() == 0 {
        Seq::empty()
    } else {
        let earlier = role_steps(bindings.drop_last(), channel, message, emoji, user);
        let last = bindings.last();
        if bound_to(last, channel, message, emoji) {
            earlier.push(
                RoleStep {
                    binding: (bindings.len() - 1) as usize,
                    role: last.mapping.spec_role(),
                    decision: last.mapping@.decide(user, false),
                },
            )
        } else {
            earlier
        }
    }
}

/// Two bindings are bound to the same message and emoji and give the same
/// role.
pub open spec fn same_binding(a: Binding, b: Binding) -> bool {
    a.channel == b.channel && a.message == b.message && a.emoji == b.emoji
        && a.mapping.spec_role() == b.mapping.spec_role()
}

/// `after` are the bindings `before` once a reaction of `user` was
/// evaluated: the mappings bound to the message and emoji are evaluated,
/// the others are as they were.
pub open spec fn roles_evaluated(
    before: Seq<Binding>,
    after: Seq<Binding>,
    channel: u64,
    message: u64,
    emoji: u64,
    user: u64,
) -> bool {
    &&& after.len() == before.len()
    &&& forall|i: int|
        0 <= i < before.len() ==> same_binding(#[trigger] after[i], before[i])
            && after[i].mapping@ == if bound_to(before[i], channel, message, emoji) {
            before[i].mapping@.evaluated(user, false)
        } else {
            before[i].mapping@
        }
}

/// `after` are the bindings `before` once the platform's answer to `step`
/// was booked: the step's mapping is completed, the others are as they were.
pub open spec fn role_completed(
    before: Seq<Binding>,
    after: Seq<Binding>,
    step: RoleStep,
    user: u64,
    ok: bool,
) -> bool {
    &&& after.len() == before.len()
    &&& forall|i: int|
        0 <= i < before.len() ==> same_binding(#[trigger] after[i], before[i])
            && after[i].mapping@ == if i == step.binding {
            before[i].mapping@.completed(user, step.decision, ok)
        } else {
            before[i].mapping@
        }
}

/// `after` are the bindings `before` once `user` was taken out of every
/// mapping.
pub open spec fn released_everywhere(before: Seq<Binding>, after: Seq<Binding>, user: u64) -> bool {
    &&& after.len() == before.len()
    &&& forall|i: int|
        0 <= i < before.len() ==> same_binding(#[trigger] after[i], before[i])
            && after[i].mapping@ == before[i].mapping@.released(user)
}

/// The row that a reaction writes.
pub open spec fn row_of(ev: ReactionAdded, upvote: bool) -> ScoreReaction {
    ScoreReaction {
        user_from: ev.user_from,
        user_to: ev.user_to,
        channel: ev.channel,
        message: ev.message,
        emoji: ev.emoji->0,
        upvote,
        native: true,
    }
}

impl GuildState {
    /// The ledger, the cooldowns and every mapping are valid.
    pub open spec fn wf(&self) -> bool {
        &&& self.ledger.wf()
        &&& self.cooldowns.wf()
        &&& forall|i: int|
            0 <= i < self.reaction_roles@.len() ==> (#[trigger] self.reaction_roles@[i]).mapping.wf()
    }

    /// The reaction asks for roles: reaction roles are on and a mapping is
    /// bound to its message and emoji.
    pub open spec fn asks_for_roles(&self, ev: ReactionAdded) -> bool {
        self.modules.reaction_roles && ev.emoji is Some && exists|i: int|
            0 <= i < self.reaction_roles@.len() && bound_to(
                self.reaction_roles@[i],
                ev.channel,
                ev.message,
                ev.emoji->0,
            )
    }

    /// How the reaction counts as a vote, if it does: the score module is
    /// on, the reaction asks for no roles, the reactor is not the author and
    /// the guild counts the emoji.
    pub open spec fn counts_as(&self, ev: ReactionAdded) -> Option<bool> {
        if ev.emoji is Some && !self.asks_for_roles(ev) && self.modules.score && ev.user_from
            != ev.user_to {
            classification(self.score_emojis@, ev.emoji->0)
        } else {
            None
        }
    }

    /// Everything but the ledger, the cooldowns and the reaction roles is
    /// as in `other`.
    pub open spec fn same_settings(&self, other: &GuildState) -> bool {
        &&& self.modules == other.modules
        &&& self.cooldown_table == other.cooldown_table
        &&& self.default_cooldown == other.default_cooldown
        &&& self.score_emojis == other.score_emojis
        &&& self.score_roles == other.score_roles
        &&& self.pin_at == other.pin_at
        &&& self.delete_at == other.delete_at
        &&& self.score_drops == other.score_drops
    }

    /// A guild with every module off and nothing configured; a reactor
    /// without a role of its own waits `default_cooldown` seconds.
    pub fn new(default_cooldown: u64) -> (r: GuildState)
        ensures
            r.wf(),
            r.modules == (Modules {
                owner: false,
                utility: false,
                score: false,
                reaction_roles: false,
                analyze: false,
            }),
            r.ledger@.len() == 0,
            r.cooldowns@.len() == 0,
            r.cooldown_table@.len() == 0,
            r.default_cooldown == default_cooldown,
            r.score_emojis@.len() == 0,
            r.reaction_roles@.len() == 0,
            r.score_roles@.len() == 0,
            r.pin_at is None,
            r.delete_at is None,
            r.score_drops@.len() == 0,
    {
        GuildState {
            modules: Modules::new(),
            ledger: Ledger::new(),
            cooldowns: Cooldowns::new(),
            cooldown_table: Vec::new(),
            default_cooldown,
            score_emojis: Vec::new(),
            reaction_roles: Vec::new(),
            score_roles: Vec::new(),
            pin_at: None,
            delete_at: None,
            score_drops: Vec::new(),
        }
    }

    /// How the guild counts `emoji`, if it does.
    pub fn classify(&self, emoji: u64) -> (r: Option<bool>)
        ensures
            r == classification(self.score_emojis@, emoji),
    {
        let mut i: usize = self.score_emojis.len();
        proof {
            assert(self.score_emojis@.take(i as int) == self.score_emojis@);
        }
        while i > 0
            invariant
                0 <= i <= self.score_emojis@.len(),
                classification(self.score_emojis@, emoji) == classification(
                    self.score_emojis@.take(i as int),
                    emoji,
                ),
            decreases i,
        {
            proof {
                assert(self.score_emojis@.take(i as int).drop_last() == self.score_emojis@.take(
                    i - 1,
                ));
            }
            i -= 1;
            if self.score_emojis[i].emoji == emoji {
                return Some(self.score_emojis[i].upvote);
            }
        }
        None
    }

    /// Evaluates the mappings bound to a message and emoji for a reaction
    /// of `user`, who is no bot, one after the other.
    fn evaluate_roles(&mut self, channel: u64, message: u64, emoji: u64, user: u64) -> (steps: Vec<
        RoleStep,
    >)
        requires
            old(self).wf(),
        ensures
            final(self).wf(),
            final(self).same_settings(old(self)),
            final(self).ledger == old(self).ledger,
            final(self).cooldowns == old(self).cooldowns,
            steps@ == role_steps(old(self).reaction_roles@, channel, message, emoji, user),
            roles_evaluated(
                old(self).reaction_roles@,
                final(self).reaction_roles@,
                channel,
                message,
                emoji,
                user,
            ),
    {
        let mut steps: Vec<RoleStep> = Vec::new();
        let mut i: usize = 0;
        let ghost start = self.reaction_roles@;
        proof {
            assert(start.take(0).len() == 0);
        }
        while i < self.reaction_roles.len()
            invariant
                0 <= i <= start.len(),
                self.wf(),
                self.same_settings(old(self)),
                self.ledger == old(self).ledger,
                self.cooldowns == old(self).cooldowns,
                start == old(self).reaction_roles@,
                self.reaction_roles@.len() == start.len(),
                steps@ == role_steps(start.take(i as int), channel, message, emoji, user),
                forall|j: int|
                    i <= j < start.len() ==> #[trigger] self.reaction_roles@[j] == start[j],
                forall|j: int|
                    0 <= j < i ==> {
                        let before = start[j];
                        let after = #[trigger] self.reaction_roles@[j];
                        &&& after.channel == before.channel
                        &&& after.message == before.message
                        &&& after.emoji == before.emoji
                        &&& after.mapping.spec_role() == before.mapping.spec_role()
                        &&& after.mapping@ == if bound_to(before, channel, message, emoji) {
                            before.mapping@.evaluated(user, false)
                        } else {
                            before.mapping@
                        }
                    },
            decreases start.len() - i,
        {
            proof {
                assert(start.take(i + 1).drop_last() == start.take(i as int));
                assert(start.take(i + 1).last() == start[i as int]);
                assert(self.reaction_roles@[i as int] == start[i as int]);
            }
            let ghost seen = self.reaction_roles@;
            let b = &mut self.reaction_roles[i];
            if b.channel == channel && b.message == message && b.emoji == emoji {
                let role = b.mapping.role();
                let decision = b.mapping.evaluate(user, false);
                steps.push(RoleStep { binding: i, role, decision });
            }
            proof {
                assert forall|j: int| 0 <= j < self.reaction_roles@.len() implies (
                #[trigger] self.reaction_roles@[j]).mapping.wf() by {
                    if j != i {
                        assert(self.reaction_roles@[j] == seen[j]);
                    }
                }
            }
            i += 1;
        }
        proof {
            assert(start.take(start.len() as int) == start);
        }
        steps
    }

    /// Handles a reaction that a member added.
    ///
    /// A reaction with an emoji that was never registered does not count.
    /// Where reaction roles are on and mappings are bound to the message
    /// and emoji, the reaction asks for roles: a bot's is ignored; any other
    /// is retracted, and each mapping is evaluated, which takes the slot of
    /// every grant. Otherwise, where the score module is on, the reactor is
    /// not the author and the guild counts the emoji, the reaction is a
    /// vote: on cooldown it is retracted and leaves no trace; else the
    /// cooldown starts anew and the vote is written, unless the ledger has
    /// it already; a full ledger is the store's error.
    pub fn reaction_add(&mut self, ev: &ReactionAdded) -> (r: Result<Reacted, KowalskiError>)
        requires
            old(self).wf(),
        ensures
            final(self).wf(),
            final(self).same_settings(old(self)),
            old(self).asks_for_roles(*ev) && ev.bot ==> (r matches Ok(Reacted::Nothing))
                && *final(self) == *old(self),
            old(self).asks_for_roles(*ev) && !ev.bot ==> {
                &&& r matches Ok(Reacted::Roles(steps)) && steps@ == role_steps(
                    old(self).reaction_roles@,
                    ev.channel,
                    ev.message,
                    ev.emoji->0,
                    ev.user_from,
                )
                &&& final(self).ledger == old(self).ledger
                &&& final(self).cooldowns == old(self).cooldowns
                &&& roles_evaluated(
                    old(self).reaction_roles@,
                    final(self).reaction_roles@,
                    ev.channel,
                    ev.message,
                    ev.emoji->0,
                    ev.user_from,
                )
            },
            !old(self).asks_for_roles(*ev) ==> final(self).reaction_roles == old(self).reaction_roles,
            !old(self).asks_for_roles(*ev) && old(self).counts_as(*ev) is None ==> (r matches Ok(
                Reacted::Nothing,
            )) && *final(self) == *old(self),
            old(self).counts_as(*ev) matches Some(upvote) ==> exists|cooldown: u64|
                {
                    let active = on_cooldown(
                        old(self).cooldowns@,
                        ev.guild,
                        ev.user_from,
                        ev.now,
                        cooldown,
                    );
                    let known = exists|i: int|
                        0 <= i < old(self).ledger@.len() && same_reaction(
                            old(self).ledger@[i],
                            row_of(*ev, upvote),
                        );
                    let full = old(self).ledger@.len() == crate::ledger::MAX_ROWS;
                    &&& #[trigger] is_cooldown(
                        old(self).cooldown_table@,
                        ev.roles@,
                        old(self).default_cooldown,
                        cooldown,
                    )
                    &&& active ==> (r matches Ok(Reacted::Retract)) && final(self).cooldowns@
                        == old(self).cooldowns@ && final(self).ledger == old(self).ledger
                    &&& !active ==> noted(
                        old(self).cooldowns@,
                        Accepted { guild: ev.guild, user: ev.user_from, at: ev.now },
                        final(self).cooldowns@,
                    )
                    &&& !active && known ==> (r matches Ok(Reacted::Nothing)) && final(self).ledger@
                        == old(self).ledger@
                    &&& !active && !known && full ==> (r matches Err(KowalskiError::DatabaseError))
                        && final(self).ledger@ == old(self).ledger@
                    &&& !active && !known && !full ==> (r matches Ok(Reacted::Scored)) && final(
                        self).ledger@ == old(self).ledger@.push(row_of(*ev, upvote))
                },
    {
        let emoji = match ev.emoji {
            Some(e) => e,
            None => {
                return Ok(Reacted::Nothing);
            },
        };
        if self.modules.reaction_roles && self.any_bound(ev.channel, ev.message, emoji) {
            if ev.bot {
                return Ok(Reacted::Nothing);
            }
            let steps = self.evaluate_roles(ev.channel, ev.message, emoji, ev.user_from);
            return Ok(Reacted::Roles(steps));
        }
        if !self.modules.score || ev.user_from == ev.user_to {
            return Ok(Reacted::Nothing);
        }
        let upvote = match self.classify(emoji) {
            Some(up) => up,
            None => {
                return Ok(Reacted::Nothing);
            },
        };
        let cooldown = applicable_cooldown(&self.cooldown_table, &ev.roles, self.default_cooldown);
        if self.cooldowns.check_cooldown(ev.guild, ev.user_from, ev.now, cooldown) {
            return Ok(Reacted::Retract);
        }
        let row = ScoreReaction {
            user_from: ev.user_from,
            user_to: ev.user_to,
            channel: ev.channel,
            message: ev.message,
            emoji,
            upvote,
            native: true,
        };
        match self.ledger.insert(row) {
            Ok(true) => Ok(Reacted::Scored),
            Ok(false) => Ok(Reacted::Nothing),
            Err(e) => Err(e),
        }
    }

    /// Whether a mapping is bound to the message and emoji.
    pub fn any_bound(&self, channel: u64, message: u64, emoji: u64) -> (r: bool)
        ensures
            r == exists|i: int|
                0 <= i < self.reaction_roles@.len() && bound_to(
                    self.reaction_roles@[i],
                    channel,
                    message,
                    emoji,
                ),
    {
        let mut i: usize = 0;
        while i < self.reaction_roles.len()
            invariant
                0 <= i <= self.reaction_roles@.len(),
                forall|j: int|
                    0 <= j < i ==> !bound_to(self.reaction_roles@[j], channel, message, emoji),
            decreases self.reaction_roles.len() - i,
        {
            let b = &self.reaction_roles[i];
            if b.channel == channel && b.message == message && b.emoji == emoji {
                return true;
            }
            i += 1;
        }
        false
    }
    /// Handles a reaction that a member took back. Where the score module
    /// is on and the guild counts the emoji, the vote's row is removed; the
    /// answer names the member who had the vote, whose level-up roles are
    /// then brought in line and whose message is moderated again.
    pub fn reaction_remove(&mut self, reactor: u64, channel: u64, message: u64, emoji: Option<u64>) -> (affected:
        Option<u64>)
        requires
            old(self).wf(),
        ensures
            final(self).wf(),
            final(self).same_settings(old(self)),
            final(self).cooldowns == old(self).cooldowns,
            final(self).reaction_roles == old(self).reaction_roles,
            ({
                let counts = old(self).modules.score && emoji is Some && classification(
                    old(self).score_emojis@,
                    emoji->0,
                ) is Some;
                &&& !counts ==> affected is None && final(self).ledger == old(self).ledger
                &&& counts ==> taken_back(
                    old(self).ledger@,
                    reactor,
                    channel,
                    message,
                    emoji->0,
                    affected,
                    final(self).ledger@,
                )
            }),
    {
        if !self.modules.score {
            return None;
        }
        match emoji {
            None => None,
            Some(e) => {
                if self.classify(e).is_some() {
                    self.ledger.remove_reaction(reactor, channel, message, e)
                } else {
                    None
                }
            },
        }
    }

    /// Handles the removal of every reaction of a message: all its votes
    /// go, and the answer names, once each, the members who had one.
    pub fn reaction_remove_all(&mut self, channel: u64, message: u64) -> (affected: Vec<u64>)
        requires
            old(self).wf(),
        ensures
            final(self).wf(),
            final(self).same_settings(old(self)),
            final(self).cooldowns == old(self).cooldowns,
            final(self).reaction_roles == old(self).reaction_roles,
            final(self).ledger@ == old(self).ledger@.filter(
                unselected(Selector::Message { channel, message }),
            ),
            names_affected(old(self).ledger@, channel, message, affected@),
    {
        self.ledger.remove_all_reactions(channel, message)
    }

    /// The changes that bring the level-up roles of `user`, who holds the
    /// roles `held`, in line with its score in the ledger.
    pub fn update_roles(&self, user: u64, held: &Vec<u64>, bot: bool) -> (change: RoleChange)
        requires
            self.wf(),
        ensures
            synced(
                self.score_roles@,
                tally(self.ledger@, received_by(user)),
                held@,
                bot,
                change.add@,
                change.remove@,
            ),
    {
        let score = self.ledger.user_score(user);
        sync_level_up_roles(&self.score_roles, score, held, bot)
    }

    /// What automatic moderation does to a message, going by its live score
    /// in the ledger and the guild's thresholds.
    pub fn auto_moderate(&self, channel: u64, message: u64, pinned: bool) -> (r: AutoModeration)
        requires
            self.wf(),
        ensures
            r == moderation_for(
                live_score(self.ledger@, channel, message),
                self.pin_at,
                self.delete_at,
                pinned,
            ),
    {
        let score = self.ledger.message_score(channel, message);
        evaluate_auto_moderation(score, self.pin_at, self.delete_at, pinned)
    }

    /// Books the platform's answer to a step for `user`: a grant that failed
    /// gives its slot back, a revocation that succeeded frees one. Answers
    /// `false`, changing nothing, for a step whose mapping is not there.
    pub fn complete_role(&mut self, step: &RoleStep, user: u64, ok: bool) -> (booked: bool)
        requires
            old(self).wf(),
        ensures
            final(self).wf(),
            final(self).same_settings(old(self)),
            final(self).ledger == old(self).ledger,
            final(self).cooldowns == old(self).cooldowns,
            booked == (step.binding < old(self).reaction_roles@.len()),
            !booked ==> final(self).reaction_roles == old(self).reaction_roles,
            role_completed(
                old(self).reaction_roles@,
                final(self).reaction_roles@,
                *step,
                user,
                ok,
            ),
    {
        if step.binding >= self.reaction_roles.len() {
            return false;
        }
        let ghost seen = self.reaction_roles@;
        let b = &mut self.reaction_roles[step.binding];
        b.mapping.complete(user, step.decision, ok);
        proof {
            assert forall|j: int| 0 <= j < self.reaction_roles@.len() implies (
            #[trigger] self.reaction_roles@[j]).mapping.wf() by {
                if j != step.binding {
                    assert(self.reaction_roles@[j] == seen[j]);
                }
            }
        }
        true
    }
}

} // verus!
