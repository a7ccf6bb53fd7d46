use crate::error::KowalskiError;
use crate::seqs::{contains, lemma_filter_none, lemma_filter_step};
use vstd::prelude::*;

verus! {

/// One row of the score ledger: `user_from` reacted with a score emoji to a
/// message, and `user_to` has the vote. `native` says that `user_to` is the
/// member who got the vote in the first place, not one it was passed on to.
#[derive(Debug, Clone, Copy, PartialEq, Eq, Structural)]
pub struct ScoreReaction {
    pub user_from: u64,
    pub user_to: u64,
    pub channel: u64,
    pub message: u64,
    pub emoji: u64,
    pub upvote: bool,
    pub native: bool,
}

/// Which rows an operation is about.
#[derive(Debug)]
pub enum Selector {
    /// The rows of one message.
    Message { channel: u64, message: u64 },
    /// The rows of every message of one channel.
    Channel { channel: u64 },
    /// The rows that a member gave or received.
    User { user: u64 },
    /// The rows of one message and emoji whose reactor is not among
    /// `reactors`, the members whose reaction the platform still shows.
    Stale { channel: u64, message: u64, emoji: u64, reactors: Vec<u64> },
    /// The rows that involve someone who is not among `members`, the
    /// members that the guild still has.
    Departed { members: Vec<u64> },
}

/// The largest number of rows that a ledger holds. With no more rows than
/// this, every count fits the machine's word and every score the signed
/// number it is reported as.
pub const MAX_ROWS: usize = 0x7fff_ffff;

/// Two rows stand for the same reaction: same reactor, message and emoji.
pub open spec fn same_reaction(a: ScoreReaction, b: ScoreReaction) -> bool {
    a.user_from == b.user_from && a.channel == b.channel && a.message == b.message && a.emoji
        == b.emoji
}

/// No reaction has two rows.
pub open spec fn unique(rows: Seq<ScoreReaction>) -> bool {
    forall|i: int, j: int| 0 <= i < j < rows.len() ==> !same_reaction(rows[i], rows[j])
}

/// A row counts one up or one down.
pub open spec fn vote(r: ScoreReaction) -> int {
    if r.upvote {
        1
    } else {
        -1
    }
}

/// The votes of the rows that `pick` picks, summed up.
pub open spec fn tally(rows: Seq<ScoreReaction>, pick: spec_fn(ScoreReaction) -> bool) -> int
    decreases rows.len(),
{
    if rows.len() == 0 {
        0
    } else {
        tally(rows.drop_last(), pick) + if pick(rows.last()) {
            vote(rows.last())
        } else {
            0
        }
    }
}

/// How many rows `pick` picks.
pub open spec fn count(rows: Seq<ScoreReaction>, pick: spec_fn(ScoreReaction) -> bool) -> nat
    decreases rows.len(),
{
    if rows.len() == 0 {
        0
    } else {
        count(rows.drop_last(), pick) + if pick(rows.last()) {
            1nat
        } else {
            0nat
        }
    }
}

/// The predicate "`user` has this vote".
pub open spec fn received_by(user: u64) -> spec_fn(ScoreReaction) -> bool {
    |r: ScoreReaction| r.user_to == user
}

/// The predicate "is a row of this message".
pub open spec fn on_message(channel: u64, message: u64) -> spec_fn(ScoreReaction) -> bool {
    |r: ScoreReaction| r.channel == channel && r.message == message
}

/// The predicate "is an upvote that `user` has, native or not as `native`
/// says".
pub open spec fn giftable(user: u64, native: bool) -> spec_fn(ScoreReaction) -> bool {
    |r: ScoreReaction| r.user_to == user && r.upvote && r.native == native
}

/// The predicate "is an upvote that `user` has".
pub open spec fn upvote_of(user: u64) -> spec_fn(ScoreReaction) -> bool {
    |r: ScoreReaction| r.user_to == user && r.upvote
}

/// Which rows are passed on.
enum Pick {
    /// The upvotes that a member has, native or not as `native` says.
    Upvotes { user: u64, native: bool },
    /// Every vote that a member has.
    Votes { user: u64 },
}

/// The predicate "`pick` picks this row".
spec fn picked(pick: Pick) -> spec_fn(ScoreReaction) -> bool {
    match pick {
        Pick::Upvotes { user, native } => giftable(user, native),
        Pick::Votes { user } => received_by(user),
    }
}

/// Whether `sel` selects the row.
pub open spec fn selects(sel: Selector, r: ScoreReaction) -> bool {
    match sel {
        Selector::Message { channel, message } => r.channel == channel && r.message == message,
        Selector::Channel { channel } => r.channel == channel,
        Selector::User { user } => r.user_from == user || r.user_to == user,
        Selector::Stale { channel, message, emoji, reactors } => r.channel == channel && r.message
            == message && r.emoji == emoji && !reactors@.contains(r.user_from),
        Selector::Departed { members } => !members@.contains(r.user_from) || !members@.contains(
            r.user_to,
        ),
    }
}

/// The predicate "`sel` selects this row".
pub open spec fn selected(sel: Selector) -> spec_fn(ScoreReaction) -> bool {
    |r: ScoreReaction| selects(sel, r)
}

/// The predicate "`sel` does not select this row".
pub open spec fn unselected(sel: Selector) -> spec_fn(ScoreReaction) -> bool {
    |r: ScoreReaction| !selects(sel, r)
}

/// The row is the one of this reaction.
pub open spec fn is_reaction(r: ScoreReaction, reactor: u64, channel: u64, message: u64, emoji: u64) -> bool {
    r.user_from == reactor && r.channel == channel && r.message == message && r.emoji == emoji
}

/// `after` is `before` without the row of a reaction that was taken back,
/// and `had` names the member who had the vote; without such a row `after`
/// is `before` and `had` names nobody.
pub open spec fn taken_back(
    before: Seq<ScoreReaction>,
    reactor: u64,
    channel: u64,
    message: u64,
    emoji: u64,
    had: Option<u64>,
    after: Seq<ScoreReaction>,
) -> bool {
    &&& had is Some <==> exists|i: int|
        0 <= i < before.len() && is_reaction(before[i], reactor, channel, message, emoji)
    &&& had is None ==> after == before
    &&& forall|i: int|
        0 <= i < before.len() && is_reaction(before[i], reactor, channel, message, emoji) ==> had
            == Some(before[i].user_to) && after == before.remove(i)
}

/// `affected` names, once each, the members who have a vote on the
/// message.
pub open spec fn names_affected(
    before: Seq<ScoreReaction>,
    channel: u64,
    message: u64,
    affected: Seq<u64>,
) -> bool {
    &&& affected.no_duplicates()
    &&& forall|u: u64|
        affected.contains(u) <==> exists|i: int|
            0 <= i < before.len() && before[i].channel == channel && before[i].message == message
                && before[i].user_to == u
}

/// The live score of a message; none for a message without a row.
pub open spec fn live_score(rows: Seq<ScoreReaction>, channel: u64, message: u64) -> Option<i64> {
    if count(rows, on_message(channel, message)) == 0 {
        None
    } else {
        Some(tally(rows, on_message(channel, message)) as i64)
    }
}

/// A row after it was passed on to `to`.
pub open spec fn passed_on(r: ScoreReaction, to: u64) -> ScoreReaction {
    ScoreReaction {
        user_from: r.user_from,
        user_to: to,
        channel: r.channel,
        message: r.message,
        emoji: r.emoji,
        upvote: r.upvote,
        native: false,
    }
}

/// The rows after the first `budget` rows that `pick` picks were passed on
/// to `to`. Every other row, and the order of the rows, stays.
pub open spec fn reassign(
    rows: Seq<ScoreReaction>,
    pick: spec_fn(ScoreReaction) -> bool,
    to: u64,
    budget: nat,
) -> Seq<ScoreReaction>
    decreases rows.len(),
{
    if rows.len() == 0 {
        rows
    } else {
        let earlier = rows.drop_last();
        let last = rows.last();
        reassign(earlier, pick, to, budget).push(
            if pick(last) && count(earlier, pick) < budget {
                passed_on(last, to)
            } else {
                last
            },
        )
    }
}

/// The rows after every vote that `from` has was passed on to `to`.
pub open spec fn handed_over(rows: Seq<ScoreReaction>, from: u64, to: u64) -> Seq<ScoreReaction> {
    reassign(rows, received_by(from), to, rows.len())
}

/// The smaller of two numbers.
pub open spec fn least(a: nat, b: nat) -> nat {
    if a <= b {
        a
    } else {
        b
    }
}

/// The rows after `from` gave `amount` upvotes to `to`: first the upvotes
/// that were passed on to `from` before, oldest row first, then, as far as
/// the amount is not used up, the native ones, oldest row first.
pub open spec fn gifted(rows: Seq<ScoreReaction>, from: u64, to: u64, amount: nat) -> Seq<
    ScoreReaction,
> {
    let first = least(amount, count(rows, giftable(from, false)));
    reassign(
        reassign(rows, giftable(from, false), to, amount),
        giftable(from, true),
        to,
        (amount - first) as nat,
    )
}

/// Passing rows on changes neither how many rows there are nor which
/// reaction each row stands for.
pub proof fn lemma_reassign_shape(
    rows: Seq<ScoreReaction>,
    pick: spec_fn(ScoreReaction) -> bool,
    to: u64,
    budget: nat,
)
    ensures
        reassign(rows, pick, to, budget).len() == rows.len(),
        forall|i: int|
            0 <= i < rows.len() ==> same_reaction(
                #[trigger] reassign(rows, pick, to, budget)[i],
                rows[i],
            ),
        unique(rows) ==> unique(reassign(rows, pick, to, budget)),
    decreases rows.len(),
{
    if rows.len() > 0 {
        lemma_reassign_shape(rows.drop_last(), pick, to, budget);
        let out = reassign(rows, pick, to, budget);
        let head = reassign(rows.drop_last(), pick, to, budget);
        assert forall|i: int| 0 <= i < rows.len() implies same_reaction(
            #[trigger] out[i],
            rows[i],
        ) by {
            if i < rows.len() - 1 {
                assert(out[i] == head[i]);
                assert(rows.drop_last()[i] == rows[i]);
            }
        }
        if unique(rows) {
            assert forall|i: int, j: int| 0 <= i < j < out.len() implies !same_reaction(
                out[i],
                out[j],
            ) by {
                assert(same_reaction(out[i], rows[i]));
                assert(same_reaction(out[j], rows[j]));
                assert(!same_reaction(rows[i], rows[j]));
            }
        }
    }
}

/// Passing on the rows that one predicate picks leaves alone how many rows
/// another predicate picks, where no row can satisfy both and no row that
/// was passed on satisfies the other.
pub proof fn lemma_reassign_keeps_count(
    rows: Seq<ScoreReaction>,
    pick: spec_fn(ScoreReaction) -> bool,
    other: spec_fn(ScoreReaction) -> bool,
    to: u64,
    budget: nat,
)
    requires
        forall|r: ScoreReaction| #[trigger] pick(r) ==> !other(r) && !other(passed_on(r, to)),
    ensures
        count(reassign(rows, pick, to, budget), other) == count(rows, other),
    decreases rows.len(),
{
    if rows.len() > 0 {
        lemma_reassign_keeps_count(rows.drop_last(), pick, other, to, budget);
        let out = reassign(rows, pick, to, budget);
        assert(out.drop_last() == reassign(rows.drop_last(), pick, to, budget));
    }
}

/// The upvotes that a member has are those that were passed on to it and
/// its native ones.
pub proof fn lemma_upvotes_split(rows: Seq<ScoreReaction>, user: u64)
    ensures
        count(rows, upvote_of(user)) == count(rows, giftable(user, false)) + count(
            rows,
            giftable(user, true),
        ),
    decreases rows.len(),
{
    if rows.len() > 0 {
        lemma_upvotes_split(rows.drop_last(), user);
    }
}

/// Passing upvotes of `from` on to another member takes them from the one
/// and gives them to the other, as many as the budget and the rows allow.
pub proof fn lemma_reassign_moves(
    rows: Seq<ScoreReaction>,
    from: u64,
    native: bool,
    to: u64,
    budget: nat,
)
    requires
        from != to,
    ensures
        count(reassign(rows, giftable(from, native), to, budget), upvote_of(from)) + least(
            budget,
            count(rows, giftable(from, native)),
        ) == count(rows, upvote_of(from)),
        count(reassign(rows, giftable(from, native), to, budget), upvote_of(to)) == count(
            rows,
            upvote_of(to),
        ) + least(budget, count(rows, giftable(from, native))),
    decreases rows.len(),
{
    if rows.len() > 0 {
        lemma_reassign_moves(rows.drop_last(), from, native, to, budget);
        let out = reassign(rows, giftable(from, native), to, budget);
        assert(out.drop_last() == reassign(rows.drop_last(), giftable(from, native), to, budget));
    }
}

/// A gift conserves the upvotes: what leaves the giver arrives at the
/// receiver, it is the amount or all that the giver has, and no row is
/// added or lost.
pub proof fn lemma_gift_conserves(rows: Seq<ScoreReaction>, from: u64, to: u64, amount: nat)
    requires
        from != to,
    ensures
        ({
            let after = gifted(rows, from, to, amount);
            let moved = least(amount, count(rows, upvote_of(from)));
            &&& after.len() == rows.len()
            &&& count(after, upvote_of(from)) == count(rows, upvote_of(from)) - moved
            &&& count(after, upvote_of(to)) == count(rows, upvote_of(to)) + moved
        }),
{
    let first = reassign(rows, giftable(from, false), to, amount);
    let used = least(amount, count(rows, giftable(from, false)));
    lemma_upvotes_split(rows, from);
    lemma_reassign_moves(rows, from, false, to, amount);
    lemma_reassign_keeps_count(rows, giftable(from, false), giftable(from, true), to, amount);
    lemma_reassign_moves(first, from, true, to, (amount - used) as nat);
    lemma_reassign_shape(rows, giftable(from, false), to, amount);
    lemma_reassign_shape(first, giftable(from, true), to, (amount - used) as nat);
}

/// A count is never more than the number of rows, and a tally never further
/// from zero.
pub proof fn lemma_count_bounds(rows: Seq<ScoreReaction>, pick: spec_fn(ScoreReaction) -> bool)
    ensures
        count(rows, pick) <= rows.len(),
        -rows.len() <= tally(rows, pick) <= rows.len(),
    decreases rows.len(),
{
    if rows.len() > 0 {
        lemma_count_bounds(rows.drop_last(), pick);
    }
}

/// With a budget of at least the number of rows, every row that is picked
/// is passed on.
pub proof fn lemma_reassign_all(
    rows: Seq<ScoreReaction>,
    pick: spec_fn(ScoreReaction) -> bool,
    to: u64,
    budget: nat,
)
    requires
        budget >= rows.len(),
    ensures
        reassign(rows, pick, to, budget).len() == rows.len(),
        forall|i: int|
            0 <= i < rows.len() ==> #[trigger] reassign(rows, pick, to, budget)[i] == if pick(
                rows[i],
            ) {
                passed_on(rows[i], to)
            } else {
                rows[i]
            },
    decreases rows.len(),
{
    if rows.len() > 0 {
        lemma_reassign_all(rows.drop_last(), pick, to, budget);
        lemma_count_bounds(rows.drop_last(), pick);
        let out = reassign(rows, pick, to, budget);
        let head = reassign(rows.drop_last(), pick, to, budget);
        assert forall|i: int| 0 <= i < rows.len() implies #[trigger] out[i] == if pick(rows[i]) {
            passed_on(rows[i], to)
        } else {
            rows[i]
        } by {
            if i < rows.len() - 1 {
                assert(out[i] == head[i]);
                assert(rows.drop_last()[i] == rows[i]);
            }
        }
    }
}

/// The score ledger: the votes that members have, one row for each
/// reaction that counts.
#[derive(Debug)]
pub struct Ledger {
    rows: Vec<ScoreReaction>,
}

impl Ledger {
    /// The rows, oldest first.
    pub closed spec fn view(&self) -> Seq<ScoreReaction> {
        self.rows@
    }

    /// No reaction has two rows, and the rows are no more than a ledger
    /// holds.
    pub open spec fn wf(&self) -> bool {
        unique(self@) && self@.len() <= MAX_ROWS
    }

    /// A ledger without rows.
    pub fn new() -> (r: Ledger)
        ensures
            r.wf(),
            r@ == Seq::<ScoreReaction>::empty(),
    {
        Ledger { rows: Vec::new() }
    }

    /// How many rows the ledger holds.
    pub fn len(&self) -> (n: usize)
        ensures
            n == self@.len(),
    {
        self.rows.len()
    }

    /// The row at place `i`, oldest first.
    pub fn row(&self, i: usize) -> (r: Option<ScoreReaction>)
        ensures
            i < self@.len() ==> r == Some(self@[i as int]),
            i >= self@.len() ==> r is None,
    {
        if i < self.rows.len() {
            Some(self.rows[i])
        } else {
            None
        }
    }

    /// Where the row of a reaction stands, if the ledger holds one.
    pub fn find(&self, user_from: u64, channel: u64, message: u64, emoji: u64) -> (r: Option<usize>)
        ensures
            match r {
                Some(k) => k < self@.len() && self@[k as int].user_from == user_from
                    && self@[k as int].channel == channel && self@[k as int].message == message
                    && self@[k as int].emoji == emoji,
                None => forall|i: int|
                    0 <= i < self@.len() ==> !(self@[i].user_from == user_from && self@[i].channel
                        == channel && self@[i].message == message && self@[i].emoji == emoji),
            },
    {
        let mut i: usize = 0;
        while i < self.rows.len()
            invariant
                0 <= i <= self.rows.len(),
                forall|j: int|
                    0 <= j < i ==> !(self@[j].user_from == user_from && self@[j].channel == channel
                        && self@[j].message == message && self@[j].emoji == emoji),
            decreases self.rows.len() - i,
        {
            let r = self.rows[i];
            if r.user_from == user_from && r.channel == channel && r.message == message && r.emoji
                == emoji {
                return Some(i);
            }
            i += 1;
        }
        None
    }

    /// Adds the row of a reaction. Answers `Ok(true)` and appends the row
    /// where the ledger has none for that reaction and has room; `Ok(false)`,
    /// changing nothing, where the reaction has a row already; and the store
    /// error, changing nothing, where the ledger is full.
    pub fn insert(&mut self, row: ScoreReaction) -> (r: Result<bool, KowalskiError>)
        requires
            old(self).wf(),
        ensures
            final(self).wf(),
            ({
                let known = exists|i: int|
                    0 <= i < old(self)@.len() && same_reaction(old(self)@[i], row);
                let full = old(self)@.len() == MAX_ROWS;
                &&& known ==> r == Ok::<bool, KowalskiError>(false) && final(self)@ == old(self)@
                &&& !known && full ==> (r matches Err(KowalskiError::DatabaseError)) && final(self)@ == old(self)@
                &&& !known && !full ==> r == Ok::<bool, KowalskiError>(true) && final(self)@
                    == old(self)@.push(row)
            }),
    {
        match self.find(row.user_from, row.channel, row.message, row.emoji) {
            Some(k) => {
                proof {
                    assert(same_reaction(self@[k as int], row));
                }
                Ok(false)
            },
            None => {
                if self.rows.len() >= MAX_ROWS {
                    Err(KowalskiError::DatabaseError)
                } else {
                    self.rows.push(row);
                    Ok(true)
                }
            },
        }
    }

    /// Removes the row of a reaction that was taken back and names the
    /// member who had the vote. Without such a row nothing changes.
    pub fn remove_reaction(&mut self, reactor: u64, channel: u64, message: u64, emoji: u64) -> (r:
        Option<u64>)
        requires
            old(self).wf(),
        ensures
            final(self).wf(),
            taken_back(old(self)@, reactor, channel, message, emoji, r, final(self)@),
    {
        match self.find(reactor, channel, message, emoji) {
            None => None,
            Some(k) => {
                let row = self.rows.remove(k);
                proof {
                    let before = old(self)@;
                    let now = self@;
                    assert forall|i: int, j: int| 0 <= i < j < now.len() implies !same_reaction(
                        now[i],
                        now[j],
                    ) by {
                        let a = if i < k { i } else { i + 1 };
                        let b = if j < k { j } else { j + 1 };
                        assert(now[i] == before[a]);
                        assert(now[j] == before[b]);
                    }
                    assert forall|i: int|
                        0 <= i < before.len() && before[i].user_from == reactor
                            && before[i].channel == channel && before[i].message == message
                            && before[i].emoji == emoji implies i == k by {
                        if i != k {
                            if i < k {
                                assert(!same_reaction(before[i], before[k as int]));
                            } else {
                                assert(!same_reaction(before[k as int], before[i]));
                            }
                        }
                    }
                }
                Some(row.user_to)
            },
        }
    }

    /// Whether `sel` selects the row.
    pub fn is_selected(sel: &Selector, r: &ScoreReaction) -> (b: bool)
        ensures
            b == selects(*sel, *r),
    {
        match sel {
            Selector::Message { channel, message } => r.channel == *channel && r.message
                == *message,
            Selector::Channel { channel } => r.channel == *channel,
            Selector::User { user } => r.user_from == *user || r.user_to == *user,
            Selector::Stale { channel, message, emoji, reactors } => r.channel == *channel
                && r.message == *message && r.emoji == *emoji && !contains(reactors, r.user_from),
            Selector::Departed { members } => !contains(members, r.user_from) || !contains(
                members,
                r.user_to,
            ),
        }
    }

    /// Removes the rows that `sel` selects and hands them out, in their
    /// order. The other rows stay, in their order.
    pub fn remove_where(&mut self, sel: &Selector) -> (removed: Vec<ScoreReaction>)
        requires
            old(self).wf(),
        ensures
            final(self).wf(),
            final(self)@ == old(self)@.filter(unselected(*sel)),
            removed@ == old(self)@.filter(selected(*sel)),
    {
        let mut kept: Vec<ScoreReaction> = Vec::new();
        let mut removed: Vec<ScoreReaction> = Vec::new();
        let mut i: usize = 0;
        let ghost before = self@;
        proof {
            lemma_filter_none(before, unselected(*sel));
            lemma_filter_none(before, selected(*sel));
        }
        while i < self.rows.len()
            invariant
                self@ == before,
                0 <= i <= before.len(),
                unique(before),
                kept@ == before.take(i as int).filter(unselected(*sel)),
                removed@ == before.take(i as int).filter(selected(*sel)),
                kept@.len() <= i,
                unique(kept@),
                forall|j: int|
                    0 <= j < kept@.len() ==> exists|k: int|
                        0 <= k < i && #[trigger] kept@[j] == #[trigger] before[k],
            decreases self.rows.len() - i,
        {
            proof {
                lemma_filter_step(before, unselected(*sel), i as int);
                lemma_filter_step(before, selected(*sel), i as int);
            }
            let r = self.rows[i];
            let ghost seen = kept@;
            if Self::is_selected(sel, &r) {
                removed.push(r);
            } else {
                kept.push(r);
                proof {
                    assert forall|a: int, b: int| 0 <= a < b < kept@.len() implies !same_reaction(
                        kept@[a],
                        kept@[b],
                    ) by {
                        if b == seen.len() {
                            let k = choose|k: int| 0 <= k < i && seen[a] == before[k];
                            assert(!same_reaction(before[k], before[i as int]));
                        } else {
                            assert(kept@[a] == seen[a] && kept@[b] == seen[b]);
                        }
                    }
                    assert forall|j: int| 0 <= j < kept@.len() implies exists|k: int|
                        0 <= k < i + 1 && #[trigger] kept@[j] == #[trigger] before[k] by {
                        if j < seen.len() {
                            let k = choose|k: int| 0 <= k < i && seen[j] == before[k];
                            assert(kept@[j] == before[k]);
                        } else {
                            assert(kept@[j] == before[i as int]);
                        }
                    }
                }
            }
            i += 1;
        }
        proof {
            lemma_filter_none(before, unselected(*sel));
        }
        self.rows = kept;
        removed
    }

    /// Removes every row of a message whose reactions were all cleared, and
    /// names each member who had one of the votes, once.
    pub fn remove_all_reactions(&mut self, channel: u64, message: u64) -> (affected: Vec<u64>)
        requires
            old(self).wf(),
        ensures
            final(self).wf(),
            final(self)@ == old(self)@.filter(
                unselected(Selector::Message { channel, message }),
            ),
            names_affected(old(self)@, channel, message, affected@),
    {
        let sel = Selector::Message { channel, message };
        let removed = self.remove_where(&sel);
        let ghost before = old(self)@;
        let mut affected: Vec<u64> = Vec::new();
        let mut i: usize = 0;
        while i < removed.len()
            invariant
                0 <= i <= removed.len(),
                affected@.no_duplicates(),
                forall|u: u64|
                    affected@.contains(u) <==> exists|j: int|
                        0 <= j < i && removed@[j].user_to == u,
            decreases removed.len() - i,
        {
            let u = removed[i].user_to;
            let ghost seen = affected@;
            if !contains(&affected, u) {
                affected.push(u);
                proof {
                    assert forall|w: u64| affected@.contains(w) implies exists|j: int|
                        0 <= j < i + 1 && removed@[j].user_to == w by {
                        let p = choose|p: int| 0 <= p < affected@.len() && affected@[p] == w;
                        if p < seen.len() {
                            assert(seen.contains(w));
                        } else {
                            assert(removed@[i as int].user_to == w);
                        }
                    }
                    assert forall|w: u64|
                        (exists|j: int|
                            0 <= j < i + 1 && removed@[j].user_to == w) implies affected@.contains(
                        w,
                    ) by {
                        let j = choose|j: int| 0 <= j < i + 1 && removed@[j].user_to == w;
                        if j < i {
                            assert(seen.contains(w));
                            let p = choose|p: int| 0 <= p < seen.len() && seen[p] == w;
                            assert(affected@[p] == w);
                        } else {
                            assert(affected@[seen.len() as int] == w);
                        }
                    }
                }
            }
            i += 1;
        }
        proof {
            assert forall|u: u64| affected@.contains(u) <==> exists|i: int|
                0 <= i < before.len() && before[i].channel == channel && before[i].message
                    == message && before[i].user_to == u by {
                if affected@.contains(u) {
                    let j = choose|j: int| 0 <= j < removed@.len() && removed@[j].user_to == u;
                    assert(removed@.contains(removed@[j]));
                    before.lemma_filter_contains_rev(selected(sel), removed@[j]);
                    let k = choose|k: int| 0 <= k < before.len() && before[k] == removed@[j];
                    assert(selects(sel, before[k]));
                }
                if exists|i: int|
                    0 <= i < before.len() && before[i].channel == channel && before[i].message
                        == message && before[i].user_to == u {
                    let k = choose|k: int|
                        0 <= k < before.len() && before[k].channel == channel && before[k].message
                            == message && before[k].user_to == u;
                    assert(selected(sel)(before[k]));
                    before.lemma_filter_contains(selected(sel), k);
                    let j = choose|j: int| 0 <= j < removed@.len() && removed@[j] == before[k];
                    assert(removed@[j].user_to == u);
                }
            }
        }
        affected
    }
    /// Whether `pick` picks the row.
    fn is_picked(pick: &Pick, r: &ScoreReaction) -> (b: bool)
        ensures
            b == picked(*pick)(*r),
    {
        match pick {
            Pick::Upvotes { user, native } => r.user_to == *user && r.upvote && r.native
                == *native,
            Pick::Votes { user } => r.user_to == *user,
        }
    }

    /// Passes the first `budget` rows that `pick` picks on to `to` and says
    /// how many these were.
    fn pass_on(&mut self, pick: &Pick, to: u64, budget: usize) -> (moved: usize)
        requires
            old(self).wf(),
        ensures
            final(self).wf(),
            final(self)@ == reassign(old(self)@, picked(*pick), to, budget as nat),
            moved == least(budget as nat, count(old(self)@, picked(*pick))),
    {
        let ghost before = self@;
        let ghost p = picked(*pick);
        let mut out: Vec<ScoreReaction> = Vec::new();
        let mut moved: usize = 0;
        let mut i: usize = 0;
        proof {
            assert(before.take(0).len() == 0);
        }
        while i < self.rows.len()
            invariant
                self@ == before,
                p == picked(*pick),
                0 <= i <= before.len(),
                out@ == reassign(before.take(i as int), p, to, budget as nat),
                moved == least(budget as nat, count(before.take(i as int), p)),
                moved <= i,
            decreases self.rows.len() - i,
        {
            proof {
                assert(before.take(i + 1).drop_last() == before.take(i as int));
                assert(before.take(i + 1).last() == before[i as int]);
            }
            let r = self.rows[i];
            if Self::is_picked(pick, &r) && moved < budget {
                out.push(
                    ScoreReaction {
                        user_from: r.user_from,
                        user_to: to,
                        channel: r.channel,
                        message: r.message,
                        emoji: r.emoji,
                        upvote: r.upvote,
                        native: false,
                    },
                );
                moved += 1;
            } else {
                out.push(r);
            }
            i += 1;
        }
        proof {
            assert(before.take(before.len() as int) == before);
            lemma_reassign_shape(before, p, to, budget as nat);
        }
        self.rows = out;
        moved
    }

    /// Gives up to `amount` of the upvotes that `from` has to `to`. Upvotes
    /// that were passed on to `from` before go first, native ones only once
    /// those are used up; within each kind the oldest row goes first. Every
    /// row that moves is no longer native. Answers how many rows moved: the
    /// amount, or all upvotes of `from` if those are fewer. A gift to oneself
    /// moves nothing.
    pub fn gift(&mut self, from: u64, to: u64, amount: usize) -> (moved: usize)
        requires
            old(self).wf(),
        ensures
            final(self).wf(),
            from == to ==> moved == 0 && final(self)@ == old(self)@,
            from != to ==> final(self)@ == gifted(old(self)@, from, to, amount as nat) && moved
                == least(amount as nat, count(old(self)@, upvote_of(from))),
    {
        if from == to {
            return 0;
        }
        let ghost before = self@;
        proof {
            lemma_upvotes_split(before, from);
            lemma_reassign_keeps_count(
                before,
                giftable(from, false),
                giftable(from, true),
                to,
                amount as nat,
            );
        }
        let first = self.pass_on(&Pick::Upvotes { user: from, native: false }, to, amount);
        let second = self.pass_on(&Pick::Upvotes { user: from, native: true }, to, amount - first);
        first + second
    }

    /// Passes every vote that `from` has on to `to`, as when a member picks
    /// up the score that a departed member dropped. Answers how many rows
    /// moved.
    pub fn transfer_all(&mut self, from: u64, to: u64) -> (moved: usize)
        requires
            old(self).wf(),
        ensures
            final(self).wf(),
            final(self)@ == handed_over(old(self)@, from, to),
            final(self)@.len() == old(self)@.len(),
            forall|i: int|
                0 <= i < old(self)@.len() ==> #[trigger] final(self)@[i] == if old(
                    self)@[i].user_to == from {
                    passed_on(old(self)@[i], to)
                } else {
                    old(self)@[i]
                },
            moved == count(old(self)@, received_by(from)),
    {
        let ghost before = self@;
        let n = self.rows.len();
        proof {
            lemma_count_bounds(before, received_by(from));
            lemma_reassign_all(before, received_by(from), to, n as nat);
        }
        self.pass_on(&Pick::Votes { user: from }, to, n)
    }

    /// The score of a member: its upvotes less its downvotes.
    pub fn user_score(&self, user: u64) -> (score: i64)
        requires
            self.wf(),
        ensures
            score == tally(self@, received_by(user)),
    {
        let mut score: i64 = 0;
        let mut i: usize = 0;
        proof {
            assert(self@.take(0).len() == 0);
        }
        while i < self.rows.len()
            invariant
                0 <= i <= self@.len(),
                self@.len() <= MAX_ROWS,
                score == tally(self@.take(i as int), received_by(user)),
                -i <= score <= i,
            decreases self.rows.len() - i,
        {
            proof {
                assert(self@.take(i + 1).drop_last() == self@.take(i as int));
                assert(self@.take(i + 1).last() == self@[i as int]);
            }
            let r = self.rows[i];
            if r.user_to == user {
                if r.upvote {
                    score += 1;
                } else {
                    score -= 1;
                }
            }
            i += 1;
        }
        proof {
            assert(self@.take(self@.len() as int) == self@);
        }
        score
    }

    /// The live score of a message: the upvotes on it less the downvotes.
    /// A message without a row has no score.
    pub fn message_score(&self, channel: u64, message: u64) -> (score: Option<i64>)
        requires
            self.wf(),
        ensures
            score == live_score(self@, channel, message),
            score is Some ==> score->0 == tally(self@, on_message(channel, message)),
    {
        let mut score: i64 = 0;
        let mut rows: usize = 0;
        let mut i: usize = 0;
        proof {
            assert(self@.take(0).len() == 0);
        }
        while i < self.rows.len()
            invariant
                0 <= i <= self@.len(),
                self@.len() <= MAX_ROWS,
                score == tally(self@.take(i as int), on_message(channel, message)),
                rows == count(self@.take(i as int), on_message(channel, message)),
                -i <= score <= i,
                rows <= i,
            decreases self.rows.len() - i,
        {
            proof {
                assert(self@.take(i + 1).drop_last() == self@.take(i as int));
                assert(self@.take(i + 1).last() == self@[i as int]);
            }
            let r = self.rows[i];
            if r.channel == channel && r.message == message {
                rows += 1;
                if r.upvote {
                    score += 1;
                } else {
                    score -= 1;
                }
            }
            i += 1;
        }
        proof {
            assert(self@.take(self@.len() as int) == self@);
        }
        if rows == 0 {
            None
        } else {
            Some(score)
        }
    }

    /// How many upvotes a member has.
    pub fn upvotes_received(&self, user: u64) -> (n: usize)
        ensures
            n == count(self@, upvote_of(user)),
    {
        let mut n: usize = 0;
        let mut i: usize = 0;
        proof {
            assert(self@.take(0).len() == 0);
        }
        while i < self.rows.len()
            invariant
                0 <= i <= self@.len(),
                n == count(self@.take(i as int), upvote_of(user)),
                n <= i,
            decreases self.rows.len() - i,
        {
            proof {
                assert(self@.take(i + 1).drop_last() == self@.take(i as int));
                assert(self@.take(i + 1).last() == self@[i as int]);
            }
            let r = self.rows[i];
            if r.user_to == user && r.upvote {
                n += 1;
            }
            i += 1;
        }
        proof {
            assert(self@.take(self@.len() as int) == self@);
        }
        n
    }
}

} // verus!
