use crate::seqs::contains;
use vstd::prelude::*;

verus! {

/// The reaction cooldown of a role, in seconds.
#[derive(Debug, Clone, Copy, PartialEq, Eq, Structural)]
pub struct Cooldown {
    pub role: u64,
    pub seconds: u64,
}

/// The last reaction of a member that was accepted, and when.
#[derive(Debug, Clone, Copy, PartialEq, Eq, Structural)]
pub struct Accepted {
    pub guild: u64,
    pub user: u64,
    pub at: u64,
}

/// `c` is the cooldown of a reactor with the roles `roles`: the smallest
/// cooldown among those of its roles, and `default` where none of its roles
/// has one.
pub open spec fn is_cooldown(table: Seq<Cooldown>, roles: Seq<u64>, default: u64, c: u64) -> bool {
    if exists|k: int| 0 <= k < table.len() && roles.contains(table[k].role) {
        &&& exists|k: int|
            0 <= k < table.len() && roles.contains(table[k].role) && table[k].seconds == c
        &&& forall|k: int|
            0 <= k < table.len() && roles.contains(table[k].role) ==> c <= table[k].seconds
    } else {
        c == default
    }
}

/// The seconds from `at` to `now`; none where the clock went back.
pub open spec fn elapsed(now: u64, at: u64) -> int {
    if now >= at {
        now - at
    } else {
        0
    }
}

/// A member is on cooldown at `now` if its last accepted reaction is less
/// than `cooldown` seconds ago.
pub open spec fn on_cooldown(entries: Seq<Accepted>, guild: u64, user: u64, now: u64, cooldown: u64) -> bool {
    exists|i: int|
        0 <= i < entries.len() && entries[i].guild == guild && entries[i].user == user && elapsed(
            now,
            entries[i].at,
        ) < cooldown
}

/// `after` is `before` with `entry` noted as its member's last accepted
/// reaction: in the place of the member's entry where it had one, at the end
/// where it had none.
pub open spec fn noted(before: Seq<Accepted>, entry: Accepted, after: Seq<Accepted>) -> bool {
    let had = exists|i: int|
        0 <= i < before.len() && before[i].guild == entry.guild && before[i].user == entry.user;
    &&& had ==> exists|i: int|
        0 <= i < before.len() && before[i].guild == entry.guild && before[i].user == entry.user
            && after == before.update(i, entry)
    &&& !had ==> after == before.push(entry)
}

/// No member has two entries.
pub open spec fn one_each(entries: Seq<Accepted>) -> bool {
    forall|i: int, j: int|
        0 <= i < j < entries.len() ==> !(entries[i].guild == entries[j].guild && entries[i].user
            == entries[j].user)
}

/// Cooldown enforcement. Once a reaction of a member was accepted at `t`,
/// a reaction at a later time `u` is on cooldown exactly if fewer than
/// `cooldown` seconds have passed; and whatever that second reaction met, a
/// rejection has left the window where it was.
pub proof fn lemma_cooldown_window(
    before: Seq<Accepted>,
    after: Seq<Accepted>,
    guild: u64,
    user: u64,
    t: u64,
    u: u64,
    cooldown: u64,
)
    requires
        one_each(before),
        noted(before, Accepted { guild, user, at: t }, after),
        t <= u,
    ensures
        one_each(after),
        on_cooldown(after, guild, user, u, cooldown) <==> u - t < cooldown,
{
    let entry = Accepted { guild, user, at: t };
    let had = exists|i: int|
        0 <= i < before.len() && before[i].guild == guild && before[i].user == user;
    if had {
        let k = choose|i: int|
            0 <= i < before.len() && before[i].guild == entry.guild && before[i].user
                == entry.user && after == before.update(i, entry);
        assert(after[k] == entry);
        assert forall|i: int, j: int| 0 <= i < j < after.len() implies !(after[i].guild
            == after[j].guild && after[i].user == after[j].user) by {
            assert(after[i].guild == before[i].guild && after[i].user == before[i].user);
            assert(after[j].guild == before[j].guild && after[j].user == before[j].user);
        }
        assert forall|i: int|
            0 <= i < after.len() && after[i].guild == guild && after[i].user == user implies i
            == k by {
            if i < k {
                assert(!(after[i].guild == after[k].guild && after[i].user == after[k].user));
            } else if i > k {
                assert(!(after[k].guild == after[i].guild && after[k].user == after[i].user));
            }
        }
        if on_cooldown(after, guild, user, u, cooldown) {
            let i = choose|i: int|
                0 <= i < after.len() && after[i].guild == guild && after[i].user == user
                    && elapsed(u, after[i].at) < cooldown;
            assert(i == k);
        }
        if u - t < cooldown {
            assert(after[k].guild == guild && after[k].user == user && elapsed(u, after[k].at)
                < cooldown);
        }
    } else {
        let k = before.len() as int;
        assert(after[k] == entry);
        assert forall|i: int, j: int| 0 <= i < j < after.len() implies !(after[i].guild
            == after[j].guild && after[i].user == after[j].user) by {
            if j < k {
                assert(after[i] == before[i] && after[j] == before[j]);
            } else {
                assert(after[i] == before[i]);
            }
        }
        if on_cooldown(after, guild, user, u, cooldown) {
            let i = choose|i: int|
                0 <= i < after.len() && after[i].guild == guild && after[i].user == user
                    && elapsed(u, after[i].at) < cooldown;
            if i < k {
                assert(after[i] == before[i]);
            }
            assert(i == k);
        }
        if u - t < cooldown {
            assert(after[k].guild == guild && after[k].user == user && elapsed(u, after[k].at)
                < cooldown);
        }
    }
}

/// The cooldown that applies to a reactor with the roles `roles`.
pub fn applicable_cooldown(table: &Vec<Cooldown>, roles: &Vec<u64>, default: u64) -> (c: u64)
    ensures
        is_cooldown(table@, roles@, default, c),
{
    let mut best: Option<u64> = None;
    let mut i: usize = 0;
    while i < table.len()
        invariant
            0 <= i <= table.len(),
            best is None ==> forall|k: int| 0 <= k < i ==> !roles@.contains(table@[k].role),
            best is Some ==> (exists|k: int|
                0 <= k < i && roles@.contains(table@[k].role) && table@[k].seconds == best->0)
                && forall|k: int|
                0 <= k < i && roles@.contains(table@[k].role) ==> best->0 <= table@[k].seconds,
        decreases table.len() - i,
    {
        if contains(roles, table[i].role) {
            let s = table[i].seconds;
            match best {
                None => {
                    best = Some(s);
                },
                Some(b) => {
                    if s < b {
                        best = Some(s);
                    }
                },
            }
        }
        i += 1;
    }
    match best {
        Some(c) => c,
        None => default,
    }
}

/// When each member's last accepted reaction was.
#[derive(Debug)]
pub struct Cooldowns {
    entries: Vec<Accepted>,
}

impl Cooldowns {
    /// The entries, one for each member that had a reaction accepted.
    pub closed spec fn view(&self) -> Seq<Accepted> {
        self.entries@
    }

    /// No member has two entries.
    pub open spec fn wf(&self) -> bool {
        one_each(self@)
    }

    /// No reaction was accepted yet.
    pub fn new() -> (r: Cooldowns)
        ensures
            r.wf(),
            r@ == Seq::<Accepted>::empty(),
    {
        Cooldowns { entries: Vec::new() }
    }

    /// Where the entry of a member stands, if it has one.
    fn position(&self, guild: u64, user: u64) -> (r: Option<usize>)
        ensures
            match r {
                Some(k) => k < self@.len() && self@[k as int].guild == guild
                    && self@[k as int].user == user,
                None => forall|i: int|
                    0 <= i < self@.len() ==> !(self@[i].guild == guild && self@[i].user == user),
            },
    {
        let mut i: usize = 0;
        while i < self.entries.len()
            invariant
                0 <= i <= self.entries.len(),
                forall|j: int| 0 <= j < i ==> !(self@[j].guild == guild && self@[j].user == user),
            decreases self.entries.len() - i,
        {
            if self.entries[i].guild == guild && self.entries[i].user == user {
                return Some(i);
            }
            i += 1;
        }
        None
    }

    /// Checks a reaction of `user` at `now` against the cooldown that applies
    /// to it. Answers `true` if the member is on cooldown: the reaction is
    /// rejected and nothing is noted, so that a rejected reaction does not
    /// start the cooldown anew. Otherwise the reaction is accepted and `now`
    /// becomes the time of the member's last accepted reaction.
    pub fn check_cooldown(&mut self, guild: u64, user: u64, now: u64, cooldown: u64) -> (active:
        bool)
        requires
            old(self).wf(),
        ensures
            final(self).wf(),
            active == on_cooldown(old(self)@, guild, user, now, cooldown),
            active ==> final(self)@ == old(self)@,
            !active ==> noted(old(self)@, Accepted { guild, user, at: now }, final(self)@),
    {
        let entry = Accepted { guild, user, at: now };
        match self.position(guild, user) {
            None => {
                proof {
                    let before = old(self)@;
                    if on_cooldown(before, guild, user, now, cooldown) {
                        let i = choose|i: int|
                            0 <= i < before.len() && before[i].guild == guild && before[i].user
                                == user && elapsed(now, before[i].at) < cooldown;
                        assert(!(before[i].guild == guild && before[i].user == user));
                    }
                }
                self.entries.push(entry);
                proof {
                    let now_entries = self@;
                    let before = old(self)@;
                    assert forall|i: int, j: int| 0 <= i < j < now_entries.len() implies !(
                    now_entries[i].guild == now_entries[j].guild && now_entries[i].user
                        == now_entries[j].user) by {
                        if j < before.len() {
                            assert(now_entries[i] == before[i] && now_entries[j] == before[j]);
                        } else {
                            assert(now_entries[i] == before[i]);
                        }
                    }
                }
                false
            },
            Some(k) => {
                let last = self.entries[k].at;
                proof {
                    let before = old(self)@;
                    assert forall|i: int|
                        0 <= i < before.len() && before[i].guild == guild && before[i].user
                            == user implies i == k by {
                        if i < k {
                            assert(!(before[i].guild == before[k as int].guild && before[i].user
                                == before[k as int].user));
                        } else if i > k {
                            assert(!(before[k as int].guild == before[i].guild
                                && before[k as int].user == before[i].user));
                        }
                    }
                }
                let active = if now < last {
                    cooldown > 0
                } else {
                    now - last < cooldown
                };
                proof {
                    let before = old(self)@;
                    if on_cooldown(before, guild, user, now, cooldown) {
                        let i = choose|i: int|
                            0 <= i < before.len() && before[i].guild == guild && before[i].user
                                == user && elapsed(now, before[i].at) < cooldown;
                        assert(i == k);
                    }
                    if active {
                        assert(before[k as int].guild == guild && before[k as int].user == user
                            && elapsed(now, before[k as int].at) < cooldown);
                    }
                }
                if active {
                    true
                } else {
                    self.entries.set(k, entry);
                    proof {
                        let before = old(self)@;
                        let now_entries = self@;
                        assert(now_entries == before.update(k as int, entry));
                        assert forall|i: int, j: int|
                            0 <= i < j < now_entries.len() implies !(now_entries[i].guild
                            == now_entries[j].guild && now_entries[i].user
                            == now_entries[j].user) by {
                            assert(now_entries[i].guild == before[i].guild && now_entries[i].user
                                == before[i].user);
                            assert(now_entries[j].guild == before[j].guild && now_entries[j].user
                                == before[j].user);
                        }
                    }
                    false
                }
            },
        }
    }
}

} // verus!
