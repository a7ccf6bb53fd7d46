use crate::error::KowalskiError;
use vstd::prelude::*;

verus! {

/// What the allocator decides for one reaction on a reaction-role message.
#[derive(Debug, Clone, Copy, PartialEq, Eq, Structural)]
pub enum Decision {
    /// The member gets the role; where slots are limited, one is taken.
    Grant,
    /// The member holds the role through this mapping and gives it back.
    Revoke,
    /// No slot is left: the reaction is retracted and nothing changes.
    Reject,
    /// The reactor is a bot: nothing happens.
    Ignore,
}

/// The state of one reaction-role mapping as the contracts see it.
pub struct Mapping {
    /// How many members may hold the role at once; `None` for no limit.
    pub capacity: Option<nat>,
    /// The counter of free slots; `None` for no limit.
    pub slots: Option<nat>,
    /// The members that hold the role through this mapping, oldest first.
    pub holders: Seq<u64>,
}

impl Mapping {
    /// Nobody holds the role twice, and where slots are limited, the counter
    /// of free slots and the holders together make up the capacity.
    pub open spec fn wf(self) -> bool {
        &&& self.holders.no_duplicates()
        &&& self.capacity is Some <==> self.slots is Some
        &&& self.capacity is Some ==> self.slots->0 + self.holders.len() == self.capacity->0
    }

    /// A mapping that nobody holds yet.
    pub open spec fn fresh(capacity: Option<nat>) -> Mapping {
        Mapping { capacity, slots: capacity, holders: Seq::empty() }
    }

    /// The decision for a reaction of `user`.
    pub open spec fn decide(self, user: u64, bot: bool) -> Decision {
        if bot {
            Decision::Ignore
        } else if self.holders.contains(user) {
            Decision::Revoke
        } else if self.slots is None || self.slots->0 > 0 {
            Decision::Grant
        } else {
            Decision::Reject
        }
    }

    /// The mapping after `user` took the role.
    pub open spec fn granted(self, user: u64) -> Mapping {
        Mapping {
            capacity: self.capacity,
            slots: match self.slots {
                Some(n) => Some((n - 1) as nat),
                None => None,
            },
            holders: self.holders.push(user),
        }
    }

    /// The mapping after `user` gave the role back; unchanged where `user`
    /// does not hold it.
    pub open spec fn released(self, user: u64) -> Mapping {
        if self.holders.contains(user) {
            Mapping {
                capacity: self.capacity,
                slots: match self.slots {
                    Some(n) => Some(n + 1),
                    None => None,
                },
                holders: self.holders.remove(self.holders.index_of(user)),
            }
        } else {
            self
        }
    }

    /// The mapping after a member who holds the role on the platform
    /// already was taken in: the capacity grows by that member, and the free
    /// slots stay what they were.
    pub open spec fn adopted(self, user: u64) -> Mapping {
        Mapping {
            capacity: match self.capacity {
                Some(n) => Some(n + 1),
                None => None,
            },
            slots: self.slots,
            holders: self.holders.push(user),
        }
    }

    /// The mapping after the evaluation of a reaction: a grant takes its
    /// slot at once, every other decision leaves the mapping as it is.
    pub open spec fn evaluated(self, user: u64, bot: bool) -> Mapping {
        if self.decide(user, bot) == Decision::Grant {
            self.granted(user)
        } else {
            self
        }
    }

    /// The mapping after the platform answered: a grant that failed gives its
    /// slot back, a revocation that succeeded frees one.
    pub open spec fn completed(self, user: u64, decision: Decision, ok: bool) -> Mapping {
        if (decision == Decision::Grant && !ok) || (decision == Decision::Revoke && ok) {
            self.released(user)
        } else {
            self
        }
    }
}

/// One step that changes a mapping: the evaluation of a reaction, or the
/// platform's answer to an earlier decision.
pub enum SlotEvent {
    Evaluate { user: u64, bot: bool },
    Complete { user: u64, decision: Decision, ok: bool },
}

/// The mapping after one event.
pub open spec fn after(m: Mapping, event: SlotEvent) -> Mapping {
    match event {
        SlotEvent::Evaluate { user, bot } => m.evaluated(user, bot),
        SlotEvent::Complete { user, decision, ok } => m.completed(user, decision, ok),
    }
}

/// The mapping after a sequence of events, in whatever order they were
/// serialized.
pub open spec fn after_all(m: Mapping, events: Seq<SlotEvent>) -> Mapping
    decreases events.len(),
{
    if events.len() == 0 {
        m
    } else {
        after(after_all(m, events.drop_last()), events.last())
    }
}

/// How many of the events gave the role to a member.
pub open spec fn grants(m: Mapping, events: Seq<SlotEvent>) -> nat
    decreases events.len(),
{
    if events.len() == 0 {
        0
    } else {
        let before = after_all(m, events.drop_last());
        let now = after(before, events.last());
        grants(m, events.drop_last()) + if now.holders.len() > before.holders.len() {
            1nat
        } else {
            0nat
        }
    }
}

/// How many of the events took the role from a member.
pub open spec fn revokes(m: Mapping, events: Seq<SlotEvent>) -> nat
    decreases events.len(),
{
    if events.len() == 0 {
        0
    } else {
        let before = after_all(m, events.drop_last());
        let now = after(before, events.last());
        revokes(m, events.drop_last()) + if now.holders.len() < before.holders.len() {
            1nat
        } else {
            0nat
        }
    }
}

/// Every event keeps a valid mapping valid, keeps its capacity, and moves the
/// number of holders by at most one.
pub proof fn lemma_event_keeps_mapping_valid(m: Mapping, event: SlotEvent)
    requires
        m.wf(),
    ensures
        after(m, event).wf(),
        after(m, event).capacity == m.capacity,
        after(m, event).holders.len() - m.holders.len() <= 1,
        m.holders.len() - after(m, event).holders.len() <= 1,
{
    lemma_granted(m, event.arrow_Evaluate_user());
    lemma_released(m, event.arrow_Complete_user());
}

/// Taking the role keeps the mapping valid where the decision was a grant.
pub proof fn lemma_granted(m: Mapping, user: u64)
    requires
        m.wf(),
    ensures
        m.decide(user, false) == Decision::Grant ==> m.granted(user).wf() && m.granted(
            user,
        ).holders.len() == m.holders.len() + 1,
{
    if m.decide(user, false) == Decision::Grant {
        let h = m.holders.push(user);
        assert forall|i: int, j: int| 0 <= i < h.len() && 0 <= j < h.len() && i != j implies h[i]
            != h[j] by {
            if i < m.holders.len() && j < m.holders.len() {
            } else if i < m.holders.len() {
                assert(m.holders.contains(h[i]));
            } else {
                assert(m.holders.contains(h[j]));
            }
        }
    }
}

/// Giving the role back keeps the mapping valid, and the member is then no
/// holder any more.
pub proof fn lemma_released(m: Mapping, user: u64)
    requires
        m.wf(),
    ensures
        m.released(user).wf(),
        !m.released(user).holders.contains(user),
        m.holders.contains(user) ==> m.released(user).holders.len() + 1 == m.holders.len(),
        m.released(user).capacity == m.capacity,
{
    if m.holders.contains(user) {
        let k = m.holders.index_of(user);
        let h = m.holders.remove(k);
        assert forall|i: int, j: int| 0 <= i < h.len() && 0 <= j < h.len() && i != j implies h[i]
            != h[j] by {
            let a = if i < k { i } else { i + 1 };
            let b = if j < k { j } else { j + 1 };
            assert(h[i] == m.holders[a]);
            assert(h[j] == m.holders[b]);
        }
        assert forall|i: int| 0 <= i < h.len() implies h[i] != user by {
            let a = if i < k { i } else { i + 1 };
            assert(h[i] == m.holders[a]);
        }
    }
}

/// Slot conservation. Start from a mapping that nobody holds, with or
/// without a capacity, and let any sequence of evaluations and platform
/// answers happen, in any order. Then the mapping is valid, the number of
/// holders is the number of grants less the number of revocations, and where
/// the capacity is limited the holders never exceed it and the counter of
/// free slots is exactly what the holders leave of it.
pub proof fn lemma_slot_conservation(capacity: Option<nat>, events: Seq<SlotEvent>)
    ensures
        ({
            let start = Mapping::fresh(capacity);
            let end = after_all(start, events);
            &&& end.wf()
            &&& end.capacity == capacity
            &&& end.holders.len() == grants(start, events) - revokes(start, events)
            &&& capacity is Some ==> end.holders.len() <= capacity->0 && end.slots == Some(
                (capacity->0 - end.holders.len()) as nat,
            )
        }),
    decreases events.len(),
{
    let start = Mapping::fresh(capacity);
    if events.len() > 0 {
        lemma_slot_conservation(capacity, events.drop_last());
        lemma_event_keeps_mapping_valid(after_all(start, events.drop_last()), events.last());
    }
}

/// A reaction-role mapping: reacting to a message with an emoji gives, or
/// takes back, a role, for as many members at once as the capacity allows.
#[derive(Debug)]
pub struct ReactionRole {
    role: u64,
    capacity: Option<usize>,
    slots: Option<usize>,
    holders: Vec<u64>,
}

impl ReactionRole {
    /// The mapping's state.
    pub closed spec fn view(&self) -> Mapping {
        Mapping {
            capacity: match self.capacity {
                Some(n) => Some(n as nat),
                None => None,
            },
            slots: match self.slots {
                Some(n) => Some(n as nat),
                None => None,
            },
            holders: self.holders@,
        }
    }

    /// The platform role that the mapping gives.
    pub closed spec fn spec_role(&self) -> u64 {
        self.role
    }

    /// The mapping's state is valid.
    pub open spec fn wf(&self) -> bool {
        self@.wf()
    }

    /// The capacity and the free slots of a mapping are machine numbers.
    pub proof fn lemma_counters_fit(&self)
        ensures
            self@.capacity is Some ==> self@.capacity->0 <= usize::MAX,
            self@.slots is Some ==> self@.slots->0 <= usize::MAX,
    {
    }

    /// A mapping for `role` that nobody holds yet, with `capacity` slots or
    /// without a limit.
    pub fn new(role: u64, capacity: Option<usize>) -> (r: ReactionRole)
        ensures
            r.wf(),
            r.spec_role() == role,
            r@ == Mapping::fresh(
                match capacity {
                    Some(n) => Some(n as nat),
                    None => None,
                },
            ),
    {
        ReactionRole { role, capacity, slots: capacity, holders: Vec::new() }
    }

    /// The platform role that the mapping gives.
    pub fn role(&self) -> (r: u64)
        ensures
            r == self.spec_role(),
    {
        self.role
    }

    /// The capacity; `None` for no limit.
    pub fn capacity(&self) -> (r: Option<usize>)
        ensures
            r is Some <==> self@.capacity is Some,
            r is Some ==> r->0 == self@.capacity->0,
    {
        self.capacity
    }

    /// The counter of free slots; `None` for no limit.
    pub fn slots(&self) -> (r: Option<usize>)
        ensures
            r is Some <==> self@.slots is Some,
            r is Some ==> r->0 == self@.slots->0,
    {
        self.slots
    }

    /// How many members hold the role through this mapping.
    pub fn occupancy(&self) -> (r: usize)
        ensures
            r == self@.holders.len(),
    {
        self.holders.len()
    }

    /// Where `user` stands among the holders, if it is one.
    fn position(&self, user: u64) -> (r: Option<usize>)
        ensures
            match r {
                Some(k) => k < self@.holders.len() && self@.holders[k as int] == user,
                None => !self@.holders.contains(user),
            },
    {
        let mut i: usize = 0;
        while i < self.holders.len()
            invariant
                0 <= i <= self.holders.len(),
                forall|j: int| 0 <= j < i ==> self.holders@[j] != user,
            decreases self.holders.len() - i,
        {
            if self.holders[i] == user {
                return Some(i);
            }
            i += 1;
        }
        None
    }

    /// Whether `user` holds the role through this mapping.
    pub fn holds(&self, user: u64) -> (r: bool)
        ensures
            r == self@.holders.contains(user),
    {
        self.position(user).is_some()
    }

    /// Evaluates a reaction of `user`. This is the step that runs inside the
    /// exclusive section: it decides, and where it decides to grant, it takes
    /// the slot before the platform is asked, so that no second evaluation
    /// can count the same slot as free.
    pub fn evaluate(&mut self, user: u64, bot: bool) -> (decision: Decision)
        requires
            old(self).wf(),
        ensures
            final(self).wf(),
            final(self).spec_role() == old(self).spec_role(),
            decision == old(self)@.decide(user, bot),
            final(self)@ == old(self)@.evaluated(user, bot),
    {
        proof {
            lemma_granted(self@, user);
        }
        if bot {
            return Decision::Ignore;
        }
        if self.holds(user) {
            return Decision::Revoke;
        }
        match self.slots {
            None => {
                self.holders.push(user);
                Decision::Grant
            },
            Some(n) => {
                if n > 0 {
                    self.slots = Some(n - 1);
                    self.holders.push(user);
                    Decision::Grant
                } else {
                    Decision::Reject
                }
            },
        }
    }

    /// Takes the role from `user` and frees its slot. Says whether `user`
    /// held the role; if not, nothing changes.
    pub fn release(&mut self, user: u64) -> (held: bool)
        requires
            old(self).wf(),
        ensures
            final(self).wf(),
            final(self).spec_role() == old(self).spec_role(),
            held == old(self)@.holders.contains(user),
            final(self)@ == old(self)@.released(user),
    {
        proof {
            lemma_released(self@, user);
        }
        match self.position(user) {
            None => false,
            Some(k) => {
                proof {
                    let h = self@.holders;
                    let c = h.index_of(user);
                    assert(h.contains(user));
                    assert(h[c] == user);
                    assert(c == k);
                }
                self.holders.remove(k);
                match self.slots {
                    Some(n) => {
                        self.slots = Some(n + 1);
                    },
                    None => {},
                }
                true
            },
        }
    }

    /// Books the platform's answer to a decision: a grant that the platform
    /// refused gives its slot back, a revocation that it carried out frees
    /// one. Nothing else changes the mapping.
    pub fn complete(&mut self, user: u64, decision: Decision, ok: bool)
        requires
            old(self).wf(),
        ensures
            final(self).wf(),
            final(self).spec_role() == old(self).spec_role(),
            final(self)@ == old(self)@.completed(user, decision, ok),
    {
        let undo = match decision {
            Decision::Grant => !ok,
            Decision::Revoke => ok,
            _ => false,
        };
        if undo {
            self.release(user);
        }
    }
    /// Takes in a member who holds the role on the platform already, as
    /// when the holders are first written down: the member becomes a holder
    /// without using up a free slot, so the capacity grows by one. Answers
    /// `Ok(false)`, changing nothing, for a member who is a holder already,
    /// and the store's error, changing nothing, where the capacity cannot
    /// grow any more.
    pub fn adopt(&mut self, user: u64) -> (r: Result<bool, KowalskiError>)
        requires
            old(self).wf(),
        ensures
            final(self).wf(),
            final(self).spec_role() == old(self).spec_role(),
            ({
                let held = old(self)@.holders.contains(user);
                let full = old(self)@.capacity == Some(usize::MAX as nat);
                &&& held ==> r == Ok::<bool, KowalskiError>(false) && final(self)@ == old(self)@
                &&& !held && full ==> (r matches Err(KowalskiError::DatabaseError)) && final(self)@
                    == old(self)@
                &&& !held && !full ==> r == Ok::<bool, KowalskiError>(true) && final(self)@ == old(
                    self)@.adopted(user)
            }),
    {
        if self.holds(user) {
            return Ok(false);
        }
        match self.capacity {
            Some(n) => {
                if n == usize::MAX {
                    return Err(KowalskiError::DatabaseError);
                }
                self.capacity = Some(n + 1);
            },
            None => {},
        }
        self.holders.push(user);
        proof {
            let before = old(self)@.holders;
            let h = self@.holders;
            assert forall|i: int, j: int| 0 <= i < h.len() && 0 <= j < h.len() && i
                != j implies h[i] != h[j] by {
                if i < before.len() && j < before.len() {
                } else if i < before.len() {
                    assert(before.contains(h[i]));
                } else {
                    assert(before.contains(h[j]));
                }
            }
        }
        Ok(true)
    }
}

} // verus!
