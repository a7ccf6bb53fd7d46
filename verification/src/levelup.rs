use crate::seqs::{contains, lemma_filter_none, lemma_filter_step, not_in, without};
use vstd::prelude::*;

verus! {

/// A level-up mapping of a guild: `role` is earned at the score `score`.
#[derive(Debug, Clone, Copy, PartialEq, Eq, Structural)]
pub struct ScoreRole {
    pub role: u64,
    pub score: i64,
}

/// The roles that a member gains and loses when their level-up roles are
/// brought in line with their score.
#[derive(Debug)]
pub struct RoleChange {
    pub add: Vec<u64>,
    pub remove: Vec<u64>,
}

/// A threshold is reached by a score on its own side of zero: thresholds from
/// zero up by scores at least as high, thresholds below zero by scores at
/// least as low.
pub open spec fn reached(threshold: int, score: int) -> bool {
    (threshold >= 0 && threshold <= score) || (threshold < 0 && threshold >= score)
}

/// Distance from zero.
pub open spec fn magnitude(x: int) -> int {
    if x < 0 {
        -x
    } else {
        x
    }
}

/// `level` is the threshold that decides for `score`: among the thresholds
/// of `roles` that the score has reached, the one nearest to the score.
pub open spec fn is_level(roles: Seq<ScoreRole>, score: int, level: int) -> bool {
    &&& reached(level, score)
    &&& exists|i: int| 0 <= i < roles.len() && roles[i].score == level
    &&& forall|j: int|
        0 <= j < roles.len() && reached(roles[j].score as int, score) ==> magnitude(
            roles[j].score as int,
        ) <= magnitude(level)
}

/// The score has reached none of the thresholds of `roles`.
pub open spec fn no_level(roles: Seq<ScoreRole>, score: int) -> bool {
    forall|j: int| 0 <= j < roles.len() ==> !reached(roles[j].score as int, score)
}

/// The predicate "is earned at `level`".
pub open spec fn earned_at(level: Option<i64>) -> spec_fn(ScoreRole) -> bool {
    |r: ScoreRole| level == Some(r.score)
}

/// The platform role of a mapping.
pub open spec fn role_of() -> spec_fn(ScoreRole) -> u64 {
    |r: ScoreRole| r.role
}

/// The roles earned at `level`, in the order of `roles`.
pub open spec fn roles_at(roles: Seq<ScoreRole>, level: Option<i64>) -> Seq<u64> {
    roles.filter(earned_at(level)).map_values(role_of())
}

/// All roles that the level-up mappings handle, in the order of `roles`.
pub open spec fn handled(roles: Seq<ScoreRole>) -> Seq<u64> {
    roles.map_values(role_of())
}

/// The predicate "is handled by the level-up mappings but not earned".
pub open spec fn outdated(roles: Seq<ScoreRole>, wanted: Seq<u64>) -> spec_fn(u64) -> bool {
    |r: u64| handled(roles).contains(r) && !wanted.contains(r)
}

/// `add` and `remove` bring the level-up roles of a member who holds
/// `held` in line with `score`: `add` lists the roles earned at the
/// threshold that decides and missing from `held`, `remove` the roles in
/// `held` that the mappings handle and that are not earned. For a bot both
/// are empty.
pub open spec fn synced(
    roles: Seq<ScoreRole>,
    score: int,
    held: Seq<u64>,
    bot: bool,
    add: Seq<u64>,
    remove: Seq<u64>,
) -> bool {
    if bot {
        add == Seq::<u64>::empty() && remove == Seq::<u64>::empty()
    } else {
        exists|decides: Option<i64>|
            {
                &&& match decides {
                    Some(t) => is_level(roles, score, t as int),
                    None => no_level(roles, score),
                }
                &&& add == #[trigger] roles_at(roles, decides).filter(not_in(held))
                &&& remove == held.filter(outdated(roles, roles_at(roles, decides)))
            }
    }
}

/// At most one threshold decides for a score.
pub proof fn lemma_level_unique(roles: Seq<ScoreRole>, score: int, a: int, b: int)
    requires
        is_level(roles, score, a),
        is_level(roles, score, b),
    ensures
        a == b,
{
    let i = choose|i: int| 0 <= i < roles.len() && roles[i].score == a;
    let j = choose|j: int| 0 <= j < roles.len() && roles[j].score == b;
    assert(reached(roles[i].score as int, score));
    assert(reached(roles[j].score as int, score));
}

/// The roles that a member holds after a change was carried out: those it
/// held and that were not removed, then those that were added.
pub open spec fn carried_out(held: Seq<u64>, add: Seq<u64>, remove: Seq<u64>) -> Seq<u64> {
    held.filter(not_in(remove)) + add
}

/// An element that a filter keeps was in the sequence and satisfies the
/// predicate, and the other way round.
proof fn lemma_kept<A>(s: Seq<A>, p: spec_fn(A) -> bool, x: A)
    ensures
        s.filter(p).contains(x) <==> s.contains(x) && p(x),
{
    if s.filter(p).contains(x) {
        s.lemma_filter_contains_rev(p, x);
        let i = choose|i: int| 0 <= i < s.filter(p).len() && s.filter(p)[i] == x;
        s.lemma_filter_pred(p, i);
    }
    if s.contains(x) && p(x) {
        let i = choose|i: int| 0 <= i < s.len() && s[i] == x;
        s.lemma_filter_contains(p, i);
    }
}

/// Synchronizing settles. Bring a member's level-up roles in line with its
/// score and carry the change out; then the member holds every role earned
/// at the threshold that decides and no other role that the mappings
/// handle, and synchronizing again, at the same score, changes nothing.
pub proof fn lemma_sync_settles(
    roles: Seq<ScoreRole>,
    score: int,
    held: Seq<u64>,
    add: Seq<u64>,
    remove: Seq<u64>,
    again_add: Seq<u64>,
    again_remove: Seq<u64>,
)
    requires
        synced(roles, score, held, false, add, remove),
        synced(roles, score, carried_out(held, add, remove), false, again_add, again_remove),
    ensures
        again_add == Seq::<u64>::empty(),
        again_remove == Seq::<u64>::empty(),
{
    let first = choose|decides: Option<i64>|
        {
            &&& match decides {
                Some(t) => is_level(roles, score, t as int),
                None => no_level(roles, score),
            }
            &&& add == #[trigger] roles_at(roles, decides).filter(not_in(held))
            &&& remove == held.filter(outdated(roles, roles_at(roles, decides)))
        };
    let now = carried_out(held, add, remove);
    let second = choose|decides: Option<i64>|
        {
            &&& match decides {
                Some(t) => is_level(roles, score, t as int),
                None => no_level(roles, score),
            }
            &&& again_add == #[trigger] roles_at(roles, decides).filter(not_in(now))
            &&& again_remove == now.filter(outdated(roles, roles_at(roles, decides)))
        };
    assert(first == second) by {
        if first is Some && second is Some {
            lemma_level_unique(roles, score, first->0 as int, second->0 as int);
        } else if first is Some {
            let i = choose|i: int| 0 <= i < roles.len() && roles[i].score == first->0;
            assert(reached(roles[i].score as int, score));
        } else if second is Some {
            let i = choose|i: int| 0 <= i < roles.len() && roles[i].score == second->0;
            assert(reached(roles[i].score as int, score));
        }
    }
    let wanted = roles_at(roles, first);
    let old_pred = outdated(roles, wanted);
    assert forall|x: u64| now.contains(x) <==> (held.contains(x) && !remove.contains(x))
        || add.contains(x) by {
        let kept = held.filter(not_in(remove));
        lemma_kept(held, not_in(remove), x);
        if now.contains(x) {
            let i = choose|i: int| 0 <= i < now.len() && now[i] == x;
            if i < kept.len() {
                assert(kept[i] == x);
                assert(kept.contains(x));
            } else {
                assert(add[i - kept.len()] == x);
                assert(add.contains(x));
            }
        }
        if kept.contains(x) {
            let i = choose|i: int| 0 <= i < kept.len() && kept[i] == x;
            assert(now[i] == x);
        }
        if add.contains(x) {
            let i = choose|i: int| 0 <= i < add.len() && add[i] == x;
            assert(now[kept.len() + i] == x);
        }
    }
    if again_add.len() > 0 {
        let x = again_add[0];
        assert(again_add.contains(x));
        lemma_kept(wanted, not_in(now), x);
        lemma_kept(wanted, not_in(held), x);
        lemma_kept(held, old_pred, x);
        assert(false);
    }
    if again_remove.len() > 0 {
        let x = again_remove[0];
        assert(again_remove.contains(x));
        lemma_kept(now, old_pred, x);
        lemma_kept(wanted, not_in(held), x);
        lemma_kept(held, old_pred, x);
        assert(false);
    }
    assert(again_add =~= Seq::<u64>::empty());
    assert(again_remove =~= Seq::<u64>::empty());
}

/// The threshold that decides for `score`, if the score has reached any.
pub fn level(roles: &Vec<ScoreRole>, score: i64) -> (r: Option<i64>)
    ensures
        match r {
            Some(t) => is_level(roles@, score as int, t as int),
            None => no_level(roles@, score as int),
        },
{
    let mut best: Option<i64> = None;
    let mut i: usize = 0;
    while i < roles.len()
        invariant
            0 <= i <= roles.len(),
            match best {
                Some(t) => is_level(roles@.take(i as int), score as int, t as int),
                None => no_level(roles@.take(i as int), score as int),
            },
        decreases roles.len() - i,
    {
        let t = roles[i].score;
        let ghost seen = roles@.take(i as int);
        let ghost next = roles@.take(i + 1);
        proof {
            assert(next.len() == i + 1);
            assert(forall|j: int| 0 <= j < i ==> next[j] == seen[j]);
            assert(next[i as int] == roles@[i as int]);
        }
        let hit = (t >= 0 && t <= score) || (t < 0 && t >= score);
        if hit {
            let better = match best {
                None => true,
                Some(b) => if score >= 0 {
                    t > b
                } else {
                    t < b
                },
            };
            if better {
                best = Some(t);
                proof {
                    assert(next[i as int].score == t);
                }
            } else {
                proof {
                    let b = best->0;
                    let w = choose|w: int| 0 <= w < seen.len() && seen[w].score == b;
                    assert(next[w].score == b);
                }
            }
        } else {
            proof {
                if best is Some {
                    let b = best->0;
                    let w = choose|w: int| 0 <= w < seen.len() && seen[w].score == b;
                    assert(next[w].score == b);
                }
            }
        }
        i += 1;
    }
    proof {
        assert(roles@.take(roles.len() as int) == roles@);
    }
    best
}

/// The roles of `roles` that are earned at `level`.
pub fn roles_earned(roles: &Vec<ScoreRole>, level: Option<i64>) -> (out: Vec<u64>)
    ensures
        out@ == roles_at(roles@, level),
{
    let mut out: Vec<u64> = Vec::new();
    let mut i: usize = 0;
    proof {
        lemma_filter_none(roles@, earned_at(level));
        assert(Seq::<ScoreRole>::empty().map_values(role_of()) == Seq::<u64>::empty());
    }
    while i < roles.len()
        invariant
            0 <= i <= roles.len(),
            out@ == roles_at(roles@.take(i as int), level),
        decreases roles.len() - i,
    {
        proof {
            lemma_filter_step(roles@, earned_at(level), i as int);
            let kept = roles@.take(i as int).filter(earned_at(level));
            assert(kept.push(roles@[i as int]).map_values(role_of()) == kept.map_values(
                role_of(),
            ).push(roles@[i as int].role));
        }
        let earned = match level {
            Some(t) => roles[i].score == t,
            None => false,
        };
        if earned {
            out.push(roles[i].role);
        }
        i += 1;
    }
    proof {
        lemma_filter_none(roles@, earned_at(level));
    }
    out
}

/// Whether the level-up mappings handle `role`.
pub fn handles(roles: &Vec<ScoreRole>, role: u64) -> (found: bool)
    ensures
        found == handled(roles@).contains(role),
{
    let mut i: usize = 0;
    while i < roles.len()
        invariant
            0 <= i <= roles.len(),
            forall|j: int| 0 <= j < i ==> roles@[j].role != role,
        decreases roles.len() - i,
    {
        if roles[i].role == role {
            proof {
                assert(handled(roles@)[i as int] == role);
            }
            return true;
        }
        i += 1;
    }
    proof {
        assert forall|j: int| 0 <= j < handled(roles@).len() implies handled(roles@)[j]
            != role by {
            assert(handled(roles@)[j] == roles@[j].role);
        }
    }
    false
}

/// Brings a member's level-up roles in line with their score.
///
/// The member should hold the roles earned at the threshold that decides for
/// `score`, and no other role that the mappings handle. `add` lists the
/// earned roles that `held` lacks; `remove` lists the roles in `held` that
/// are handled and not earned. Roles that the mappings do not handle are
/// never touched, and a bot's roles are never changed.
pub fn sync_level_up_roles(roles: &Vec<ScoreRole>, score: i64, held: &Vec<u64>, bot: bool) -> (change:
    RoleChange)
    ensures
        synced(roles@, score as int, held@, bot, change.add@, change.remove@),
{
    if bot {
        return RoleChange { add: Vec::new(), remove: Vec::new() };
    }
    let decides = level(roles, score);
    let wanted = roles_earned(roles, decides);
    let add = without(&wanted, held);
    let mut remove: Vec<u64> = Vec::new();
    let mut i: usize = 0;
    proof {
        lemma_filter_none(held@, outdated(roles@, wanted@));
    }
    while i < held.len()
        invariant
            0 <= i <= held.len(),
            remove@ == held@.take(i as int).filter(outdated(roles@, wanted@)),
        decreases held.len() - i,
    {
        proof {
            lemma_filter_step(held@, outdated(roles@, wanted@), i as int);
        }
        if handles(roles, held[i]) && !contains(&wanted, held[i]) {
            remove.push(held[i]);
        }
        i += 1;
    }
    proof {
        lemma_filter_none(held@, outdated(roles@, wanted@));
    }
    RoleChange { add, remove }
}

} // verus!
