use crate::error::{same_text, KowalskiError};
use vstd::prelude::*;

verus! {

/// The kinds of platform entities that get an identifier of the store.
#[derive(Debug, Clone, Copy, PartialEq, Eq, Structural)]
pub enum Kind {
    User,
    Role,
    Channel,
    Message,
    Emoji,
}

/// What the platform calls an entity: its kind, the scope it is unique in
/// (the guild; for a message, the store's identifier of its channel) and
/// its identifier there, each as the number that the store holds.
#[derive(Debug, Clone, Copy, PartialEq, Eq, Structural)]
pub struct Key {
    pub kind: Kind,
    pub scope: i64,
    pub external: i64,
}

/// What the platform calls an entity, as the store holds it: a key of
/// numbers, or, for an emoji that every guild has, its text.
#[derive(Debug)]
pub enum EntityName {
    Keyed(Key),
    Text(String),
}

/// An emoji as the platform names it: a guild's own by its number, one that
/// every guild has by its text.
#[derive(Debug)]
pub enum Emoji {
    Custom(i64),
    Unicode(String),
}

/// A row of the store: the identifier that the store gave to an entity.
#[derive(Debug)]
pub struct IdRow {
    pub name: EntityName,
    pub id: i64,
}

/// The name of an entity as the contracts see it.
pub enum Name {
    Keyed(Key),
    Text(Seq<char>),
}

/// A row of the store as the contracts see it.
pub struct Entry {
    pub name: Name,
    pub id: i64,
}

impl EntityName {
    /// The name as the contracts see it.
    pub open spec fn view(&self) -> Name {
        match *self {
            EntityName::Keyed(name) => Name::Keyed(name),
            EntityName::Text(text) => Name::Text(text@),
        }
    }

    /// Whether two names name the same entity.
    pub fn same(&self, other: &EntityName) -> (r: bool)
        ensures
            r == (self@ == other@),
    {
        match self {
            EntityName::Keyed(a) => match other {
                EntityName::Keyed(b) => *a == *b,
                EntityName::Text(_) => false,
            },
            EntityName::Text(a) => match other {
                EntityName::Keyed(_) => false,
                EntityName::Text(b) => same_text(a.as_str(), b.as_str()),
            },
        }
    }

    /// A copy of the name.
    pub fn copy(&self) -> (r: EntityName)
        ensures
            r@ == self@,
    {
        match self {
            EntityName::Keyed(name) => EntityName::Keyed(*name),
            EntityName::Text(text) => EntityName::Text(text.clone()),
        }
    }
}

impl IdRow {
    /// The row as the contracts see it.
    pub open spec fn view(&self) -> Entry {
        Entry { name: self.name@, id: self.id }
    }
}

/// Where a resolution stands.
#[derive(Debug, Clone, Copy, PartialEq, Eq, Structural)]
pub enum Resolving {
    /// The first lookup is out.
    Lookup,
    /// The lookup found nothing; the insert is out.
    Insert,
    /// The insert met a row that another caller had just written; the
    /// second lookup is out.
    Recheck,
    /// The identifier is known.
    Done(i64),
    /// The store failed during the first lookup or the insert.
    Failed,
    /// The second lookup did not find the row either.
    Exhausted,
}

/// What the resolver asks of the store.
#[derive(Debug, Clone, Copy, PartialEq, Eq, Structural)]
pub enum Request {
    Select,
    Insert,
    SelectAgain,
}

/// What the store answers: the identifier of the row found or written, no
/// row (for an insert: the row exists already), or a failure.
#[derive(Debug, Clone, Copy, PartialEq, Eq, Structural)]
pub enum StoreReply {
    Row(i64),
    NoRow,
    Error,
}

/// What the caller of the resolver does next.
#[derive(Debug)]
pub enum Progress {
    Ask(Request),
    Resolved(i64),
    Abort(KowalskiError),
}

/// The state after the store's answer to the request that was out.
pub open spec fn advanced(state: Resolving, reply: StoreReply) -> Resolving {
    match state {
        Resolving::Lookup => match reply {
            StoreReply::Row(id) => Resolving::Done(id),
            StoreReply::NoRow => Resolving::Insert,
            StoreReply::Error => Resolving::Failed,
        },
        Resolving::Insert => match reply {
            StoreReply::Row(id) => Resolving::Done(id),
            StoreReply::NoRow => Resolving::Recheck,
            StoreReply::Error => Resolving::Failed,
        },
        Resolving::Recheck => match reply {
            StoreReply::Row(id) => Resolving::Done(id),
            StoreReply::NoRow => Resolving::Exhausted,
            StoreReply::Error => Resolving::Exhausted,
        },
        Resolving::Done(id) => Resolving::Done(id),
        Resolving::Failed => Resolving::Failed,
        Resolving::Exhausted => Resolving::Exhausted,
    }
}

/// The request that is out in a state; none once the resolution has ended.
pub open spec fn pending(state: Resolving) -> Option<Request> {
    match state {
        Resolving::Lookup => Some(Request::Select),
        Resolving::Insert => Some(Request::Insert),
        Resolving::Recheck => Some(Request::SelectAgain),
        _ => None,
    }
}

/// The resolution of one identifier: look the row up, insert it if it is
/// missing, and look it up once more if the insert met a row that another
/// caller wrote in between. No lock is held at any point; the store's
/// uniqueness constraint is all that the resolver relies on.
#[derive(Debug)]
pub struct Resolver {
    state: Resolving,
}

impl Resolver {
    /// Where the resolution stands.
    pub closed spec fn view(&self) -> Resolving {
        self.state
    }

    /// A resolution whose first lookup is to be sent.
    pub fn new() -> (r: Resolver)
        ensures
            r@ == Resolving::Lookup,
    {
        Resolver { state: Resolving::Lookup }
    }

    /// Where the resolution stands.
    pub fn state(&self) -> (s: Resolving)
        ensures
            s == self@,
    {
        self.state
    }

    /// What to do in the present state: the request to send, or the end of
    /// the resolution.
    pub fn progress(&self) -> (p: Progress)
        ensures
            match self@ {
                Resolving::Lookup => p matches Progress::Ask(Request::Select),
                Resolving::Insert => p matches Progress::Ask(Request::Insert),
                Resolving::Recheck => p matches Progress::Ask(Request::SelectAgain),
                Resolving::Done(id) => p matches Progress::Resolved(found) && found == id,
                Resolving::Failed => p matches Progress::Abort(KowalskiError::DatabaseError),
                Resolving::Exhausted => p matches Progress::Abort(
                    KowalskiError::IdentityRaceExhausted,
                ),
            },
    {
        match self.state {
            Resolving::Lookup => Progress::Ask(Request::Select),
            Resolving::Insert => Progress::Ask(Request::Insert),
            Resolving::Recheck => Progress::Ask(Request::SelectAgain),
            Resolving::Done(id) => Progress::Resolved(id),
            Resolving::Failed => Progress::Abort(KowalskiError::DatabaseError),
            Resolving::Exhausted => Progress::Abort(KowalskiError::IdentityRaceExhausted),
        }
    }

    /// Takes the store's answer to the request that was out.
    pub fn advance(&mut self, reply: StoreReply)
        ensures
            final(self)@ == advanced(old(self)@, reply),
    {
        let next = match self.state {
            Resolving::Lookup => match reply {
                StoreReply::Row(id) => Resolving::Done(id),
                StoreReply::NoRow => Resolving::Insert,
                StoreReply::Error => Resolving::Failed,
            },
            Resolving::Insert => match reply {
                StoreReply::Row(id) => Resolving::Done(id),
                StoreReply::NoRow => Resolving::Recheck,
                StoreReply::Error => Resolving::Failed,
            },
            Resolving::Recheck => match reply {
                StoreReply::Row(id) => Resolving::Done(id),
                StoreReply::NoRow => Resolving::Exhausted,
                StoreReply::Error => Resolving::Exhausted,
            },
            Resolving::Done(id) => Resolving::Done(id),
            Resolving::Failed => Resolving::Failed,
            Resolving::Exhausted => Resolving::Exhausted,
        };
        self.state = next;
    }
}

/// A store of identifiers as the contracts see it: its rows, oldest first,
/// and the identifier that the next new row gets.
pub struct Store {
    pub rows: Seq<Entry>,
    pub next: int,
}

/// The identifier that the rows hold for `name`, if any.
pub open spec fn lookup(rows: Seq<Entry>, name: Name) -> Option<i64>
    decreases rows.len(),
{
    if rows.len() == 0 {
        None
    } else if rows.last().name == name {
        Some(rows.last().id)
    } else {
        lookup(rows.drop_last(), name)
    }
}

/// How many rows stand for `name`.
pub open spec fn rows_of(rows: Seq<Entry>, name: Name) -> nat
    decreases rows.len(),
{
    if rows.len() == 0 {
        0
    } else {
        rows_of(rows.drop_last(), name) + if rows.last().name == name {
            1nat
        } else {
            0nat
        }
    }
}

impl Store {
    /// The store's uniqueness constraint holds: no entity has two rows. And
    /// every identifier in use lies below the next one to be given, which
    /// counts up from zero.
    pub open spec fn wf(self) -> bool {
        &&& forall|i: int, j: int|
            0 <= i < j < self.rows.len() ==> self.rows[i].name != self.rows[j].name
        &&& forall|i: int| 0 <= i < self.rows.len() ==> self.rows[i].id < self.next
        &&& 0 <= self.next <= i64::MAX
    }

    /// The store's answer to a request about `name`.
    pub open spec fn reply(self, name: Name, request: Request) -> StoreReply {
        match request {
            Request::Select | Request::SelectAgain => match lookup(self.rows, name) {
                Some(id) => StoreReply::Row(id),
                None => StoreReply::NoRow,
            },
            Request::Insert => if lookup(self.rows, name) is Some {
                StoreReply::NoRow
            } else if self.next >= i64::MAX {
                StoreReply::Error
            } else {
                StoreReply::Row(self.next as i64)
            },
        }
    }

    /// The store after a request about `name`: only an insert that is
    /// answered with a row changes it, by that row.
    pub open spec fn served(self, name: Name, request: Request) -> Store {
        if request == Request::Insert && self.reply(name, request) is Row {
            Store {
                rows: self.rows.push(Entry { name, id: self.next as i64 }),
                next: self.next + 1,
            }
        } else {
            self
        }
    }
}

/// A lookup finds nothing exactly where no row stands for the name, and
/// where the uniqueness constraint holds it finds the one row that does.
pub proof fn lemma_lookup(rows: Seq<Entry>, name: Name)
    ensures
        lookup(rows, name) is None <==> forall|i: int| 0 <= i < rows.len() ==> rows[i].name != name,
        lookup(rows, name) is None <==> rows_of(rows, name) == 0,
        (forall|i: int, j: int| 0 <= i < j < rows.len() ==> rows[i].name != rows[j].name)
            ==> rows_of(rows, name) <= 1
            && forall|i: int|
            0 <= i < rows.len() && rows[i].name == name ==> lookup(rows, name) == Some(rows[i].id),
    decreases rows.len(),
{
    if rows.len() > 0 {
        let init = rows.drop_last();
        lemma_lookup(init, name);
        assert(forall|i: int| 0 <= i < init.len() ==> init[i] == rows[i]);
        if rows.last().name == name {
            assert(rows[rows.len() - 1].name == name);
            if forall|i: int, j: int| 0 <= i < j < rows.len() ==> rows[i].name != rows[j].name {
                assert forall|i: int| 0 <= i < init.len() implies init[i].name != name by {
                    assert(rows[i].name != rows[rows.len() - 1].name);
                }
            }
        } else {
            if lookup(init, name) is None {
                assert forall|i: int| 0 <= i < rows.len() implies rows[i].name != name by {
                    if i < init.len() {
                        assert(init[i].name != name);
                    }
                }
            } else {
                let w = choose|w: int| 0 <= w < init.len() && init[w].name == name;
                assert(rows[w].name == name);
            }
        }
    }
}

/// Serving a request keeps the uniqueness constraint, never changes or
/// removes a row, and answers what the rows hold.
pub proof fn lemma_served(s: Store, name: Name, request: Request)
    requires
        s.wf(),
    ensures
        s.served(name, request).wf(),
        lookup(s.rows, name) is Some ==> s.served(name, request) == s,
        s.reply(name, request) matches StoreReply::Row(id) ==> lookup(
            s.served(name, request).rows,
            name,
        ) == Some(id),
        forall|other: Name|
            other != name ==> lookup(s.served(name, request).rows, other) == lookup(s.rows, other),
{
    lemma_lookup(s.rows, name);
    let t = s.served(name, request);
    if t != s {
        assert(t.rows.drop_last() == s.rows);
        assert forall|i: int, j: int| 0 <= i < j < t.rows.len() implies t.rows[i].name
            != t.rows[j].name by {
            if j < s.rows.len() {
                assert(t.rows[i] == s.rows[i] && t.rows[j] == s.rows[j]);
            } else {
                assert(t.rows[i] == s.rows[i]);
            }
        }
        assert forall|other: Name| other != name implies lookup(t.rows, other) == lookup(
            s.rows,
            other,
        ) by {}
    }
}

/// Several resolutions of the same name that run side by side: the store
/// that they share and the state of each.
pub struct Race {
    pub store: Store,
    pub tasks: Seq<Resolving>,
}

/// The race after task `turn` had its pending request served and took the
/// answer. A turn of a task that has ended, or that does not exist, changes
/// nothing.
pub open spec fn turn_taken(race: Race, name: Name, turn: int) -> Race {
    if 0 <= turn < race.tasks.len() && pending(race.tasks[turn]) is Some {
        let request = pending(race.tasks[turn])->0;
        Race {
            store: race.store.served(name, request),
            tasks: race.tasks.update(
                turn,
                advanced(race.tasks[turn], race.store.reply(name, request)),
            ),
        }
    } else {
        race
    }
}

/// The race after the turns of `schedule`, one after the other.
pub open spec fn raced(race: Race, name: Name, schedule: Seq<int>) -> Race
    decreases schedule.len(),
{
    if schedule.len() == 0 {
        race
    } else {
        turn_taken(raced(race, name, schedule.drop_last()), name, schedule.last())
    }
}

/// `n` resolutions that have not asked anything yet, on `store`.
pub open spec fn at_start(store: Store, n: nat) -> Race {
    Race { store, tasks: Seq::new(n, |i: int| Resolving::Lookup) }
}

/// What holds of a race at every point: the store keeps its constraint;
/// a resolution that has ended knows the identifier that the store holds;
/// one that is about to look again will find the row; and none has failed.
pub open spec fn race_inv(race: Race, name: Name) -> bool {
    &&& race.store.wf()
    &&& race.store.next < i64::MAX || lookup(race.store.rows, name) is Some
    &&& forall|i: int|
        0 <= i < race.tasks.len() ==> match #[trigger] race.tasks[i] {
            Resolving::Lookup => true,
            Resolving::Insert => true,
            Resolving::Recheck => lookup(race.store.rows, name) is Some,
            Resolving::Done(id) => lookup(race.store.rows, name) == Some(id),
            Resolving::Failed => false,
            Resolving::Exhausted => false,
        }
}

/// One turn keeps what holds of a race.
pub proof fn lemma_turn_keeps_inv(race: Race, name: Name, turn: int)
    requires
        race_inv(race, name),
    ensures
        race_inv(turn_taken(race, name, turn), name),
        turn_taken(race, name, turn).tasks.len() == race.tasks.len(),
{
    if 0 <= turn < race.tasks.len() && pending(race.tasks[turn]) is Some {
        let request = pending(race.tasks[turn])->0;
        lemma_served(race.store, name, request);
        let after = turn_taken(race, name, turn);
        assert forall|i: int| 0 <= i < after.tasks.len() implies match #[trigger] after.tasks[i] {
            Resolving::Lookup => true,
            Resolving::Insert => true,
            Resolving::Recheck => lookup(after.store.rows, name) is Some,
            Resolving::Done(id) => lookup(after.store.rows, name) == Some(id),
            Resolving::Failed => false,
            Resolving::Exhausted => false,
        } by {
            if i != turn {
                assert(after.tasks[i] == race.tasks[i]);
            }
        }
    }
}

/// Resolver idempotence. Let any number of resolutions of the same name
/// start on a store that keeps its uniqueness constraint and has an
/// identifier left to give, and let them take turns in any order. Then, at
/// every point, none has failed, all that have ended hold the same
/// identifier, that identifier is the one in the store, and the store holds
/// exactly one row for the name as soon as one resolution has ended.
pub proof fn lemma_resolver_idempotence(store: Store, name: Name, n: nat, schedule: Seq<int>)
    requires
        store.wf(),
        store.next < i64::MAX,
    ensures
        ({
            let end = raced(at_start(store, n), name, schedule);
            &&& end.tasks.len() == n
            &&& race_inv(end, name)
            &&& rows_of(end.store.rows, name) <= 1
            &&& forall|i: int, j: int|
                0 <= i < n && 0 <= j < n && end.tasks[i] is Done && end.tasks[j] is Done
                    ==> end.tasks[i] == end.tasks[j]
            &&& forall|i: int|
                0 <= i < n ==> !(end.tasks[i] is Failed) && !(end.tasks[i] is Exhausted)
            &&& forall|i: int|
                0 <= i < n && end.tasks[i] is Done ==> rows_of(end.store.rows, name) == 1
                    && lookup(end.store.rows, name) == Some(end.tasks[i]->Done_0)
        }),
    decreases schedule.len(),
{
    let start = at_start(store, n);
    if schedule.len() > 0 {
        lemma_resolver_idempotence(store, name, n, schedule.drop_last());
        lemma_turn_keeps_inv(raced(start, name, schedule.drop_last()), name, schedule.last());
    }
    let end = raced(start, name, schedule);
    lemma_lookup(end.store.rows, name);
    assert forall|i: int, j: int|
        0 <= i < n && 0 <= j < n && end.tasks[i] is Done && end.tasks[j] is Done implies end.tasks[i]
        == end.tasks[j] by {
        assert(lookup(end.store.rows, name) == Some(end.tasks[i]->Done_0));
        assert(lookup(end.store.rows, name) == Some(end.tasks[j]->Done_0));
    }
}

/// How many requests a resolution may still send.
pub open spec fn rank(state: Resolving) -> nat {
    match state {
        Resolving::Lookup => 3,
        Resolving::Insert => 2,
        Resolving::Recheck => 1,
        _ => 0,
    }
}

/// The name under which an emoji is resolved: a guild's own within the
/// guild, one that every guild has by its text alone.
pub open spec fn emoji_name(guild: i64, emoji: Emoji) -> Name {
    match emoji {
        Emoji::Custom(id) => Name::Keyed(Key { kind: Kind::Emoji, scope: guild, external: id }),
        Emoji::Unicode(text) => Name::Text(text@),
    }
}

/// The identifiers that the store has given, held in memory.
#[derive(Debug)]
pub struct Database {
    rows: Vec<IdRow>,
    next: i64,
}

impl Database {
    /// The rows and the next identifier.
    pub closed spec fn view(&self) -> Store {
        Store { rows: self.rows@.map_values(|r: IdRow| r@), next: self.next as int }
    }

    /// The uniqueness constraint holds.
    pub open spec fn wf(&self) -> bool {
        self@.wf()
    }

    /// A store without rows.
    pub fn new() -> (r: Database)
        ensures
            r.wf(),
            r@.rows == Seq::<Entry>::empty(),
            r@.next == 0,
    {
        let r = Database { rows: Vec::new(), next: 0 };
        proof {
            assert(r@.rows =~= Seq::<Entry>::empty());
        }
        r
    }

    /// How many rows the store holds.
    pub fn len(&self) -> (n: usize)
        ensures
            n == self@.rows.len(),
    {
        self.rows.len()
    }

    /// The identifier that the store holds for `name`, if any.
    pub fn select(&self, name: &EntityName) -> (r: Option<i64>)
        requires
            self.wf(),
        ensures
            r == lookup(self@.rows, name@),
    {
        proof {
            lemma_lookup(self@.rows, name@);
        }
        let mut i: usize = 0;
        while i < self.rows.len()
            invariant
                self.wf(),
                0 <= i <= self.rows.len(),
                self@.rows.len() == self.rows@.len(),
                forall|j: int| 0 <= j < i ==> self@.rows[j].name != name@,
            decreases self.rows.len() - i,
        {
            proof {
                assert(self@.rows[i as int] == self.rows@[i as int]@);
            }
            if self.rows[i].name.same(name) {
                proof {
                    lemma_lookup(self@.rows, name@);
                    assert(self@.rows[i as int].name == name@);
                }
                return Some(self.rows[i].id);
            }
            i += 1;
        }
        None
    }

    /// Serves one request of a resolver about `name`, as the store does: a
    /// lookup answers what the rows hold; an insert writes a row with the
    /// next identifier, answers no row where the name has one already, and
    /// fails where no identifier is left.
    pub fn answer(&mut self, name: &EntityName, request: Request) -> (reply: StoreReply)
        requires
            old(self).wf(),
        ensures
            final(self).wf(),
            reply == old(self)@.reply(name@, request),
            final(self)@ == old(self)@.served(name@, request),
    {
        proof {
            lemma_served(self@, name@, request);
        }
        let found = self.select(name);
        match request {
            Request::Select | Request::SelectAgain => match found {
                Some(id) => StoreReply::Row(id),
                None => StoreReply::NoRow,
            },
            Request::Insert => {
                if found.is_some() {
                    StoreReply::NoRow
                } else if self.next >= i64::MAX {
                    StoreReply::Error
                } else {
                    let id = self.next;
                    self.rows.push(IdRow { name: name.copy(), id });
                    self.next = id + 1;
                    proof {
                        assert(self@.rows =~= old(self)@.rows.push(Entry { name: name@, id }));
                    }
                    StoreReply::Row(id)
                }
            },
        }
    }

    /// Resolves `name` to the store's identifier for it, writing the row on
    /// first use. The answer for a name that has a row is that row's
    /// identifier, and nothing changes; for a new name it is the next
    /// identifier, and the row is written; only a store that has no
    /// identifier left fails, and then nothing changes.
    pub fn resolve(&mut self, name: &EntityName) -> (r: Result<i64, KowalskiError>)
        requires
            old(self).wf(),
        ensures
            final(self).wf(),
            resolved(old(self)@, name@, r, final(self)@),
            r matches Ok(id) ==> lookup(final(self)@.rows, name@) == Some(id),
    {
        let ghost before = self@;
        let mut resolver = Resolver::new();
        proof {
            lemma_served(before, name@, Request::Insert);
        }
        loop
            invariant
                self.wf(),
                before.wf(),
                before == old(self)@,
                match resolver@ {
                    Resolving::Lookup => self@ == before,
                    Resolving::Insert => self@ == before && lookup(before.rows, name@) is None,
                    Resolving::Recheck => false,
                    Resolving::Done(id) => lookup(self@.rows, name@) == Some(id) && (if lookup(
                        before.rows,
                        name@,
                    ) is Some {
                        lookup(before.rows, name@) == Some(id) && self@ == before
                    } else {
                        before.next < i64::MAX && id == before.next && self@ == before.served(
                            name@,
                            Request::Insert,
                        )
                    }),
                    Resolving::Failed => self@ == before && lookup(before.rows, name@) is None
                        && before.next >= i64::MAX,
                    Resolving::Exhausted => false,
                },
            decreases rank(resolver@),
        {
            match resolver.progress() {
                Progress::Ask(request) => {
                    proof {
                        lemma_served(self@, name@, request);
                    }
                    let reply = self.answer(name, request);
                    resolver.advance(reply);
                },
                Progress::Resolved(id) => {
                    return Ok(id);
                },
                Progress::Abort(e) => {
                    return Err(e);
                },
            }
        }
    }

    /// The identifier of a member of a guild.
    pub fn get_user(&mut self, guild: i64, user: i64) -> (r: Result<i64, KowalskiError>)
        requires
            old(self).wf(),
        ensures
            final(self).wf(),
            resolved(
                old(self)@,
                Name::Keyed(Key { kind: Kind::User, scope: guild, external: user }),
                r,
                final(self)@,
            ),
    {
        self.resolve(&EntityName::Keyed(Key { kind: Kind::User, scope: guild, external: user }))
    }

    /// The identifier of a role of a guild.
    pub fn get_role(&mut self, guild: i64, role: i64) -> (r: Result<i64, KowalskiError>)
        requires
            old(self).wf(),
        ensures
            final(self).wf(),
            resolved(
                old(self)@,
                Name::Keyed(Key { kind: Kind::Role, scope: guild, external: role }),
                r,
                final(self)@,
            ),
    {
        self.resolve(&EntityName::Keyed(Key { kind: Kind::Role, scope: guild, external: role }))
    }

    /// The identifier of a channel of a guild.
    pub fn get_channel(&mut self, guild: i64, channel: i64) -> (r: Result<i64, KowalskiError>)
        requires
            old(self).wf(),
        ensures
            final(self).wf(),
            resolved(
                old(self)@,
                Name::Keyed(Key { kind: Kind::Channel, scope: guild, external: channel }),
                r,
                final(self)@,
            ),
    {
        self.resolve(
            &EntityName::Keyed(Key { kind: Kind::Channel, scope: guild, external: channel }),
        )
    }

    /// The identifier of an emoji: one of the guild's own is unique within
    /// the guild, one that every guild has is unique by its text.
    pub fn get_emoji(&mut self, guild: i64, emoji: &Emoji) -> (r: Result<i64, KowalskiError>)
        requires
            old(self).wf(),
        ensures
            final(self).wf(),
            resolved(old(self)@, emoji_name(guild, *emoji), r, final(self)@),
    {
        let name = match emoji {
            Emoji::Custom(id) => EntityName::Keyed(
                Key { kind: Kind::Emoji, scope: guild, external: *id },
            ),
            Emoji::Unicode(text) => EntityName::Text(text.clone()),
        };
        self.resolve(&name)
    }

    /// The identifier of a message. Its channel is resolved first, so that
    /// the message's row never stands without the channel's; the message is
    /// then unique within the channel's identifier.
    pub fn get_message(&mut self, guild: i64, channel: i64, message: i64) -> (r: Result<
        i64,
        KowalskiError,
    >)
        requires
            old(self).wf(),
        ensures
            final(self).wf(),
            ({
                let channel_name = Name::Keyed(
                    Key { kind: Kind::Channel, scope: guild, external: channel },
                );
                exists|c: Result<i64, KowalskiError>, mid: Store|
                    {
                        &&& resolved(old(self)@, channel_name, c, mid)
                        &&& match c {
                            Ok(id) => resolved(
                                mid,
                                Name::Keyed(
                                    Key { kind: Kind::Message, scope: id, external: message },
                                ),
                                r,
                                final(self)@,
                            ),
                            Err(_) => r is Err && final(self)@ == mid,
                        }
                    }
            }),
    {
        let ghost channel_name = Name::Keyed(
            Key { kind: Kind::Channel, scope: guild, external: channel },
        );
        let c = self.resolve(
            &EntityName::Keyed(Key { kind: Kind::Channel, scope: guild, external: channel }),
        );
        let ghost mid = self@;
        proof {
            assert(resolved(old(self)@, channel_name, c, mid));
        }
        match c {
            Ok(id) => {
                let r = self.resolve(
                    &EntityName::Keyed(Key { kind: Kind::Message, scope: id, external: message }),
                );
                proof {
                    assert(resolved(
                        mid,
                        Name::Keyed(Key { kind: Kind::Message, scope: id, external: message }),
                        r,
                        self@,
                    ));
                }
                r
            },
            Err(e) => Err(e),
        }
    }
}

/// `r` and `after` are the answer and the store after `name` was resolved
/// on the store `before`: the identifier of the name's row where it has
/// one, with the store unchanged; the next identifier, with the row
/// written, where it has none; and the store's failure, with the store
/// unchanged, where no identifier is left.
pub open spec fn resolved(
    before: Store,
    name: Name,
    r: Result<i64, KowalskiError>,
    after: Store,
) -> bool {
    match lookup(before.rows, name) {
        Some(id) => r == Ok::<i64, KowalskiError>(id) && after == before,
        None => if before.next < i64::MAX {
            &&& r == Ok::<i64, KowalskiError>(before.next as i64)
            &&& after == before.served(name, Request::Insert)
        } else {
            &&& r matches Err(KowalskiError::DatabaseError)
            &&& after == before
        },
    }
}

/// Resolving a name a second time answers what the first time answered and
/// leaves the store alone.
pub proof fn lemma_resolve_twice(
    before: Store,
    name: Name,
    first: Result<i64, KowalskiError>,
    mid: Store,
    second: Result<i64, KowalskiError>,
    after: Store,
)
    requires
        before.wf(),
        resolved(before, name, first, mid),
        resolved(mid, name, second, after),
        first is Ok,
    ensures
        second == first,
        after == mid,
        rows_of(after.rows, name) == 1,
{
    lemma_served(before, name, Request::Insert);
    lemma_lookup(mid.rows, name);
    lemma_lookup(before.rows, name);
    if lookup(before.rows, name) is None {
        assert(mid.rows.drop_last() == before.rows);
    }
}

} // verus!
