//! The store of record: every entity collection, its invariants, and the
//! get / upsert / delete / scan operations the engine is built from.
//!
//! Lookups are pinned by the `first_where` / `last_where` functions of
//! [`crate::find`]; mutations state the new collection as an expression
//! over the old one.
use vstd::prelude::*;
use crate::config::MAX_CHAIN;
use crate::find::{
    first_where, last_where, upserted, lemma_first_where, lemma_first_where_is,
    lemma_first_where_none, lemma_last_where_is, lemma_last_where_none, lemma_filter_all,
    lemma_filter_all_but_one,
};
use crate::types::{
    Ban, Bottle, BottleError, BottleId, ChannelId, DeliveryId, GuildBottle, Guild,
    GuildContribution, GuildId, MakeBottle, MakeGuildBottle, MessageId, Report, User, UserId,
    opt_bytes, same_bottle, same_guild,
};

verus! {

/// The persistence store, held in memory. Counters assign fresh bottle and
/// delivery-record ids, and fresh platform message ids for rendered
/// messages.
pub struct Store {
    pub users: Vec<User>,
    pub guilds: Vec<Guild>,
    pub bottles: Vec<Bottle>,
    pub deliveries: Vec<GuildBottle>,
    pub reports: Vec<Report>,
    pub bans: Vec<Ban>,
    pub contributions: Vec<GuildContribution>,
    pub next_bottle_id: BottleId,
    pub next_delivery_id: DeliveryId,
    pub next_message_id: MessageId,
}

// Predicates the scans below share. Each is a named function so that every
// contract and proof speaks of one and the same predicate value.
pub open spec fn by_user_id(uid: UserId) -> spec_fn(User) -> bool {
    |u: User| u.id == uid
}

pub open spec fn by_guild_id(gid: GuildId) -> spec_fn(Guild) -> bool {
    |g: Guild| g.id == gid
}

pub open spec fn by_bottle_id(bid: BottleId) -> spec_fn(Bottle) -> bool {
    |b: Bottle| b.id == bid
}

pub open spec fn by_author(uid: UserId) -> spec_fn(Bottle) -> bool {
    |b: Bottle| b.user == uid
}

pub open spec fn not_author(uid: UserId) -> spec_fn(Bottle) -> bool {
    |b: Bottle| b.user != uid
}

pub open spec fn not_bottle_id(bid: BottleId) -> spec_fn(Bottle) -> bool {
    |b: Bottle| b.id != bid
}

pub open spec fn by_reply_to(bid: BottleId) -> spec_fn(Bottle) -> bool {
    |b: Bottle| b.reply_to == Some(bid)
}

pub open spec fn by_delivery_id(did: DeliveryId) -> spec_fn(GuildBottle) -> bool {
    |d: GuildBottle| d.id == did
}

pub open spec fn by_delivery_pair(bid: BottleId, ch: ChannelId) -> spec_fn(GuildBottle) -> bool {
    |d: GuildBottle| d.bottle == bid && d.channel == ch
}

pub open spec fn not_delivery_pair(bid: BottleId, ch: ChannelId) -> spec_fn(GuildBottle) -> bool {
    |d: GuildBottle| !(d.bottle == bid && d.channel == ch)
}

pub open spec fn not_delivery_id(did: DeliveryId) -> spec_fn(GuildBottle) -> bool {
    |d: GuildBottle| d.id != did
}

pub open spec fn by_delivery_channel(ch: ChannelId) -> spec_fn(GuildBottle) -> bool {
    |d: GuildBottle| d.channel == ch
}

pub open spec fn by_delivery_bottle(bid: BottleId) -> spec_fn(GuildBottle) -> bool {
    |d: GuildBottle| d.bottle == bid
}

pub open spec fn by_delivery_message(mid: MessageId) -> spec_fn(GuildBottle) -> bool {
    |d: GuildBottle| d.message == mid
}

pub open spec fn by_report_bottle(bid: BottleId) -> spec_fn(Report) -> bool {
    |r: Report| r.bottle == bid
}

pub open spec fn by_report_message(mid: MessageId) -> spec_fn(Report) -> bool {
    |r: Report| r.message == Some(mid)
}

pub open spec fn by_ban_user(uid: UserId) -> spec_fn(Ban) -> bool {
    |b: Ban| b.user == uid
}

pub open spec fn not_ban_user(uid: UserId) -> spec_fn(Ban) -> bool {
    |b: Ban| b.user != uid
}

pub open spec fn by_ban_report(bid: BottleId) -> spec_fn(Ban) -> bool {
    |b: Ban| b.report == Some(bid)
}

pub open spec fn by_contribution(gid: GuildId, uid: UserId) -> spec_fn(GuildContribution) -> bool {
    |c: GuildContribution| c.guild == gid && c.user == uid
}

pub open spec fn by_xp_above(xp: i64) -> spec_fn(User) -> bool {
    |u: User| u.xp > xp
}

pub open spec fn not_guild_id(gid: GuildId) -> spec_fn(Guild) -> bool {
    |g: Guild| g.id != gid
}

impl Store {
    /// The store's invariant: ids are unique within each collection, one
    /// delivery record lives per (bottle, channel) pair, one report per
    /// bottle, one ban per user, one contribution row per (guild, user),
    /// assigned ids and rendered message ids stay below their counters,
    /// times are non-negative, and a reply's parent precedes it.
    pub open spec fn wf(self) -> bool {
        &&& 0 <= self.next_bottle_id
        &&& 0 <= self.next_delivery_id
        &&& 0 <= self.next_message_id
        &&& forall|i: int, j: int|
            #![trigger self.users@[i], self.users@[j]]
            0 <= i < j < self.users@.len() ==> self.users@[i].id != self.users@[j].id
        &&& forall|i: int, j: int|
            #![trigger self.guilds@[i], self.guilds@[j]]
            0 <= i < j < self.guilds@.len() ==> self.guilds@[i].id != self.guilds@[j].id
        &&& forall|i: int, j: int|
            #![trigger self.bottles@[i], self.bottles@[j]]
            0 <= i < j < self.bottles@.len() ==> self.bottles@[i].id != self.bottles@[j].id
                && self.bottles@[i].time_pushed <= self.bottles@[j].time_pushed
        &&& forall|i: int|
            0 <= i < self.bottles@.len() ==> {
                &&& 0 <= #[trigger] self.bottles@[i].id < self.next_bottle_id
                &&& self.bottles@[i].time_pushed >= 0
                &&& match self.bottles@[i].reply_to {
                    Some(p) => 0 <= p < self.bottles@[i].id,
                    None => true,
                }
            }
        &&& forall|i: int, j: int|
            #![trigger self.deliveries@[i], self.deliveries@[j]]
            0 <= i < j < self.deliveries@.len() ==> {
                &&& self.deliveries@[i].id != self.deliveries@[j].id
                &&& self.deliveries@[i].message != self.deliveries@[j].message
                &&& !(self.deliveries@[i].bottle == self.deliveries@[j].bottle
                    && self.deliveries@[i].channel == self.deliveries@[j].channel)
                &&& self.deliveries@[i].time_received <= self.deliveries@[j].time_received
            }
        &&& forall|i: int|
            0 <= i < self.deliveries@.len() ==> {
                &&& 0 <= #[trigger] self.deliveries@[i].id < self.next_delivery_id
                &&& 0 <= self.deliveries@[i].message < self.next_message_id
                &&& 0 <= self.deliveries@[i].bottle < self.next_bottle_id
                &&& self.deliveries@[i].time_received >= 0
            }
        &&& forall|i: int, j: int|
            #![trigger self.reports@[i], self.reports@[j]]
            0 <= i < j < self.reports@.len() ==> self.reports@[i].bottle != self.reports@[j].bottle
        &&& forall|i: int|
            0 <= i < self.reports@.len() ==> match #[trigger] self.reports@[i].message {
                Some(m) => 0 <= m < self.next_message_id,
                None => true,
            }
        &&& forall|i: int, j: int|
            #![trigger self.bans@[i], self.bans@[j]]
            0 <= i < j < self.bans@.len() ==> self.bans@[i].user != self.bans@[j].user
        &&& forall|i: int, j: int|
            #![trigger self.contributions@[i], self.contributions@[j]]
            0 <= i < j < self.contributions@.len() ==> !(self.contributions@[i].guild
                == self.contributions@[j].guild && self.contributions@[i].user
                == self.contributions@[j].user)
    }

    /// An empty store.
    pub fn new() -> (r: Store)
        ensures
            r.wf(),
            r.users@.len() == 0,
            r.guilds@.len() == 0,
            r.bottles@.len() == 0,
            r.deliveries@.len() == 0,
            r.reports@.len() == 0,
            r.bans@.len() == 0,
            r.contributions@.len() == 0,
            r.next_bottle_id == 0,
            r.next_delivery_id == 0,
            r.next_message_id == 0,
    {
        Store {
            users: Vec::new(),
            guilds: Vec::new(),
            bottles: Vec::new(),
            deliveries: Vec::new(),
            reports: Vec::new(),
            bans: Vec::new(),
            contributions: Vec::new(),
            next_bottle_id: 0,
            next_delivery_id: 0,
            next_message_id: 0,
        }
    }
}

/// Index of the user row with this id.
fn find_user(users: &Vec<User>, uid: UserId) -> (r: Option<usize>)
    ensures
        match r {
            Some(i) => first_where(users@, by_user_id(uid)) == Some(i as int) && i < users@.len()
                && users@[i as int].id == uid,
            None => first_where(users@, by_user_id(uid)) is None,
        },
{
    let mut i: usize = 0;
    while i < users.len()
        invariant
            i <= users@.len(),
            forall|j: int| 0 <= j < i ==> users@[j].id != uid,
        decreases users@.len() - i,
    {
        if users[i].id == uid {
            proof {
                lemma_first_where_is(users@, by_user_id(uid), i as int);
            }
            return Some(i);
        }
        i += 1;
    }
    proof {
        lemma_first_where_none(users@, by_user_id(uid));
    }
    None
}

impl User {
    /// A fresh participant record with nothing earned and nothing counted.
    pub fn new(uid: UserId) -> (r: User)
        ensures
            r == (User { id: uid, admin: false, xp: 0, tickets: 0 }),
    {
        User { id: uid, admin: false, xp: 0, tickets: 0 }
    }

    /// The stored user, or a fresh default when none is stored yet.
    pub fn get(uid: UserId, store: &Store) -> (r: User)
        ensures
            r == spec_get_user(store.users@, uid),
    {
        match find_user(&store.users, uid) {
            Some(i) => store.users[i],
            None => User::new(uid),
        }
    }

    /// Insert this user row, or overwrite the row with the same id.
    pub fn update(&self, store: &mut Store)
        requires
            old(store).wf(),
        ensures
            final(store).wf(),
            final(store).users@ == upserted(
                old(store).users@,
                first_where(old(store).users@, by_user_id(self.id)),
                *self,
            ),
            final(store).guilds == old(store).guilds,
            final(store).bottles == old(store).bottles,
            final(store).deliveries == old(store).deliveries,
            final(store).reports == old(store).reports,
            final(store).bans == old(store).bans,
            final(store).contributions == old(store).contributions,
            final(store).next_bottle_id == old(store).next_bottle_id,
            final(store).next_delivery_id == old(store).next_delivery_id,
            final(store).next_message_id == old(store).next_message_id,
    {
        match find_user(&store.users, self.id) {
            Some(i) => {
                store.users[i] = *self;
                proof {
                    lemma_first_where(old(store).users@, by_user_id(self.id));
                }
            },
            None => {
                store.users.push(*self);
                proof {
                    lemma_first_where(old(store).users@, by_user_id(self.id));
                }
            },
        }
    }
}

/// The user row with this id, or a fresh default.
pub open spec fn spec_get_user(users: Seq<User>, uid: UserId) -> User {
    match first_where(users, by_user_id(uid)) {
        Some(i) => users[i],
        None => User { id: uid, admin: false, xp: 0, tickets: 0 },
    }
}

/// A fresh copy of a byte text.
pub fn copy_bytes(v: &Vec<u8>) -> (r: Vec<u8>)
    ensures
        r@ == v@,
{
    let mut r: Vec<u8> = Vec::new();
    let mut i: usize = 0;
    while i < v.len()
        invariant
            i <= v@.len(),
            r@ == v@.take(i as int),
        decreases v@.len() - i,
    {
        r.push(v[i]);
        proof {
            assert(v@.take(i + 1) =~= v@.take(i as int).push(v@[i as int]));
        }
        i += 1;
    }
    proof {
        assert(v@.take(v@.len() as int) =~= v@);
    }
    r
}

/// A fresh copy of an optional byte text.
pub fn copy_opt_bytes(v: &Option<Vec<u8>>) -> (r: Option<Vec<u8>>)
    ensures
        opt_bytes(r) == opt_bytes(*v),
{
    match v {
        Some(b) => Some(copy_bytes(b)),
        None => None,
    }
}

/// A fresh copy of a bottle row.
pub fn copy_bottle(b: &Bottle) -> (r: Bottle)
    ensures
        same_bottle(r, *b),
{
    Bottle {
        id: b.id,
        user: b.user,
        message: b.message,
        reply_to: b.reply_to,
        channel: b.channel,
        origin: b.origin,
        contents: copy_bytes(&b.contents),
        url: copy_opt_bytes(&b.url),
        image: copy_opt_bytes(&b.image),
        time_pushed: b.time_pushed,
    }
}

/// A fresh copy of a guild row.
pub fn copy_guild(g: &Guild) -> (r: Guild)
    ensures
        same_guild(r, *g),
{
    Guild { id: g.id, bottle_channel: g.bottle_channel, invite: copy_opt_bytes(&g.invite) }
}

/// Index of the guild row with this id.
fn find_guild(guilds: &Vec<Guild>, gid: GuildId) -> (r: Option<usize>)
    ensures
        match r {
            Some(i) => first_where(guilds@, by_guild_id(gid)) == Some(i as int) && i
                < guilds@.len() && guilds@[i as int].id == gid,
            None => first_where(guilds@, by_guild_id(gid)) is None,
        },
{
    let mut i: usize = 0;
    while i < guilds.len()
        invariant
            i <= guilds@.len(),
            forall|j: int| 0 <= j < i ==> guilds@[j].id != gid,
        decreases guilds@.len() - i,
    {
        if guilds[i].id == gid {
            proof {
                lemma_first_where_is(guilds@, by_guild_id(gid), i as int);
            }
            return Some(i);
        }
        i += 1;
    }
    proof {
        lemma_first_where_none(guilds@, by_guild_id(gid));
    }
    None
}

/// The guild row with this id, or a fresh default.
pub open spec fn spec_get_guild(guilds: Seq<Guild>, gid: GuildId) -> Guild {
    match first_where(guilds, by_guild_id(gid)) {
        Some(i) => guilds[i],
        None => Guild { id: gid, bottle_channel: None, invite: None },
    }
}

impl Guild {
    /// A fresh community record with no inbound channel configured.
    pub fn new(gid: GuildId) -> (r: Guild)
        ensures
            r.id == gid,
            r.bottle_channel is None,
            r.invite is None,
    {
        Guild { id: gid, bottle_channel: None, invite: None }
    }

    /// The stored guild, or a fresh default when none is stored yet.
    pub fn get(gid: GuildId, store: &Store) -> (r: Guild)
        ensures
            same_guild(r, spec_get_guild(store.guilds@, gid)),
    {
        match find_guild(&store.guilds, gid) {
            Some(i) => copy_guild(&store.guilds[i]),
            None => Guild::new(gid),
        }
    }

    /// Insert this guild row, or overwrite the row with the same id.
    pub fn update(self, store: &mut Store)
        requires
            old(store).wf(),
        ensures
            final(store).wf(),
            final(store).guilds@ == upserted(
                old(store).guilds@,
                first_where(old(store).guilds@, by_guild_id(self.id)),
                self,
            ),
            final(store).users == old(store).users,
            final(store).bottles == old(store).bottles,
            final(store).deliveries == old(store).deliveries,
            final(store).reports == old(store).reports,
            final(store).bans == old(store).bans,
            final(store).contributions == old(store).contributions,
            final(store).next_bottle_id == old(store).next_bottle_id,
            final(store).next_delivery_id == old(store).next_delivery_id,
            final(store).next_message_id == old(store).next_message_id,
    {
        let sid = self.id;
        match find_guild(&store.guilds, sid) {
            Some(i) => {
                store.guilds[i] = self;
                proof {
                    lemma_first_where(old(store).guilds@, by_guild_id(sid));
                }
            },
            None => {
                store.guilds.push(self);
                proof {
                    lemma_first_where(old(store).guilds@, by_guild_id(sid));
                }
            },
        }
    }

    /// Remove the guild row with this id; the community has dropped out.
    pub fn delete(gid: GuildId, store: &mut Store) -> (r: usize)
        requires
            old(store).wf(),
        ensures
            final(store).wf(),
            final(store).guilds@ == old(store).guilds@.filter(not_guild_id(gid)),
            r == if first_where(old(store).guilds@, by_guild_id(gid)) is Some { 1int } else { 0int },
            final(store).users == old(store).users,
            final(store).bottles == old(store).bottles,
            final(store).deliveries == old(store).deliveries,
            final(store).reports == old(store).reports,
            final(store).bans == old(store).bans,
            final(store).contributions == old(store).contributions,
            final(store).next_bottle_id == old(store).next_bottle_id,
            final(store).next_delivery_id == old(store).next_delivery_id,
            final(store).next_message_id == old(store).next_message_id,
    {
        match find_guild(&store.guilds, gid) {
            Some(i) => {
                store.guilds.remove(i);
                proof {
                    lemma_first_where(old(store).guilds@, by_guild_id(gid));
                    lemma_filter_all_but_one(old(store).guilds@, not_guild_id(gid), i as int);
                }
                1
            },
            None => {
                proof {
                    lemma_first_where(old(store).guilds@, by_guild_id(gid));
                    lemma_filter_all(old(store).guilds@, not_guild_id(gid));
                }
                0
            },
        }
    }
}

/// Index of the bottle row with this id.
fn find_bottle(bottles: &Vec<Bottle>, bid: BottleId) -> (r: Option<usize>)
    ensures
        match r {
            Some(i) => first_where(bottles@, by_bottle_id(bid)) == Some(i as int) && i
                < bottles@.len() && bottles@[i as int].id == bid,
            None => first_where(bottles@, by_bottle_id(bid)) is None,
        },
{
    let mut i: usize = 0;
    while i < bottles.len()
        invariant
            i <= bottles@.len(),
            forall|j: int| 0 <= j < i ==> bottles@[j].id != bid,
        decreases bottles@.len() - i,
    {
        if bottles[i].id == bid {
            proof {
                lemma_first_where_is(bottles@, by_bottle_id(bid), i as int);
            }
            return Some(i);
        }
        i += 1;
    }
    proof {
        lemma_first_where_none(bottles@, by_bottle_id(bid));
    }
    None
}

impl MakeBottle {
    /// Persist a new bottle under a fresh id. Fails only when the id space
    /// is spent.
    pub fn make(&self, store: &mut Store) -> (r: Result<Bottle, BottleError>)
        requires
            old(store).wf(),
            self.time_pushed >= 0,
            old(store).bottles@.len() == 0 || self.time_pushed >= old(store).bottles@.last().time_pushed,
            match self.reply_to {
                Some(p) => 0 <= p < old(store).next_bottle_id,
                None => true,
            },
        ensures
            final(store).wf(),
            match r {
                Ok(b) => {
                    &&& old(store).next_bottle_id < i64::MAX
                    &&& b.id == old(store).next_bottle_id
                    &&& b.user == self.user
                    &&& b.message == self.message
                    &&& b.reply_to == self.reply_to
                    &&& b.channel == self.channel
                    &&& b.origin == self.origin
                    &&& b.contents@ == self.contents@
                    &&& opt_bytes(b.url) == opt_bytes(self.url)
                    &&& opt_bytes(b.image) == opt_bytes(self.image)
                    &&& b.time_pushed == self.time_pushed
                    &&& final(store).bottles@.len() == old(store).bottles@.len() + 1
                    &&& final(store).bottles@.drop_last() == old(store).bottles@
                    &&& same_bottle(final(store).bottles@.last(), b)
                    &&& final(store).next_bottle_id == old(store).next_bottle_id + 1
                },
                Err(e) => {
                    &&& e == BottleError::StoreFailure
                    &&& old(store).next_bottle_id == i64::MAX
                    &&& *final(store) == *old(store)
                },
            },
            final(store).users == old(store).users,
            final(store).guilds == old(store).guilds,
            final(store).deliveries == old(store).deliveries,
            final(store).reports == old(store).reports,
            final(store).bans == old(store).bans,
            final(store).contributions == old(store).contributions,
            final(store).next_delivery_id == old(store).next_delivery_id,
            final(store).next_message_id == old(store).next_message_id,
    {
        if store.next_bottle_id == i64::MAX {
            return Err(BottleError::StoreFailure);
        }
        let b = Bottle {
            id: store.next_bottle_id,
            user: self.user,
            message: self.message,
            reply_to: self.reply_to,
            channel: self.channel,
            origin: self.origin,
            contents: copy_bytes(&self.contents),
            url: copy_opt_bytes(&self.url),
            image: copy_opt_bytes(&self.image),
            time_pushed: self.time_pushed,
        };
        let out = copy_bottle(&b);
        proof {
            let bs = store.bottles@;
            assert forall|i: int|
                0 <= i < bs.len() implies bs[i].time_pushed <= self.time_pushed by {
                if i < bs.len() - 1 {
                    assert(bs[i].time_pushed <= bs[bs.len() - 1].time_pushed);
                }
            }
        }
        store.bottles.push(b);
        store.next_bottle_id = store.next_bottle_id + 1;
        proof {
            assert(final(store).bottles@.drop_last() =~= old(store).bottles@);
        }
        Ok(out)
    }
}

impl Bottle {
    /// The stored bottle with this id.
    pub fn get(bid: BottleId, store: &Store) -> (r: Result<Bottle, BottleError>)
        ensures
            match r {
                Ok(b) => match first_where(store.bottles@, by_bottle_id(bid)) {
                    Some(i) => same_bottle(b, store.bottles@[i]),
                    None => false,
                },
                Err(e) => e == BottleError::NotFound && first_where(
                    store.bottles@,
                    by_bottle_id(bid),
                ) is None,
            },
    {
        match find_bottle(&store.bottles, bid) {
            Some(i) => Ok(copy_bottle(&store.bottles[i])),
            None => Err(BottleError::NotFound),
        }
    }

    /// Remove the bottle row with this id.
    pub fn delete(bid: BottleId, store: &mut Store) -> (r: usize)
        requires
            old(store).wf(),
        ensures
            final(store).wf(),
            final(store).bottles@ == old(store).bottles@.filter(not_bottle_id(bid)),
            r == if first_where(old(store).bottles@, by_bottle_id(bid)) is Some {
                1int
            } else {
                0int
            },
            final(store).users == old(store).users,
            final(store).guilds == old(store).guilds,
            final(store).deliveries == old(store).deliveries,
            final(store).reports == old(store).reports,
            final(store).bans == old(store).bans,
            final(store).contributions == old(store).contributions,
            final(store).next_bottle_id == old(store).next_bottle_id,
            final(store).next_delivery_id == old(store).next_delivery_id,
            final(store).next_message_id == old(store).next_message_id,
    {
        match find_bottle(&store.bottles, bid) {
            Some(i) => {
                store.bottles.remove(i);
                proof {
                    lemma_first_where(old(store).bottles@, by_bottle_id(bid));
                    lemma_filter_all_but_one(old(store).bottles@, not_bottle_id(bid), i as int);
                }
                1
            },
            None => {
                proof {
                    lemma_first_where(old(store).bottles@, by_bottle_id(bid));
                    lemma_filter_all(old(store).bottles@, not_bottle_id(bid));
                }
                0
            },
        }
    }
}

/// The ids of a run of bottle rows.
pub open spec fn ids_of(s: Seq<Bottle>) -> Seq<BottleId> {
    s.map_values(|b: Bottle| b.id)
}

/// The ancestor chain from `b`: itself first, then parent, grandparent and
/// so on, stopped at the first bottle without a parent or after `fuel`
/// entries. `None` when a parent id is not stored.
pub open spec fn spec_chain_from(bottles: Seq<Bottle>, b: Bottle, fuel: nat) -> Option<Seq<Bottle>>
    decreases fuel,
{
    if fuel <= 1 {
        Some(seq![b])
    } else {
        match b.reply_to {
            None => Some(seq![b]),
            Some(p) => match first_where(bottles, by_bottle_id(p)) {
                None => None,
                Some(i) => match spec_chain_from(bottles, bottles[i], (fuel - 1) as nat) {
                    None => None,
                    Some(rest) => Some(seq![b] + rest),
                },
            },
        }
    }
}

/// The chain from `b` with the walked prefix `done` already taken: `done`
/// without its last entry, then the chain from that entry on.
pub open spec fn spec_chain_resumed(
    bottles: Seq<Bottle>,
    done: Seq<Bottle>,
    fuel: nat,
) -> Option<Seq<Bottle>>
    recommends
        done.len() >= 1,
{
    match spec_chain_from(bottles, done.last(), fuel) {
        None => None,
        Some(t) => Some(done.drop_last() + t),
    }
}

impl Bottle {
    /// How many stored bottles reply directly to this id.
    pub fn in_reply_to(bid: BottleId, store: &Store) -> (r: usize)
        ensures
            r == store.bottles@.filter(by_reply_to(bid)).len(),
    {
        let mut n: usize = 0;
        let mut i: usize = 0;
        while i < store.bottles.len()
            invariant
                i <= store.bottles@.len(),
                n == store.bottles@.take(i as int).filter(by_reply_to(bid)).len(),
                n <= i,
            decreases store.bottles@.len() - i,
        {
            proof {
                assert(store.bottles@.take(i + 1) =~= store.bottles@.take(i as int).push(
                    store.bottles@[i as int],
                ));
                store.bottles@.take(i as int).lemma_filter_push(
                    store.bottles@[i as int],
                    by_reply_to(bid),
                );
                store.bottles@.take(i + 1).lemma_filter_len(by_reply_to(bid));
            }
            let hit = match store.bottles[i].reply_to {
                Some(p) => p == bid,
                None => false,
            };
            if hit {
                n = n + 1;
            }
            i += 1;
        }
        proof {
            assert(store.bottles@.take(store.bottles@.len() as int) =~= store.bottles@);
        }
        n
    }

    /// Walk the ancestor chain of this bottle, itself first, stopping at
    /// the first bottle without a parent or after `MAX_CHAIN` entries.
    pub fn get_reply_list(&self, store: &Store) -> (r: Result<Vec<Bottle>, BottleError>)
        ensures
            match spec_chain_from(store.bottles@, *self, MAX_CHAIN as nat) {
                Some(c) => match r {
                    Ok(v) => v@.len() == c.len() && forall|i: int|
                        0 <= i < c.len() ==> same_bottle(#[trigger] v@[i], c[i]),
                    Err(_) => false,
                },
                None => r == Err::<Vec<Bottle>, BottleError>(BottleError::NotFound),
            },
    {
        let mut out: Vec<Bottle> = Vec::new();
        let ghost mut gc: Seq<Bottle> = seq![*self];
        out.push(copy_bottle(self));
        proof {
            assert(gc.drop_last() =~= Seq::<Bottle>::empty());
            assert(spec_chain_resumed(store.bottles@, gc, (MAX_CHAIN + 1 - gc.len()) as nat)
                == spec_chain_from(store.bottles@, *self, MAX_CHAIN as nat));
        }
        loop
            invariant
                1 <= gc.len() <= MAX_CHAIN,
                out@.len() == gc.len(),
                forall|i: int| 0 <= i < gc.len() ==> same_bottle(#[trigger] out@[i], gc[i]),
                spec_chain_from(store.bottles@, *self, MAX_CHAIN as nat) == spec_chain_resumed(
                    store.bottles@,
                    gc,
                    (MAX_CHAIN + 1 - gc.len()) as nat,
                ),
            decreases MAX_CHAIN - out@.len(),
        {
            if out.len() >= MAX_CHAIN {
                proof {
                    assert(spec_chain_from(store.bottles@, gc.last(), 1nat) == Some(seq![gc.last()]));
                    assert(gc.drop_last() + seq![gc.last()] =~= gc);
                }
                return Ok(out);
            }
            let parent = match out[out.len() - 1].reply_to {
                Some(p) => p,
                None => {
                    proof {
                        assert(gc.last().reply_to is None);
                        assert(spec_chain_from(
                            store.bottles@,
                            gc.last(),
                            (MAX_CHAIN + 1 - gc.len()) as nat,
                        ) == Some(seq![gc.last()]));
                        assert(gc.drop_last() + seq![gc.last()] =~= gc);
                    }
                    return Ok(out);
                },
            };
            proof {
                assert(gc.last().reply_to == Some(parent));
            }
            match find_bottle(&store.bottles, parent) {
                Some(i) => {
                    let nxt = copy_bottle(&store.bottles[i]);
                    let ghost gnxt = store.bottles@[i as int];
                    out.push(nxt);
                    proof {
                        let fuel = (MAX_CHAIN + 1 - gc.len()) as nat;
                        assert(spec_chain_from(store.bottles@, gc.last(), fuel) == match
                            spec_chain_from(store.bottles@, gnxt, (fuel - 1) as nat) {
                            None => None::<Seq<Bottle>>,
                            Some(rest) => Some(seq![gc.last()] + rest),
                        });
                        let gc2 = gc.push(gnxt);
                        assert(gc2.drop_last() =~= gc);
                        assert(gc2.last() == gnxt);
                        match spec_chain_from(store.bottles@, gnxt, (fuel - 1) as nat) {
                            None => {},
                            Some(rest) => {
                                assert(gc.drop_last() + (seq![gc.last()] + rest) =~= gc + rest);
                                assert(gc2.drop_last() + rest =~= gc + rest);
                            },
                        }
                        gc = gc2;
                    }
                },
                None => {
                    proof {
                        assert(spec_chain_from(
                            store.bottles@,
                            gc.last(),
                            (MAX_CHAIN + 1 - gc.len()) as nat,
                        ) is None);
                    }
                    return Err(BottleError::NotFound);
                },
            }
        }
    }
}

impl User {
    /// This user's most recently pushed bottle: no other bottle of the
    /// user carries a later push time.
    pub fn get_bottle(&self, store: &Store) -> (r: Result<Bottle, BottleError>)
        requires
            store.wf(),
        ensures
            match last_where(store.bottles@, by_author(self.id)) {
                Some(i) => match r {
                    Ok(b) => same_bottle(b, store.bottles@[i]) && forall|j: int|
                        0 <= j < store.bottles@.len() && store.bottles@[j].user == self.id
                            ==> store.bottles@[j].time_pushed <= store.bottles@[i].time_pushed,
                    Err(_) => false,
                },
                None => r == Err::<Bottle, BottleError>(BottleError::NotFound),
            },
    {
        let mut i: usize = store.bottles.len();
        while i > 0
            invariant
                i <= store.bottles@.len(),
                store.wf(),
                forall|j: int| i <= j < store.bottles@.len() ==> store.bottles@[j].user != self.id,
            decreases i,
        {
            i = i - 1;
            if store.bottles[i].user == self.id {
                proof {
                    lemma_last_where_is(store.bottles@, by_author(self.id), i as int);
                    assert forall|j: int|
                        0 <= j < store.bottles@.len() && store.bottles@[j].user == self.id implies
                        store.bottles@[j].time_pushed <= store.bottles@[i as int].time_pushed by {
                        if j < i {
                            assert(store.bottles@[j].time_pushed <= store.bottles@[
                                i as int].time_pushed);
                        }
                    }
                }
                return Ok(copy_bottle(&store.bottles[i]));
            }
        }
        proof {
            lemma_last_where_none(store.bottles@, by_author(self.id));
        }
        Err(BottleError::NotFound)
    }

    /// The ids of every bottle this user ever pushed, oldest first.
    pub fn get_all_bottles(&self, store: &Store) -> (r: Vec<BottleId>)
        ensures
            r@ == ids_of(store.bottles@.filter(by_author(self.id))),
    {
        let mut out: Vec<BottleId> = Vec::new();
        let mut i: usize = 0;
        while i < store.bottles.len()
            invariant
                i <= store.bottles@.len(),
                out@ == ids_of(store.bottles@.take(i as int).filter(by_author(self.id))),
            decreases store.bottles@.len() - i,
        {
            proof {
                assert(store.bottles@.take(i + 1) =~= store.bottles@.take(i as int).push(
                    store.bottles@[i as int],
                ));
                store.bottles@.take(i as int).lemma_filter_push(
                    store.bottles@[i as int],
                    by_author(self.id),
                );
                assert(ids_of(
                    store.bottles@.take(i as int).filter(by_author(self.id)).push(
                        store.bottles@[i as int],
                    ),
                ) =~= ids_of(store.bottles@.take(i as int).filter(by_author(self.id))).push(
                    store.bottles@[i as int].id,
                ));
            }
            if store.bottles[i].user == self.id {
                out.push(store.bottles[i].id);
            }
            i += 1;
        }
        proof {
            assert(store.bottles@.take(store.bottles@.len() as int) =~= store.bottles@);
        }
        out
    }

    /// Up to `limit` of this user's bottles, most recent first: every
    /// entry is the user's, and push times never increase along the list.
    pub fn get_last_bottles(&self, limit: usize, store: &Store) -> (r: Vec<Bottle>)
        requires
            store.wf(),
        ensures
            r@.len() == spec_last_bottles(store.bottles@, self.id, limit as nat).len(),
            forall|i: int|
                0 <= i < r@.len() ==> same_bottle(
                    #[trigger] r@[i],
                    spec_last_bottles(store.bottles@, self.id, limit as nat)[i],
                ),
            forall|i: int| 0 <= i < r@.len() ==> (#[trigger] r@[i]).user == self.id,
            forall|i: int, j: int|
                #![trigger r@[i], r@[j]]
                0 <= i < j < r@.len() ==> r@[i].time_pushed >= r@[j].time_pushed,
    {
        proof {
            lemma_last_bottles_props(store.bottles@, self.id, limit as nat);
        }
        let ghost full = spec_last_bottles(store.bottles@, self.id, limit as nat);
        let mut out: Vec<Bottle> = Vec::new();
        let ghost mut gout: Seq<Bottle> = Seq::empty();
        let mut i: usize = store.bottles.len();
        proof {
            assert(store.bottles@.take(store.bottles@.len() as int) =~= store.bottles@);
            assert(gout + spec_last_bottles(store.bottles@, self.id, limit as nat) =~= full);
        }
        while i > 0 && out.len() < limit
            invariant
                i <= store.bottles@.len(),
                out@.len() == gout.len(),
                gout.len() <= limit,
                forall|j: int| 0 <= j < gout.len() ==> same_bottle(#[trigger] out@[j], gout[j]),
                full == gout + spec_last_bottles(
                    store.bottles@.take(i as int),
                    self.id,
                    (limit - gout.len()) as nat,
                ),
            decreases i,
        {
            i = i - 1;
            proof {
                assert(store.bottles@.take(i + 1).drop_last() =~= store.bottles@.take(i as int));
                assert(store.bottles@.take(i + 1).last() == store.bottles@[i as int]);
            }
            if store.bottles[i].user == self.id {
                out.push(copy_bottle(&store.bottles[i]));
                proof {
                    let prev = gout;
                    gout = gout.push(store.bottles@[i as int]);
                    assert(spec_last_bottles(
                        store.bottles@.take(i + 1),
                        self.id,
                        (limit - prev.len()) as nat,
                    ) == seq![store.bottles@[i as int]] + spec_last_bottles(
                        store.bottles@.take(i as int),
                        self.id,
                        (limit - gout.len()) as nat,
                    ));
                    assert(prev + (seq![store.bottles@[i as int]] + spec_last_bottles(
                        store.bottles@.take(i as int),
                        self.id,
                        (limit - gout.len()) as nat,
                    )) =~= gout + spec_last_bottles(
                        store.bottles@.take(i as int),
                        self.id,
                        (limit - gout.len()) as nat,
                    ));
                }
            }
        }
        proof {
            if out@.len() >= limit {
                assert(spec_last_bottles(
                    store.bottles@.take(i as int),
                    self.id,
                    (limit - gout.len()) as nat,
                ) =~= Seq::<Bottle>::empty());
            } else {
                assert(i == 0);
                assert(store.bottles@.take(0) =~= Seq::<Bottle>::empty());
            }
            assert(full =~= gout + Seq::<Bottle>::empty());
            assert(full =~= gout);
        }
        out
    }

    /// How many bottles this user has pushed.
    pub fn get_num_bottles(&self, store: &Store) -> (r: usize)
        ensures
            r == store.bottles@.filter(by_author(self.id)).len(),
    {
        let mut n: usize = 0;
        let mut i: usize = 0;
        while i < store.bottles.len()
            invariant
                i <= store.bottles@.len(),
                n == store.bottles@.take(i as int).filter(by_author(self.id)).len(),
                n <= i,
            decreases store.bottles@.len() - i,
        {
            proof {
                assert(store.bottles@.take(i + 1) =~= store.bottles@.take(i as int).push(
                    store.bottles@[i as int],
                ));
                store.bottles@.take(i as int).lemma_filter_push(
                    store.bottles@[i as int],
                    by_author(self.id),
                );
                store.bottles@.take(i + 1).lemma_filter_len(by_author(self.id));
            }
            if store.bottles[i].user == self.id {
                n = n + 1;
            }
            i += 1;
        }
        proof {
            assert(store.bottles@.take(store.bottles@.len() as int) =~= store.bottles@);
        }
        n
    }

    /// One more than the number of users holding strictly more experience.
    pub fn get_ranking(&self, store: &Store) -> (r: usize)
        requires
            store.users@.len() < usize::MAX,
        ensures
            r == store.users@.filter(by_xp_above(self.xp)).len() + 1,
    {
        let mut n: usize = 0;
        let mut i: usize = 0;
        while i < store.users.len()
            invariant
                i <= store.users@.len(),
                n == store.users@.take(i as int).filter(by_xp_above(self.xp)).len(),
                n <= i,
            decreases store.users@.len() - i,
        {
            proof {
                assert(store.users@.take(i + 1) =~= store.users@.take(i as int).push(
                    store.users@[i as int],
                ));
                store.users@.take(i as int).lemma_filter_push(
                    store.users@[i as int],
                    by_xp_above(self.xp),
                );
                store.users@.take(i + 1).lemma_filter_len(by_xp_above(self.xp));
            }
            if store.users[i].xp > self.xp {
                n = n + 1;
            }
            i += 1;
        }
        proof {
            assert(store.users@.take(store.users@.len() as int) =~= store.users@);
        }
        n + 1
    }
}

/// Over rows whose push times never decrease, the back-scan yields only
/// the user's bottles, in nonincreasing time order, each no later than
/// the newest row.
pub proof fn lemma_last_bottles_props(s: Seq<Bottle>, uid: UserId, n: nat)
    requires
        forall|i: int, j: int|
            #![trigger s[i], s[j]]
            0 <= i < j < s.len() ==> s[i].time_pushed <= s[j].time_pushed,
    ensures
        ({
            let r = spec_last_bottles(s, uid, n);
            &&& forall|k: int| 0 <= k < r.len() ==> (#[trigger] r[k]).user == uid
            &&& forall|k: int, l: int|
                #![trigger r[k], r[l]]
                0 <= k < l < r.len() ==> r[k].time_pushed >= r[l].time_pushed
            &&& forall|k: int|
                0 <= k < r.len() ==> s.len() > 0 && (#[trigger] r[k]).time_pushed
                    <= s.last().time_pushed
        }),
    decreases s.len(),
{
    if s.len() == 0 || n == 0 {
    } else {
        let s1 = s.drop_last();
        assert forall|i: int, j: int|
            #![trigger s1[i], s1[j]]
            0 <= i < j < s1.len() implies s1[i].time_pushed <= s1[j].time_pushed by {
            assert(s[i].time_pushed <= s[j].time_pushed);
        }
        let r = spec_last_bottles(s, uid, n);
        if s.last().user == uid {
            lemma_last_bottles_props(s1, uid, (n - 1) as nat);
            let r1 = spec_last_bottles(s1, uid, (n - 1) as nat);
            assert(r == seq![s.last()] + r1);
            assert(r[0] == s.last());
            assert forall|k: int| 0 <= k < r1.len() implies r[k + 1] == r1[k] by {}
            assert forall|k: int|
                0 <= k < r.len() implies s.len() > 0 && (#[trigger] r[k]).time_pushed
                <= s.last().time_pushed by {
                if k > 0 {
                    assert(r1[k - 1].time_pushed <= s1.last().time_pushed);
                    assert(s1.last() == s[s.len() - 2]);
                    assert(s[s.len() - 2].time_pushed <= s[s.len() - 1].time_pushed);
                }
            }
            assert forall|k: int, l: int|
                #![trigger r[k], r[l]]
                0 <= k < l < r.len() implies r[k].time_pushed >= r[l].time_pushed by {
                if k > 0 {
                    assert(r1[k - 1].time_pushed >= r1[l - 1].time_pushed);
                } else {
                    assert(r1[l - 1].time_pushed <= s1.last().time_pushed);
                    assert(s1.last() == s[s.len() - 2]);
                    assert(s[s.len() - 2].time_pushed <= s[s.len() - 1].time_pushed);
                }
            }
        } else {
            lemma_last_bottles_props(s1, uid, n);
            let r1 = spec_last_bottles(s1, uid, n);
            assert(r == r1);
            assert forall|k: int|
                0 <= k < r.len() implies s.len() > 0 && (#[trigger] r[k]).time_pushed
                <= s.last().time_pushed by {
                assert(r1[k].time_pushed <= s1.last().time_pushed);
                assert(s1.last() == s[s.len() - 2]);
                assert(s[s.len() - 2].time_pushed <= s[s.len() - 1].time_pushed);
            }
        }
    }
}

/// Up to `n` of the user's bottles, scanned from the most recent back.
pub open spec fn spec_last_bottles(s: Seq<Bottle>, uid: UserId, n: nat) -> Seq<Bottle>
    decreases s.len(),
{
    if s.len() == 0 || n == 0 {
        Seq::empty()
    } else if s.last().user == uid {
        seq![s.last()] + spec_last_bottles(s.drop_last(), uid, (n - 1) as nat)
    } else {
        spec_last_bottles(s.drop_last(), uid, n)
    }
}

/// Index of the delivery record for this (bottle, channel) pair.
fn find_delivery_pair(ds: &Vec<GuildBottle>, bid: BottleId, ch: ChannelId) -> (r: Option<usize>)
    ensures
        match r {
            Some(i) => first_where(ds@, by_delivery_pair(bid, ch)) == Some(i as int) && i
                < ds@.len() && ds@[i as int].bottle == bid && ds@[i as int].channel == ch,
            None => first_where(ds@, by_delivery_pair(bid, ch)) is None,
        },
{
    let mut i: usize = 0;
    while i < ds.len()
        invariant
            i <= ds@.len(),
            forall|j: int| 0 <= j < i ==> !(ds@[j].bottle == bid && ds@[j].channel == ch),
        decreases ds@.len() - i,
    {
        if ds[i].bottle == bid && ds[i].channel == ch {
            proof {
                lemma_first_where_is(ds@, by_delivery_pair(bid, ch), i as int);
            }
            return Some(i);
        }
        i += 1;
    }
    proof {
        lemma_first_where_none(ds@, by_delivery_pair(bid, ch));
    }
    None
}

impl Store {
    /// Hand out a fresh platform message id; stands for rendering and
    /// sending one message. Fails only when the id space is spent.
    pub fn alloc_message_id(&mut self) -> (r: Result<MessageId, BottleError>)
        ensures
            match r {
                Ok(m) => {
                    &&& old(self).next_message_id < i64::MAX
                    &&& m == old(self).next_message_id
                    &&& final(self).next_message_id == old(self).next_message_id + 1
                    &&& final(self).users == old(self).users
                    &&& final(self).guilds == old(self).guilds
                    &&& final(self).bottles == old(self).bottles
                    &&& final(self).deliveries == old(self).deliveries
                    &&& final(self).reports == old(self).reports
                    &&& final(self).bans == old(self).bans
                    &&& final(self).contributions == old(self).contributions
                    &&& final(self).next_bottle_id == old(self).next_bottle_id
                    &&& final(self).next_delivery_id == old(self).next_delivery_id
                },
                Err(e) => {
                    &&& e == BottleError::StoreFailure
                    &&& old(self).next_message_id == i64::MAX
                    &&& *final(self) == *old(self)
                },
            },
    {
        if self.next_message_id == i64::MAX {
            return Err(BottleError::StoreFailure);
        }
        let m = self.next_message_id;
        self.next_message_id = self.next_message_id + 1;
        Ok(m)
    }
}

impl MakeGuildBottle {
    /// Record a delivery under a fresh record id. Any earlier record for
    /// the same (bottle, channel) pair gives way: the pair keeps a single,
    /// most recent, record.
    pub fn make(&self, store: &mut Store) -> (r: Result<GuildBottle, BottleError>)
        requires
            old(store).wf(),
            0 <= self.bottle < old(store).next_bottle_id,
            0 <= self.message < old(store).next_message_id,
            forall|i: int|
                0 <= i < old(store).deliveries@.len() ==> old(store).deliveries@[i].message
                    != self.message,
            self.time_received >= 0,
            old(store).deliveries@.len() == 0 || self.time_received >= old(
                store,
            ).deliveries@.last().time_received,
        ensures
            final(store).wf(),
            match r {
                Ok(d) => {
                    &&& old(store).next_delivery_id < i64::MAX
                    &&& d == (GuildBottle {
                        id: old(store).next_delivery_id,
                        bottle: self.bottle,
                        channel: self.channel,
                        message: self.message,
                        time_received: self.time_received,
                    })
                    &&& final(store).deliveries@ == old(store).deliveries@.filter(
                        not_delivery_pair(self.bottle, self.channel),
                    ).push(d)
                    &&& final(store).next_delivery_id == old(store).next_delivery_id + 1
                },
                Err(e) => {
                    &&& e == BottleError::StoreFailure
                    &&& old(store).next_delivery_id == i64::MAX
                    &&& *final(store) == *old(store)
                },
            },
            final(store).users == old(store).users,
            final(store).guilds == old(store).guilds,
            final(store).bottles == old(store).bottles,
            final(store).reports == old(store).reports,
            final(store).bans == old(store).bans,
            final(store).contributions == old(store).contributions,
            final(store).next_bottle_id == old(store).next_bottle_id,
            final(store).next_message_id == old(store).next_message_id,
    {
        if store.next_delivery_id == i64::MAX {
            return Err(BottleError::StoreFailure);
        }
        let d = GuildBottle {
            id: store.next_delivery_id,
            bottle: self.bottle,
            channel: self.channel,
            message: self.message,
            time_received: self.time_received,
        };
        proof {
            let ds = store.deliveries@;
            assert forall|i: int|
                0 <= i < ds.len() implies ds[i].time_received <= self.time_received by {
                if i < ds.len() - 1 {
                    assert(ds[i].time_received <= ds[ds.len() - 1].time_received);
                }
            }
        }
        match find_delivery_pair(&store.deliveries, self.bottle, self.channel) {
            Some(i) => {
                store.deliveries.remove(i);
                proof {
                    lemma_first_where(
                        old(store).deliveries@,
                        by_delivery_pair(self.bottle, self.channel),
                    );
                    lemma_filter_all_but_one(
                        old(store).deliveries@,
                        not_delivery_pair(self.bottle, self.channel),
                        i as int,
                    );
                }
            },
            None => {
                proof {
                    lemma_first_where(
                        old(store).deliveries@,
                        by_delivery_pair(self.bottle, self.channel),
                    );
                    lemma_filter_all(
                        old(store).deliveries@,
                        not_delivery_pair(self.bottle, self.channel),
                    );
                }
            },
        }
        store.deliveries.push(d);
        store.next_delivery_id = store.next_delivery_id + 1;
        Ok(d)
    }
}

impl GuildBottle {
    /// The delivery record with this id.
    pub fn get(did: DeliveryId, store: &Store) -> (r: Result<GuildBottle, BottleError>)
        ensures
            match first_where(store.deliveries@, by_delivery_id(did)) {
                Some(i) => r == Ok::<GuildBottle, BottleError>(store.deliveries@[i]),
                None => r == Err::<GuildBottle, BottleError>(BottleError::NotFound),
            },
    {
        let mut i: usize = 0;
        while i < store.deliveries.len()
            invariant
                i <= store.deliveries@.len(),
                forall|j: int| 0 <= j < i ==> store.deliveries@[j].id != did,
            decreases store.deliveries@.len() - i,
        {
            if store.deliveries[i].id == did {
                proof {
                    lemma_first_where_is(store.deliveries@, by_delivery_id(did), i as int);
                }
                return Ok(store.deliveries[i]);
            }
            i += 1;
        }
        proof {
            lemma_first_where_none(store.deliveries@, by_delivery_id(did));
        }
        Err(BottleError::NotFound)
    }

    /// The delivery record whose rendered message has this id.
    pub fn get_from_message(mid: MessageId, store: &Store) -> (r: Result<GuildBottle, BottleError>)
        ensures
            match first_where(store.deliveries@, by_delivery_message(mid)) {
                Some(i) => r == Ok::<GuildBottle, BottleError>(store.deliveries@[i]),
                None => r == Err::<GuildBottle, BottleError>(BottleError::NotFound),
            },
    {
        let mut i: usize = 0;
        while i < store.deliveries.len()
            invariant
                i <= store.deliveries@.len(),
                forall|j: int| 0 <= j < i ==> store.deliveries@[j].message != mid,
            decreases store.deliveries@.len() - i,
        {
            if store.deliveries[i].message == mid {
                proof {
                    lemma_first_where_is(store.deliveries@, by_delivery_message(mid), i as int);
                }
                return Ok(store.deliveries[i]);
            }
            i += 1;
        }
        proof {
            lemma_first_where_none(store.deliveries@, by_delivery_message(mid));
        }
        Err(BottleError::NotFound)
    }

    /// The most recent delivery into this channel: no other record of the
    /// channel carries a later delivery time.
    pub fn get_last(ch: ChannelId, store: &Store) -> (r: Result<GuildBottle, BottleError>)
        requires
            store.wf(),
        ensures
            match last_where(store.deliveries@, by_delivery_channel(ch)) {
                Some(i) => r == Ok::<GuildBottle, BottleError>(store.deliveries@[i]) && forall|
                    j: int,
                |
                    0 <= j < store.deliveries@.len() && store.deliveries@[j].channel == ch
                        ==> store.deliveries@[j].time_received <= store.deliveries@[
                    i].time_received,
                None => r == Err::<GuildBottle, BottleError>(BottleError::NotFound),
            },
    {
        let mut i: usize = store.deliveries.len();
        while i > 0
            invariant
                i <= store.deliveries@.len(),
                store.wf(),
                forall|j: int| i <= j < store.deliveries@.len() ==> store.deliveries@[j].channel != ch,
            decreases i,
        {
            i = i - 1;
            if store.deliveries[i].channel == ch {
                proof {
                    lemma_last_where_is(store.deliveries@, by_delivery_channel(ch), i as int);
                    assert forall|j: int|
                        0 <= j < store.deliveries@.len() && store.deliveries@[j].channel == ch
                        implies store.deliveries@[j].time_received <= store.deliveries@[
                        i as int].time_received by {
                        if j < i {
                            assert(store.deliveries@[j].time_received <= store.deliveries@[
                                i as int].time_received);
                        }
                    }
                }
                return Ok(store.deliveries[i]);
            }
        }
        proof {
            lemma_last_where_none(store.deliveries@, by_delivery_channel(ch));
        }
        Err(BottleError::NotFound)
    }

    /// Every delivery record of this bottle, oldest first.
    pub fn get_from_bottle(bid: BottleId, store: &Store) -> (r: Vec<GuildBottle>)
        ensures
            r@ == store.deliveries@.filter(by_delivery_bottle(bid)),
    {
        let mut out: Vec<GuildBottle> = Vec::new();
        let mut i: usize = 0;
        while i < store.deliveries.len()
            invariant
                i <= store.deliveries@.len(),
                out@ == store.deliveries@.take(i as int).filter(by_delivery_bottle(bid)),
            decreases store.deliveries@.len() - i,
        {
            proof {
                assert(store.deliveries@.take(i + 1) =~= store.deliveries@.take(i as int).push(
                    store.deliveries@[i as int],
                ));
                store.deliveries@.take(i as int).lemma_filter_push(
                    store.deliveries@[i as int],
                    by_delivery_bottle(bid),
                );
            }
            if store.deliveries[i].bottle == bid {
                out.push(store.deliveries[i]);
            }
            i += 1;
        }
        proof {
            assert(store.deliveries@.take(store.deliveries@.len() as int) =~= store.deliveries@);
        }
        out
    }

    /// Remove the delivery record with this id.
    pub fn delete(did: DeliveryId, store: &mut Store) -> (r: usize)
        requires
            old(store).wf(),
        ensures
            final(store).wf(),
            final(store).deliveries@ == old(store).deliveries@.filter(not_delivery_id(did)),
            r == if first_where(old(store).deliveries@, by_delivery_id(did)) is Some {
                1int
            } else {
                0int
            },
            final(store).users == old(store).users,
            final(store).guilds == old(store).guilds,
            final(store).bottles == old(store).bottles,
            final(store).reports == old(store).reports,
            final(store).bans == old(store).bans,
            final(store).contributions == old(store).contributions,
            final(store).next_bottle_id == old(store).next_bottle_id,
            final(store).next_delivery_id == old(store).next_delivery_id,
            final(store).next_message_id == old(store).next_message_id,
    {
        let mut i: usize = 0;
        while i < store.deliveries.len()
            invariant
                i <= store.deliveries@.len(),
                forall|j: int| 0 <= j < i ==> store.deliveries@[j].id != did,
                store == old(store),
                old(store).wf(),
            decreases store.deliveries@.len() - i,
        {
            if store.deliveries[i].id == did {
                proof {
                    lemma_first_where_is(store.deliveries@, by_delivery_id(did), i as int);
                    let s = store.deliveries@;
                    assert forall|j: int| 0 <= j < s.len() && j != i implies s[j].id != did by {
                        if j > i {
                            assert(s[i as int].id != s[j].id);
                        }
                    }
                    lemma_filter_all_but_one(store.deliveries@, not_delivery_id(did), i as int);
                }
                store.deliveries.remove(i);
                return 1;
            }
            i += 1;
        }
        proof {
            lemma_first_where_none(store.deliveries@, by_delivery_id(did));
            lemma_filter_all(store.deliveries@, not_delivery_id(did));
        }
        0
    }
}

impl Guild {
    /// The most recent delivery into this guild's configured channel: no
    /// other record of the channel carries a later delivery time.
    pub fn get_last_bottle(&self, store: &Store) -> (r: Result<GuildBottle, BottleError>)
        requires
            store.wf(),
        ensures
            match self.bottle_channel {
                Some(ch) => match last_where(store.deliveries@, by_delivery_channel(ch)) {
                    Some(i) => r == Ok::<GuildBottle, BottleError>(store.deliveries@[i]) && forall|
                        j: int,
                    |
                        0 <= j < store.deliveries@.len() && store.deliveries@[j].channel == ch
                            ==> store.deliveries@[j].time_received <= store.deliveries@[
                        i].time_received,
                    None => r == Err::<GuildBottle, BottleError>(BottleError::NotFound),
                },
                None => r == Err::<GuildBottle, BottleError>(BottleError::NotFound),
            },
    {
        match self.bottle_channel {
            Some(ch) => GuildBottle::get_last(ch, store),
            None => Err(BottleError::NotFound),
        }
    }
}

impl Report {
    /// Whether a report is already open for this bottle.
    pub fn exists_for(bid: BottleId, store: &Store) -> (r: bool)
        ensures
            r == (first_where(store.reports@, by_report_bottle(bid)) is Some),
    {
        let mut i: usize = 0;
        while i < store.reports.len()
            invariant
                i <= store.reports@.len(),
                forall|j: int| 0 <= j < i ==> store.reports@[j].bottle != bid,
            decreases store.reports@.len() - i,
        {
            if store.reports[i].bottle == bid {
                proof {
                    lemma_first_where_is(store.reports@, by_report_bottle(bid), i as int);
                }
                return true;
            }
            i += 1;
        }
        proof {
            lemma_first_where_none(store.reports@, by_report_bottle(bid));
        }
        false
    }

    /// The open report whose notice message has this id.
    pub fn get_from_message(mid: MessageId, store: &Store) -> (r: Result<Report, BottleError>)
        ensures
            match first_where(store.reports@, by_report_message(mid)) {
                Some(i) => r == Ok::<Report, BottleError>(store.reports@[i]),
                None => r == Err::<Report, BottleError>(BottleError::NotFound),
            },
    {
        let mut i: usize = 0;
        while i < store.reports.len()
            invariant
                i <= store.reports@.len(),
                forall|j: int| 0 <= j < i ==> store.reports@[j].message != Some(mid),
            decreases store.reports@.len() - i,
        {
            let hit = match store.reports[i].message {
                Some(m) => m == mid,
                None => false,
            };
            if hit {
                proof {
                    lemma_first_where_is(store.reports@, by_report_message(mid), i as int);
                }
                return Ok(store.reports[i]);
            }
            i += 1;
        }
        proof {
            lemma_first_where_none(store.reports@, by_report_message(mid));
        }
        Err(BottleError::NotFound)
    }

    /// File this report. The caller has checked that the bottle has no
    /// open report yet.
    pub fn make(&self, store: &mut Store)
        requires
            old(store).wf(),
            first_where(old(store).reports@, by_report_bottle(self.bottle)) is None,
            match self.message {
                Some(m) => 0 <= m < old(store).next_message_id,
                None => true,
            },
        ensures
            final(store).wf(),
            final(store).reports@ == old(store).reports@.push(*self),
            final(store).users == old(store).users,
            final(store).guilds == old(store).guilds,
            final(store).bottles == old(store).bottles,
            final(store).deliveries == old(store).deliveries,
            final(store).bans == old(store).bans,
            final(store).contributions == old(store).contributions,
            final(store).next_bottle_id == old(store).next_bottle_id,
            final(store).next_delivery_id == old(store).next_delivery_id,
            final(store).next_message_id == old(store).next_message_id,
    {
        proof {
            lemma_first_where(old(store).reports@, by_report_bottle(self.bottle));
        }
        store.reports.push(*self);
    }
}

impl User {
    /// Whether a ban record stands against this user.
    pub fn get_banned(&self, store: &Store) -> (r: bool)
        ensures
            r == (first_where(store.bans@, by_ban_user(self.id)) is Some),
    {
        let mut i: usize = 0;
        while i < store.bans.len()
            invariant
                i <= store.bans@.len(),
                forall|j: int| 0 <= j < i ==> store.bans@[j].user != self.id,
            decreases store.bans@.len() - i,
        {
            if store.bans[i].user == self.id {
                proof {
                    lemma_first_where_is(store.bans@, by_ban_user(self.id), i as int);
                }
                return true;
            }
            i += 1;
        }
        proof {
            lemma_first_where_none(store.bans@, by_ban_user(self.id));
        }
        false
    }
}

impl Ban {
    /// The ban that a given report occasioned, if one stands.
    pub fn get_by_report(bid: BottleId, store: &Store) -> (r: Option<Ban>)
        ensures
            match first_where(store.bans@, by_ban_report(bid)) {
                Some(i) => r == Some(store.bans@[i]),
                None => r is None,
            },
    {
        let mut i: usize = 0;
        while i < store.bans.len()
            invariant
                i <= store.bans@.len(),
                forall|j: int| 0 <= j < i ==> store.bans@[j].report != Some(bid),
            decreases store.bans@.len() - i,
        {
            let hit = match store.bans[i].report {
                Some(b) => b == bid,
                None => false,
            };
            if hit {
                proof {
                    lemma_first_where_is(store.bans@, by_ban_report(bid), i as int);
                }
                return Some(store.bans[i]);
            }
            i += 1;
        }
        proof {
            lemma_first_where_none(store.bans@, by_ban_report(bid));
        }
        None
    }

    /// Stand this ban; an earlier ban of the same user gives way to it.
    pub fn make(&self, store: &mut Store)
        requires
            old(store).wf(),
        ensures
            final(store).wf(),
            final(store).bans@ == upserted(
                old(store).bans@,
                first_where(old(store).bans@, by_ban_user(self.user)),
                *self,
            ),
            final(store).users == old(store).users,
            final(store).guilds == old(store).guilds,
            final(store).bottles == old(store).bottles,
            final(store).deliveries == old(store).deliveries,
            final(store).reports == old(store).reports,
            final(store).contributions == old(store).contributions,
            final(store).next_bottle_id == old(store).next_bottle_id,
            final(store).next_delivery_id == old(store).next_delivery_id,
            final(store).next_message_id == old(store).next_message_id,
    {
        let mut i: usize = 0;
        while i < store.bans.len()
            invariant
                i <= store.bans@.len(),
                forall|j: int| 0 <= j < i ==> store.bans@[j].user != self.user,
                store == old(store),
                old(store).wf(),
            decreases store.bans@.len() - i,
        {
            if store.bans[i].user == self.user {
                proof {
                    lemma_first_where_is(store.bans@, by_ban_user(self.user), i as int);
                    let s = store.bans@;
                    assert forall|j: int| 0 <= j < s.len() && j != i implies s[j].user != self.user
                    by {
                        if j > i {
                            assert(s[i as int].user != s[j].user);
                        }
                    }
                }
                store.bans[i] = *self;
                return ;
            }
            i += 1;
        }
        proof {
            lemma_first_where_none(store.bans@, by_ban_user(self.user));
        }
        store.bans.push(*self);
    }

    /// Lift the ban on this user.
    pub fn del(&self, store: &mut Store)
        requires
            old(store).wf(),
        ensures
            final(store).wf(),
            final(store).bans@ == old(store).bans@.filter(not_ban_user(self.user)),
            final(store).users == old(store).users,
            final(store).guilds == old(store).guilds,
            final(store).bottles == old(store).bottles,
            final(store).deliveries == old(store).deliveries,
            final(store).reports == old(store).reports,
            final(store).contributions == old(store).contributions,
            final(store).next_bottle_id == old(store).next_bottle_id,
            final(store).next_delivery_id == old(store).next_delivery_id,
            final(store).next_message_id == old(store).next_message_id,
    {
        let mut i: usize = 0;
        while i < store.bans.len()
            invariant
                i <= store.bans@.len(),
                forall|j: int| 0 <= j < i ==> store.bans@[j].user != self.user,
                store == old(store),
                old(store).wf(),
            decreases store.bans@.len() - i,
        {
            if store.bans[i].user == self.user {
                proof {
                    lemma_first_where_is(store.bans@, by_ban_user(self.user), i as int);
                    let s = store.bans@;
                    assert forall|j: int| 0 <= j < s.len() && j != i implies s[j].user != self.user
                    by {
                        if j > i {
                            assert(s[i as int].user != s[j].user);
                        }
                    }
                    lemma_filter_all_but_one(store.bans@, not_ban_user(self.user), i as int);
                }
                store.bans.remove(i);
                return ;
            }
            i += 1;
        }
        proof {
            lemma_first_where_none(store.bans@, by_ban_user(self.user));
            lemma_filter_all(store.bans@, not_ban_user(self.user));
        }
    }
}

/// The contribution row for this (guild, user) pair, or a fresh zero row.
pub open spec fn spec_get_contribution(
    cs: Seq<GuildContribution>,
    gid: GuildId,
    uid: UserId,
) -> GuildContribution {
    match first_where(cs, by_contribution(gid, uid)) {
        Some(i) => cs[i],
        None => GuildContribution { guild: gid, user: uid, xp: 0 },
    }
}

impl GuildContribution {
    /// The stored contribution row, or a fresh zero row.
    pub fn get(gid: GuildId, uid: UserId, store: &Store) -> (r: GuildContribution)
        ensures
            r == spec_get_contribution(store.contributions@, gid, uid),
    {
        let mut i: usize = 0;
        while i < store.contributions.len()
            invariant
                i <= store.contributions@.len(),
                forall|j: int|
                    0 <= j < i ==> !(store.contributions@[j].guild == gid
                        && store.contributions@[j].user == uid),
            decreases store.contributions@.len() - i,
        {
            if store.contributions[i].guild == gid && store.contributions[i].user == uid {
                proof {
                    lemma_first_where_is(store.contributions@, by_contribution(gid, uid), i as int);
                }
                return store.contributions[i];
            }
            i += 1;
        }
        proof {
            lemma_first_where_none(store.contributions@, by_contribution(gid, uid));
        }
        GuildContribution { guild: gid, user: uid, xp: 0 }
    }

    /// Insert this contribution row, or overwrite the row with the same
    /// (guild, user) pair.
    pub fn update(&self, store: &mut Store)
        requires
            old(store).wf(),
        ensures
            final(store).wf(),
            final(store).contributions@ == upserted(
                old(store).contributions@,
                first_where(old(store).contributions@, by_contribution(self.guild, self.user)),
                *self,
            ),
            final(store).users == old(store).users,
            final(store).guilds == old(store).guilds,
            final(store).bottles == old(store).bottles,
            final(store).deliveries == old(store).deliveries,
            final(store).reports == old(store).reports,
            final(store).bans == old(store).bans,
            final(store).next_bottle_id == old(store).next_bottle_id,
            final(store).next_delivery_id == old(store).next_delivery_id,
            final(store).next_message_id == old(store).next_message_id,
    {
        let mut i: usize = 0;
        while i < store.contributions.len()
            invariant
                i <= store.contributions@.len(),
                forall|j: int|
                    0 <= j < i ==> !(store.contributions@[j].guild == self.guild
                        && store.contributions@[j].user == self.user),
                store == old(store),
                old(store).wf(),
            decreases store.contributions@.len() - i,
        {
            if store.contributions[i].guild == self.guild && store.contributions[i].user
                == self.user {
                proof {
                    lemma_first_where_is(
                        store.contributions@,
                        by_contribution(self.guild, self.user),
                        i as int,
                    );
                    let s = store.contributions@;
                    assert forall|j: int|
                        0 <= j < s.len() && j != i implies !(s[j].guild == self.guild && s[j].user
                        == self.user) by {
                        if j > i {
                            assert(!(s[i as int].guild == s[j].guild && s[i as int].user
                                == s[j].user));
                        }
                    }
                }
                store.contributions[i] = *self;
                return ;
            }
            i += 1;
        }
        proof {
            lemma_first_where_none(store.contributions@, by_contribution(self.guild, self.user));
        }
        store.contributions.push(*self);
    }
}

/// How many bottles the store holds.
pub fn get_bottle_count(store: &Store) -> (r: usize)
    ensures
        r == store.bottles@.len(),
{
    store.bottles.len()
}

/// How many users the store holds.
pub fn get_user_count(store: &Store) -> (r: usize)
    ensures
        r == store.users@.len(),
{
    store.users.len()
}

/// How many guilds the store holds.
pub fn get_guild_count(store: &Store) -> (r: usize)
    ensures
        r == store.guilds@.len(),
{
    store.guilds.len()
}


/// The looked-up user carries the id it was looked up by.
pub proof fn lemma_get_user_id(users: Seq<User>, uid: UserId)
    ensures
        spec_get_user(users, uid).id == uid,
{
    lemma_first_where(users, by_user_id(uid));
}

/// Upserting a user row changes that user's lookup to the new row and no
/// other lookup.
pub proof fn lemma_get_user_upsert(users: Seq<User>, u: User, uid: UserId)
    requires
        forall|i: int, j: int|
            #![trigger users[i], users[j]]
            0 <= i < j < users.len() ==> users[i].id != users[j].id,
    ensures
        spec_get_user(upserted(users, first_where(users, by_user_id(u.id)), u), uid) == (
        if uid == u.id {
            u
        } else {
            spec_get_user(users, uid)
        }),
{
    let p = by_user_id(u.id);
    let q = by_user_id(uid);
    let at = first_where(users, p);
    let post = upserted(users, at, u);
    lemma_first_where(users, p);
    lemma_first_where(users, q);
    match at {
        Some(i) => {
            if uid == u.id {
                assert forall|j: int| 0 <= j < i implies !q(post[j]) by {
                    assert(post[j] == users[j]);
                }
                lemma_first_where_is(post, q, i);
            } else {
                match first_where(users, q) {
                    Some(k) => {
                        assert(k != i);
                        assert(q(post[k]));
                        assert forall|j: int| 0 <= j < k implies !q(post[j]) by {
                            if j != i {
                                assert(post[j] == users[j]);
                            }
                        }
                        lemma_first_where_is(post, q, k);
                    },
                    None => {
                        assert forall|j: int| 0 <= j < post.len() implies !q(post[j]) by {
                            if j != i {
                                assert(post[j] == users[j]);
                            }
                        }
                        lemma_first_where_none(post, q);
                    },
                }
            }
        },
        None => {
            if uid == u.id {
                assert forall|j: int| 0 <= j < users.len() implies !q(post[j]) by {
                    assert(post[j] == users[j]);
                }
                lemma_first_where_is(post, q, users.len() as int);
            } else {
                match first_where(users, q) {
                    Some(k) => {
                        assert(q(post[k]));
                        assert forall|j: int| 0 <= j < k implies !q(post[j]) by {
                            assert(post[j] == users[j]);
                        }
                        lemma_first_where_is(post, q, k);
                    },
                    None => {
                        assert forall|j: int| 0 <= j < post.len() implies !q(post[j]) by {
                            if j < users.len() {
                                assert(post[j] == users[j]);
                            }
                        }
                        lemma_first_where_none(post, q);
                    },
                }
            }
        },
    }
}

/// The looked-up contribution row carries the keys it was looked up by.
pub proof fn lemma_get_contribution_key(cs: Seq<GuildContribution>, gid: GuildId, uid: UserId)
    ensures
        spec_get_contribution(cs, gid, uid).guild == gid,
        spec_get_contribution(cs, gid, uid).user == uid,
{
    lemma_first_where(cs, by_contribution(gid, uid));
}

/// Upserting a contribution row changes that pair's lookup to the new row
/// and no other lookup.
pub proof fn lemma_get_contribution_upsert(
    cs: Seq<GuildContribution>,
    c: GuildContribution,
    gid: GuildId,
    uid: UserId,
)
    requires
        forall|i: int, j: int|
            #![trigger cs[i], cs[j]]
            0 <= i < j < cs.len() ==> !(cs[i].guild == cs[j].guild && cs[i].user == cs[j].user),
    ensures
        spec_get_contribution(
            upserted(cs, first_where(cs, by_contribution(c.guild, c.user)), c),
            gid,
            uid,
        ) == (if gid == c.guild && uid == c.user {
            c
        } else {
            spec_get_contribution(cs, gid, uid)
        }),
{
    let p = by_contribution(c.guild, c.user);
    let q = by_contribution(gid, uid);
    let at = first_where(cs, p);
    let post = upserted(cs, at, c);
    lemma_first_where(cs, p);
    lemma_first_where(cs, q);
    match at {
        Some(i) => {
            if gid == c.guild && uid == c.user {
                assert forall|j: int| 0 <= j < i implies !q(post[j]) by {
                    assert(post[j] == cs[j]);
                }
                lemma_first_where_is(post, q, i);
            } else {
                match first_where(cs, q) {
                    Some(k) => {
                        assert(k != i);
                        assert(q(post[k]));
                        assert forall|j: int| 0 <= j < k implies !q(post[j]) by {
                            if j != i {
                                assert(post[j] == cs[j]);
                            }
                        }
                        lemma_first_where_is(post, q, k);
                    },
                    None => {
                        assert forall|j: int| 0 <= j < post.len() implies !q(post[j]) by {
                            if j != i {
                                assert(post[j] == cs[j]);
                            }
                        }
                        lemma_first_where_none(post, q);
                    },
                }
            }
        },
        None => {
            if gid == c.guild && uid == c.user {
                assert forall|j: int| 0 <= j < cs.len() implies !q(post[j]) by {
                    assert(post[j] == cs[j]);
                }
                lemma_first_where_is(post, q, cs.len() as int);
            } else {
                match first_where(cs, q) {
                    Some(k) => {
                        assert(q(post[k]));
                        assert forall|j: int| 0 <= j < k implies !q(post[j]) by {
                            assert(post[j] == cs[j]);
                        }
                        lemma_first_where_is(post, q, k);
                    },
                    None => {
                        assert forall|j: int| 0 <= j < post.len() implies !q(post[j]) by {
                            if j < cs.len() {
                                assert(post[j] == cs[j]);
                            }
                        }
                        lemma_first_where_none(post, q);
                    },
                }
            }
        },
    }
}


/// An assembled chain starts at its seed, never outgrows the bound, and
/// stops early only at a bottle without a parent.
pub proof fn lemma_chain_len(bottles: Seq<Bottle>, b: Bottle, fuel: nat)
    requires
        fuel >= 1,
    ensures
        match spec_chain_from(bottles, b, fuel) {
            Some(c) => {
                &&& 1 <= c.len() <= fuel
                &&& c[0] == b
                &&& (c.len() < fuel ==> c.last().reply_to is None)
            },
            None => true,
        },
    decreases fuel,
{
    if fuel > 1 {
        match b.reply_to {
            None => {},
            Some(p) => {
                match first_where(bottles, by_bottle_id(p)) {
                    None => {},
                    Some(i) => {
                        lemma_chain_len(bottles, bottles[i], (fuel - 1) as nat);
                        match spec_chain_from(bottles, bottles[i], (fuel - 1) as nat) {
                            None => {},
                            Some(rest) => {
                                let c = seq![b] + rest;
                                assert(c.len() == 1 + rest.len());
                                assert(c.last() == rest.last());
                            },
                        }
                    },
                }
            },
        }
    }
}

} // verus!
