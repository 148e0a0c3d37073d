//! The distribution engine: random target selection, first-seen
//! deduplication, the unrepeated-prefix cut against each channel's last
//! delivery, per-channel delivery recording, and the bounded work queue
//! that re-seeds orphaned threads.
use vstd::prelude::*;
use crate::config::{DELIVER_NUM, MAX_CHAIN};
use crate::data::{
    Store, by_bottle_id, by_delivery_channel, by_reply_to, lemma_chain_len, not_delivery_pair,
    spec_chain_from,
};
use crate::find::{first_where, last_where, lemma_first_where_is, lemma_first_where_none};
use crate::submit::spec_reply_target;
use crate::types::{Bottle, BottleError, BottleId, ChannelId, Guild, GuildBottle, MakeGuildBottle};

verus! {

/// Guilds that can receive a delivery: an inbound channel is configured
/// and it is not the excluded one.
pub open spec fn by_eligible(exclude: ChannelId) -> spec_fn(Guild) -> bool {
    |g: Guild| g.bottle_channel is Some && g.bottle_channel != Some(exclude)
}

/// The configured channels of a run of guilds.
pub open spec fn channels_of(gs: Seq<Guild>) -> Seq<ChannelId> {
    gs.map_values(
        |g: Guild|
            match g.bottle_channel {
                Some(c) => c,
                None => 0,
            },
    )
}

/// The channels open to a random draw, excluding one channel.
pub open spec fn spec_eligible_pool(gs: Seq<Guild>, exclude: ChannelId) -> Seq<ChannelId> {
    channels_of(gs.filter(by_eligible(exclude)))
}

/// Up to `n` draws without replacement from `pool`, each directed by the
/// random word at `at` and onward; a missing word draws the first
/// remaining entry.
pub open spec fn spec_sample_at(pool: Seq<ChannelId>, picks: Seq<u64>, at: int, n: nat) -> Seq<
    ChannelId,
>
    decreases n,
{
    if n == 0 || pool.len() == 0 {
        Seq::empty()
    } else {
        let p: u64 = if 0 <= at < picks.len() {
            picks[at]
        } else {
            0
        };
        let i = (p as int) % (pool.len() as int);
        seq![pool[i]] + spec_sample_at(pool.remove(i), picks, at + 1, (n - 1) as nat)
    }
}

/// First-seen deduplication.
pub open spec fn spec_dedup(s: Seq<ChannelId>) -> Seq<ChannelId>
    decreases s.len(),
{
    if s.len() == 0 {
        Seq::empty()
    } else {
        let front = spec_dedup(s.drop_last());
        if front.contains(s.last()) {
            front
        } else {
            front.push(s.last())
        }
    }
}

pub open spec fn not_channel(ch: ChannelId) -> spec_fn(ChannelId) -> bool {
    |c: ChannelId| c != ch
}

/// The channels of the entries of a chain.
pub open spec fn chain_channels(chain: Seq<Bottle>) -> Seq<ChannelId> {
    chain.map_values(|b: Bottle| b.channel)
}

/// The delivery targets of one pass: the random draw, then the channels
/// the chain has already touched, deduplicated first-seen, never the
/// origin.
pub open spec fn spec_targets(
    sampled: Seq<ChannelId>,
    chain: Seq<Bottle>,
    origin: ChannelId,
) -> Seq<ChannelId> {
    spec_dedup(sampled + chain_channels(chain)).filter(not_channel(origin))
}

/// How much of the chain, newest first, the channel has not seen: the run
/// up to, and not including, the channel's last-delivered bottle; all of
/// it when that bottle is not in the chain.
pub open spec fn spec_prefix_len(chain: Seq<Bottle>, last: Option<BottleId>) -> int {
    match last {
        None => chain.len() as int,
        Some(x) => match first_where(chain, by_bottle_id(x)) {
            Some(i) => i,
            None => chain.len() as int,
        },
    }
}

/// Delivery records folded into the store in order, each displacing any
/// earlier record of its (bottle, channel) pair.
pub open spec fn spec_record_all(ds: Seq<GuildBottle>, recs: Seq<GuildBottle>) -> Seq<GuildBottle>
    decreases recs.len(),
{
    if recs.len() == 0 {
        ds
    } else {
        spec_record_all(
            ds.filter(not_delivery_pair(recs[0].bottle, recs[0].channel)).push(recs[0]),
            recs.drop_first(),
        )
    }
}

/// Folding one more record is filtering its pair out and appending it.
pub proof fn lemma_record_all_push(ds: Seq<GuildBottle>, recs: Seq<GuildBottle>, r: GuildBottle)
    ensures
        spec_record_all(ds, recs.push(r)) == spec_record_all(ds, recs).filter(
            not_delivery_pair(r.bottle, r.channel),
        ).push(r),
    decreases recs.len(),
{
    reveal_with_fuel(spec_record_all, 3);
    if recs.len() == 0 {
        assert(recs.push(r)[0] == r);
        assert(recs.push(r).drop_first() =~= Seq::<GuildBottle>::empty());
    } else {
        assert(recs.push(r)[0] == recs[0]);
        assert(recs.push(r).drop_first() =~= recs.drop_first().push(r));
        lemma_record_all_push(
            ds.filter(not_delivery_pair(recs[0].bottle, recs[0].channel)).push(recs[0]),
            recs.drop_first(),
            r,
        );
    }
}

/// Folding a concatenation is folding its parts in turn.
pub proof fn lemma_record_all_concat(ds: Seq<GuildBottle>, a: Seq<GuildBottle>, b: Seq<GuildBottle>)
    ensures
        spec_record_all(ds, a + b) == spec_record_all(spec_record_all(ds, a), b),
    decreases a.len(),
{
    reveal_with_fuel(spec_record_all, 3);
    if a.len() == 0 {
        assert(a + b =~= b);
    } else {
        assert((a + b)[0] == a[0]);
        assert((a + b).drop_first() =~= a.drop_first() + b);
        lemma_record_all_concat(
            ds.filter(not_delivery_pair(a[0].bottle, a[0].channel)).push(a[0]),
            a.drop_first(),
            b,
        );
    }
}

/// A non-empty fold ends in its last record.
pub proof fn lemma_record_all_last(ds: Seq<GuildBottle>, recs: Seq<GuildBottle>)
    requires
        recs.len() > 0,
    ensures
        spec_record_all(ds, recs).len() > 0,
        spec_record_all(ds, recs).last() == recs.last(),
{
    assert(recs =~= recs.drop_last().push(recs.last()));
    lemma_record_all_push(ds, recs.drop_last(), recs.last());
}

/// Every entry of a chain assembled from well-formed rows carries an
/// assigned id.
pub proof fn lemma_chain_ids(bottles: Seq<Bottle>, b: Bottle, fuel: nat, bound: i64)
    requires
        forall|i: int| 0 <= i < bottles.len() ==> 0 <= #[trigger] bottles[i].id < bound,
        0 <= b.id < bound,
    ensures
        match spec_chain_from(bottles, b, fuel) {
            Some(c) => forall|i: int| 0 <= i < c.len() ==> 0 <= #[trigger] c[i].id < bound,
            None => true,
        },
    decreases fuel,
{
    if fuel > 1 {
        match b.reply_to {
            None => {},
            Some(p) => {
                match first_where(bottles, by_bottle_id(p)) {
                    None => {},
                    Some(i) => {
                        crate::find::lemma_first_where(bottles, by_bottle_id(p));
                        lemma_chain_ids(bottles, bottles[i], (fuel - 1) as nat, bound);
                    },
                }
            },
        }
    }
}

/// Whether a channel list holds this channel.
fn contains_channel(v: &Vec<ChannelId>, x: ChannelId) -> (r: bool)
    ensures
        r == v@.contains(x),
{
    let mut i: usize = 0;
    while i < v.len()
        invariant
            i <= v@.len(),
            forall|j: int| 0 <= j < i ==> v@[j] != x,
        decreases v@.len() - i,
    {
        if v[i] == x {
            assert(v@.contains(x));
            return true;
        }
        i += 1;
    }
    false
}

/// Whether a bottle id list holds this id.
fn contains_bottle_id(v: &Vec<BottleId>, x: BottleId) -> (r: bool)
    ensures
        r == v@.contains(x),
{
    let mut i: usize = 0;
    while i < v.len()
        invariant
            i <= v@.len(),
            forall|j: int| 0 <= j < i ==> v@[j] != x,
        decreases v@.len() - i,
    {
        if v[i] == x {
            assert(v@.contains(x));
            return true;
        }
        i += 1;
    }
    false
}

/// Draw up to `n` random target channels from the guilds with a
/// configured inbound channel, the origin excluded, directed by the
/// random words `picks` from position `start` on.
pub fn sample_guild_channels(
    exclude: ChannelId,
    n: usize,
    picks: &Vec<u64>,
    start: usize,
    store: &Store,
) -> (r: Vec<ChannelId>)
    ensures
        r@ == spec_sample_at(
            spec_eligible_pool(store.guilds@, exclude),
            picks@,
            start as int,
            n as nat,
        ),
{
    let ghost pool0 = spec_eligible_pool(store.guilds@, exclude);
    let mut pool: Vec<ChannelId> = Vec::new();
    let mut i: usize = 0;
    while i < store.guilds.len()
        invariant
            i <= store.guilds@.len(),
            pool@ == spec_eligible_pool(store.guilds@.take(i as int), exclude),
        decreases store.guilds@.len() - i,
    {
        proof {
            assert(store.guilds@.take(i + 1) =~= store.guilds@.take(i as int).push(
                store.guilds@[i as int],
            ));
            store.guilds@.take(i as int).lemma_filter_push(
                store.guilds@[i as int],
                by_eligible(exclude),
            );
            if by_eligible(exclude)(store.guilds@[i as int]) {
                assert(channels_of(
                    store.guilds@.take(i as int).filter(by_eligible(exclude)).push(
                        store.guilds@[i as int],
                    ),
                ) =~= channels_of(store.guilds@.take(i as int).filter(by_eligible(exclude))).push(
                    match store.guilds@[i as int].bottle_channel {
                        Some(c) => c,
                        None => 0,
                    },
                ));
            }
        }
        match store.guilds[i].bottle_channel {
            Some(c) => {
                if c != exclude {
                    pool.push(c);
                }
            },
            None => {},
        }
        i += 1;
    }
    proof {
        assert(store.guilds@.take(store.guilds@.len() as int) =~= store.guilds@);
    }
    let mut out: Vec<ChannelId> = Vec::new();
    let mut j: usize = 0;
    while j < n && pool.len() > 0
        invariant
            j <= n,
            spec_sample_at(pool0, picks@, start as int, n as nat) == out@ + spec_sample_at(
                pool@,
                picks@,
                start + j,
                (n - j) as nat,
            ),
        decreases n - j,
    {
        let p: u64 = if start < picks.len() && j < picks.len() - start {
            picks[start + j]
        } else {
            0
        };
        proof {
            if 0 <= start + j < picks@.len() {
                assert(p == picks@[start + j]);
            } else {
                assert(p == 0u64);
            }
        }
        let len = pool.len();
        let idx = (p % (len as u64)) as usize;
        proof {
            assert(idx < len);
            assert(idx as int == (p as int) % (pool@.len() as int));
        }
        let ghost pool_pre = pool@;
        let ghost out_pre = out@;
        out.push(pool[idx]);
        pool.remove(idx);
        proof {
            assert(spec_sample_at(pool_pre, picks@, start + j, (n - j) as nat) == seq![
                pool_pre[idx as int],
            ] + spec_sample_at(pool_pre.remove(idx as int), picks@, start + j + 1, (n - j
                - 1) as nat));
            assert(out_pre + (seq![pool_pre[idx as int]] + spec_sample_at(
                pool@,
                picks@,
                start + j + 1,
                (n - j - 1) as nat,
            )) =~= out@ + spec_sample_at(pool@, picks@, start + j + 1, (n - j - 1) as nat));
        }
        j += 1;
    }
    proof {
        assert(spec_sample_at(pool@, picks@, start + j, (n - j) as nat) =~= Seq::<
            ChannelId,
        >::empty());
        assert(out@ + Seq::<ChannelId>::empty() =~= out@);
    }
    out
}

/// The delivery targets of one pass: the random draw, then the channels
/// the chain already touched, deduplicated first-seen, never the origin.
pub fn select_targets(sampled: &Vec<ChannelId>, chain: &Vec<Bottle>, origin: ChannelId) -> (r: Vec<
    ChannelId,
>)
    ensures
        r@ == spec_targets(sampled@, chain@, origin),
        forall|i: int| 0 <= i < r@.len() ==> #[trigger] r@[i] != origin,
{
    let mut all: Vec<ChannelId> = Vec::new();
    let mut i: usize = 0;
    while i < sampled.len()
        invariant
            i <= sampled@.len(),
            all@ == sampled@.take(i as int),
        decreases sampled@.len() - i,
    {
        all.push(sampled[i]);
        proof {
            assert(sampled@.take(i + 1) =~= sampled@.take(i as int).push(sampled@[i as int]));
        }
        i += 1;
    }
    proof {
        assert(sampled@.take(sampled@.len() as int) =~= sampled@);
    }
    let mut c: usize = 0;
    while c < chain.len()
        invariant
            c <= chain@.len(),
            all@ == sampled@ + chain_channels(chain@.take(c as int)),
        decreases chain@.len() - c,
    {
        all.push(chain[c].channel);
        proof {
            assert(chain@.take(c + 1) =~= chain@.take(c as int).push(chain@[c as int]));
            assert(chain_channels(chain@.take(c as int).push(chain@[c as int])) =~= chain_channels(
                chain@.take(c as int),
            ).push(chain@[c as int].channel));
            assert(sampled@ + chain_channels(chain@.take(c as int)).push(chain@[c as int].channel)
                =~= (sampled@ + chain_channels(chain@.take(c as int))).push(
                chain@[c as int].channel,
            ));
        }
        c += 1;
    }
    proof {
        assert(chain@.take(chain@.len() as int) =~= chain@);
        assert(all@ == sampled@ + chain_channels(chain@));
    }
    let mut dedup: Vec<ChannelId> = Vec::new();
    let mut d: usize = 0;
    while d < all.len()
        invariant
            d <= all@.len(),
            dedup@ == spec_dedup(all@.take(d as int)),
        decreases all@.len() - d,
    {
        proof {
            assert(all@.take(d + 1).drop_last() =~= all@.take(d as int));
            assert(all@.take(d + 1).last() == all@[d as int]);
        }
        if !contains_channel(&dedup, all[d]) {
            dedup.push(all[d]);
        }
        d += 1;
    }
    proof {
        assert(all@.take(all@.len() as int) =~= all@);
    }
    let mut out: Vec<ChannelId> = Vec::new();
    let mut f: usize = 0;
    while f < dedup.len()
        invariant
            f <= dedup@.len(),
            out@ == dedup@.take(f as int).filter(not_channel(origin)),
            forall|x: int| 0 <= x < out@.len() ==> #[trigger] out@[x] != origin,
        decreases dedup@.len() - f,
    {
        proof {
            assert(dedup@.take(f + 1) =~= dedup@.take(f as int).push(dedup@[f as int]));
            dedup@.take(f as int).lemma_filter_push(dedup@[f as int], not_channel(origin));
        }
        if dedup[f] != origin {
            out.push(dedup[f]);
        }
        f += 1;
    }
    proof {
        assert(dedup@.take(dedup@.len() as int) =~= dedup@);
    }
    out
}

/// How many of the chain's newest entries the channel has not seen yet:
/// the cut falls at the channel's last-delivered bottle.
pub fn unrepeated_prefix(chain: &Vec<Bottle>, last: Option<BottleId>) -> (k: usize)
    ensures
        k as int == spec_prefix_len(chain@, last),
        k <= chain@.len(),
{
    match last {
        None => chain.len(),
        Some(x) => {
            let mut s: usize = 0;
            while s < chain.len()
                invariant
                    s <= chain@.len(),
                    last == Some(x),
                    forall|j: int| 0 <= j < s ==> chain@[j].id != x,
                decreases chain@.len() - s,
            {
                if chain[s].id == x {
                    proof {
                        lemma_first_where_is(chain@, by_bottle_id(x), s as int);
                    }
                    return s;
                }
                s += 1;
            }
            proof {
                lemma_first_where_none(chain@, by_bottle_id(x));
            }
            chain.len()
        },
    }
}

/// Deliver the unseen newest run of `chain` into `channel`, oldest first,
/// recording each rendering, and say which displaced bottle deserves a
/// fresh distribution pass. Fails, leaving the store untouched, exactly
/// when the id space cannot hold the whole prefix.
pub fn distribute_to_channel(
    chain: &Vec<Bottle>,
    channel: ChannelId,
    now: i64,
    store: &mut Store,
) -> (r: Result<(Vec<GuildBottle>, Option<BottleId>), BottleError>)
    requires
        old(store).wf(),
        now >= 0,
        chain@.len() <= MAX_CHAIN,
        old(store).deliveries@.len() == 0 || now >= old(store).deliveries@.last().time_received,
        forall|i: int|
            0 <= i < chain@.len() ==> 0 <= #[trigger] chain@[i].id < old(store).next_bottle_id,
    ensures
        final(store).wf(),
        final(store).users == old(store).users,
        final(store).guilds == old(store).guilds,
        final(store).bottles == old(store).bottles,
        final(store).reports == old(store).reports,
        final(store).bans == old(store).bans,
        final(store).contributions == old(store).contributions,
        final(store).next_bottle_id == old(store).next_bottle_id,
        match r {
            Ok(pair) => {
                let last = spec_reply_target(old(store).deliveries@, channel);
                let k = spec_prefix_len(chain@, last);
                &&& pair.0@.len() == k
                &&& forall|j: int|
                    0 <= j < k ==> pair.0@[j] == (GuildBottle {
                        id: (old(store).next_delivery_id + j) as i64,
                        bottle: chain@[k - 1 - j].id,
                        channel,
                        message: (old(store).next_message_id + j) as i64,
                        time_received: now,
                    })
                &&& final(store).deliveries@ == spec_record_all(old(store).deliveries@, pair.0@)
                &&& final(store).next_delivery_id == old(store).next_delivery_id + k
                &&& final(store).next_message_id == old(store).next_message_id + k
                &&& (k > 0 ==> spec_reply_target(final(store).deliveries@, channel) == Some(
                    chain@[0].id,
                ))
                &&& pair.1 == (match last {
                    Some(x) => if k > 0 && old(store).bottles@.filter(by_reply_to(x)).len() == 0 {
                        Some(x)
                    } else {
                        None::<BottleId>
                    },
                    None => None::<BottleId>,
                })
            },
            Err(e) => {
                let last = spec_reply_target(old(store).deliveries@, channel);
                let k = spec_prefix_len(chain@, last);
                &&& e == BottleError::StoreFailure
                &&& *final(store) == *old(store)
                &&& (old(store).next_delivery_id > i64::MAX - k || old(store).next_message_id
                    > i64::MAX - k)
            },
        },
{
    let last: Option<BottleId> = match GuildBottle::get_last(channel, store) {
        Ok(d) => Some(d.bottle),
        Err(_) => None,
    };
    let k = unrepeated_prefix(chain, last);
    // A displaced bottle with no recorded reply seeds a fresh pass.
    let reseed: Option<BottleId> = match last {
        Some(x) => {
            if k > 0 && Bottle::in_reply_to(x, store) == 0 {
                Some(x)
            } else {
                None
            }
        },
        None => None,
    };
    // Room for the whole prefix, or nothing at all.
    if store.next_delivery_id > i64::MAX - (k as i64) || store.next_message_id > i64::MAX - (
    k as i64) {
        return Err(BottleError::StoreFailure);
    }
    let mut delivered: Vec<GuildBottle> = Vec::new();
    let mut i: usize = k;
    while i > 0
        invariant
            i <= k <= chain@.len(),
            chain@.len() <= MAX_CHAIN,
            now >= 0,
            store.wf(),
            forall|t: int|
                0 <= t < chain@.len() ==> 0 <= #[trigger] chain@[t].id < old(store).next_bottle_id,
            delivered@.len() == k - i,
            forall|j: int|
                0 <= j < k - i ==> delivered@[j] == (GuildBottle {
                    id: (old(store).next_delivery_id + j) as i64,
                    bottle: chain@[k - 1 - j].id,
                    channel,
                    message: (old(store).next_message_id + j) as i64,
                    time_received: now,
                }),
            store.deliveries@ == spec_record_all(old(store).deliveries@, delivered@),
            store.deliveries@.len() == 0 || now >= store.deliveries@.last().time_received,
            store.next_delivery_id == old(store).next_delivery_id + (k - i),
            store.next_message_id == old(store).next_message_id + (k - i),
            old(store).next_delivery_id <= i64::MAX - (k as i64),
            old(store).next_message_id <= i64::MAX - (k as i64),
            store.users == old(store).users,
            store.guilds == old(store).guilds,
            store.bottles == old(store).bottles,
            store.reports == old(store).reports,
            store.bans == old(store).bans,
            store.contributions == old(store).contributions,
            store.next_bottle_id == old(store).next_bottle_id,
        decreases i,
    {
        i = i - 1;
        proof {
            assert(store.next_message_id < i64::MAX);
            assert(store.next_delivery_id < i64::MAX);
        }
        let mid = match store.alloc_message_id() {
            Ok(m) => m,
            Err(e) => {
                return Err(e);
            },
        };
        proof {
            assert forall|t: int|
                0 <= t < store.deliveries@.len() implies #[trigger] store.deliveries@[t].message
                != mid by {
                assert(0 <= store.deliveries@[t].id);
            }
        }
        let ghost delivered_pre = delivered@;
        let rec = match (MakeGuildBottle {
            bottle: chain[i].id,
            channel,
            message: mid,
            time_received: now,
        }).make(store) {
            Ok(d) => d,
            Err(e) => {
                return Err(e);
            },
        };
        delivered.push(rec);
        proof {
            lemma_record_all_push(old(store).deliveries@, delivered_pre, rec);
        }
    }
    proof {
        if k > 0 {
            lemma_record_all_last(old(store).deliveries@, delivered@);
            let ds = store.deliveries@;
            assert(ds.last() == delivered@[k - 1]);
            assert(by_delivery_channel(channel)(ds.last()));
            assert(last_where(ds, by_delivery_channel(channel)) == Some(ds.len() - 1));
        }
    }
    Ok((delivered, reseed))
}

/// The unseen-prefix length of `chain` for channel `c` against the
/// ledger `ds`.
pub open spec fn spec_channel_k(ds: Seq<GuildBottle>, chain: Seq<Bottle>, c: ChannelId) -> int {
    spec_prefix_len(chain, spec_reply_target(ds, c))
}

/// Whether the id space can hold `k` more records.
pub open spec fn spec_room(nd: i64, nm: i64, k: int) -> bool {
    nd <= i64::MAX - k && nm <= i64::MAX - k
}

/// The records one successful channel delivery appends: the unseen
/// prefix, oldest first, under sequential fresh ids.
pub open spec fn spec_channel_records(
    ds: Seq<GuildBottle>,
    nd: i64,
    nm: i64,
    chain: Seq<Bottle>,
    c: ChannelId,
    now: i64,
) -> Seq<GuildBottle> {
    let k = spec_channel_k(ds, chain, c);
    Seq::new(
        k as nat,
        |j: int|
            GuildBottle {
                id: (nd + j) as i64,
                bottle: chain[k - 1 - j].id,
                channel: c,
                message: (nm + j) as i64,
                time_received: now,
            },
    )
}

/// The re-seed request one channel delivery raises.
pub open spec fn spec_channel_reseed(
    bottles: Seq<Bottle>,
    ds: Seq<GuildBottle>,
    chain: Seq<Bottle>,
    c: ChannelId,
) -> Option<BottleId> {
    match spec_reply_target(ds, c) {
        Some(x) => if spec_channel_k(ds, chain, c) > 0 && bottles.filter(by_reply_to(x)).len()
            == 0 {
            Some(x)
        } else {
            None
        },
        None => None,
    }
}

/// One pass folded over its targets, in order: each channel with room in
/// the id space receives its unseen prefix and may raise one re-seed
/// request, tagged with the channel that raised it; a channel without
/// room is skipped.
pub open spec fn spec_fan_out(
    bottles: Seq<Bottle>,
    ds: Seq<GuildBottle>,
    nd: i64,
    nm: i64,
    chain: Seq<Bottle>,
    targets: Seq<ChannelId>,
    now: i64,
) -> (Seq<GuildBottle>, Seq<(BottleId, ChannelId)>)
    decreases targets.len(),
{
    if targets.len() == 0 {
        (Seq::empty(), Seq::empty())
    } else {
        let c = targets[0];
        let k = spec_channel_k(ds, chain, c);
        if spec_room(nd, nm, k) {
            let recs = spec_channel_records(ds, nd, nm, chain, c, now);
            let rs = spec_channel_reseed(bottles, ds, chain, c);
            let rest = spec_fan_out(
                bottles,
                spec_record_all(ds, recs),
                (nd + k) as i64,
                (nm + k) as i64,
                chain,
                targets.drop_first(),
                now,
            );
            (
                recs + rest.0,
                (match rs {
                    Some(x) => seq![(x, c)],
                    None => Seq::empty(),
                }) + rest.1,
            )
        } else {
            spec_fan_out(bottles, ds, nd, nm, chain, targets.drop_first(), now)
        }
    }
}

/// The targets of one pass: the random draw and the chain's channels,
/// deduplicated, never the origin, and never the channel whose
/// displacement raised the pass.
pub open spec fn spec_pass_targets(
    guilds: Seq<Guild>,
    chain: Seq<Bottle>,
    origin: ChannelId,
    avoid: ChannelId,
    picks: Seq<u64>,
    cursor: int,
) -> Seq<ChannelId> {
    spec_targets(
        spec_sample_at(spec_eligible_pool(guilds, origin), picks, cursor, DELIVER_NUM as nat),
        chain,
        origin,
    ).filter(not_channel(avoid))
}

/// The work queue folded down: each queued seed is looked up, walked,
/// fanned out against its own targets, and its re-seed requests queued
/// behind the rest, a seed worked at most once, within the fuel bound.
pub open spec fn spec_work(
    bottles: Seq<Bottle>,
    guilds: Seq<Guild>,
    ds: Seq<GuildBottle>,
    nd: i64,
    nm: i64,
    queue: Seq<(BottleId, ChannelId)>,
    seen: Seq<BottleId>,
    cursor: int,
    picks: Seq<u64>,
    now: i64,
    fuel: nat,
) -> Seq<GuildBottle>
    decreases fuel,
{
    if fuel == 0 || queue.len() == 0 {
        Seq::empty()
    } else {
        let sid = queue[0].0;
        let trig = queue[0].1;
        let q = queue.drop_first();
        if seen.contains(sid) {
            spec_work(bottles, guilds, ds, nd, nm, q, seen, cursor, picks, now, (fuel - 1) as nat)
        } else {
            let seen2 = seen.push(sid);
            match first_where(bottles, by_bottle_id(sid)) {
                None => spec_work(
                    bottles,
                    guilds,
                    ds,
                    nd,
                    nm,
                    q,
                    seen2,
                    cursor,
                    picks,
                    now,
                    (fuel - 1) as nat,
                ),
                Some(i) => match spec_chain_from(bottles, bottles[i], MAX_CHAIN as nat) {
                    None => spec_work(
                        bottles,
                        guilds,
                        ds,
                        nd,
                        nm,
                        q,
                        seen2,
                        cursor,
                        picks,
                        now,
                        (fuel - 1) as nat,
                    ),
                    Some(c) => {
                        let targets = spec_pass_targets(
                            guilds,
                            c,
                            bottles[i].channel,
                            trig,
                            picks,
                            cursor,
                        );
                        let fo = spec_fan_out(bottles, ds, nd, nm, c, targets, now);
                        let cursor2 = if cursor <= usize::MAX - DELIVER_NUM {
                            cursor + DELIVER_NUM
                        } else {
                            cursor
                        };
                        fo.0 + spec_work(
                            bottles,
                            guilds,
                            spec_record_all(ds, fo.0),
                            (nd + fo.0.len()) as i64,
                            (nm + fo.0.len()) as i64,
                            q + fo.1,
                            seen2,
                            cursor2,
                            picks,
                            now,
                            (fuel - 1) as nat,
                        )
                    },
                },
            }
        }
    }
}

/// Chains equal on ids have the same prefix cut.
proof fn lemma_prefix_agree(ch1: Seq<Bottle>, ch2: Seq<Bottle>, last: Option<BottleId>)
    requires
        ch1.len() == ch2.len(),
        forall|i: int| 0 <= i < ch1.len() ==> #[trigger] ch1[i].id == ch2[i].id,
    ensures
        spec_prefix_len(ch1, last) == spec_prefix_len(ch2, last),
{
    match last {
        None => {},
        Some(x) => {
            assert forall|i: int|
                0 <= i < ch1.len() implies (by_bottle_id(x)(ch1[i]) <==> by_bottle_id(x)(
                ch2[i])) by {
                assert(ch1[i].id == ch2[i].id);
            }
            crate::find::lemma_first_where_agree(ch1, ch2, by_bottle_id(x));
        },
    }
}

/// Chains equal on ids fan out identically.
proof fn lemma_fan_out_congruent(
    bottles: Seq<Bottle>,
    ds: Seq<GuildBottle>,
    nd: i64,
    nm: i64,
    ch1: Seq<Bottle>,
    ch2: Seq<Bottle>,
    targets: Seq<ChannelId>,
    now: i64,
)
    requires
        ch1.len() == ch2.len(),
        forall|i: int| 0 <= i < ch1.len() ==> #[trigger] ch1[i].id == ch2[i].id,
    ensures
        spec_fan_out(bottles, ds, nd, nm, ch1, targets, now) == spec_fan_out(
            bottles,
            ds,
            nd,
            nm,
            ch2,
            targets,
            now,
        ),
    decreases targets.len(),
{
    if targets.len() > 0 {
        let c = targets[0];
        lemma_prefix_agree(ch1, ch2, spec_reply_target(ds, c));
        let k = spec_channel_k(ds, ch1, c);
        if spec_room(nd, nm, k) {
            let recs1 = spec_channel_records(ds, nd, nm, ch1, c, now);
            let recs2 = spec_channel_records(ds, nd, nm, ch2, c, now);
            assert(recs1 =~= recs2) by {
                match spec_reply_target(ds, c) {
                    None => {},
                    Some(x) => {
                        crate::find::lemma_first_where(ch1, by_bottle_id(x));
                    },
                }
                assert forall|j: int| 0 <= j < recs1.len() implies recs1[j] == recs2[j] by {
                    assert(ch1[k - 1 - j].id == ch2[k - 1 - j].id);
                }
            }
            lemma_fan_out_congruent(
                bottles,
                spec_record_all(ds, recs1),
                (nd + k) as i64,
                (nm + k) as i64,
                ch1,
                ch2,
                targets.drop_first(),
                now,
            );
        } else {
            lemma_fan_out_congruent(bottles, ds, nd, nm, ch1, ch2, targets.drop_first(), now);
        }
    }
}

/// Chains assembled from seeds that share a parent link agree below the
/// seed and have the same fate.
proof fn lemma_chain_seed_congruent(bottles: Seq<Bottle>, b1: Bottle, b2: Bottle, fuel: nat)
    requires
        b1.reply_to == b2.reply_to,
        fuel >= 1,
    ensures
        ({
            let r1 = spec_chain_from(bottles, b1, fuel);
            let r2 = spec_chain_from(bottles, b2, fuel);
            match (r1, r2) {
                (Some(c1), Some(c2)) => c1.len() == c2.len() && c1[0] == b1 && c2[0] == b2
                    && forall|i: int| 1 <= i < c1.len() ==> #[trigger] c1[i] == c2[i],
                (None, None) => true,
                _ => false,
            }
        }),
{
    if fuel <= 1 {
    } else {
        match b1.reply_to {
            None => {},
            Some(p) => {
                match first_where(bottles, by_bottle_id(p)) {
                    None => {},
                    Some(i) => {
                        match spec_chain_from(bottles, bottles[i], (fuel - 1) as nat) {
                            None => {},
                            Some(rest) => {
                                assert forall|t: int|
                                    1 <= t < (seq![b1] + rest).len() implies #[trigger] (seq![b1]
                                    + rest)[t] == (seq![b2] + rest)[t] by {
                                    assert((seq![b1] + rest)[t] == rest[t - 1]);
                                    assert((seq![b2] + rest)[t] == rest[t - 1]);
                                }
                            },
                        }
                    },
                }
            },
        }
    }
}

/// One fan-out pass for an assembled chain: draw targets, deliver to each
/// in order, a channel without room in the id space never stopping the
/// others, and collect the records made and the re-seed requests, each
/// tagged with the channel that raised it.
fn fan_out(
    chain: &Vec<Bottle>,
    origin: ChannelId,
    avoid: ChannelId,
    picks: &Vec<u64>,
    start: usize,
    now: i64,
    store: &mut Store,
) -> (r: (Vec<GuildBottle>, Vec<(BottleId, ChannelId)>, Vec<ChannelId>))
    requires
        old(store).wf(),
        now >= 0,
        chain@.len() <= MAX_CHAIN,
        old(store).deliveries@.len() == 0 || now >= old(store).deliveries@.last().time_received,
        forall|i: int|
            0 <= i < chain@.len() ==> 0 <= #[trigger] chain@[i].id < old(store).next_bottle_id,
    ensures
        r.2@ == spec_pass_targets(old(store).guilds@, chain@, origin, avoid, picks@, start as int),
        r.0@ == spec_fan_out(
            old(store).bottles@,
            old(store).deliveries@,
            old(store).next_delivery_id,
            old(store).next_message_id,
            chain@,
            r.2@,
            now,
        ).0,
        r.1@ == spec_fan_out(
            old(store).bottles@,
            old(store).deliveries@,
            old(store).next_delivery_id,
            old(store).next_message_id,
            chain@,
            r.2@,
            now,
        ).1,
        final(store).wf(),
        final(store).users == old(store).users,
        final(store).guilds == old(store).guilds,
        final(store).bottles == old(store).bottles,
        final(store).reports == old(store).reports,
        final(store).bans == old(store).bans,
        final(store).contributions == old(store).contributions,
        final(store).next_bottle_id == old(store).next_bottle_id,
        final(store).next_delivery_id == old(store).next_delivery_id + r.0@.len(),
        final(store).next_message_id == old(store).next_message_id + r.0@.len(),
        final(store).deliveries@ == spec_record_all(old(store).deliveries@, r.0@),
        forall|j: int|
            0 <= j < r.0@.len() ==> (#[trigger] r.0@[j]).time_received == now && r.0@[j].channel
                != origin && r.0@[j].message >= old(store).next_message_id,
{
    let sampled = sample_guild_channels(origin, DELIVER_NUM, picks, start, store);
    let all_targets = select_targets(&sampled, chain, origin);
    let mut targets: Vec<ChannelId> = Vec::new();
    let mut f: usize = 0;
    while f < all_targets.len()
        invariant
            f <= all_targets@.len(),
            targets@ == all_targets@.take(f as int).filter(not_channel(avoid)),
            forall|i: int| 0 <= i < all_targets@.len() ==> #[trigger] all_targets@[i] != origin,
            forall|i: int|
                0 <= i < targets@.len() ==> #[trigger] targets@[i] != origin && targets@[i]
                    != avoid,
        decreases all_targets@.len() - f,
    {
        proof {
            assert(all_targets@.take(f + 1) =~= all_targets@.take(f as int).push(
                all_targets@[f as int],
            ));
            all_targets@.take(f as int).lemma_filter_push(
                all_targets@[f as int],
                not_channel(avoid),
            );
        }
        if all_targets[f] != avoid {
            targets.push(all_targets[f]);
        }
        f += 1;
    }
    proof {
        assert(all_targets@.take(all_targets@.len() as int) =~= all_targets@);
    }
    let ghost bottles0 = store.bottles@;
    let ghost full = spec_fan_out(
        store.bottles@,
        store.deliveries@,
        store.next_delivery_id,
        store.next_message_id,
        chain@,
        targets@,
        now,
    );
    let mut log: Vec<GuildBottle> = Vec::new();
    let mut reseeds: Vec<(BottleId, ChannelId)> = Vec::new();
    let mut t: usize = 0;
    proof {
        assert(targets@.skip(0) =~= targets@);
        assert(log@ + full.0 =~= full.0);
        assert(reseeds@ + full.1 =~= full.1);
    }
    while t < targets.len()
        invariant
            t <= targets@.len(),
            now >= 0,
            chain@.len() <= MAX_CHAIN,
            store.wf(),
            bottles0 == old(store).bottles@,
            full == spec_fan_out(
                old(store).bottles@,
                old(store).deliveries@,
                old(store).next_delivery_id,
                old(store).next_message_id,
                chain@,
                targets@,
                now,
            ),
            forall|i: int|
                0 <= i < chain@.len() ==> 0 <= #[trigger] chain@[i].id < old(store).next_bottle_id,
            forall|i: int| 0 <= i < targets@.len() ==> #[trigger] targets@[i] != origin,
            store.users == old(store).users,
            store.guilds == old(store).guilds,
            store.bottles == old(store).bottles,
            store.reports == old(store).reports,
            store.bans == old(store).bans,
            store.contributions == old(store).contributions,
            store.next_bottle_id == old(store).next_bottle_id,
            store.next_delivery_id == old(store).next_delivery_id + log@.len(),
            store.next_message_id == old(store).next_message_id + log@.len(),
            store.deliveries@ == spec_record_all(old(store).deliveries@, log@),
            store.deliveries@.len() == 0 || now >= store.deliveries@.last().time_received,
            full.0 == log@ + spec_fan_out(
                old(store).bottles@,
                store.deliveries@,
                store.next_delivery_id,
                store.next_message_id,
                chain@,
                targets@.skip(t as int),
                now,
            ).0,
            full.1 == reseeds@ + spec_fan_out(
                old(store).bottles@,
                store.deliveries@,
                store.next_delivery_id,
                store.next_message_id,
                chain@,
                targets@.skip(t as int),
                now,
            ).1,
            forall|j: int|
                0 <= j < log@.len() ==> (#[trigger] log@[j]).time_received == now && log@[j].channel
                    != origin && log@[j].message >= old(store).next_message_id,
        decreases targets@.len() - t,
    {
        let ghost log_pre = log@;
        let ghost rs_pre = reseeds@;
        let ghost ds_pre = store.deliveries@;
        let ghost nd_pre = store.next_delivery_id;
        let ghost nm_pre = store.next_message_id;
        let ghost rest = spec_fan_out(
            bottles0,
            ds_pre,
            nd_pre,
            nm_pre,
            chain@,
            targets@.skip(t as int),
            now,
        );
        proof {
            assert(targets@.skip(t as int)[0] == targets@[t as int]);
            assert(targets@.skip(t as int).drop_first() =~= targets@.skip(t + 1));
        }
        match distribute_to_channel(chain, targets[t], now, store) {
            Ok(pair) => {
                let (mut recs, reseed) = pair;
                proof {
                    let c = targets@[t as int];
                    let k = spec_channel_k(ds_pre, chain@, c);
                    assert(spec_room(nd_pre, nm_pre, k));
                    assert(recs@ =~= spec_channel_records(ds_pre, nd_pre, nm_pre, chain@, c, now));
                    assert(reseed == spec_channel_reseed(bottles0, ds_pre, chain@, c));
                    lemma_record_all_concat(old(store).deliveries@, log_pre, recs@);
                    if recs@.len() > 0 {
                        lemma_record_all_last(ds_pre, recs@);
                    }
                    assert(log_pre + (recs@ + spec_fan_out(
                        bottles0,
                        store.deliveries@,
                        store.next_delivery_id,
                        store.next_message_id,
                        chain@,
                        targets@.skip(t + 1),
                        now,
                    ).0) =~= (log_pre + recs@) + spec_fan_out(
                        bottles0,
                        store.deliveries@,
                        store.next_delivery_id,
                        store.next_message_id,
                        chain@,
                        targets@.skip(t + 1),
                        now,
                    ).0);
                }
                log.append(&mut recs);
                match reseed {
                    Some(x) => {
                        proof {
                            assert(rs_pre + (seq![(x, targets@[t as int])] + spec_fan_out(
                                bottles0,
                                store.deliveries@,
                                store.next_delivery_id,
                                store.next_message_id,
                                chain@,
                                targets@.skip(t + 1),
                                now,
                            ).1) =~= rs_pre.push((x, targets@[t as int])) + spec_fan_out(
                                bottles0,
                                store.deliveries@,
                                store.next_delivery_id,
                                store.next_message_id,
                                chain@,
                                targets@.skip(t + 1),
                                now,
                            ).1);
                        }
                        reseeds.push((x, targets[t]));
                    },
                    None => {
                        proof {
                            assert(Seq::<(BottleId, ChannelId)>::empty() + spec_fan_out(
                                bottles0,
                                store.deliveries@,
                                store.next_delivery_id,
                                store.next_message_id,
                                chain@,
                                targets@.skip(t + 1),
                                now,
                            ).1 =~= spec_fan_out(
                                bottles0,
                                store.deliveries@,
                                store.next_delivery_id,
                                store.next_message_id,
                                chain@,
                                targets@.skip(t + 1),
                                now,
                            ).1);
                        }
                    },
                }
            },
            Err(_) => {
                proof {
                    let c = targets@[t as int];
                    let k = spec_channel_k(ds_pre, chain@, c);
                    assert(!spec_room(nd_pre, nm_pre, k));
                }
            },
        }
        t += 1;
    }
    proof {
        assert(targets@.skip(targets@.len() as int) =~= Seq::<ChannelId>::empty());
        assert(log@ + Seq::<GuildBottle>::empty() =~= log@);
        assert(reseeds@ + Seq::<(BottleId, ChannelId)>::empty() =~= reseeds@);
    }
    (log, reseeds, targets)
}

/// What one distribution call did: the first pass's selected targets, and
/// every delivery record made across it and the re-seed passes.
pub struct DistributionLog {
    pub targets: Vec<ChannelId>,
    pub records: Vec<GuildBottle>,
}

/// Distribute a bottle: assemble its reply chain, fan it out to the
/// selected targets, and work off the re-seed requests of displaced
/// bottles, each bottle seeded at most once and never back into the
/// channel whose displacement raised it, within the given work bound.
/// The record list is pinned in full: the first pass folded over its
/// targets, then the worked queue folded by [`spec_work`].
pub fn distribute_bottle(
    bottle: &Bottle,
    picks: &Vec<u64>,
    fuel: usize,
    now: i64,
    store: &mut Store,
) -> (r: Result<DistributionLog, BottleError>)
    requires
        old(store).wf(),
        now >= 0,
        0 <= bottle.id < old(store).next_bottle_id,
        old(store).deliveries@.len() == 0 || now >= old(store).deliveries@.last().time_received,
    ensures
        final(store).wf(),
        final(store).users == old(store).users,
        final(store).guilds == old(store).guilds,
        final(store).bottles == old(store).bottles,
        final(store).reports == old(store).reports,
        final(store).bans == old(store).bans,
        final(store).contributions == old(store).contributions,
        final(store).next_bottle_id == old(store).next_bottle_id,
        match r {
            Ok(log) => match spec_chain_from(old(store).bottles@, *bottle, MAX_CHAIN as nat) {
                Some(c) => {
                    let targets0 = spec_targets(
                        spec_sample_at(
                            spec_eligible_pool(old(store).guilds@, bottle.channel),
                            picks@,
                            0,
                            DELIVER_NUM as nat,
                        ),
                        c,
                        bottle.channel,
                    );
                    let fo = spec_fan_out(
                        old(store).bottles@,
                        old(store).deliveries@,
                        old(store).next_delivery_id,
                        old(store).next_message_id,
                        c,
                        targets0,
                        now,
                    );
                    &&& log.targets@ == targets0
                    &&& log.records@ == fo.0 + spec_work(
                        old(store).bottles@,
                        old(store).guilds@,
                        spec_record_all(old(store).deliveries@, fo.0),
                        (old(store).next_delivery_id + fo.0.len()) as i64,
                        (old(store).next_message_id + fo.0.len()) as i64,
                        fo.1,
                        seq![bottle.id],
                        DELIVER_NUM as int,
                        picks@,
                        now,
                        fuel as nat,
                    )
                    &&& final(store).deliveries@ == spec_record_all(
                        old(store).deliveries@,
                        log.records@,
                    )
                    &&& forall|j: int|
                        0 <= j < log.records@.len() ==> (#[trigger] log.records@[j]).time_received
                            == now && log.records@[j].message >= old(store).next_message_id
                },
                None => false,
            },
            Err(e) => {
                &&& e == BottleError::NotFound
                &&& *final(store) == *old(store)
                &&& spec_chain_from(old(store).bottles@, *bottle, MAX_CHAIN as nat) is None
            },
        },
{
    let chain = match bottle.get_reply_list(store) {
        Ok(c) => c,
        Err(e) => {
            return Err(e);
        },
    };
    let ghost bottles0 = store.bottles@;
    let ghost guilds0 = store.guilds@;
    proof {
        lemma_chain_ids(bottles0, *bottle, MAX_CHAIN as nat, store.next_bottle_id);
        lemma_chain_len(bottles0, *bottle, MAX_CHAIN as nat);
        assert forall|i: int|
            0 <= i < chain@.len() implies 0 <= #[trigger] chain@[i].id < store.next_bottle_id by {
            let c = spec_chain_from(bottles0, *bottle, MAX_CHAIN as nat).unwrap();
            assert(crate::types::same_bottle(chain@[i], c[i]));
        }
    }
    let ghost pre_deliveries = store.deliveries@;
    let (mut log, mut queue, targets_used) = fan_out(
        &chain,
        bottle.channel,
        bottle.channel,
        picks,
        0,
        now,
        store,
    );
    let ghost c0 = spec_chain_from(bottles0, *bottle, MAX_CHAIN as nat).unwrap();
    let ghost targets0 = spec_targets(
        spec_sample_at(spec_eligible_pool(guilds0, bottle.channel), picks@, 0, DELIVER_NUM as nat),
        c0,
        bottle.channel,
    );
    proof {
        // The first pass avoids the origin, which the target list already
        // excludes, so the avoidance filter changes nothing.
        assert(chain_channels(chain@) =~= chain_channels(c0));
        assert forall|i: int|
            0 <= i < chain@.len() implies #[trigger] chain@[i].id == c0[i].id by {
            assert(crate::types::same_bottle(chain@[i], c0[i]));
        }
        targets0.filter_lemma(not_channel(bottle.channel));
        spec_dedup(
            spec_sample_at(
                spec_eligible_pool(guilds0, bottle.channel),
                picks@,
                0,
                DELIVER_NUM as nat,
            ) + chain_channels(c0),
        ).filter_lemma(not_channel(bottle.channel));
        crate::find::lemma_filter_all(targets0, not_channel(bottle.channel));
        assert(targets_used@ == targets0);
        lemma_fan_out_congruent(
            bottles0,
            pre_deliveries,
            old(store).next_delivery_id,
            old(store).next_message_id,
            chain@,
            c0,
            targets0,
            now,
        );
        if log@.len() > 0 {
            lemma_record_all_last(pre_deliveries, log@);
        }
    }
    let ghost fo0 = spec_fan_out(
        bottles0,
        pre_deliveries,
        old(store).next_delivery_id,
        old(store).next_message_id,
        c0,
        targets0,
        now,
    );
    let mut seen: Vec<BottleId> = Vec::new();
    seen.push(bottle.id);
    let mut cursor: usize = DELIVER_NUM;
    let mut fuel_left: usize = fuel;
    let ghost full = fo0.0 + spec_work(
        bottles0,
        guilds0,
        spec_record_all(pre_deliveries, fo0.0),
        (old(store).next_delivery_id + fo0.0.len()) as i64,
        (old(store).next_message_id + fo0.0.len()) as i64,
        fo0.1,
        seq![bottle.id],
        DELIVER_NUM as int,
        picks@,
        now,
        fuel as nat,
    );
    proof {
        assert(seen@ =~= seq![bottle.id]);
    }
    while fuel_left > 0 && queue.len() > 0
        invariant
            now >= 0,
            store.wf(),
            bottles0 == old(store).bottles@,
            guilds0 == old(store).guilds@,
            store.users == old(store).users,
            store.guilds == old(store).guilds,
            store.bottles == old(store).bottles,
            store.reports == old(store).reports,
            store.bans == old(store).bans,
            store.contributions == old(store).contributions,
            store.next_bottle_id == old(store).next_bottle_id,
            store.next_message_id >= old(store).next_message_id,
            store.deliveries@ == spec_record_all(old(store).deliveries@, log@),
            store.deliveries@.len() == 0 || now >= store.deliveries@.last().time_received,
            full == log@ + spec_work(
                bottles0,
                guilds0,
                store.deliveries@,
                store.next_delivery_id,
                store.next_message_id,
                queue@,
                seen@,
                cursor as int,
                picks@,
                now,
                fuel_left as nat,
            ),
            forall|j: int|
                0 <= j < log@.len() ==> (#[trigger] log@[j]).time_received == now && log@[j].message
                    >= old(store).next_message_id,
        decreases fuel_left,
    {
        let ghost q_pre = queue@;
        fuel_left = fuel_left - 1;
        let entry = queue.remove(0);
        let seed_id = entry.0;
        let trig = entry.1;
        proof {
            assert(q_pre[0] == entry);
            assert(queue@ =~= q_pre.drop_first());
        }
        if contains_bottle_id(&seen, seed_id) {
            continue ;
        }
        seen.push(seed_id);
        let seed = match Bottle::get(seed_id, store) {
            Ok(b) => b,
            Err(_) => {
                continue ;
            },
        };
        proof {
            crate::find::lemma_first_where(bottles0, by_bottle_id(seed_id));
        }
        let ghost sidx = first_where(bottles0, by_bottle_id(seed_id)).unwrap();
        let seed_chain = match seed.get_reply_list(store) {
            Ok(c) => c,
            Err(_) => {
                proof {
                    lemma_chain_seed_congruent(bottles0, seed, bottles0[sidx], MAX_CHAIN as nat);
                }
                continue ;
            },
        };
        proof {
            assert(0 <= bottles0[sidx].id);
            lemma_chain_seed_congruent(bottles0, seed, bottles0[sidx], MAX_CHAIN as nat);
            lemma_chain_ids(bottles0, seed, MAX_CHAIN as nat, store.next_bottle_id);
            lemma_chain_len(bottles0, seed, MAX_CHAIN as nat);
            assert forall|i: int|
                0 <= i < seed_chain@.len() implies 0 <= #[trigger] seed_chain@[i].id
                < store.next_bottle_id by {
                let c = spec_chain_from(bottles0, seed, MAX_CHAIN as nat).unwrap();
                assert(crate::types::same_bottle(seed_chain@[i], c[i]));
            }
        }
        let ghost cw = spec_chain_from(bottles0, bottles0[sidx], MAX_CHAIN as nat).unwrap();
        proof {
            let cs = spec_chain_from(bottles0, seed, MAX_CHAIN as nat).unwrap();
            assert forall|i: int|
                0 <= i < seed_chain@.len() implies #[trigger] seed_chain@[i].id == cw[i].id by {
                assert(crate::types::same_bottle(seed_chain@[i], cs[i]));
                if i >= 1 {
                    assert(cs[i] == cw[i]);
                }
            }
            assert(chain_channels(seed_chain@) =~= chain_channels(cw)) by {
                assert forall|i: int|
                    0 <= i < seed_chain@.len() implies #[trigger] chain_channels(seed_chain@)[i]
                    == chain_channels(cw)[i] by {
                    let cs2 = spec_chain_from(bottles0, seed, MAX_CHAIN as nat).unwrap();
                    assert(crate::types::same_bottle(seed_chain@[i], cs2[i]));
                    if i >= 1 {
                        assert(cs2[i] == cw[i]);
                    }
                }
            }
        }
        let ghost log_pre = log@;
        let ghost ds_pre = store.deliveries@;
        let ghost nd_pre = store.next_delivery_id;
        let ghost nm_pre = store.next_message_id;
        let (mut recs, mut rs, _) = fan_out(
            &seed_chain,
            seed.channel,
            trig,
            picks,
            cursor,
            now,
            store,
        );
        proof {
            let tgt = spec_pass_targets(
                guilds0,
                cw,
                bottles0[sidx].channel,
                trig,
                picks@,
                cursor as int,
            );
            assert(seed.channel == bottles0[sidx].channel);
            assert(spec_pass_targets(guilds0, seed_chain@, seed.channel, trig, picks@, cursor as int)
                == tgt);
            lemma_fan_out_congruent(bottles0, ds_pre, nd_pre, nm_pre, seed_chain@, cw, tgt, now);
            lemma_record_all_concat(old(store).deliveries@, log_pre, recs@);
            if recs@.len() > 0 {
                lemma_record_all_last(ds_pre, recs@);
            }
            assert(log_pre + (recs@ + spec_work(
                bottles0,
                guilds0,
                store.deliveries@,
                store.next_delivery_id,
                store.next_message_id,
                queue@ + rs@,
                seen@,
                (if cursor <= usize::MAX - DELIVER_NUM {
                    cursor as int + DELIVER_NUM
                } else {
                    cursor as int
                }),
                picks@,
                now,
                fuel_left as nat,
            )) =~= (log_pre + recs@) + spec_work(
                bottles0,
                guilds0,
                store.deliveries@,
                store.next_delivery_id,
                store.next_message_id,
                queue@ + rs@,
                seen@,
                (if cursor <= usize::MAX - DELIVER_NUM {
                    cursor as int + DELIVER_NUM
                } else {
                    cursor as int
                }),
                picks@,
                now,
                fuel_left as nat,
            ));
        }
        log.append(&mut recs);
        queue.append(&mut rs);
        if cursor <= usize::MAX - DELIVER_NUM {
            cursor = cursor + DELIVER_NUM;
        }
    }
    proof {
        assert(spec_work(
            bottles0,
            guilds0,
            store.deliveries@,
            store.next_delivery_id,
            store.next_message_id,
            queue@,
            seen@,
            cursor as int,
            picks@,
            now,
            fuel_left as nat,
        ) =~= Seq::<GuildBottle>::empty());
        assert(log@ + Seq::<GuildBottle>::empty() =~= log@);
    }
    Ok(DistributionLog { targets: targets_used, records: log })
}

} // verus!
