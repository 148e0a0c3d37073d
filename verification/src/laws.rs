//! The engine's standing laws, each proved from what the modules state:
//! the chain bound, the uniqueness of delivery records, the
//! unrepeated-prefix cut, and what a ban toggle does and does not erase.
use vstd::prelude::*;
use crate::config::{Config, MAX_CHAIN};
use crate::data::{
    Store, by_ban_user, by_bottle_id, lemma_chain_len, not_author, spec_chain_from,
};
use crate::distribute::spec_prefix_len;
use crate::find::{first_where, lemma_first_where, lemma_first_where_is, lemma_first_where_none};
use crate::moderate::{EditAction, spec_ban_toggled};
use crate::types::{Bottle, BottleId, UserId};

verus! {

/// A reply chain never outgrows the hop bound: it always holds its seed,
/// and a chain whose last entry still has a parent was cut at exactly the
/// bound.
pub proof fn lemma_chain_bounded(bottles: Seq<Bottle>, b: Bottle)
    ensures
        match spec_chain_from(bottles, b, MAX_CHAIN as nat) {
            Some(c) => {
                &&& 1 <= c.len() <= MAX_CHAIN
                &&& c[0] == b
                &&& (c.last().reply_to is Some ==> c.len() == MAX_CHAIN)
            },
            None => true,
        },
{
    lemma_chain_len(bottles, b, MAX_CHAIN as nat);
}

/// A channel never holds two delivery records for the same bottle: the
/// store's invariant, which every operation of the engine preserves,
/// keeps one record per (bottle, channel) pair.
pub proof fn lemma_no_duplicate_delivery(store: Store, i: int, j: int)
    requires
        store.wf(),
        0 <= i < store.deliveries@.len(),
        0 <= j < store.deliveries@.len(),
        i != j,
    ensures
        !(store.deliveries@[i].bottle == store.deliveries@[j].bottle && store.deliveries@[i].channel
            == store.deliveries@[j].channel),
{
}

/// With the channel's last-delivered bottle sitting at chain position
/// `k`, the unrepeated prefix covers exactly the `k` newest entries; at
/// `k` of zero nothing is delivered. Delivery of exactly those entries,
/// oldest first, is what `distribute_to_channel` ensures of its record
/// list.
pub proof fn lemma_prefix_cut(chain: Seq<Bottle>, x: BottleId, k: int)
    requires
        0 <= k < chain.len(),
        chain[k].id == x,
        forall|j: int| 0 <= j < k ==> chain[j].id != x,
    ensures
        spec_prefix_len(chain, Some(x)) == k,
{
    lemma_first_where_is(chain, by_bottle_id(x), k);
}

/// A chain that nowhere holds the channel's last-delivered bottle is
/// unrepeated in full.
pub proof fn lemma_prefix_whole(chain: Seq<Bottle>, x: BottleId)
    requires
        forall|j: int| 0 <= j < chain.len() ==> chain[j].id != x,
    ensures
        spec_prefix_len(chain, Some(x)) == chain.len(),
{
    lemma_first_where_none(chain, by_bottle_id(x));
}

/// Standing a ban erases every bottle its target ever authored, across
/// every community, and leaves a ban record standing against the target.
pub proof fn lemma_ban_add_erases_author(
    pre: Store,
    post: Store,
    target: UserId,
    report: Option<BottleId>,
    cfg: Config,
    edits: Seq<EditAction>,
)
    requires
        spec_ban_toggled(pre, post, target, report, true, cfg, edits),
    ensures
        forall|i: int| 0 <= i < post.bottles@.len() ==> #[trigger] post.bottles@[i].user != target,
        first_where(post.bans@, by_ban_user(target)) is Some,
{
    pre.bottles@.filter_lemma(not_author(target));
    let at = first_where(pre.bans@, by_ban_user(target));
    lemma_first_where(pre.bans@, by_ban_user(target));
    lemma_first_where(post.bans@, by_ban_user(target));
    match at {
        Some(i) => {
            assert(post.bans@[i].user == target);
            if first_where(post.bans@, by_ban_user(target)) is None {
                assert(false);
            }
        },
        None => {
            assert(post.bans@[pre.bans@.len() as int].user == target);
            if first_where(post.bans@, by_ban_user(target)) is None {
                assert(false);
            }
        },
    }
}

/// Lifting a ban deletes only the ban record: no bottle comes back and
/// none goes away.
pub proof fn lemma_ban_remove_keeps_bottles(
    pre: Store,
    post: Store,
    target: UserId,
    report: Option<BottleId>,
    cfg: Config,
    edits: Seq<EditAction>,
)
    requires
        spec_ban_toggled(pre, post, target, report, false, cfg, edits),
    ensures
        post.bottles == pre.bottles,
        first_where(post.bans@, by_ban_user(target)) is None,
        edits.len() == 0,
{
    pre.bans@.filter_lemma(crate::data::not_ban_user(target));
    lemma_first_where_none(post.bans@, by_ban_user(target));
}

} // verus!
