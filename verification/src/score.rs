//! The point economy: saturating experience arithmetic and the award of
//! points to a bottle's author and, for community bottles, to the
//! (guild, user) contribution row.
use vstd::prelude::*;
use crate::data::{Store, spec_get_contribution, spec_get_user};
use crate::types::{Bottle, GuildContribution, Origin, User, UserId};

verus! {

/// Experience sums saturate at the ends of the type instead of wrapping.
pub open spec fn spec_xp_add(a: i64, b: i64) -> i64 {
    if a + b > i64::MAX {
        i64::MAX
    } else if a + b < i64::MIN {
        i64::MIN
    } else {
        (a + b) as i64
    }
}

/// Saturating experience addition.
pub fn xp_add(a: i64, b: i64) -> (r: i64)
    ensures
        r == spec_xp_add(a, b),
{
    if b >= 0 {
        if a <= i64::MAX - b {
            a + b
        } else {
            i64::MAX
        }
    } else {
        if a >= i64::MIN - b {
            a + b
        } else {
            i64::MIN
        }
    }
}

/// The user row as it stands after an award of `xp` points.
pub open spec fn spec_awarded_user(users: Seq<User>, uid: UserId, xp: i64) -> User {
    let u = spec_get_user(users, uid);
    User { xp: spec_xp_add(u.xp, xp), ..u }
}

/// The contribution row as it stands after an award of `xp` points.
pub open spec fn spec_awarded_contribution(
    cs: Seq<GuildContribution>,
    gid: i64,
    uid: UserId,
    xp: i64,
) -> GuildContribution {
    let c = spec_get_contribution(cs, gid, uid);
    GuildContribution { xp: spec_xp_add(c.xp, xp), ..c }
}

/// Credit `xp` points to the bottle's author, and to the author's
/// contribution row of the bottle's community when it has one.
pub fn give_xp(bottle: &Bottle, xp: i64, store: &mut Store)
    requires
        old(store).wf(),
    ensures
        final(store).wf(),
        spec_get_user(final(store).users@, bottle.user) == spec_awarded_user(
            old(store).users@,
            bottle.user,
            xp,
        ),
        forall|uid: UserId|
            uid != bottle.user ==> #[trigger] spec_get_user(final(store).users@, uid)
                == spec_get_user(old(store).users@, uid),
        match bottle.origin {
            Origin::Community(g) => {
                &&& spec_get_contribution(final(store).contributions@, g, bottle.user)
                    == spec_awarded_contribution(
                    old(store).contributions@,
                    g,
                    bottle.user,
                    xp,
                )
                &&& forall|gid: i64, uid: UserId|
                    !(gid == g && uid == bottle.user) ==> #[trigger] spec_get_contribution(
                        final(store).contributions@,
                        gid,
                        uid,
                    ) == spec_get_contribution(old(store).contributions@, gid, uid)
            },
            Origin::Anonymous => final(store).contributions == old(store).contributions,
        },
        final(store).guilds == old(store).guilds,
        final(store).bottles == old(store).bottles,
        final(store).deliveries == old(store).deliveries,
        final(store).reports == old(store).reports,
        final(store).bans == old(store).bans,
        final(store).next_bottle_id == old(store).next_bottle_id,
        final(store).next_delivery_id == old(store).next_delivery_id,
        final(store).next_message_id == old(store).next_message_id,
{
    let mut u = User::get(bottle.user, store);
    u.xp = xp_add(u.xp, xp);
    u.update(store);
    proof {
        crate::data::lemma_get_user_id(old(store).users@, bottle.user);
        crate::data::lemma_get_user_upsert(old(store).users@, u, bottle.user);
        assert forall|uid: UserId|
            uid != bottle.user implies #[trigger] spec_get_user(store.users@, uid)
            == spec_get_user(old(store).users@, uid) by {
            crate::data::lemma_get_user_upsert(old(store).users@, u, uid);
        }
    }
    match bottle.origin {
        Origin::Community(g) => {
            let ghost mid_store = *store;
            let mut c = GuildContribution::get(g, bottle.user, store);
            c.xp = xp_add(c.xp, xp);
            c.update(store);
            proof {
                assert(mid_store.contributions@ == old(store).contributions@);
                crate::data::lemma_get_contribution_key(old(store).contributions@, g, bottle.user);
                crate::data::lemma_get_contribution_upsert(
                    old(store).contributions@,
                    c,
                    g,
                    bottle.user,
                );
                assert forall|gid: i64, uid: UserId|
                    !(gid == g && uid == bottle.user) implies #[trigger] spec_get_contribution(
                    store.contributions@,
                    gid,
                    uid,
                ) == spec_get_contribution(old(store).contributions@, gid, uid) by {
                    crate::data::lemma_get_contribution_upsert(
                        old(store).contributions@,
                        c,
                        gid,
                        uid,
                    );
                }
            }
        },
        Origin::Anonymous => {},
    }
}

} // verus!
