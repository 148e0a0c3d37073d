//! The submission guard: cooldown, ban and content checks with ticket
//! escalation, reply-marker resolution, scoring, and persistence of the
//! admitted bottle.
use vstd::prelude::*;
use crate::config::Config;
use crate::data::{
    Store, by_author, by_ban_user, by_bottle_id, by_delivery_channel, lemma_get_user_id,
    lemma_get_user_upsert, spec_get_contribution, spec_get_user,
};
use crate::find::{first_where, last_where};
use crate::score::{give_xp, spec_awarded_contribution, spec_awarded_user, spec_xp_add, xp_add};
use crate::text::{skip_bytes, spec_is_prefix, spec_trim, starts_with_bytes, trim_bytes};
use crate::types::{
    Ban, Bottle, BottleError, BottleId, ChannelId, GuildBottle, GuildId, MakeBottle, MessageId,
    Origin, User, UserId, opt_bytes, same_bottle,
};

verus! {

/// A prospective bottle, as plain values: the caller has already read the
/// platform message and picked out these fields.
pub struct Submission {
    pub user: UserId,
    pub message: MessageId,
    pub channel: ChannelId,
    pub origin: Origin,
    pub contents: Vec<u8>,
    pub url: Option<Vec<u8>>,
    pub image: Option<Vec<u8>>,
}

/// What became of a submission: admitted and persisted; rejected by a
/// guard check, silently or with a message owed to the user; or failed
/// against the store.
pub enum SubmitOutcome {
    Admitted { bottle: Bottle },
    Rejected { error: BottleError, silent: bool },
    Failed { error: BottleError },
}

/// A rejection ticket counter one higher, held at its ceiling.
pub open spec fn ticket_bump(t: u32) -> u32 {
    if t < u32::MAX {
        (t + 1) as u32
    } else {
        t
    }
}

/// The user row after one more rejection ticket.
pub open spec fn spec_bumped_user(users: Seq<User>, uid: UserId) -> User {
    let u = spec_get_user(users, uid);
    User { tickets: ticket_bump(u.tickets), ..u }
}

/// The user's most recently pushed bottle.
pub open spec fn spec_last_push(bottles: Seq<Bottle>, uid: UserId) -> Option<Bottle> {
    match last_where(bottles, by_author(uid)) {
        Some(i) => Some(bottles[i]),
        None => None,
    }
}

/// Whether the cooldown window still covers `now`.
pub open spec fn spec_cooldown_hit(bottles: Seq<Bottle>, uid: UserId, now: i64, cfg: Config) -> bool {
    match spec_last_push(bottles, uid) {
        Some(b) => now - b.time_pushed < cfg.cooldown_seconds,
        None => false,
    }
}

/// The whole seconds still to wait, reported with a rate-limit rejection.
pub open spec fn spec_cooldown_wait(bottles: Seq<Bottle>, uid: UserId, now: i64, cfg: Config) -> i64 {
    match spec_last_push(bottles, uid) {
        Some(b) => (cfg.cooldown_seconds - (now - b.time_pushed)) as i64,
        None => 0,
    }
}

/// Whether a ban record stands against the user.
pub open spec fn spec_banned(bans: Seq<Ban>, uid: UserId) -> bool {
    first_where(bans, by_ban_user(uid)) is Some
}

/// The text behind a reply marker, when one leads the text.
pub open spec fn spec_reply_body(c: Seq<u8>, cfg: Config) -> Option<Seq<u8>> {
    if spec_is_prefix(cfg.reply_prefix@, c) {
        Some(c.skip(cfg.reply_prefix@.len() as int))
    } else if spec_is_prefix(cfg.alt_reply_prefix@, c) {
        Some(c.skip(cfg.alt_reply_prefix@.len() as int))
    } else {
        None
    }
}

/// The bottle most recently delivered into the channel: what a reply
/// written there replies to.
pub open spec fn spec_reply_target(ds: Seq<GuildBottle>, ch: ChannelId) -> Option<BottleId> {
    match last_where(ds, by_delivery_channel(ch)) {
        Some(i) => Some(ds[i].bottle),
        None => None,
    }
}

/// The submission text as stored: any reply marker stripped, whitespace
/// trimmed.
pub open spec fn spec_trimmed(c: Seq<u8>, cfg: Config) -> Seq<u8> {
    spec_trim(
        match spec_reply_body(c, cfg) {
            Some(b) => b,
            None => c,
        },
    )
}

/// The points one admission earns: base, plus the link and media bonuses.
pub open spec fn spec_total_xp(sub: Submission, cfg: Config) -> i64 {
    let t1 = if sub.url is Some {
        spec_xp_add(cfg.push_xp, cfg.url_xp)
    } else {
        cfg.push_xp
    };
    if sub.image is Some {
        spec_xp_add(t1, cfg.image_xp)
    } else {
        t1
    }
}

/// Everything but the user rows is as it was.
pub open spec fn only_users_changed(pre: Store, post: Store) -> bool {
    &&& post.guilds == pre.guilds
    &&& post.bottles == pre.bottles
    &&& post.deliveries == pre.deliveries
    &&& post.reports == pre.reports
    &&& post.bans == pre.bans
    &&& post.contributions == pre.contributions
    &&& post.next_bottle_id == pre.next_bottle_id
    &&& post.next_delivery_id == pre.next_delivery_id
    &&& post.next_message_id == pre.next_message_id
}

/// A rejection went through the ticket escalation: the user's counter is
/// one higher and nothing else moved.
pub open spec fn spec_ticket_bumped(pre: Store, post: Store, uid: UserId) -> bool {
    &&& only_users_changed(pre, post)
    &&& spec_get_user(post.users@, uid) == spec_bumped_user(pre.users@, uid)
    &&& forall|x: UserId|
        x != uid ==> #[trigger] spec_get_user(post.users@, x) == spec_get_user(pre.users@, x)
}

/// The user rows after an admission that got as far as scoring: the
/// submitter's tickets reset and, when the bottle was persisted, the push
/// points added; the replied author's bonus when one is owed; no other row
/// moved.
pub open spec fn users_scored(
    pre: Store,
    post: Store,
    sub_user: UserId,
    bonus: Option<Bottle>,
    pushed: Option<i64>,
    cfg: Config,
) -> bool {
    let u0 = spec_get_user(pre.users@, sub_user);
    let u_final = match pushed {
        Some(t) => User { tickets: 0u32, xp: spec_xp_add(u0.xp, t), ..u0 },
        None => User { tickets: 0u32, ..u0 },
    };
    &&& spec_get_user(post.users@, sub_user) == u_final
    &&& match bonus {
        Some(rb) => {
            &&& spec_get_user(post.users@, rb.user) == spec_awarded_user(
                pre.users@,
                rb.user,
                cfg.reply_xp,
            )
            &&& forall|uid: UserId|
                uid != sub_user && uid != rb.user ==> #[trigger] spec_get_user(post.users@, uid)
                    == spec_get_user(pre.users@, uid)
        },
        None => forall|uid: UserId|
            uid != sub_user ==> #[trigger] spec_get_user(post.users@, uid) == spec_get_user(
                pre.users@,
                uid,
            ),
    }
}

/// The contribution rows after the same scoring: the replied bottle's
/// community credits its author the bonus, the submission's community
/// credits the submitter the push points, and no other row moved.
pub open spec fn contributions_scored(
    pre: Store,
    post: Store,
    sub: Submission,
    bonus: Option<Bottle>,
    pushed: Option<i64>,
    cfg: Config,
) -> bool {
    let bonus_pair: Option<(GuildId, UserId)> = match bonus {
        Some(rb) => match rb.origin {
            Origin::Community(g) => Some((g, rb.user)),
            Origin::Anonymous => None,
        },
        None => None,
    };
    let push_pair: Option<(GuildId, UserId)> = match pushed {
        Some(_) => match sub.origin {
            Origin::Community(g) => Some((g, sub.user)),
            Origin::Anonymous => None,
        },
        None => None,
    };
    &&& match bonus_pair {
        Some((g, u)) => spec_get_contribution(post.contributions@, g, u)
            == spec_awarded_contribution(pre.contributions@, g, u, cfg.reply_xp),
        None => true,
    }
    &&& match (push_pair, pushed) {
        (Some((g, u)), Some(t)) => spec_get_contribution(post.contributions@, g, u)
            == spec_awarded_contribution(pre.contributions@, g, u, t),
        _ => true,
    }
    &&& forall|g: GuildId, u: UserId|
        bonus_pair != Some((g, u)) && push_pair != Some((g, u)) ==> #[trigger] spec_get_contribution(
            post.contributions@,
            g,
            u,
        ) == spec_get_contribution(pre.contributions@, g, u)
}

/// What holds after the admission path has passed every guard: the reply
/// author is fetched, scoring is applied, and the bottle is persisted
/// unless the id space is spent.
pub open spec fn spec_make_post(
    pre: Store,
    post: Store,
    sub: Submission,
    now: i64,
    cfg: Config,
    r: SubmitOutcome,
    reply_to: Option<BottleId>,
    bonus: Option<Bottle>,
) -> bool {
    let total = spec_total_xp(sub, cfg);
    if pre.next_bottle_id == i64::MAX {
        &&& r == (SubmitOutcome::Failed { error: BottleError::StoreFailure })
        &&& users_scored(pre, post, sub.user, bonus, None, cfg)
        &&& contributions_scored(pre, post, sub, bonus, None, cfg)
        &&& post.guilds == pre.guilds
        &&& post.bottles == pre.bottles
        &&& post.deliveries == pre.deliveries
        &&& post.reports == pre.reports
        &&& post.bans == pre.bans
        &&& post.next_bottle_id == pre.next_bottle_id
        &&& post.next_delivery_id == pre.next_delivery_id
        &&& post.next_message_id == pre.next_message_id
    } else {
        match r {
            SubmitOutcome::Admitted { bottle } => {
                &&& bottle.id == pre.next_bottle_id
                &&& bottle.user == sub.user
                &&& bottle.message == sub.message
                &&& bottle.reply_to == reply_to
                &&& bottle.channel == sub.channel
                &&& bottle.origin == sub.origin
                &&& bottle.contents@ == spec_trimmed(sub.contents@, cfg)
                &&& opt_bytes(bottle.url) == opt_bytes(sub.url)
                &&& opt_bytes(bottle.image) == opt_bytes(sub.image)
                &&& bottle.time_pushed == now
                &&& post.bottles@.len() == pre.bottles@.len() + 1
                &&& post.bottles@.drop_last() == pre.bottles@
                &&& same_bottle(post.bottles@.last(), bottle)
                &&& post.next_bottle_id == pre.next_bottle_id + 1
                &&& users_scored(pre, post, sub.user, bonus, Some(total), cfg)
                &&& contributions_scored(pre, post, sub, bonus, Some(total), cfg)
                &&& post.guilds == pre.guilds
                &&& post.deliveries == pre.deliveries
                &&& post.reports == pre.reports
                &&& post.bans == pre.bans
                &&& post.next_delivery_id == pre.next_delivery_id
                &&& post.next_message_id == pre.next_message_id
            },
            _ => false,
        }
    }
}

/// The whole contract of one submission, every guard check in its order:
/// cooldown, ban, reply resolution, content floor, then ticket reset,
/// scoring and persistence.
pub open spec fn spec_submit_post(
    pre: Store,
    post: Store,
    sub: Submission,
    now: i64,
    cfg: Config,
    r: SubmitOutcome,
) -> bool {
    let u0 = spec_get_user(pre.users@, sub.user);
    let silent = ticket_bump(u0.tickets) > cfg.max_tickets;
    let reply = spec_reply_body(sub.contents@, cfg);
    let target = spec_reply_target(pre.deliveries@, sub.channel);
    if !u0.admin && spec_cooldown_hit(pre.bottles@, sub.user, now, cfg) {
        &&& r == (SubmitOutcome::Rejected {
            error: BottleError::RateLimited {
                wait: spec_cooldown_wait(pre.bottles@, sub.user, now, cfg),
            },
            silent,
        })
        &&& spec_ticket_bumped(pre, post, sub.user)
    } else if !u0.admin && spec_banned(pre.bans@, sub.user) {
        &&& r == (SubmitOutcome::Rejected { error: BottleError::Banned, silent })
        &&& spec_ticket_bumped(pre, post, sub.user)
    } else if reply is Some && target is None {
        &&& r == (SubmitOutcome::Rejected { error: BottleError::NoReplyTarget, silent: false })
        &&& post == pre
    } else if !u0.admin && sub.url is None && sub.image is None && spec_trimmed(sub.contents@, cfg).len()
        < cfg.min_chars {
        &&& r == (SubmitOutcome::Rejected { error: BottleError::TooShort, silent })
        &&& spec_ticket_bumped(pre, post, sub.user)
    } else {
        let rt: Option<BottleId> = match reply {
            Some(_) => target,
            None => None,
        };
        match rt {
            Some(t) => match first_where(pre.bottles@, by_bottle_id(t)) {
                None => {
                    &&& r == (SubmitOutcome::Failed { error: BottleError::NotFound })
                    &&& only_users_changed(pre, post)
                    &&& spec_get_user(post.users@, sub.user) == (User {
                        tickets: 0u32,
                        ..spec_get_user(pre.users@, sub.user)
                    })
                    &&& forall|uid: UserId|
                        uid != sub.user ==> #[trigger] spec_get_user(post.users@, uid)
                            == spec_get_user(pre.users@, uid)
                },
                Some(k) => {
                    let rb = pre.bottles@[k];
                    spec_make_post(
                        pre,
                        post,
                        sub,
                        now,
                        cfg,
                        r,
                        rt,
                        if rb.user != sub.user {
                            Some(rb)
                        } else {
                            None
                        },
                    )
                },
            },
            None => spec_make_post(pre, post, sub, now, cfg, r, None, None),
        }
    }
}

/// Charge one rejection ticket and shape the rejection, silent past the
/// configured ceiling.
fn ticket_reject(store: &mut Store, uid: UserId, err: BottleError, cfg: &Config) -> (r:
    SubmitOutcome)
    requires
        old(store).wf(),
    ensures
        final(store).wf(),
        spec_ticket_bumped(*old(store), *final(store), uid),
        r == (SubmitOutcome::Rejected {
            error: err,
            silent: ticket_bump(spec_get_user(old(store).users@, uid).tickets) > cfg.max_tickets,
        }),
{
    let mut u = User::get(uid, store);
    if u.tickets < u32::MAX {
        u.tickets = u.tickets + 1;
    }
    u.update(store);
    proof {
        lemma_get_user_id(old(store).users@, uid);
        lemma_get_user_upsert(old(store).users@, u, uid);
        assert forall|x: UserId|
            x != uid implies #[trigger] spec_get_user(store.users@, x) == spec_get_user(
            old(store).users@,
            x,
        ) by {
            lemma_get_user_upsert(old(store).users@, u, x);
        }
    }
    let silent = u.tickets > cfg.max_tickets;
    SubmitOutcome::Rejected { error: err, silent }
}

/// Decide one submission at the given time: admit it into the store after
/// every guard check, or reject or fail it, exactly as
/// [`spec_submit_post`] lays out.
pub fn submit_bottle(sub: &Submission, now: i64, store: &mut Store, cfg: &Config) -> (r:
    SubmitOutcome)
    requires
        old(store).wf(),
        now >= 0,
        old(store).bottles@.len() == 0 || now >= old(store).bottles@.last().time_pushed,
    ensures
        final(store).wf(),
        spec_submit_post(*old(store), *final(store), *sub, now, *cfg, r),
{
    let user = User::get(sub.user, store);
    proof {
        lemma_get_user_id(old(store).users@, sub.user);
    }
    // Cooldown gate.
    match user.get_bottle(store) {
        Ok(lb) => {
            proof {
                let i = last_where(store.bottles@, by_author(sub.user)).unwrap();
                crate::find::lemma_last_where(store.bottles@, by_author(sub.user));
                assert(0 <= store.bottles@[i].id);
                if i < store.bottles@.len() - 1 {
                    assert(store.bottles@[i].time_pushed <= store.bottles@[store.bottles@.len()
                        - 1].time_pushed);
                }
            }
            let since = now - lb.time_pushed;
            if since < cfg.cooldown_seconds && !user.admin {
                let wait = cfg.cooldown_seconds - since;
                return ticket_reject(store, sub.user, BottleError::RateLimited { wait }, cfg);
            }
        },
        Err(_) => {},
    }
    // Ban gate.
    if !user.admin && user.get_banned(store) {
        return ticket_reject(store, sub.user, BottleError::Banned, cfg);
    }
    // Reply marker resolution.
    let is_reply: bool;
    let body: Vec<u8>;
    if starts_with_bytes(&sub.contents, &cfg.reply_prefix) {
        is_reply = true;
        body = skip_bytes(&sub.contents, cfg.reply_prefix.len());
    } else if starts_with_bytes(&sub.contents, &cfg.alt_reply_prefix) {
        is_reply = true;
        body = skip_bytes(&sub.contents, cfg.alt_reply_prefix.len());
    } else {
        is_reply = false;
        body = crate::data::copy_bytes(&sub.contents);
    }
    let reply_to: Option<BottleId> = if is_reply {
        match GuildBottle::get_last(sub.channel, store) {
            Ok(d) => Some(d.bottle),
            Err(_) => {
                return SubmitOutcome::Rejected { error: BottleError::NoReplyTarget, silent: false };
            },
        }
    } else {
        None
    };
    // Content floor.
    let trimmed = trim_bytes(&body);
    if sub.url.is_none() && sub.image.is_none() && trimmed.len() < cfg.min_chars && !user.admin {
        return ticket_reject(store, sub.user, BottleError::TooShort, cfg);
    }
    // Admission: the ticket counter resets before anything is scored.
    let mut u2 = user;
    u2.tickets = 0;
    u2.update(store);
    proof {
        lemma_get_user_upsert(old(store).users@, u2, sub.user);
        assert forall|x: UserId|
            x != sub.user implies #[trigger] spec_get_user(store.users@, x) == spec_get_user(
            old(store).users@,
            x,
        ) by {
            lemma_get_user_upsert(old(store).users@, u2, x);
        }
    }
    let ghost reset_store = *store;
    // Reply bonus to the original author, never to a self-reply.
    let ghost bonus: Option<Bottle> = None;
    match reply_to {
        Some(rt) => {
            match Bottle::get(rt, store) {
                Ok(replied) => {
                    if replied.user != sub.user {
                        proof {
                            let k = first_where(store.bottles@, by_bottle_id(rt)).unwrap();
                            bonus = Some(store.bottles@[k]);
                        }
                        give_xp(&replied, cfg.reply_xp, store);
                    }
                },
                Err(_) => {
                    return SubmitOutcome::Failed { error: BottleError::NotFound };
                },
            }
        },
        None => {},
    }
    let ghost scored_store = *store;
    // The bottle itself.
    let mut xp = cfg.push_xp;
    if sub.url.is_some() {
        xp = xp_add(xp, cfg.url_xp);
    }
    if sub.image.is_some() {
        xp = xp_add(xp, cfg.image_xp);
    }
    proof {
        match reply_to {
            Some(rt) => {
                let i = last_where(old(store).deliveries@, by_delivery_channel(sub.channel)).unwrap();
                crate::find::lemma_last_where(old(store).deliveries@, by_delivery_channel(sub.channel));
                assert(0 <= old(store).deliveries@[i].id);
            },
            None => {},
        }
    }
    let mb = MakeBottle {
        user: sub.user,
        message: sub.message,
        reply_to,
        channel: sub.channel,
        origin: sub.origin,
        contents: trimmed,
        url: crate::data::copy_opt_bytes(&sub.url),
        image: crate::data::copy_opt_bytes(&sub.image),
        time_pushed: now,
    };
    match mb.make(store) {
        Ok(b) => {
            give_xp(&b, xp, store);
            SubmitOutcome::Admitted { bottle: b }
        },
        Err(e) => SubmitOutcome::Failed { error: e },
    }
}

/// Decide one submission at the wall clock's time, as [`submit_bottle`]
/// does at a given time. A clock reading behind the latest stored push
/// time is held at that time, so stored times never run backwards.
pub fn new_bottle(sub: &Submission, store: &mut Store, cfg: &Config) -> (r: SubmitOutcome)
    requires
        old(store).wf(),
    ensures
        final(store).wf(),
        exists|now: i64|
            now >= 0 && spec_submit_post(*old(store), *final(store), *sub, now, *cfg, r),
{
    let clock_now = crate::clock::current_unix_seconds();
    let n = store.bottles.len();
    let now: i64;
    if n > 0 {
        proof {
            assert(0 <= store.bottles@[n - 1].id);
        }
        let lt = store.bottles[n - 1].time_pushed;
        now = if clock_now < lt {
            lt
        } else {
            clock_now
        };
    } else {
        now = clock_now;
    }
    let r = submit_bottle(sub, now, store, cfg);
    proof {
        assert(spec_submit_post(*old(store), *store, *sub, now, *cfg, r));
    }
    r
}

} // verus!
