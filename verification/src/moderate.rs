//! The moderation handler: reaction events from administrators turn into
//! ban toggles and bottle deletions, deletions cascade as edit actions
//! over every recorded delivery outside the administrative channel, and
//! reports are filed once per bottle with the reporter's bonus.
use vstd::prelude::*;
use crate::config::Config;
use crate::data::{
    Store, by_author, by_ban_user, by_bottle_id, by_delivery_message, by_report_bottle,
    by_report_message, ids_of, lemma_get_user_id, lemma_get_user_upsert, not_author,
    not_bottle_id, not_ban_user, spec_get_user,
};
use crate::distribute::spec_record_all;
use crate::find::{
    first_where, lemma_filter_congruent, lemma_first_where, upserted,
};
use crate::score::{spec_awarded_user, xp_add};
use crate::types::{
    Ban, Bottle, BottleError, BottleId, ChannelId, GuildBottle, MakeGuildBottle, MessageId,
    Report, User, UserId,
};

verus! {

/// One best-effort platform edit: replace the rendered message with the
/// deleted-bottle placeholder.
#[derive(Clone, Copy, PartialEq, Eq, Structural, Debug)]
pub struct EditAction {
    pub channel: ChannelId,
    pub message: MessageId,
}

/// A reaction's emoji: a plain symbol, or a custom one the handler
/// ignores.
pub enum ReactionEmoji {
    Unicode(Vec<u8>),
    Custom,
}

/// Delivery records of this bottle whose rendering must be blanked: all
/// but those in the administrative channel.
pub open spec fn by_edit_target(bid: BottleId, admin: ChannelId) -> spec_fn(GuildBottle) -> bool {
    |d: GuildBottle| d.bottle == bid && d.channel != admin
}

/// The edit actions for a run of delivery records.
pub open spec fn edits_of(ds: Seq<GuildBottle>) -> Seq<EditAction> {
    ds.map_values(|d: GuildBottle| EditAction { channel: d.channel, message: d.message })
}

/// Bottles whose id is not among `ids`.
pub open spec fn keep_not_in(ids: Seq<BottleId>) -> spec_fn(Bottle) -> bool {
    |b: Bottle| !ids.contains(b.id)
}

/// The edit actions of deleting each of `victims` in turn, all computed
/// against one delivery ledger.
pub open spec fn spec_cascade_edits(
    ds: Seq<GuildBottle>,
    victims: Seq<BottleId>,
    admin: ChannelId,
) -> Seq<EditAction>
    decreases victims.len(),
{
    if victims.len() == 0 {
        Seq::empty()
    } else {
        edits_of(ds.filter(by_edit_target(victims[0], admin))) + spec_cascade_edits(
            ds,
            victims.drop_first(),
            admin,
        )
    }
}

/// One more victim appends its own edits.
pub proof fn lemma_cascade_push(
    ds: Seq<GuildBottle>,
    victims: Seq<BottleId>,
    x: BottleId,
    admin: ChannelId,
)
    ensures
        spec_cascade_edits(ds, victims.push(x), admin) == spec_cascade_edits(ds, victims, admin)
            + edits_of(ds.filter(by_edit_target(x, admin))),
    decreases victims.len(),
{
    reveal_with_fuel(spec_cascade_edits, 3);
    if victims.len() == 0 {
        assert(victims.push(x)[0] == x);
        assert(victims.push(x).drop_first() =~= Seq::<BottleId>::empty());
        assert(spec_cascade_edits(ds, victims, admin) + edits_of(
            ds.filter(by_edit_target(x, admin)),
        ) =~= edits_of(ds.filter(by_edit_target(x, admin))) + Seq::<EditAction>::empty());
    } else {
        assert(victims.push(x)[0] == victims[0]);
        assert(victims.push(x).drop_first() =~= victims.drop_first().push(x));
        lemma_cascade_push(ds, victims.drop_first(), x, admin);
        assert(edits_of(ds.filter(by_edit_target(victims[0], admin))) + (spec_cascade_edits(
            ds,
            victims.drop_first(),
            admin,
        ) + edits_of(ds.filter(by_edit_target(x, admin)))) =~= (edits_of(
            ds.filter(by_edit_target(victims[0], admin)),
        ) + spec_cascade_edits(ds, victims.drop_first(), admin)) + edits_of(
            ds.filter(by_edit_target(x, admin)),
        ));
    }
}

/// Pruning one more id composes with the pruning done so far.
pub proof fn lemma_prune_step(s: Seq<Bottle>, done: Seq<BottleId>, x: BottleId)
    ensures
        s.filter(keep_not_in(done)).filter(not_bottle_id(x)) == s.filter(keep_not_in(done.push(x))),
    decreases s.len(),
{
    reveal(Seq::filter);
    if s.len() > 0 {
        lemma_prune_step(s.drop_last(), done, x);
        let e = s.last();
        assert(done.push(x).contains(e.id) <==> (done.contains(e.id) || e.id == x)) by {
            if done.contains(e.id) {
                let w = choose|w: int| 0 <= w < done.len() && done[w] == e.id;
                assert(done.push(x)[w] == e.id);
            }
            if e.id == x {
                assert(done.push(x)[done.len() as int] == e.id);
            }
            if done.push(x).contains(e.id) {
                let w = choose|w: int| 0 <= w < done.push(x).len() && done.push(x)[w] == e.id;
                if w < done.len() {
                    assert(done[w] == e.id);
                }
            }
        }
        assert(s.filter(keep_not_in(done)).filter(not_bottle_id(x)) =~= s.filter(
            keep_not_in(done.push(x)),
        )) by {
            assert(s.filter(keep_not_in(done)).drop_last() == s.drop_last().filter(
                keep_not_in(done),
            ) || s.filter(keep_not_in(done)) == s.drop_last().filter(keep_not_in(done)));
        }
    }
}

/// Delete one bottle: blank every rendering of it outside the
/// administrative channel, then remove its row. The delivery ledger keeps
/// its records; a lifted ban never resurrects a bottle.
pub fn del_bottle(bid: BottleId, store: &mut Store, cfg: &Config) -> (edits: Vec<EditAction>)
    requires
        old(store).wf(),
    ensures
        final(store).wf(),
        final(store).bottles@ == old(store).bottles@.filter(not_bottle_id(bid)),
        edits@ == edits_of(old(store).deliveries@.filter(by_edit_target(bid, cfg.admin_channel))),
        final(store).users == old(store).users,
        final(store).guilds == old(store).guilds,
        final(store).deliveries == old(store).deliveries,
        final(store).reports == old(store).reports,
        final(store).bans == old(store).bans,
        final(store).contributions == old(store).contributions,
        final(store).next_bottle_id == old(store).next_bottle_id,
        final(store).next_delivery_id == old(store).next_delivery_id,
        final(store).next_message_id == old(store).next_message_id,
{
    let admin = cfg.admin_channel;
    let mut edits: Vec<EditAction> = Vec::new();
    let mut i: usize = 0;
    while i < store.deliveries.len()
        invariant
            i <= store.deliveries@.len(),
            edits@ == edits_of(
                store.deliveries@.take(i as int).filter(by_edit_target(bid, admin)),
            ),
            store == old(store),
        decreases store.deliveries@.len() - i,
    {
        proof {
            assert(store.deliveries@.take(i + 1) =~= store.deliveries@.take(i as int).push(
                store.deliveries@[i as int],
            ));
            store.deliveries@.take(i as int).lemma_filter_push(
                store.deliveries@[i as int],
                by_edit_target(bid, admin),
            );
            if by_edit_target(bid, admin)(store.deliveries@[i as int]) {
                assert(edits_of(
                    store.deliveries@.take(i as int).filter(by_edit_target(bid, admin)).push(
                        store.deliveries@[i as int],
                    ),
                ) =~= edits_of(
                    store.deliveries@.take(i as int).filter(by_edit_target(bid, admin)),
                ).push(
                    EditAction {
                        channel: store.deliveries@[i as int].channel,
                        message: store.deliveries@[i as int].message,
                    },
                ));
            }
        }
        if store.deliveries[i].bottle == bid && store.deliveries[i].channel != admin {
            edits.push(
                EditAction {
                    channel: store.deliveries[i].channel,
                    message: store.deliveries[i].message,
                },
            );
        }
        i += 1;
    }
    proof {
        assert(store.deliveries@.take(store.deliveries@.len() as int) =~= store.deliveries@);
    }
    Bottle::delete(bid, store);
    edits
}

/// Toggle a ban on `target`. Standing it deletes every bottle the user
/// ever pushed and returns the cascade's edit actions; lifting it removes
/// only the ban record.
pub fn ban_user(
    target: UserId,
    report: Option<BottleId>,
    add: bool,
    store: &mut Store,
    cfg: &Config,
) -> (edits: Vec<EditAction>)
    requires
        old(store).wf(),
    ensures
        final(store).wf(),
        add ==> {
            &&& final(store).bottles@ == old(store).bottles@.filter(not_author(target))
            &&& final(store).bans@ == upserted(
                old(store).bans@,
                first_where(old(store).bans@, by_ban_user(target)),
                Ban { user: target, report },
            )
            &&& edits@ == spec_cascade_edits(
                old(store).deliveries@,
                ids_of(old(store).bottles@.filter(by_author(target))),
                cfg.admin_channel,
            )
        },
        !add ==> {
            &&& final(store).bans@ == old(store).bans@.filter(not_ban_user(target))
            &&& final(store).bottles == old(store).bottles
            &&& edits@.len() == 0
        },
        final(store).users == old(store).users,
        final(store).guilds == old(store).guilds,
        final(store).deliveries == old(store).deliveries,
        final(store).reports == old(store).reports,
        final(store).contributions == old(store).contributions,
        final(store).next_bottle_id == old(store).next_bottle_id,
        final(store).next_delivery_id == old(store).next_delivery_id,
        final(store).next_message_id == old(store).next_message_id,
{
    if !add {
        let b = Ban { user: target, report };
        b.del(store);
        return Vec::new();
    }
    let u = User::new(target);
    let victims = u.get_all_bottles(store);
    let ghost vs = victims@;
    let mut edits: Vec<EditAction> = Vec::new();
    let mut v: usize = 0;
    proof {
        assert(old(store).bottles@.filter(keep_not_in(vs.take(0))) =~= old(store).bottles@) by {
            assert(vs.take(0) =~= Seq::<BottleId>::empty());
            crate::find::lemma_filter_all(old(store).bottles@, keep_not_in(vs.take(0)));
        }
        assert(spec_cascade_edits(old(store).deliveries@, vs.take(0), cfg.admin_channel) =~= Seq::<
            EditAction,
        >::empty());
    }
    while v < victims.len()
        invariant
            v <= vs.len(),
            victims@ == vs,
            store.wf(),
            store.bottles@ == old(store).bottles@.filter(keep_not_in(vs.take(v as int))),
            edits@ == spec_cascade_edits(old(store).deliveries@, vs.take(v as int), cfg.admin_channel),
            store.users == old(store).users,
            store.guilds == old(store).guilds,
            store.deliveries == old(store).deliveries,
            store.reports == old(store).reports,
            store.bans == old(store).bans,
            store.contributions == old(store).contributions,
            store.next_bottle_id == old(store).next_bottle_id,
            store.next_delivery_id == old(store).next_delivery_id,
            store.next_message_id == old(store).next_message_id,
        decreases vs.len() - v,
    {
        let ghost edits_pre = edits@;
        let mut more = del_bottle(victims[v], store, cfg);
        edits.append(&mut more);
        proof {
            assert(vs.take(v + 1) =~= vs.take(v as int).push(vs[v as int]));
            lemma_prune_step(old(store).bottles@, vs.take(v as int), vs[v as int]);
            lemma_cascade_push(old(store).deliveries@, vs.take(v as int), vs[v as int], cfg.admin_channel);
        }
        v += 1;
    }
    proof {
        assert(vs.take(vs.len() as int) =~= vs);
        let bs = old(store).bottles@;
        let f = bs.filter(by_author(target));
        assert forall|i: int|
            0 <= i < bs.len() implies (keep_not_in(vs)(bs[i]) <==> not_author(target)(bs[i])) by {
            if bs[i].user == target {
                bs.filter_lemma(by_author(target));
                assert(f.contains(bs[i]));
                let w = choose|w: int| 0 <= w < f.len() && f[w] == bs[i];
                assert(ids_of(f)[w] == bs[i].id);
                assert(vs.contains(bs[i].id));
            }
            if vs.contains(bs[i].id) {
                let w = choose|w: int| 0 <= w < vs.len() && vs[w] == bs[i].id;
                assert(f[w].id == bs[i].id);
                bs.filter_lemma(by_author(target));
                assert(by_author(target)(f[w]));
                assert(bs.contains(f[w])) by {
                    assert(f.contains(f[w]));
                    bs.lemma_filter_contains_rev(by_author(target), f[w]);
                }
                let t = choose|t: int| 0 <= t < bs.len() && bs[t] == f[w];
                if t != i {
                    assert(bs[t].id != bs[i].id);
                }
                assert(bs[i].user == target);
            }
        }
        lemma_filter_congruent(bs, keep_not_in(vs), not_author(target));
    }
    let b = Ban { user: target, report };
    b.make(store);
    edits
}


/// What the platform knows an emoji as: its symbol's bytes, or nothing
/// for a custom emoji.
pub open spec fn spec_emoji_name(e: ReactionEmoji) -> Option<Seq<u8>> {
    match e {
        ReactionEmoji::Unicode(v) => Some(v@),
        ReactionEmoji::Custom => None,
    }
}

/// What a ban toggle leaves behind, shared by both renderings an
/// administrator can react on.
pub open spec fn spec_ban_toggled(
    pre: Store,
    post: Store,
    target: UserId,
    report: Option<BottleId>,
    add: bool,
    cfg: Config,
    edits: Seq<EditAction>,
) -> bool {
    &&& (add ==> {
        &&& post.bottles@ == pre.bottles@.filter(not_author(target))
        &&& post.bans@ == upserted(
            pre.bans@,
            first_where(pre.bans@, by_ban_user(target)),
            Ban { user: target, report },
        )
        &&& edits == spec_cascade_edits(
            pre.deliveries@,
            ids_of(pre.bottles@.filter(by_author(target))),
            cfg.admin_channel,
        )
    })
    &&& (!add ==> {
        &&& post.bans@ == pre.bans@.filter(not_ban_user(target))
        &&& post.bottles == pre.bottles
        &&& edits.len() == 0
    })
    &&& post.users == pre.users
    &&& post.guilds == pre.guilds
    &&& post.deliveries == pre.deliveries
    &&& post.reports == pre.reports
    &&& post.contributions == pre.contributions
    &&& post.next_bottle_id == pre.next_bottle_id
    &&& post.next_delivery_id == pre.next_delivery_id
    &&& post.next_message_id == pre.next_message_id
}

/// The whole contract of one reaction event: only a plain emoji from an
/// administrator on a resolvable rendering changes anything; the ban
/// emoji toggles a ban on the author, the delete emoji deletes the one
/// bottle on the add direction alone.
pub open spec fn spec_react_post(
    pre: Store,
    post: Store,
    mid: MessageId,
    user: UserId,
    emoji: Option<Seq<u8>>,
    add: bool,
    cfg: Config,
    edits: Seq<EditAction>,
) -> bool {
    let untouched = post == pre && edits.len() == 0;
    match emoji {
        None => untouched,
        Some(e) => {
            if !spec_get_user(pre.users@, user).admin {
                untouched
            } else {
                match first_where(pre.deliveries@, by_delivery_message(mid)) {
                    Some(i) => {
                        let bid = pre.deliveries@[i].bottle;
                        match first_where(pre.bottles@, by_bottle_id(bid)) {
                            None => untouched,
                            Some(k) => {
                                let b = pre.bottles@[k];
                                if e == cfg.ban_emoji@ {
                                    spec_ban_toggled(pre, post, b.user, None, add, cfg, edits)
                                } else if e == cfg.delete_emoji@ && add {
                                    &&& post.bottles@ == pre.bottles@.filter(not_bottle_id(b.id))
                                    &&& edits == edits_of(
                                        pre.deliveries@.filter(
                                            by_edit_target(b.id, cfg.admin_channel),
                                        ),
                                    )
                                    &&& post.users == pre.users
                                    &&& post.guilds == pre.guilds
                                    &&& post.deliveries == pre.deliveries
                                    &&& post.reports == pre.reports
                                    &&& post.bans == pre.bans
                                    &&& post.contributions == pre.contributions
                                    &&& post.next_bottle_id == pre.next_bottle_id
                                    &&& post.next_delivery_id == pre.next_delivery_id
                                    &&& post.next_message_id == pre.next_message_id
                                } else {
                                    untouched
                                }
                            },
                        }
                    },
                    None => match first_where(pre.reports@, by_report_message(mid)) {
                        Some(ri) => {
                            let rep = pre.reports@[ri];
                            if e == cfg.ban_emoji@ {
                                if add {
                                    match first_where(pre.bottles@, by_bottle_id(rep.bottle)) {
                                        None => untouched,
                                        Some(k) => spec_ban_toggled(
                                            pre,
                                            post,
                                            pre.bottles@[k].user,
                                            Some(rep.bottle),
                                            true,
                                            cfg,
                                            edits,
                                        ),
                                    }
                                } else {
                                    match first_where(pre.bans@, crate::data::by_ban_report(rep.bottle)) {
                                        None => untouched,
                                        Some(bi) => spec_ban_toggled(
                                            pre,
                                            post,
                                            pre.bans@[bi].user,
                                            Some(rep.bottle),
                                            false,
                                            cfg,
                                            edits,
                                        ),
                                    }
                                }
                            } else {
                                untouched
                            }
                        },
                        None => untouched,
                    },
                }
            }
        },
    }
}

/// Handle one reaction event against the store, exactly as
/// [`spec_react_post`] lays out, returning the cascade's edit actions.
pub fn react(
    mid: MessageId,
    user: UserId,
    emoji: &ReactionEmoji,
    add: bool,
    store: &mut Store,
    cfg: &Config,
) -> (edits: Vec<EditAction>)
    requires
        old(store).wf(),
    ensures
        final(store).wf(),
        spec_react_post(
            *old(store),
            *final(store),
            mid,
            user,
            spec_emoji_name(*emoji),
            add,
            *cfg,
            edits@,
        ),
{
    let ename = match emoji {
        ReactionEmoji::Unicode(v) => v,
        ReactionEmoji::Custom => {
            return Vec::new();
        },
    };
    let u = User::get(user, store);
    if !u.admin {
        return Vec::new();
    }
    match GuildBottle::get_from_message(mid, store) {
        Ok(d) => {
            match Bottle::get(d.bottle, store) {
                Ok(b) => {
                    if crate::text::bytes_eq(ename, &cfg.ban_emoji) {
                        ban_user(b.user, None, add, store, cfg)
                    } else if crate::text::bytes_eq(ename, &cfg.delete_emoji) && add {
                        del_bottle(b.id, store, cfg)
                    } else {
                        Vec::new()
                    }
                },
                Err(_) => Vec::new(),
            }
        },
        Err(_) => {
            match Report::get_from_message(mid, store) {
                Ok(rep) => {
                    if crate::text::bytes_eq(ename, &cfg.ban_emoji) {
                        if add {
                            match Bottle::get(rep.bottle, store) {
                                Ok(b) => ban_user(b.user, Some(rep.bottle), true, store, cfg),
                                Err(_) => Vec::new(),
                            }
                        } else {
                            match Ban::get_by_report(rep.bottle, store) {
                                Some(b) => ban_user(b.user, Some(rep.bottle), false, store, cfg),
                                None => Vec::new(),
                            }
                        }
                    } else {
                        Vec::new()
                    }
                },
                Err(_) => Vec::new(),
            }
        },
    }
}

/// What the moderators get for a filed report: the notice message and the
/// rendered copy of the bottle, both in the administrative channel.
#[derive(Clone, Copy, PartialEq, Eq, Structural, Debug)]
pub struct ReportRendering {
    pub report_message: MessageId,
    pub bottle_message: MessageId,
}

/// The answer to a report request: what was rendered, if anything, and
/// what stood in the way.
#[derive(Clone, Copy, PartialEq, Eq, Structural, Debug)]
pub struct FileReportResult {
    pub filed: Option<ReportRendering>,
    pub banned: bool,
    pub already: bool,
}

/// Render a report into the administrative channel: the notice message,
/// then the bottle's copy, recorded as a delivery there. Fails, leaving
/// the store untouched, only when the id space is spent.
pub fn report_bottle(
    bottle: &Bottle,
    reporter: UserId,
    now: i64,
    store: &mut Store,
    cfg: &Config,
) -> (r: Result<ReportRendering, BottleError>)
    requires
        old(store).wf(),
        now >= 0,
        0 <= bottle.id < old(store).next_bottle_id,
        old(store).deliveries@.len() == 0 || now >= old(store).deliveries@.last().time_received,
    ensures
        final(store).wf(),
        final(store).users == old(store).users,
        final(store).guilds == old(store).guilds,
        final(store).bottles == old(store).bottles,
        final(store).reports == old(store).reports,
        final(store).bans == old(store).bans,
        final(store).contributions == old(store).contributions,
        final(store).next_bottle_id == old(store).next_bottle_id,
        match r {
            Ok(rr) => {
                &&& rr.report_message == old(store).next_message_id
                &&& rr.bottle_message == old(store).next_message_id + 1
                &&& final(store).deliveries@ == spec_record_all(
                    old(store).deliveries@,
                    seq![
                        GuildBottle {
                            id: old(store).next_delivery_id,
                            bottle: bottle.id,
                            channel: cfg.admin_channel,
                            message: (old(store).next_message_id + 1) as i64,
                            time_received: now,
                        },
                    ],
                )
                &&& final(store).next_message_id == old(store).next_message_id + 2
                &&& final(store).next_delivery_id == old(store).next_delivery_id + 1
            },
            Err(e) => {
                &&& e == BottleError::StoreFailure
                &&& *final(store) == *old(store)
                &&& (old(store).next_message_id > i64::MAX - 2 || old(store).next_delivery_id
                    == i64::MAX)
            },
        },
{
    if store.next_message_id > i64::MAX - 2 || store.next_delivery_id == i64::MAX {
        return Err(BottleError::StoreFailure);
    }
    let m1 = match store.alloc_message_id() {
        Ok(m) => m,
        Err(e) => {
            return Err(e);
        },
    };
    let m2 = match store.alloc_message_id() {
        Ok(m) => m,
        Err(e) => {
            return Err(e);
        },
    };
    proof {
        assert forall|t: int|
            0 <= t < store.deliveries@.len() implies #[trigger] store.deliveries@[t].message
            != m2 by {
            assert(0 <= store.deliveries@[t].id);
        }
    }
    let rec = match (MakeGuildBottle {
        bottle: bottle.id,
        channel: cfg.admin_channel,
        message: m2,
        time_received: now,
    }).make(store) {
        Ok(d) => d,
        Err(e) => {
            return Err(e);
        },
    };
    proof {
        reveal_with_fuel(spec_record_all, 2);
        let one = seq![rec];
        assert(one[0] == rec);
        assert(one.drop_first() =~= Seq::<GuildBottle>::empty());
        assert(spec_record_all(old(store).deliveries@, one) == store.deliveries@);
    }
    Ok(ReportRendering { report_message: m1, bottle_message: m2 })
}

/// The whole contract of one report request: missing bottles fail it, a
/// banned non-admin reporter or an already reported bottle leave the
/// store untouched, and a first report renders, records, and pays the
/// reporter once.
pub open spec fn spec_file_report_post(
    pre: Store,
    post: Store,
    bid: BottleId,
    reporter: UserId,
    now: i64,
    cfg: Config,
    r: Result<FileReportResult, BottleError>,
) -> bool {
    let banned = crate::submit::spec_banned(pre.bans@, reporter);
    let already = first_where(pre.reports@, by_report_bottle(bid)) is Some;
    let u = spec_get_user(pre.users@, reporter);
    match first_where(pre.bottles@, by_bottle_id(bid)) {
        None => r == Err::<FileReportResult, BottleError>(BottleError::NotFound) && post == pre,
        Some(k) => {
            if !((u.admin || !banned) && !already) {
                &&& r == Ok::<FileReportResult, BottleError>(FileReportResult {
                    filed: None,
                    banned,
                    already,
                })
                &&& post == pre
            } else if pre.next_message_id > i64::MAX - 2 || pre.next_delivery_id == i64::MAX {
                &&& r == Err::<FileReportResult, BottleError>(BottleError::StoreFailure)
                &&& post == pre
            } else {
                &&& r == Ok::<FileReportResult, BottleError>(FileReportResult {
                    filed: Some(
                        ReportRendering {
                            report_message: pre.next_message_id,
                            bottle_message: (pre.next_message_id + 1) as i64,
                        },
                    ),
                    banned,
                    already,
                })
                &&& post.reports@ == pre.reports@.push(
                    Report { user: reporter, bottle: bid, message: Some(pre.next_message_id) },
                )
                &&& post.deliveries@ == spec_record_all(
                    pre.deliveries@,
                    seq![
                        GuildBottle {
                            id: pre.next_delivery_id,
                            bottle: bid,
                            channel: cfg.admin_channel,
                            message: (pre.next_message_id + 1) as i64,
                            time_received: now,
                        },
                    ],
                )
                &&& spec_get_user(post.users@, reporter) == spec_awarded_user(
                    pre.users@,
                    reporter,
                    cfg.report_xp,
                )
                &&& (forall|uid: UserId|
                    uid != reporter ==> #[trigger] spec_get_user(post.users@, uid)
                        == spec_get_user(pre.users@, uid))
                &&& post.bottles == pre.bottles
                &&& post.guilds == pre.guilds
                &&& post.bans == pre.bans
                &&& post.contributions == pre.contributions
                &&& post.next_bottle_id == pre.next_bottle_id
                &&& post.next_delivery_id == pre.next_delivery_id + 1
                &&& post.next_message_id == pre.next_message_id + 2
            }
        },
    }
}

/// File a report on a bottle, as [`spec_file_report_post`] lays out: a
/// first report by an eligible reporter renders the notice, records the
/// report, and pays the reporter's bonus; a duplicate changes nothing.
pub fn file_report(
    bid: BottleId,
    reporter: UserId,
    now: i64,
    store: &mut Store,
    cfg: &Config,
) -> (r: Result<FileReportResult, BottleError>)
    requires
        old(store).wf(),
        now >= 0,
        old(store).deliveries@.len() == 0 || now >= old(store).deliveries@.last().time_received,
    ensures
        final(store).wf(),
        spec_file_report_post(*old(store), *final(store), bid, reporter, now, *cfg, r),
{
    let bottle = match Bottle::get(bid, store) {
        Ok(b) => b,
        Err(e) => {
            return Err(e);
        },
    };
    let u = User::get(reporter, store);
    proof {
        lemma_get_user_id(store.users@, reporter);
    }
    let banned = u.get_banned(store);
    let already = Report::exists_for(bid, store);
    if !((u.admin || !banned) && !already) {
        return Ok(FileReportResult { filed: None, banned, already });
    }
    proof {
        let k = first_where(store.bottles@, by_bottle_id(bid)).unwrap();
        lemma_first_where(store.bottles@, by_bottle_id(bid));
        assert(0 <= store.bottles@[k].id);
    }
    let rr = match report_bottle(&bottle, reporter, now, store, cfg) {
        Ok(rr) => rr,
        Err(e) => {
            return Err(e);
        },
    };
    (Report { user: reporter, bottle: bid, message: Some(rr.report_message) }).make(store);
    let mut u2 = u;
    u2.xp = xp_add(u2.xp, cfg.report_xp);
    u2.update(store);
    proof {
        lemma_get_user_id(old(store).users@, reporter);
        lemma_get_user_upsert(old(store).users@, u2, reporter);
        assert forall|x: UserId|
            x != reporter implies #[trigger] spec_get_user(store.users@, x) == spec_get_user(
            old(store).users@,
            x,
        ) by {
            lemma_get_user_upsert(old(store).users@, u2, x);
        }
    }
    Ok(FileReportResult { filed: Some(rr), banned, already })
}

} // verus!
