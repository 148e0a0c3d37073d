//! End-to-end exercises of the bottle engine against an in-memory store.
use bottle::config::Config;
use bottle::data::{get_bottle_count, get_guild_count, get_user_count, Store};
use bottle::distribute::{distribute_bottle, distribute_to_channel, select_targets};
use bottle::moderate::{del_bottle, file_report, react, ReactionEmoji};
use bottle::render::{col_wheel, render_bottle};
use bottle::submit::{submit_bottle, Submission, SubmitOutcome};
use bottle::types::{
    Bottle, BottleError, Guild, GuildBottle, MakeBottle, Origin, User,
};

fn test_config() -> Config {
    Config {
        cooldown_seconds: 3600,
        min_chars: 10,
        max_tickets: 5,
        push_xp: 10,
        url_xp: 5,
        image_xp: 5,
        reply_xp: 5,
        report_xp: 10,
        reply_prefix: b"#reply".to_vec(),
        alt_reply_prefix: b"#r ".to_vec(),
        ban_emoji: b"ban".to_vec(),
        delete_emoji: b"del".to_vec(),
        admin_channel: 999,
    }
}

fn guild(store: &mut Store, id: i64, channel: i64) {
    let mut g = Guild::new(id);
    g.bottle_channel = Some(channel);
    g.update(store);
}

fn submission(user: i64, channel: i64, origin: Origin, text: &str) -> Submission {
    Submission {
        user,
        message: 7000 + user,
        channel,
        origin,
        contents: text.as_bytes().to_vec(),
        url: None,
        image: None,
    }
}

fn push_ok(store: &mut Store, sub: &Submission, now: i64, cfg: &Config) -> Bottle {
    match submit_bottle(sub, now, store, cfg) {
        SubmitOutcome::Admitted { bottle } => bottle,
        _ => panic!("expected admission"),
    }
}

fn deliveries_of(store: &Store, bid: i64) -> Vec<GuildBottle> {
    GuildBottle::get_from_bottle(bid, store)
}

#[test]
fn chain_is_cut_at_twenty_five() {
    let mut store = Store::new();
    let now = 1000;
    // A linked run of 30 bottles.
    let mut prev: Option<i64> = None;
    let mut last = None;
    for i in 0..30 {
        let mb = MakeBottle {
            user: 1,
            message: 100 + i,
            reply_to: prev,
            channel: 5,
            origin: Origin::Community(1),
            contents: b"some message".to_vec(),
            url: None,
            image: None,
            time_pushed: now,
        };
        let b = mb.make(&mut store).unwrap();
        prev = Some(b.id);
        last = Some(b);
    }
    let chain = last.unwrap().get_reply_list(&store).unwrap();
    assert_eq!(chain.len(), 25);
    // A short run stops at the first bottle without a parent.
    let root = MakeBottle {
        user: 1,
        message: 400,
        reply_to: None,
        channel: 5,
        origin: Origin::Anonymous,
        contents: b"root".to_vec(),
        url: None,
        image: None,
        time_pushed: now,
    }
    .make(&mut store)
    .unwrap();
    let child = MakeBottle {
        user: 1,
        message: 401,
        reply_to: Some(root.id),
        channel: 5,
        origin: Origin::Anonymous,
        contents: b"child".to_vec(),
        url: None,
        image: None,
        time_pushed: now,
    }
    .make(&mut store)
    .unwrap();
    let short = child.get_reply_list(&store).unwrap();
    assert_eq!(short.len(), 2);
    assert_eq!(short[0].id, child.id);
    assert_eq!(short[1].id, root.id);
}

#[test]
fn no_channel_gets_two_records_for_one_bottle() {
    let mut store = Store::new();
    let b = MakeBottle {
        user: 1,
        message: 100,
        reply_to: None,
        channel: 5,
        origin: Origin::Anonymous,
        contents: b"hello there".to_vec(),
        url: None,
        image: None,
        time_pushed: 10,
    }
    .make(&mut store)
    .unwrap();
    let chain = b.get_reply_list(&store).unwrap();
    // Two delivery attempts into the same channel.
    let (first, _) = distribute_to_channel(&chain, 42, 10, &mut store).unwrap();
    assert_eq!(first.len(), 1);
    let (second, _) = distribute_to_channel(&chain, 42, 11, &mut store).unwrap();
    assert_eq!(second.len(), 0);
    let records = deliveries_of(&store, b.id);
    assert_eq!(records.len(), 1);
}

#[test]
fn unrepeated_prefix_delivers_entries_before_the_cut() {
    let mut store = Store::new();
    // Chain b3 -> b2 -> b1; channel 42 last received b2.
    let b1 = MakeBottle {
        user: 1,
        message: 100,
        reply_to: None,
        channel: 5,
        origin: Origin::Anonymous,
        contents: b"first message".to_vec(),
        url: None,
        image: None,
        time_pushed: 10,
    }
    .make(&mut store)
    .unwrap();
    let b2 = MakeBottle {
        user: 2,
        message: 101,
        reply_to: Some(b1.id),
        channel: 5,
        origin: Origin::Anonymous,
        contents: b"second message".to_vec(),
        url: None,
        image: None,
        time_pushed: 11,
    }
    .make(&mut store)
    .unwrap();
    let chain2 = b2.get_reply_list(&store).unwrap();
    let (recs, _) = distribute_to_channel(&chain2, 42, 11, &mut store).unwrap();
    assert_eq!(recs.len(), 2);
    let b3 = MakeBottle {
        user: 3,
        message: 102,
        reply_to: Some(b2.id),
        channel: 5,
        origin: Origin::Anonymous,
        contents: b"third message".to_vec(),
        url: None,
        image: None,
        time_pushed: 12,
    }
    .make(&mut store)
    .unwrap();
    let chain3 = b3.get_reply_list(&store).unwrap();
    assert_eq!(chain3.len(), 3);
    // b2 sits at position 1 of [b3, b2, b1]: exactly [0,1) is delivered.
    let (recs3, _) = distribute_to_channel(&chain3, 42, 13, &mut store).unwrap();
    assert_eq!(recs3.len(), 1);
    assert_eq!(recs3[0].bottle, b3.id);
    // Delivering the same chain again: the cut is at position 0, nothing goes out.
    let (recs4, _) = distribute_to_channel(&chain3, 42, 14, &mut store).unwrap();
    assert_eq!(recs4.len(), 0);
}

#[test]
fn short_text_rejected_long_or_attached_admitted() {
    let cfg = test_config();
    let mut store = Store::new();
    // Nine characters, no link, no media: TooShort.
    let sub = submission(1, 5, Origin::Anonymous, "nine char");
    match submit_bottle(&sub, 1000, &mut store, &cfg) {
        SubmitOutcome::Rejected { error: BottleError::TooShort, silent } => assert!(!silent),
        _ => panic!("expected a short-content rejection"),
    }
    // Ten characters: admitted.
    let b = push_ok(&mut store, &submission(2, 5, Origin::Anonymous, "ten chars!"), 1000, &cfg);
    assert_eq!(b.contents, b"ten chars!".to_vec());
    // Nine characters with a link: admitted.
    let mut with_url = submission(3, 5, Origin::Anonymous, "nine char");
    with_url.url = Some(b"https://example.test".to_vec());
    match submit_bottle(&with_url, 1000, &mut store, &cfg) {
        SubmitOutcome::Admitted { .. } => {}
        _ => panic!("a link admits a short text"),
    }
    // Nine characters with media: admitted.
    let mut with_image = submission(4, 5, Origin::Anonymous, "nine char");
    with_image.image = Some(b"attachment".to_vec());
    match submit_bottle(&with_image, 1000, &mut store, &cfg) {
        SubmitOutcome::Admitted { .. } => {}
        _ => panic!("media admits a short text"),
    }
    // An admin passes the content floor.
    let mut admin = User::new(9);
    admin.admin = true;
    admin.update(&mut store);
    match submit_bottle(&submission(9, 5, Origin::Anonymous, "short"), 1000, &mut store, &cfg) {
        SubmitOutcome::Admitted { .. } => {}
        _ => panic!("admins are exempt"),
    }
}

#[test]
fn rejection_turns_silent_past_the_ticket_ceiling() {
    let cfg = test_config();
    let mut store = Store::new();
    // Below the ceiling: the rejection text is owed.
    let mut u = User::new(1);
    u.tickets = 3;
    u.update(&mut store);
    match submit_bottle(&submission(1, 5, Origin::Anonymous, "short"), 1000, &mut store, &cfg) {
        SubmitOutcome::Rejected { silent, .. } => assert!(!silent),
        _ => panic!("expected rejection"),
    }
    assert_eq!(User::get(1, &store).tickets, 4);
    // At the ceiling: one more rejection goes silent.
    let mut v = User::new(2);
    v.tickets = 5;
    v.update(&mut store);
    match submit_bottle(&submission(2, 5, Origin::Anonymous, "short"), 1000, &mut store, &cfg) {
        SubmitOutcome::Rejected { silent, .. } => assert!(silent),
        _ => panic!("expected rejection"),
    }
    assert_eq!(User::get(2, &store).tickets, 6);
    // Admission resets the counter.
    let mut w = User::new(3);
    w.tickets = 4;
    w.update(&mut store);
    push_ok(&mut store, &submission(3, 5, Origin::Anonymous, "long enough text"), 1000, &cfg);
    assert_eq!(User::get(3, &store).tickets, 0);
}

#[test]
fn cooldown_rejects_with_remaining_wait() {
    let cfg = test_config();
    let mut store = Store::new();
    push_ok(&mut store, &submission(1, 5, Origin::Anonymous, "first bottle text"), 1000, &cfg);
    match submit_bottle(&submission(1, 5, Origin::Anonymous, "second bottle text"), 1600, &mut store, &cfg) {
        SubmitOutcome::Rejected { error: BottleError::RateLimited { wait }, silent } => {
            assert_eq!(wait, 3000);
            assert!(!silent);
        }
        _ => panic!("expected rate limit"),
    }
    // Past the window the user may push again.
    match submit_bottle(&submission(1, 5, Origin::Anonymous, "second bottle text"), 4600, &mut store, &cfg) {
        SubmitOutcome::Admitted { .. } => {}
        _ => panic!("cooldown has passed"),
    }
}

#[test]
fn banned_user_is_rejected() {
    let cfg = test_config();
    let mut store = Store::new();
    bottle::types::Ban { user: 1, report: None }.make(&mut store);
    match submit_bottle(&submission(1, 5, Origin::Anonymous, "long enough text"), 1000, &mut store, &cfg) {
        SubmitOutcome::Rejected { error: BottleError::Banned, .. } => {}
        _ => panic!("expected ban rejection"),
    }
}

#[test]
fn reply_without_target_is_a_plain_rejection() {
    let cfg = test_config();
    let mut store = Store::new();
    match submit_bottle(&submission(1, 5, Origin::Anonymous, "#reply hello there"), 1000, &mut store, &cfg) {
        SubmitOutcome::Rejected { error: BottleError::NoReplyTarget, silent } => assert!(!silent),
        _ => panic!("expected a no-target rejection"),
    }
    // The ticket counter is untouched by it.
    assert_eq!(User::get(1, &store).tickets, 0);
}

#[test]
fn reply_scoring_pays_the_original_author_per_reply() {
    let cfg = test_config();
    let mut store = Store::new();
    // A pushes a bottle and it lands in channel 42.
    let a_bottle = push_ok(&mut store, &submission(1, 5, Origin::Anonymous, "a tale of the sea"), 0, &cfg);
    let chain = a_bottle.get_reply_list(&store).unwrap();
    distribute_to_channel(&chain, 42, 0, &mut store).unwrap();
    let base = User::get(1, &store).xp;
    // B replies there: A gains the bonus once.
    let rb = push_ok(&mut store, &submission(2, 42, Origin::Anonymous, "#reply what a tale"), 10, &cfg);
    assert_eq!(rb.reply_to, Some(a_bottle.id));
    assert_eq!(User::get(1, &store).xp, base + cfg.reply_xp);
    // B replies to the same bottle again after the cooldown: additive.
    let chain2 = a_bottle.get_reply_list(&store).unwrap();
    distribute_to_channel(&chain2, 43, 20, &mut store).unwrap();
    let rb2 = push_ok(&mut store, &submission(2, 43, Origin::Anonymous, "#reply another reply"), 4000, &cfg);
    assert_eq!(rb2.reply_to, Some(a_bottle.id));
    assert_eq!(User::get(1, &store).xp, base + 2 * cfg.reply_xp);
    // A replying to A gains nothing beyond the push points.
    let chain3 = a_bottle.get_reply_list(&store).unwrap();
    distribute_to_channel(&chain3, 44, 30, &mut store).unwrap();
    let before = User::get(1, &store).xp;
    let self_reply = push_ok(&mut store, &submission(1, 44, Origin::Anonymous, "#reply my own tale"), 8000, &cfg);
    assert_eq!(self_reply.reply_to, Some(a_bottle.id));
    assert_eq!(User::get(1, &store).xp, before + cfg.push_xp);
}

#[test]
fn ban_reaction_erases_the_author_everywhere() {
    let cfg = test_config();
    let mut store = Store::new();
    let mut admin = User::new(50);
    admin.admin = true;
    admin.update(&mut store);
    // Author 1 pushes two bottles into different communities.
    let b1 = push_ok(&mut store, &submission(1, 5, Origin::Community(1), "a tale of the sea"), 0, &cfg);
    let b2 = push_ok(&mut store, &submission(1, 6, Origin::Community(2), "another lonely tale"), 4000, &cfg);
    let other = push_ok(&mut store, &submission(2, 7, Origin::Anonymous, "someone else's tale"), 4000, &cfg);
    // b1 was rendered into channels 42 and the admin channel.
    let chain = b1.get_reply_list(&store).unwrap();
    let (recs, _) = distribute_to_channel(&chain, 42, 1, &mut store).unwrap();
    distribute_to_channel(&chain, cfg.admin_channel, 2, &mut store).unwrap();
    // An admin reacts with the ban emoji on the rendering in channel 42.
    let edits = react(recs[0].message, 50, &ReactionEmoji::Unicode(b"ban".to_vec()), true, &mut store, &cfg);
    assert!(Bottle::get(b1.id, &store).is_err());
    assert!(Bottle::get(b2.id, &store).is_err());
    assert!(Bottle::get(other.id, &store).is_ok());
    assert!(User::get(1, &store).get_banned(&store));
    // The admin-channel rendering is spared the placeholder edit.
    assert!(edits.iter().all(|e| e.channel != cfg.admin_channel));
    assert_eq!(edits.len(), 1);
    assert_eq!(edits[0].channel, 42);
}

#[test]
fn delete_reaction_removes_one_bottle_on_add_only() {
    let cfg = test_config();
    let mut store = Store::new();
    let mut admin = User::new(50);
    admin.admin = true;
    admin.update(&mut store);
    let b1 = push_ok(&mut store, &submission(1, 5, Origin::Anonymous, "a tale of the sea"), 0, &cfg);
    let b2 = push_ok(&mut store, &submission(2, 6, Origin::Anonymous, "another good tale"), 0, &cfg);
    let chain = b1.get_reply_list(&store).unwrap();
    let (recs, _) = distribute_to_channel(&chain, 42, 1, &mut store).unwrap();
    // The remove direction does nothing.
    react(recs[0].message, 50, &ReactionEmoji::Unicode(b"del".to_vec()), false, &mut store, &cfg);
    assert!(Bottle::get(b1.id, &store).is_ok());
    // The add direction deletes that one bottle.
    let edits = react(recs[0].message, 50, &ReactionEmoji::Unicode(b"del".to_vec()), true, &mut store, &cfg);
    assert!(Bottle::get(b1.id, &store).is_err());
    assert!(Bottle::get(b2.id, &store).is_ok());
    assert_eq!(edits.len(), 1);
    assert_eq!(edits[0].message, recs[0].message);
}

#[test]
fn non_admin_and_custom_reactions_are_ignored() {
    let cfg = test_config();
    let mut store = Store::new();
    let b1 = push_ok(&mut store, &submission(1, 5, Origin::Anonymous, "a tale of the sea"), 0, &cfg);
    let chain = b1.get_reply_list(&store).unwrap();
    let (recs, _) = distribute_to_channel(&chain, 42, 1, &mut store).unwrap();
    // A non-admin's ban reaction does nothing.
    react(recs[0].message, 2, &ReactionEmoji::Unicode(b"ban".to_vec()), true, &mut store, &cfg);
    assert!(Bottle::get(b1.id, &store).is_ok());
    // A custom emoji from an admin does nothing.
    let mut admin = User::new(50);
    admin.admin = true;
    admin.update(&mut store);
    react(recs[0].message, 50, &ReactionEmoji::Custom, true, &mut store, &cfg);
    assert!(Bottle::get(b1.id, &store).is_ok());
    // An unrecognized symbol does nothing.
    react(recs[0].message, 50, &ReactionEmoji::Unicode(b"wave".to_vec()), true, &mut store, &cfg);
    assert!(Bottle::get(b1.id, &store).is_ok());
}

#[test]
fn duplicate_report_neither_scores_nor_records_again() {
    let cfg = test_config();
    let mut store = Store::new();
    let b1 = push_ok(&mut store, &submission(1, 5, Origin::Anonymous, "a tale of the sea"), 0, &cfg);
    let first = file_report(b1.id, 2, 10, &mut store, &cfg).unwrap();
    assert!(first.filed.is_some());
    assert!(!first.already);
    let xp_after_first = User::get(2, &store).xp;
    assert_eq!(xp_after_first, cfg.report_xp);
    let second = file_report(b1.id, 2, 20, &mut store, &cfg).unwrap();
    assert!(second.filed.is_none());
    assert!(second.already);
    assert_eq!(User::get(2, &store).xp, xp_after_first);
    // Still a single report record: its notice resolves, nothing else was added.
    assert!(bottle::types::Report::get_from_message(first.filed.unwrap().report_message, &store).is_ok());
}

#[test]
fn ban_reaction_on_report_rendering_bans_the_reported_author() {
    let cfg = test_config();
    let mut store = Store::new();
    let mut admin = User::new(50);
    admin.admin = true;
    admin.update(&mut store);
    let b1 = push_ok(&mut store, &submission(1, 5, Origin::Anonymous, "a tale of the sea"), 0, &cfg);
    let filed = file_report(b1.id, 2, 10, &mut store, &cfg).unwrap().filed.unwrap();
    // The ban emoji on the report notice bans the reported bottle's author.
    react(filed.report_message, 50, &ReactionEmoji::Unicode(b"ban".to_vec()), true, &mut store, &cfg);
    assert!(User::get(1, &store).get_banned(&store));
    assert!(Bottle::get(b1.id, &store).is_err());
    // The reporter is untouched.
    assert!(!User::get(2, &store).get_banned(&store));
    // Lifting the ban from the same notice deletes the ban record only.
    let removed = react(filed.report_message, 50, &ReactionEmoji::Unicode(b"ban".to_vec()), false, &mut store, &cfg);
    assert!(removed.is_empty());
    assert!(!User::get(1, &store).get_banned(&store));
    assert!(Bottle::get(b1.id, &store).is_err());
}

#[test]
fn distribution_reaches_random_communities_but_never_the_origin() {
    let cfg = test_config();
    let mut store = Store::new();
    guild(&mut store, 1, 11);
    guild(&mut store, 2, 22);
    guild(&mut store, 3, 33);
    guild(&mut store, 4, 44);
    let b1 = push_ok(&mut store, &submission(1, 11, Origin::Community(1), "hello world out there"), 0, &cfg);
    let picks = vec![0u64, 0, 0];
    let log = distribute_bottle(&b1, &picks, 4, 1, &mut store).unwrap();
    // Up to three communities, never channel 11.
    assert!(!log.records.is_empty());
    assert!(log.records.len() <= 3);
    assert!(log.targets.len() <= 3);
    assert!(log.targets.iter().all(|c| *c != 11));
    assert!(log.records.iter().all(|d| d.channel != 11));
    for d in &log.records {
        assert_eq!(d.bottle, b1.id);
        assert!(GuildBottle::get_from_message(d.message, &store).is_ok());
    }
    // One record per reached channel.
    let mut channels: Vec<i64> = log.records.iter().map(|d| d.channel).collect();
    channels.sort();
    channels.dedup();
    assert_eq!(channels.len(), log.records.len());
}

#[test]
fn reply_chain_redelivers_oldest_first_to_unseen_channels() {
    let mut cfg = test_config();
    // The reply marker is stripped before the floor applies; keep the
    // floor under the stripped text's length here.
    cfg.min_chars = 5;
    let mut store = Store::new();
    guild(&mut store, 1, 11);
    guild(&mut store, 2, 22);
    let b1 = push_ok(&mut store, &submission(1, 11, Origin::Community(1), "hello world out there"), 0, &cfg);
    // B1 lands in channel 22.
    let chain1 = b1.get_reply_list(&store).unwrap();
    distribute_to_channel(&chain1, 22, 1, &mut store).unwrap();
    // A reply in channel 22 picks B1 up as its parent.
    let b2 = push_ok(&mut store, &submission(2, 22, Origin::Community(2), "#reply more text"), 10, &cfg);
    assert_eq!(b2.reply_to, Some(b1.id));
    assert_eq!(b2.contents, b"more text".to_vec());
    let chain2 = b2.get_reply_list(&store).unwrap();
    assert_eq!(chain2.len(), 2);
    assert_eq!(chain2[0].id, b2.id);
    assert_eq!(chain2[1].id, b1.id);
    // A channel that never saw B1 receives both, oldest first.
    let (recs, _) = distribute_to_channel(&chain2, 77, 11, &mut store).unwrap();
    assert_eq!(recs.len(), 2);
    assert_eq!(recs[0].bottle, b1.id);
    assert_eq!(recs[1].bottle, b2.id);
    assert!(recs[0].message < recs[1].message);
    // Channel 22 already saw B1: only B2 arrives there.
    let (seen, _) = distribute_to_channel(&chain2, 22, 12, &mut store).unwrap();
    assert_eq!(seen.len(), 1);
    assert_eq!(seen[0].bottle, b2.id);
}

#[test]
fn targets_are_deduplicated_and_exclude_origin() {
    let mut store = Store::new();
    let b = MakeBottle {
        user: 1,
        message: 100,
        reply_to: None,
        channel: 11,
        origin: Origin::Anonymous,
        contents: b"hello hello".to_vec(),
        url: None,
        image: None,
        time_pushed: 0,
    }
    .make(&mut store)
    .unwrap();
    let chain = b.get_reply_list(&store).unwrap();
    let sampled = vec![22, 33, 22, 11];
    let targets = select_targets(&sampled, &chain, 11);
    assert_eq!(targets, vec![22, 33]);
}

#[test]
fn submission_text_is_trimmed() {
    let cfg = test_config();
    let mut store = Store::new();
    let b = push_ok(&mut store, &submission(1, 5, Origin::Anonymous, "  spaced out words  "), 0, &cfg);
    assert_eq!(b.contents, b"spaced out words".to_vec());
}

#[test]
fn colours_cycle_and_renderings_carry_the_fields() {
    assert_eq!(col_wheel(0), 0x7289DA);
    assert_eq!(col_wheel(5), 0xF1C40F);
    assert_eq!(col_wheel(8), 0x7289DA);
    assert_eq!(col_wheel(13), 0xF1C40F);
    let mut store = Store::new();
    let b = MakeBottle {
        user: 4,
        message: 100,
        reply_to: None,
        channel: 11,
        origin: Origin::Community(9),
        contents: b"a message".to_vec(),
        url: Some(b"https://example.test".to_vec()),
        image: None,
        time_pushed: 77,
    }
    .make(&mut store)
    .unwrap();
    let r = render_bottle(&b, 2);
    assert!(r.reply_glued);
    assert_eq!(r.color, 0x1ABC9C);
    assert_eq!(r.guild, Some(9));
    assert_eq!(r.timestamp, 77);
    assert_eq!(r.report_bottle, b.id);
    assert_eq!(r.author, bottle::render::RenderedAuthor::Known(4));
    assert!(!r.link_in_text);
    let anon = render_bottle(
        &MakeBottle {
            user: 4,
            message: 101,
            reply_to: None,
            channel: 11,
            origin: Origin::Anonymous,
            contents: Vec::new(),
            url: Some(b"https://example.test".to_vec()),
            image: None,
            time_pushed: 78,
        }
        .make(&mut store)
        .unwrap(),
        0,
    );
    assert!(!anon.reply_glued);
    assert!(anon.link_in_text);
    assert_eq!(anon.author, bottle::render::RenderedAuthor::Anonymous);
}

#[test]
fn link_and_media_earn_their_bonuses() {
    let cfg = test_config();
    let mut store = Store::new();
    push_ok(&mut store, &submission(1, 5, Origin::Anonymous, "a plain message"), 0, &cfg);
    assert_eq!(User::get(1, &store).xp, cfg.push_xp);
    let mut with_both = submission(2, 5, Origin::Anonymous, "decorated message");
    with_both.url = Some(b"https://example.test".to_vec());
    with_both.image = Some(b"attachment".to_vec());
    push_ok(&mut store, &with_both, 0, &cfg);
    assert_eq!(User::get(2, &store).xp, cfg.push_xp + cfg.url_xp + cfg.image_xp);
}

#[test]
fn community_bottles_feed_the_contribution_ledger() {
    let cfg = test_config();
    let mut store = Store::new();
    push_ok(&mut store, &submission(1, 5, Origin::Community(3), "a community tale"), 0, &cfg);
    let c = bottle::types::GuildContribution::get(3, 1, &store);
    assert_eq!(c.xp, cfg.push_xp);
    // Anonymous bottles leave the ledger alone.
    push_ok(&mut store, &submission(2, 6, Origin::Anonymous, "an anonymous tale"), 0, &cfg);
    let none = bottle::types::GuildContribution::get(9, 2, &store);
    assert_eq!(none.xp, 0);
}

#[test]
fn store_counts_and_user_queries() {
    let cfg = test_config();
    let mut store = Store::new();
    guild(&mut store, 1, 11);
    push_ok(&mut store, &submission(1, 5, Origin::Anonymous, "first tale told"), 0, &cfg);
    push_ok(&mut store, &submission(1, 5, Origin::Anonymous, "second tale told"), 4000, &cfg);
    push_ok(&mut store, &submission(2, 5, Origin::Anonymous, "third tale told"), 4000, &cfg);
    assert_eq!(get_bottle_count(&store), 3);
    assert_eq!(get_user_count(&store), 2);
    assert_eq!(get_guild_count(&store), 1);
    let u = User::get(1, &store);
    assert_eq!(u.get_num_bottles(&store), 2);
    let last = u.get_last_bottles(5, &store);
    assert_eq!(last.len(), 2);
    assert_eq!(last[0].contents, b"second tale told".to_vec());
    assert_eq!(last[1].contents, b"first tale told".to_vec());
    let latest = u.get_bottle(&store).unwrap();
    assert_eq!(latest.contents, b"second tale told".to_vec());
    // Rankings count strictly richer users.
    assert_eq!(User::get(2, &store).get_ranking(&store), 2);
    assert_eq!(User::get(1, &store).get_ranking(&store), 1);
}

#[test]
fn guild_rows_update_and_delete() {
    let mut store = Store::new();
    guild(&mut store, 1, 11);
    let g = Guild::get(1, &store);
    assert_eq!(g.bottle_channel, Some(11));
    // A second update overwrites in place.
    let mut g2 = Guild::get(1, &store);
    g2.bottle_channel = Some(12);
    g2.update(&mut store);
    assert_eq!(Guild::get(1, &store).bottle_channel, Some(12));
    assert_eq!(get_guild_count(&store), 1);
    assert_eq!(Guild::delete(1, &mut store), 1);
    assert_eq!(get_guild_count(&store), 0);
    assert_eq!(Guild::delete(1, &mut store), 0);
}

#[test]
fn delivery_records_resolve_by_id_and_message() {
    let mut store = Store::new();
    guild(&mut store, 1, 11);
    let b = MakeBottle {
        user: 1,
        message: 100,
        reply_to: None,
        channel: 5,
        origin: Origin::Anonymous,
        contents: b"hello there".to_vec(),
        url: None,
        image: None,
        time_pushed: 0,
    }
    .make(&mut store)
    .unwrap();
    let chain = b.get_reply_list(&store).unwrap();
    let (recs, _) = distribute_to_channel(&chain, 11, 1, &mut store).unwrap();
    let rec = recs[0];
    assert_eq!(GuildBottle::get(rec.id, &store).unwrap(), rec);
    assert_eq!(GuildBottle::get_from_message(rec.message, &store).unwrap(), rec);
    let gl = Guild::get(1, &store).get_last_bottle(&store).unwrap();
    assert_eq!(gl, rec);
    assert_eq!(GuildBottle::delete(rec.id, &mut store), 1);
    assert!(GuildBottle::get(rec.id, &store).is_err());
}

#[test]
fn deleting_a_bottle_spares_the_admin_channel_edit() {
    let cfg = test_config();
    let mut store = Store::new();
    let b = push_ok(&mut store, &submission(1, 5, Origin::Anonymous, "a tale of the sea"), 0, &cfg);
    let chain = b.get_reply_list(&store).unwrap();
    distribute_to_channel(&chain, 42, 1, &mut store).unwrap();
    distribute_to_channel(&chain, cfg.admin_channel, 2, &mut store).unwrap();
    let edits = del_bottle(b.id, &mut store, &cfg);
    assert_eq!(edits.len(), 1);
    assert_eq!(edits[0].channel, 42);
    assert!(Bottle::get(b.id, &store).is_err());
}

#[test]
fn clock_reads_non_negative_and_drives_submission() {
    let t = bottle::clock::current_unix_seconds();
    assert!(t >= 0);
    let cfg = test_config();
    let mut store = Store::new();
    let sub = submission(1, 5, Origin::Anonymous, "a tale for the clock");
    match bottle::submit::new_bottle(&sub, &mut store, &cfg) {
        SubmitOutcome::Admitted { bottle } => {
            assert!(bottle.time_pushed >= t);
        }
        _ => panic!("expected admission"),
    }
}

#[test]
fn orphan_reseed_restores_displaced_thread() {
    let cfg = test_config();
    let mut store = Store::new();
    guild(&mut store, 1, 11);
    guild(&mut store, 2, 22);
    guild(&mut store, 3, 33);
    // An orphan with no replies sits as channel 22's last delivery.
    let orphan = push_ok(&mut store, &submission(1, 11, Origin::Community(1), "an orphaned tale"), 0, &cfg);
    let ochain = orphan.get_reply_list(&store).unwrap();
    distribute_to_channel(&ochain, 22, 1, &mut store).unwrap();
    // A fresh unrelated bottle displaces it; the engine re-seeds the orphan.
    let fresh = push_ok(&mut store, &submission(2, 11, Origin::Community(1), "a fresh new tale"), 5, &cfg);
    let picks = vec![0u64; 12];
    let log = distribute_bottle(&fresh, &picks, 4, 6, &mut store).unwrap();
    assert!(log.records.iter().any(|d| d.bottle == fresh.id && d.channel == 22));
    // The displaced orphan itself went out again, though never back into
    // the channel whose displacement raised the pass.
    assert!(log.records.iter().any(|d| d.bottle == orphan.id));
    assert!(!log.records.iter().any(|d| d.bottle == orphan.id && d.channel == 22));
}

#[test]
fn alternate_reply_marker_is_recognized() {
    let mut cfg = test_config();
    cfg.min_chars = 5;
    let mut store = Store::new();
    let b1 = push_ok(&mut store, &submission(1, 11, Origin::Anonymous, "hello world out there"), 0, &cfg);
    let chain = b1.get_reply_list(&store).unwrap();
    distribute_to_channel(&chain, 22, 1, &mut store).unwrap();
    let b2 = push_ok(&mut store, &submission(2, 22, Origin::Anonymous, "#r an answer"), 10, &cfg);
    assert_eq!(b2.reply_to, Some(b1.id));
    assert_eq!(b2.contents, b"an answer".to_vec());
}

#[test]
fn admins_bypass_cooldown_and_ban() {
    let cfg = test_config();
    let mut store = Store::new();
    let mut admin = User::new(1);
    admin.admin = true;
    admin.update(&mut store);
    bottle::types::Ban { user: 1, report: None }.make(&mut store);
    push_ok(&mut store, &submission(1, 5, Origin::Anonymous, "first message text"), 1000, &cfg);
    // Right away again, banned and within the window: still admitted.
    push_ok(&mut store, &submission(1, 5, Origin::Anonymous, "second message text"), 1001, &cfg);
}

#[test]
fn reply_to_a_vanished_bottle_fails_the_submission() {
    let cfg = test_config();
    let mut store = Store::new();
    let b1 = push_ok(&mut store, &submission(1, 5, Origin::Anonymous, "a tale of the sea"), 0, &cfg);
    let chain = b1.get_reply_list(&store).unwrap();
    distribute_to_channel(&chain, 42, 1, &mut store).unwrap();
    // The bottle's row goes away, its delivery record stays.
    del_bottle(b1.id, &mut store, &cfg);
    match submit_bottle(&submission(2, 42, Origin::Anonymous, "#reply a lost answer"), 10, &mut store, &cfg) {
        SubmitOutcome::Failed { error: BottleError::NotFound } => {}
        _ => panic!("expected a missing-target failure"),
    }
}

#[test]
fn exhausted_id_space_is_a_store_failure() {
    let mut store = Store::new();
    store.next_bottle_id = i64::MAX;
    let e = MakeBottle {
        user: 1,
        message: 100,
        reply_to: None,
        channel: 5,
        origin: Origin::Anonymous,
        contents: b"hello there".to_vec(),
        url: None,
        image: None,
        time_pushed: 0,
    }
    .make(&mut store)
    .unwrap_err();
    assert_eq!(e, BottleError::StoreFailure);
}

#[test]
fn exhausted_delivery_ids_fail_the_channel() {
    let mut store = Store::new();
    let b = MakeBottle {
        user: 1,
        message: 100,
        reply_to: None,
        channel: 5,
        origin: Origin::Anonymous,
        contents: b"hello there".to_vec(),
        url: None,
        image: None,
        time_pushed: 0,
    }
    .make(&mut store)
    .unwrap();
    store.next_delivery_id = i64::MAX;
    let chain = b.get_reply_list(&store).unwrap();
    let e = distribute_to_channel(&chain, 42, 1, &mut store).unwrap_err();
    assert_eq!(e, BottleError::StoreFailure);
    assert!(deliveries_of(&store, b.id).is_empty());
}
