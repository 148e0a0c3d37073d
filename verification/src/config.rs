//! Engine configuration: cooldown window, content floor, ticket ceiling,
//! point values, fan-out width, reply markers, moderation emoji and the
//! administrative channel.
use vstd::prelude::*;
use crate::types::ChannelId;

verus! {

/// Number of random fan-out targets per distribution pass.
pub const DELIVER_NUM: usize = 3;

/// Hard bound on reply-chain walks, in hops.
pub const MAX_CHAIN: usize = 25;

pub struct Config {
    /// Seconds a non-admin must wait between two bottles.
    pub cooldown_seconds: i64,
    /// Minimum trimmed length of a bottle with neither link nor media.
    pub min_chars: usize,
    /// Rejections past this many consecutive tickets become silent.
    pub max_tickets: u32,
    /// Points for pushing a bottle.
    pub push_xp: i64,
    /// Bonus points for an attached link.
    pub url_xp: i64,
    /// Bonus points for attached media.
    pub image_xp: i64,
    /// Bonus points to the original author when someone else replies.
    pub reply_xp: i64,
    /// Bonus points for the first report of a bottle.
    pub report_xp: i64,
    /// Marker that makes a submission a reply, stripped from the text.
    pub reply_prefix: Vec<u8>,
    /// Alternate reply marker.
    pub alt_reply_prefix: Vec<u8>,
    /// Emoji that toggles a ban.
    pub ban_emoji: Vec<u8>,
    /// Emoji that deletes a single bottle.
    pub delete_emoji: Vec<u8>,
    /// Channel where reports are rendered; exempt from cascade edits.
    pub admin_channel: ChannelId,
}

impl Config {
    /// The stock configuration: an hour of cooldown, ten characters of
    /// content floor, five tickets before silence.
    pub fn standard() -> (r: Config)
        ensures
            r.cooldown_seconds == 3600,
            r.min_chars == 10,
            r.max_tickets == 5,
            r.push_xp == 10,
            r.url_xp == 5,
            r.image_xp == 5,
            r.reply_xp == 5,
            r.report_xp == 10,
            r.reply_prefix@ == seq![35u8, 114u8, 101u8, 112u8, 108u8, 121u8],
            r.alt_reply_prefix@ == seq![35u8, 114u8, 32u8],
            r.ban_emoji@ == seq![240u8, 159u8, 154u8, 171u8],
            r.delete_emoji@ == seq![226u8, 157u8, 140u8],
            r.admin_channel == 0,
    {
        Config {
            cooldown_seconds: 3600,
            min_chars: 10,
            max_tickets: 5,
            push_xp: 10,
            url_xp: 5,
            image_xp: 5,
            reply_xp: 5,
            report_xp: 10,
            reply_prefix: vec![35u8, 114u8, 101u8, 112u8, 108u8, 121u8],
            alt_reply_prefix: vec![35u8, 114u8, 32u8],
            ban_emoji: vec![240u8, 159u8, 154u8, 171u8],
            delete_emoji: vec![226u8, 157u8, 140u8],
            admin_channel: 0,
        }
    }
}

} // verus!
