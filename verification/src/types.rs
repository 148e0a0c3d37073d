//! Entities of the bottle relay: users, guilds, bottles, delivery records,
//! reports, bans and per-guild contribution tallies, together with the
//! error taxonomy of the engine.
use vstd::prelude::*;

verus! {

pub type UserId = i64;

pub type GuildId = i64;

pub type ChannelId = i64;

pub type BottleId = i64;

pub type MessageId = i64;

pub type DeliveryId = i64;

/// Where a bottle was submitted from: an anonymous (direct-message) channel,
/// or a community's configured channel.
#[derive(Clone, Copy, PartialEq, Eq, Structural, Debug)]
pub enum Origin {
    Anonymous,
    Community(GuildId),
}

/// A participant. `tickets` counts consecutive rejected submissions and is
/// reset on every admission; past the configured maximum, rejections become
/// silent.
#[derive(Clone, Copy, PartialEq, Eq, Structural, Debug)]
pub struct User {
    pub id: UserId,
    pub admin: bool,
    pub xp: i64,
    pub tickets: u32,
}

/// A community. `bottle_channel` is its configured inbound channel; only
/// guilds with one are eligible delivery targets.
#[derive(Clone, Debug)]
pub struct Guild {
    pub id: GuildId,
    pub bottle_channel: Option<ChannelId>,
    pub invite: Option<Vec<u8>>,
}

/// A submitted message. `reply_to` links to the parent bottle of a reply
/// chain; `message` is the platform id of the originating message.
#[derive(Clone, Debug)]
pub struct Bottle {
    pub id: BottleId,
    pub user: UserId,
    pub message: MessageId,
    pub reply_to: Option<BottleId>,
    pub channel: ChannelId,
    pub origin: Origin,
    pub contents: Vec<u8>,
    pub url: Option<Vec<u8>>,
    pub image: Option<Vec<u8>>,
    pub time_pushed: i64,
}

/// The fields of a bottle to be created; the store assigns the id.
#[derive(Clone, Debug)]
pub struct MakeBottle {
    pub user: UserId,
    pub message: MessageId,
    pub reply_to: Option<BottleId>,
    pub channel: ChannelId,
    pub origin: Origin,
    pub contents: Vec<u8>,
    pub url: Option<Vec<u8>>,
    pub image: Option<Vec<u8>>,
    pub time_pushed: i64,
}

/// One delivery of a bottle into one channel, as a rendered message.
/// At most one record lives per (bottle, channel) pair.
#[derive(Clone, Copy, PartialEq, Eq, Structural, Debug)]
pub struct GuildBottle {
    pub id: DeliveryId,
    pub bottle: BottleId,
    pub channel: ChannelId,
    pub message: MessageId,
    pub time_received: i64,
}

/// The fields of a delivery record to be made; the store assigns the id.
#[derive(Clone, Copy, PartialEq, Eq, Structural, Debug)]
pub struct MakeGuildBottle {
    pub bottle: BottleId,
    pub channel: ChannelId,
    pub message: MessageId,
    pub time_received: i64,
}

/// An open report on a bottle. `user` is the reporter; `message` is the
/// platform id of the report notice shown to moderators. At most one open
/// report exists per bottle.
#[derive(Clone, Copy, PartialEq, Eq, Structural, Debug)]
pub struct Report {
    pub user: UserId,
    pub bottle: BottleId,
    pub message: Option<MessageId>,
}

/// Presence of a ban record is authoritative; `report` links the report
/// that occasioned it, when there was one.
#[derive(Clone, Copy, PartialEq, Eq, Structural, Debug)]
pub struct Ban {
    pub user: UserId,
    pub report: Option<BottleId>,
}

/// Accumulated experience a user earned for one guild.
#[derive(Clone, Copy, PartialEq, Eq, Structural, Debug)]
pub struct GuildContribution {
    pub guild: GuildId,
    pub user: UserId,
    pub xp: i64,
}

/// The error taxonomy of the engine. The first four are user-facing
/// rejections routed through the ticket escalation; the rest mark absent
/// records and collaborator failures.
#[derive(Clone, Copy, PartialEq, Eq, Structural, Debug)]
pub enum BottleError {
    RateLimited { wait: i64 },
    Banned,
    TooShort,
    NoReplyTarget,
    NotFound,
    UpstreamUnavailable,
    StoreFailure,
}

/// Field-wise agreement of two bottle values; text fields agree as byte
/// sequences. Lookups return copies, related to the stored entry by this.
pub open spec fn same_bottle(a: Bottle, b: Bottle) -> bool {
    &&& a.id == b.id
    &&& a.user == b.user
    &&& a.message == b.message
    &&& a.reply_to == b.reply_to
    &&& a.channel == b.channel
    &&& a.origin == b.origin
    &&& a.contents@ == b.contents@
    &&& opt_bytes(a.url) == opt_bytes(b.url)
    &&& opt_bytes(a.image) == opt_bytes(b.image)
    &&& a.time_pushed == b.time_pushed
}

/// Field-wise agreement of two guild values.
pub open spec fn same_guild(a: Guild, b: Guild) -> bool {
    &&& a.id == b.id
    &&& a.bottle_channel == b.bottle_channel
    &&& opt_bytes(a.invite) == opt_bytes(b.invite)
}

/// The byte-sequence content of an optional text field.
pub open spec fn opt_bytes(o: Option<Vec<u8>>) -> Option<Seq<u8>> {
    match o {
        Some(v) => Some(v@),
        None => None,
    }
}

} // verus!
