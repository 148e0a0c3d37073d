//! Rendering decisions for a delivered bottle: which title, colour, author
//! line and links the message carries. The caller turns this value into a
//! platform message; nothing here leaves the process.
use vstd::prelude::*;
use crate::types::{Bottle, BottleId, GuildId, Origin, UserId, opt_bytes};

verus! {

/// Who the rendered message names as author.
#[derive(Clone, Copy, PartialEq, Eq, Structural, Debug)]
pub enum RenderedAuthor {
    Anonymous,
    Known(UserId),
}

/// Everything the platform message of one delivered chain segment shows.
pub struct RenderedBottle {
    /// A reply segment ("glued to the bottle") rather than the find itself.
    pub reply_glued: bool,
    pub contents: Vec<u8>,
    /// Show the link inside the text when the bottle has no text of its own.
    pub link_in_text: bool,
    /// The community named in the footer, when the bottle has one.
    pub guild: Option<GuildId>,
    /// The bottle a report link on this rendering points at.
    pub report_bottle: BottleId,
    pub color: u32,
    pub timestamp: i64,
    pub author: RenderedAuthor,
    pub image: Option<Vec<u8>>,
    pub url: Option<Vec<u8>>,
}

/// The colour for a chain segment: eight hues cycled by depth.
pub open spec fn spec_col_wheel(num: nat) -> u32 {
    if num % 8 == 0 {
        0x7289DAu32
    } else if num % 8 == 1 {
        0x3498DBu32
    } else if num % 8 == 2 {
        0x1ABC9Cu32
    } else if num % 8 == 3 {
        0x1F8B4Cu32
    } else if num % 8 == 4 {
        0xBADA55u32
    } else if num % 8 == 5 {
        0xF1C40Fu32
    } else if num % 8 == 6 {
        0x992D22u32
    } else {
        0xE91E63u32
    }
}

/// The colour for a chain segment, cycled by depth.
pub fn col_wheel(num: usize) -> (r: u32)
    ensures
        r == spec_col_wheel(num as nat),
{
    match num % 8 {
        0 => 0x7289DA,
        1 => 0x3498DB,
        2 => 0x1ABC9C,
        3 => 0x1F8B4C,
        4 => 0xBADA55,
        5 => 0xF1C40F,
        6 => 0x992D22,
        _ => 0xE91E63,
    }
}

/// Decide the rendering of one bottle at chain depth `level`: reply title
/// past depth zero, colour off the wheel, the author named only for
/// community bottles, and the link shown in the text only when the bottle
/// has no text.
pub fn render_bottle(bottle: &Bottle, level: usize) -> (r: RenderedBottle)
    ensures
        r.reply_glued == (level > 0),
        r.contents@ == bottle.contents@,
        r.link_in_text == (bottle.url is Some && bottle.contents@.len() == 0),
        r.guild == (match bottle.origin {
            Origin::Community(g) => Some(g),
            Origin::Anonymous => None::<GuildId>,
        }),
        r.report_bottle == bottle.id,
        r.color == spec_col_wheel(level as nat),
        r.timestamp == bottle.time_pushed,
        r.author == (match bottle.origin {
            Origin::Community(_) => RenderedAuthor::Known(bottle.user),
            Origin::Anonymous => RenderedAuthor::Anonymous,
        }),
        opt_bytes(r.image) == opt_bytes(bottle.image),
        opt_bytes(r.url) == opt_bytes(bottle.url),
{
    RenderedBottle {
        reply_glued: level > 0,
        contents: crate::data::copy_bytes(&bottle.contents),
        link_in_text: bottle.url.is_some() && bottle.contents.len() == 0,
        guild: match bottle.origin {
            Origin::Community(g) => Some(g),
            Origin::Anonymous => None,
        },
        report_bottle: bottle.id,
        color: col_wheel(level),
        timestamp: bottle.time_pushed,
        author: match bottle.origin {
            Origin::Community(_) => RenderedAuthor::Known(bottle.user),
            Origin::Anonymous => RenderedAuthor::Anonymous,
        },
        image: crate::data::copy_opt_bytes(&bottle.image),
        url: crate::data::copy_opt_bytes(&bottle.url),
    }
}

} // verus!
