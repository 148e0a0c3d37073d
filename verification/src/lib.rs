//! An anonymous message-relay ("bottle") engine: submissions are admitted
//! through a rate-limiting guard, fanned out to other communities' inbound
//! channels together with their reply chains, tracked per delivery, and
//! moderated through reaction-driven ban and delete commands with a small
//! point economy on top.
//!
//! The store of record is held in memory; the platform calls that render,
//! send and edit messages are the caller's, driven by the action values the
//! engine returns.
pub mod clock;
pub mod config;
pub mod data;
pub mod distribute;
pub mod find;
pub mod laws;
pub mod moderate;
pub mod render;
pub mod score;
pub mod submit;
pub mod text;
pub mod types;
