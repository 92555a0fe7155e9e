//! Voice-channel activity tracking for a Discord server: per-member totals of
//! time spent in voice (and muted, deafened, streaming or on camera), per-channel
//! totals, and the rankings and reports built from them.

pub mod clock;
pub mod model;
pub mod voice;
pub mod handler;
pub mod text;
pub mod ranking;
pub mod commands;
pub mod config;
pub mod laws;
pub mod accounting;
pub mod tracking_laws;
pub mod reply_laws;
