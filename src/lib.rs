//! Mod synchronization engine: download progress tracking, manifest handling,
//! the canonical mod cache, the command processor's decisions, the push
//! channel's keepalive state machine, and the game-side configuration model.
pub mod net;
pub mod paths;
pub mod mods;
pub mod play;
pub mod sync;
pub mod processor;
pub mod keepalive;
pub mod broadcast;
