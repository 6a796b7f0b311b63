//! Notification lifecycle and stack management for a status-bar desktop
//! notification daemon, together with the small pieces of bar state that
//! surround it.
pub mod slider;
pub mod unit;
pub mod record;
pub mod stack;
pub mod server;
pub mod laws;
pub mod audio;
pub mod localization;
pub mod settings;
pub mod balance;
pub mod launcher;
pub mod samples;
