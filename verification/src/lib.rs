//! Records how long each window of a tiling window manager held focus.
//!
//! The crate is organised around one consumer loop that owns all mutable
//! state.  `i3` normalises the raw window-change stream, `tracker` maintains
//! the single open focus interval and decides when a row must be persisted,
//! `i3log` holds the record types and startup sequence recovery, `csvrow`
//! fixes the on-disk row serialization, `rotate` picks the log file a session
//! appends to, and `clock` wraps the system time source.

pub mod clock;
pub mod csvrow;
pub mod digits;
pub mod i3;
pub mod i3log;
pub mod rotate;
pub mod tracker;
