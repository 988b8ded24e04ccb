//! Profile sync for the Zen browser: the verified core.
pub mod text;
pub mod tray;
pub mod calendar;
pub mod github;
pub mod crypto;
pub mod pairing;
pub mod local_state;
pub mod ntfy;
pub mod daemon;
pub mod sync;
pub mod profile;
pub mod zen_check;
