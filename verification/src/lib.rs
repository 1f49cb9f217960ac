//! Verified core of a menu bar companion for a local token-saving proxy:
//! number formatting, loopback-only endpoint rules, text sanitising,
//! settings validation and the connection state machine.

pub mod format;
pub mod strings;
pub mod ip;
pub mod material;
pub mod proxy;
pub mod settings;
pub mod state;
pub mod tray;
pub mod updates;
