//! Shared agent sessions: tmux session identities, record parsers and
//! operations on the host side, session lists and polling on the app side.

pub mod agents;
pub mod client;
pub mod clock;
pub mod detect;
pub mod display;
pub mod encoding;
pub mod error;
pub mod identity;
pub mod listing;
pub mod number;
pub mod polling;
pub mod records;
pub mod sessions;
pub mod shell;
pub mod text;
pub mod version;
pub mod view;
