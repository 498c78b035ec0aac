//! Confined path resolution, password anchors, sessions, login throttling,
//! byte ranges and content-disposition headers for a directory-browsing server.

pub mod config;
pub mod errors;
pub mod text;
pub mod range;
pub mod path_guard;
pub mod disposition;
pub mod session;
pub mod anchor;
pub mod listing;
pub mod login;
