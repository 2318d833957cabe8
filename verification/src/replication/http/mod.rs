//! The plain-HTTP delivery protocol between a follower and its authority.
pub mod client;
pub mod laws;
pub mod protocol;
pub mod response;
pub mod url;
