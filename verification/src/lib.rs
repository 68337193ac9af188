//! Core of a small group-chat server: identity tokens, username reservation,
//! rate and spam limiting, message filtering, the chat hub with its bounded
//! history, and the binary wire codec.

pub mod client;
pub mod config;
pub mod dropvec;
pub mod globalchat;
pub mod hub;
pub mod mesg_filter;
pub mod message;
pub mod names;
pub mod nanohttp;
pub mod profanity;
pub mod ratelimit;
pub mod session;
pub mod stringtree;
pub mod userid;
pub mod userinfo;
pub mod util;
pub mod wsprotocol;

pub use util::IdCounter;
