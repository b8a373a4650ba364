//! Wire types of the two protocols.
pub mod body;
pub mod chat;
pub mod decode;
pub mod responses;
