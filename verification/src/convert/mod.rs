//! Conversion between the Responses and the Chat Completions protocols.
pub mod replay;
pub mod request;
pub mod response;
pub mod runs;
