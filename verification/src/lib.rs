//! Responses-to-Chat proxy logic: healing of leaked model markup, request and
//! response conversion, configuration rules, model catalogs and doctor checks.
pub mod catalog;
pub mod config;
pub mod convert;
pub mod doctor;
pub mod doctor_live;
pub mod heal;
pub mod ids;
pub mod json;
pub mod laws;
pub mod metrics;
pub mod mock;
pub mod mode;
pub mod normalize;
pub mod order;
pub mod sse;
pub mod text;
pub mod upstream;
pub mod version;
pub mod wire;
