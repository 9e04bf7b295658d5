//! Client-side logic for driving an AdGuard Home instance's `/control/*`
//! REST API: request URLs, Basic credentials, reply classification, the
//! DNS-rewrite upsert plan, and what the service backend declares.

pub mod api;
pub mod backend;
pub mod base64;
pub mod config;

pub use crate::api::{
    classify_reply, is_success, plan_set_rewrite, transport, AdguardError, Rewrite, SetRewritePlan,
    Status,
};
pub use crate::backend::{AdguardBackend, Runtime, ServiceCapability};
pub use crate::base64::base64_encode;
pub use crate::config::Config;
