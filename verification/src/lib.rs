//! Verified core of a DNS updater that copies NetworkManager's resolver
//! settings into Knot Resolver.

pub mod addr;
pub mod api;
pub mod atomic;
pub mod atomic_laws;
pub mod config;
pub mod domain;
pub mod domain_laws;
pub mod forward;
pub mod forward_laws;
pub mod json;
pub mod known;
pub mod order;
pub mod path;
pub mod resolv;
pub mod resolv_laws;
pub mod rewrite_laws;
pub mod search;
pub mod search_laws;
pub mod session;
pub mod session_laws;
pub mod step_laws;
pub mod text;
pub mod text_laws;
pub mod view_laws;
