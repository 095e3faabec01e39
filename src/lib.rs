//! Forward-auth bridge: Basic credentials in, identity headers out.

pub mod basic;
pub mod bridge;
pub mod cache;
pub mod config;
pub mod err;
pub mod oidc;
pub mod text;
