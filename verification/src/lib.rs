//! PengAgent: an admin agent for docker-compose and git managed self-hosting.
//!
//! This crate holds the agent's decisions with their contracts: the
//! restart whitelist and its glob patterns, the configuration read from the
//! environment, the bearer-token check, the protocol error body and the
//! health answer. The HTTP server around them lives in the binary.

pub mod text;
pub mod config;
pub mod error;
pub mod auth;
pub mod endpoints;

use vstd::prelude::*;

verus! {

} // verus!
