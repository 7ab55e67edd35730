//! Endpoints of PengAgent Protocol v1.

pub mod health;
