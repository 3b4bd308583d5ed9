//! Request authorization core for a small paste-hosting service.
//!
//! The library turns a bearer credential into a typed principal, enforces
//! expiry, decides ownership- and role-based access, and classifies every
//! failure into a stable `(code, message)` pair.

pub mod auth;
pub mod codec;
pub mod config;
pub mod controllers;
pub mod crypto;
pub mod digest;
pub mod errors;
pub mod guard;
pub mod hex;
pub mod laws;
pub mod pastes;
pub mod text;
pub mod users;

pub use errors::Error;
