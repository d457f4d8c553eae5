//! A personal budgeting service: users register and log in, then create
//! budgets and record expenses against them.
//!
//! The crate holds the authenticated CRUD + cache-aside data path of the
//! service: credential handling (password hashing and signed session
//! tokens), the authentication middleware decision, the three relations
//! (users, budgets, expenses) with their ownership rules, and the
//! read-through cache with its invalidation discipline.  Password hashing
//! and token signatures come from outside crates through a few trusted
//! wrappers; everything around them is verified.

pub mod auth;
pub mod cache;
pub mod codec;
pub mod credentials;
pub mod db;
pub mod handlers;
pub mod laws;
pub mod token;
pub mod types;
