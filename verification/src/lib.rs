//! Verified core of the XKK game server cluster: Gate client sessions and
//! login flows, the Logic per-player runtime admission rules and inventory,
//! Public mail rules, Query and Auth request rules.

pub mod auth;
pub mod gate;
pub mod ids;
pub mod mail;
pub mod persistence;
pub mod player;
pub mod players;
pub mod query;
pub mod run;
pub mod runtime;
pub mod session;
pub mod status;
