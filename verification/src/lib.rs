//! Client-side conversation state core of a peer-to-peer messaging
//! application: a single mutable state container holding identities,
//! conversations, the friendship graph and UI-transient state, mutated only
//! through a closed vocabulary of actions and normalized domain events.

pub mod ids;
pub mod identity;
pub mod message;
pub mod chat;
pub mod grouping;
pub mod friends;
pub mod config;
pub mod settings;
pub mod ui;
pub mod policy;
pub mod state;
pub mod ext;
pub mod action;
pub mod events;
pub mod state_events;
pub mod laws;
pub mod translator;
pub mod persist;
pub mod state_get;
pub mod search;
pub mod roster;
