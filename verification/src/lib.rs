//! Session registry and streaming event bridge for a conversational-agent
//! backend, together with a cancellable bounded fuzzy path search.
//!
//! The library models the bridge between a front-end issuing discrete
//! commands and a long-lived conversation engine producing a stream of
//! events: a registry of sessions keyed by opaque identifiers, an event
//! pump that forwards conversation output to an external sink in order,
//! a bounded fuzzy search that can be cancelled cooperatively, and a
//! partial-update merge for persisted settings.

pub mod config;
pub mod errors;
pub mod facade;
pub mod ids;
pub mod pump;
pub mod search;
pub mod session;
pub mod settings;
