//! A store of removable storage cards and installed applications, linked many to
//! many, kept in step with what the inserted card holds.
//!
//! - `store`: the relationship store (arena of nodes, id index, symmetric links,
//!   fingerprint cache) and its operations; `requests` adds batch operations.
//! - `reconcile`: merging a card's manifests into the store.
//! - `watch`: the decisions of the polling loop, as a state machine.
//! - `fingerprint`: the change-detection hash of a card's manifest directory.
//! - `snapshot`: the persisted form of a store, and loading it back.
//! - `mount`: choosing the card's mount among device labels.
//! - `event`: event-stream text for lifecycle signals.
//! - `laws`: properties relating several store operations.

pub mod error;
pub mod model;

pub mod arena;
pub mod entries;
pub mod links;
pub mod store;
pub mod requests;
pub mod snapshot;
pub mod laws;
pub mod reconcile;
pub mod fingerprint;
pub mod watch;
pub mod mount;
pub mod event;
pub mod config;
