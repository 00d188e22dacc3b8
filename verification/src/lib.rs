//! A capability-addressed storage and invocation model for contracts.
//!
//! Contracts reach persistent storage only through unforgeable references
//! that carry an access-rights mask, keep a private map from names to
//! references or contract identities, and call one another through an
//! engine that gives every call a frame of its own.

pub mod bytes;
pub mod error;
pub mod rights;
pub mod reference;
pub mod value;
pub mod store;
pub mod names;
pub mod registry;
pub mod frame;
pub mod engine;
pub mod counter;
pub mod mailing_list;
