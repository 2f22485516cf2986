//! Generation-based manager for persistent filesystem bindings.
//!
//! A *binding* associates a location in a persistent store with an ephemeral
//! location that the running system expects to see populated.  File bindings
//! are realized as symbolic links, directory bindings as kernel bind mounts.
//! Every successful application of a set of binding specifications produces
//! an immutable, numbered *generation*; the store of generations supports
//! listing, switching the single active generation, verifying the live state
//! against a recorded generation, and deleting inactive generations.

pub mod codec;
pub mod config;
pub mod engine;
pub mod model;
pub mod mounts;
pub mod store;
