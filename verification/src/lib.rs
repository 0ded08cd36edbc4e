//! Map lifecycle tracker: an approval workflow for community-submitted game
//! maps, together with the generator for the vote-list artifacts that game
//! servers consume.
//!
//! The library is the decision core: the record model, the transition rules,
//! the keyed record population, and the artifact text derivation. Reading the
//! clock, talking to the record store on disk and moving binary files are left
//! to the surrounding program, which hands plain values in and carries the
//! decided effects out.

pub mod engine;
pub mod laws;
pub mod model;
pub mod orchestrate;
pub mod store;
pub mod votes;
