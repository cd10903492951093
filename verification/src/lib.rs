//! Core of a frame-driven selection-sort visualization: a store of pillar
//! heights keyed by stable identities, and an automaton that advances the
//! sort by exactly one visible comparison (or one swap) per invocation.

pub mod automaton;
pub mod laws;
pub mod store;
