//! A verified macro execution engine.
//!
//! A *macro* is a named automation: a set of initiators (keyboard chords that
//! trigger it) and a tree of typed execution steps (wait, notification,
//! counted loop, conditional loop, branch, stop) that run over a small
//! per-run variable store with string interpolation.
//!
//! The crate covers the engine itself: the data model for execution trees
//! (`model`), the variable store and template rendering (`store`, `render`),
//! the tree-walking interpreter with cancellation (`interp`), the trigger
//! matcher that turns key events into macro activations (`matcher`), and the
//! replaceable registry of the current macro set (`registry`).
//!
//! The interpreter is written as a pure function from an execution tree and a
//! run state to a sequence of requested side effects (delays and
//! notifications); an embedding shell performs those effects, feeds raw key
//! events to the matcher, and pushes new macro sets into the registry.

pub mod interp;
pub mod matcher;
pub mod model;
pub mod registry;
pub mod render;
pub mod store;
pub mod strutil;
