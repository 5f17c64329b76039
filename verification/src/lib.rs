//! A verified core for a live map viewer of a randomized exploration game.
//!
//! The world is a graph of rooms connected by doorway transitions whose
//! destinations may have been shuffled by a randomizer.  This crate holds the
//! session-independent world model, the per-session state (transition
//! remapping, revealed transitions, live room positions), an incremental
//! force-relaxation layout engine, a shortest-path search over the revealed
//! subgraph, and an affine transform stack used for hit-testing.
//!
//! All geometry is carried in fixed-point milli-units (one unit of the game's
//! coordinate space is 1000 milli-units), so every computation here is exact
//! integer arithmetic with a precise contract.

pub mod data;
pub mod event;
pub mod fixed;
pub mod geom;
pub mod kv;
pub mod layout;
pub mod path;
pub mod query;
pub mod settings;
pub mod state;
pub mod text;
pub mod util;
