//! A persistent conversational agent state ("standing wave") with an
//! append-only memory store, a set of guard functions that stand before every
//! mutation, and the decision logic that drives a turn and the background
//! cycle.
//!
//! Real-valued quantities (valence, confidence, coherence, entropy) are held
//! as thousandths in integers: `500` stands for `0.5`.

pub mod config;
pub mod text;
pub mod types;
pub mod physics;
pub mod ranking;
pub mod memory;
pub mod models;
pub mod weaving;
pub mod curiosity_search;
pub mod constitutional_physics;
pub mod consciousness;
