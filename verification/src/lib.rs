//! Verified decision logic of a small physics scene: a river of drops turns a
//! conveyor, whose rotor drives a generator that lights lanterns.
//!
//! The modules hold what the scene decides with plain values: when loading is
//! over (`game_state`), how the conveyor's track loop is laid out and joined
//! (`transporter`), which rolls the generator's parts hang on and when they
//! are spawned (`generator`), how scene nodes and colliders are recognised
//! (`env`), when the river's source is taken over (`river`) and how the
//! camera cycles through its targets (`scenario`). Rendering, physics and the
//! ECS plumbing live outside this crate.

pub mod env;
pub mod game_state;
pub mod generator;
pub mod river;
pub mod scenario;
pub mod transporter;

pub use game_state::{check_ready, GameState};
