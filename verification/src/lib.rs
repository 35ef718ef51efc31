#![verifier::loop_isolation(false)]
//! A dependency-resolution and scheduling engine for circuit witness
//! generation: variables ("places") receive values either directly or as the
//! outputs of registered resolution tasks, and the engine discovers a valid,
//! deterministic execution order on the fly or replays a previously recorded
//! one.

pub mod codec;
pub mod config;
pub mod counting;
pub mod errors;
pub mod guide;
pub mod laws;
pub mod sorter;
pub mod sorter_playback;
pub mod sorter_runtime;
pub mod place;
pub mod record;
pub mod registrar;
pub mod resolver;
pub mod store;
pub mod window;
pub mod witness;

pub use config::CircuitResolverOpts;
pub use place::Place;
