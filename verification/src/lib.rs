//! A small verified entity-component-system core: an entity/component store,
//! a single-slot-per-type resource store, a dispatcher that orders named
//! systems by "runs after" edges and read/write conflicts, and the per-tick
//! systems themselves (input routing, rotation integration with wrap-to-zero,
//! and constant-velocity position integration).
//!
//! Windowing, rendering and asset loading are outside collaborators: a driver
//! feeds the engine plain events and values, and the engine never performs
//! input or output of its own.

pub mod engine;
pub mod resources;
pub mod schedule;
pub mod systems;
pub mod types;
pub mod world;
