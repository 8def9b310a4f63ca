//! Terrain streaming around a moving observer: chunk coordinates, the chunk
//! index, the per-tick spawn/despawn decisions, and the heightfield grid that
//! a chunk's render mesh and collider are both built from.
pub mod coord;
pub mod heightfield;
pub mod index;
pub mod spells;
pub mod streamer;
pub mod tick_laws;
