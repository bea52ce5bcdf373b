//! A verified scene-object store for an interactive 2D peg-board music
//! sandbox, together with the event-sourced protocol that keeps it in step
//! with the transient world of rendered and simulated instances.
//!
//! The library owns the logical truth of a scene: which pegs and ball
//! spawners exist, under which stable identifiers, at which positions, and
//! with which notes.  Around that store it provides the spawn/delete router,
//! the chord-entry and drag-reposition state machines, the collision-to-audio
//! mapping, and a binary persistence codec with a proved round trip.
//!
//! Positions travel through the logic as opaque 32-bit patterns (the bit
//! image of the caller's single-precision coordinates); the logic never
//! computes on them, it only stores and mirrors them.

pub mod chord;
pub mod codec;
pub mod drag;
pub mod feedback;
pub mod router;
pub mod store;
pub mod translate;
