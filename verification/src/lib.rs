//! A frame-driven pointer-focus and picking-event engine.
//!
//! Each frame, the engine picks the focused object(s) under every pointer
//! from a nearest-first candidate list, maintains per-object hover and
//! interaction state, honours an opaque/pass-through blocking policy and a
//! global suspension override driven by blocking surfaces, and emits a
//! deduplicated stream of transition events (entered/left hover,
//! selected/deselected, clicked) computed by diffing the current state
//! against the previous frame's snapshot.

pub mod events;
pub mod focus;
pub mod model;
pub mod world;
