//! A verified core for a terminal kanban board: the board model, its
//! modal input state machine, the plain-text board file codec, and the
//! board-directory naming rules.
pub mod numtext;
pub mod textutil;
pub mod record;
pub mod codec;
pub mod roundtrip;
pub mod model;
pub mod store;
pub mod input;
pub mod bridge;
