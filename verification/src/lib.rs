//! Core engine of a virtually scrolled, editable data grid.
//!
//! The crate provides the sparse cell store and its structural operations,
//! the scroll/visible-range viewport arithmetic, the selection model, the
//! invertible edit log (undo/redo), search and replace, and the tab-separated
//! clipboard codec.  Rendering and host-page wiring are outside the library;
//! callers drive the engine through plain values.
#![verifier::loop_isolation(false)]

pub mod clipboard;
pub mod editing;
pub mod error;
pub mod grid;
pub mod keyboard;
pub mod laws;
pub mod search;
pub mod selection;
pub mod sort;
pub mod store;
pub mod text;
pub mod undo;
pub mod values;
pub mod viewport;
pub mod widget;
