//! A runtime entity/component inspector core: a reflective editor dispatch
//! engine that walks type-erased values by shape, routes each shape to an
//! editor, keeps per-widget transient state across frames, synthesizes
//! default values for newly chosen enum variants, and applies edited
//! snapshots back to a live store.

pub mod assoc;
pub mod editors;
pub mod popup;
pub mod shape;
pub mod shell;
pub mod snapshot;
pub mod state;
pub mod synth;
pub mod table;
pub mod text;
pub mod value;
pub mod widget;
