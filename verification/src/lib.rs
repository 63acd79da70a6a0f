//! A verified client core for a screen-update protocol spoken by an external
//! text editor: a byte-level decoder for the editor's redraw notifications, a
//! grid state engine with cached per-row renderings, a highlight table with
//! lazy default-color inheritance, and a triple-buffer handoff primitive.

pub mod api;
pub mod buffer;
pub mod color;
pub mod cursor;
pub mod editor;
pub mod events;
pub mod highlight;
pub mod lines;
pub mod msgpack;
