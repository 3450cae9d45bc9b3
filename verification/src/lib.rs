//! Sticky notes: the note model, its plain-text form, and the decisions of
//! the note windows, tray menu and theme detection.
pub mod editing;
pub mod markdown;
pub mod model;
pub mod roundtrip;
pub mod state;
pub mod text;
pub mod theme;
pub mod tray;
