//! Core of a modal, terminal-based editor for tabular data: a flat-backed
//! multi-dimensional storage type, the cursor/viewport state model, the modal
//! input dispatcher, the pure render-layout engine, and the separator-name
//! tables used by the command line.

pub mod matrix;
pub mod mode;
pub mod state;
pub mod dispatch;
pub mod render;
pub mod delim;
