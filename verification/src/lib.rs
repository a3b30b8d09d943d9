//! The verified model of a terminal emulator: grid cells, semantic prompts,
//! glyph placement, frame scheduling and the interface drawn over the grid.
//!
//! Everything that talks to a window system, a pseudo-terminal or a GPU lives
//! outside this library and hands it plain values.

pub mod alacritty;
pub mod atlas;
pub mod backend;
pub mod boxdraw;
pub mod caret;
pub mod cell;
pub mod context;
pub mod find;
pub mod fontset;
pub mod frame;
pub mod grid;
pub mod keymap;
pub mod material;
pub mod mirror;
pub mod motion;
pub mod osc;
pub mod overlay;
pub mod packer;
pub mod palette;
pub mod path;
pub mod pty;
pub mod raster;
pub mod reference;
pub mod renderer;
pub mod search;
pub mod semantic;
pub mod session;
pub mod settings;
pub mod shortcuts;
pub mod sidetable;
pub mod text;

use vstd::prelude::*;

verus! {

/// The terminal that is claimed to the child, once its description is installed.
pub const TERM_NAME: &'static str = "mica";

/// The program that the child is told it runs in.
pub const TERM_PROGRAM: &'static str = "Mica";

} // verus!
