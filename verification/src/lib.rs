//! A verified core for a Road Fighter style racing game: the frame buffer
//! model and its drawing primitives, the bitmap font and text renderer, the
//! game's progress rules (lives, score, level, high score), spawn placement,
//! and the parser for the display size reported by X tools.

pub mod palette;
pub mod screen;
pub mod font;
pub mod text;
pub mod sprites;
pub mod road;
pub mod spawn;
pub mod session;
pub mod display;
pub mod display_roundtrip;
