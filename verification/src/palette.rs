//! The colors of the game, as `0x00RRGGBB` values.

use vstd::prelude::*;

verus! {

/// Black.
pub const BLACK: u32 = 0x000000;

/// White: road edges, lane marks and most labels.
pub const WHITE: u32 = 0xFFFFFF;

/// Red.
pub const RED: u32 = 0xFF0000;

/// Green: fuel cans.
pub const GREEN: u32 = 0x00FF00;

/// Blue: the player's car.
pub const BLUE: u32 = 0x0000FF;

/// Yellow.
pub const YELLOW: u32 = 0xFFFF00;

/// Gray: the road surface.
pub const GRAY: u32 = 0x808080;

/// Dark gray: the cleared frame.
pub const DARK_GRAY: u32 = 0x404040;

/// Grass green: the verges beside the road.
pub const GRASS_GREEN: u32 = 0x228B22;

/// Orange.
pub const ORANGE: u32 = 0xFFA500;

/// Purple.
pub const PURPLE: u32 = 0x800080;

/// Gold: the high score.
pub const GOLD: u32 = 0xFFD700;

/// Sky blue: car windows.
pub const SKY_BLUE: u32 = 0x87CEEB;

} // verus!
