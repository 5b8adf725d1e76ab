//! Game rules of a side-scrolling submarine shooter: turning the level and
//! enemy bitmaps into spawn lists, collision-layer filtering, the player's
//! lives and firing cadence, and the wiggle of rising bubbles.

pub mod bubbles;
pub mod colliders;
pub mod enemies;
pub mod level;
pub mod pixels;
pub mod player;
pub mod random;
