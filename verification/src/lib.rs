//! A first-person raycasting renderer over a grid map, computed entirely in
//! 16.16 fixed-point arithmetic.
//!
//! Given a map of wall cells, a player's pose on it and one frame's input,
//! the crate moves the player, keeping the player out of the walls, and
//! projects the map into a row of wall heights, one for each column of the
//! screen. Every result is a function of its arguments alone, stated over
//! the integers and proved, and no function panics where its precondition
//! holds.
//!
//! Positions are in cells: `x` grows along a row, `y` down the map. Angles
//! are in radians: a heading of zero looks along `x`, and a growing heading
//! turns toward the top of the map.
//!
//! The crate is layered, leaves first:
//!
//! * [`fixed`]: the scalar type and its primitive operations;
//! * [`trig`]: sine, cosine and tangent by Bhaskara's rational approximation;
//! * [`map`]: the occupancy grid and the point-in-wall test;
//! * [`caster`]: the two grid-line ray marches;
//! * [`player`]: the player's pose and its per-frame update;
//! * [`view`]: the projection of the map into screen columns.
pub mod caster;
pub mod fixed;
pub mod map;
pub mod player;
pub mod trig;
pub mod view;
