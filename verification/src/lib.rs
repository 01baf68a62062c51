//! Selection and pathing core of a hexagonal-grid strategy game.
//!
//! Units live on a hexagonal grid laid over an integer world plane. The
//! library resolves pointer gestures into selection changes and move orders,
//! assigns destination cells, builds cell-by-cell routes and advances every
//! unit along its waypoint queue once per frame.

pub mod assignment;
pub mod colony;
pub mod geometry;
pub mod hex;
pub mod input;
pub mod layout;
pub mod motion;
pub mod orders;
pub mod rings;
pub mod selection;
pub mod unit;
pub mod visuals;
