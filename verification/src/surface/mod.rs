//! Points, areas, directions and the pixel surface the planners work on.

pub mod vpoint;
pub mod direction;
pub mod varea;
pub mod pixel;
pub mod vsurface;
pub mod vpatch;
pub mod vpoint_direction;
