//! Plane geometry: integer coordinates and compass orientations.

pub mod location;
pub mod orientation;
