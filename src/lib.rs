//! A beetle sprite that wanders between random targets on a small
//! monochrome screen: the interpolation of its path, the choice of its
//! targets, the pixels of its bitmap, and the decisions of the frame loop.

pub mod scene;
pub mod sprite;
pub mod target;
pub mod wanderer;
