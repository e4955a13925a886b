//! Spatial selection for a real-time-strategy prototype: an index of
//! entity bounding boxes, exact ray and frustum tests on integer world
//! coordinates, and the drag-box selection protocol built on top of them.

pub mod geom;
pub mod frustum;
pub mod bounding_tree;
pub mod selector;
pub mod selection;
pub mod publisher;
pub mod unproject;
pub mod voxel;
pub mod models;
pub mod lemmas;
