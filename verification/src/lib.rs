//! A region quadtree over the integer plane.
//!
//! A tree is rooted at a rectangular boundary. Each node keeps up to
//! `capacity` points of its own and, once it overflows, hands further points
//! to four children that cover the quadrants of its boundary. Points are
//! retrieved by rectangular range; the boundaries of all nodes can be listed
//! for display.
//!
//! Every executable function states its result over [`TreeModel`], the
//! mathematical value of a tree.

pub mod geometry;
pub mod laws;
pub mod model;
pub mod transport;
pub mod tree;

pub use geometry::{Point, Rectangle};
pub use model::TreeModel;
pub use tree::QuadTree;
