//! The mathematical value of a quadtree, and what each operation does to it.

use crate::geometry::{Point, Rectangle};
use vstd::prelude::*;

verus! {

/// One of the four places for a child node: empty, or an owned subtree.
pub type Child = Option<Box<TreeModel>>;

/// The value of a quadtree node: what it covers, how many points it may
/// keep for itself, the points it keeps, in the order in which they came,
/// and its children.
///
/// Only a node that is `divided` passes points on to its children and is
/// searched through them. The children of a node that is not divided are
/// of no account.
pub struct TreeModel {
    pub boundary: Rectangle,
    pub capacity: nat,
    pub points: Seq<Point>,
    pub divided: bool,
    pub northeast: Child,
    pub northwest: Child,
    pub southeast: Child,
    pub southwest: Child,
}

/// The test that a range query applies to each point.
pub open spec fn within(range: Rectangle) -> spec_fn(Point) -> bool {
    |point: Point| range.spec_contains(point)
}

/// `after` is `before` with `point` put in at some position.
pub open spec fn gains(before: Seq<Point>, after: Seq<Point>, point: Point) -> bool {
    exists|k: int| 0 <= k <= before.len() && after == #[trigger] before.insert(k, point)
}

/// Rank of the subtree at a place; see [`TreeModel::rank`].
pub open spec fn child_rank(child: Child) -> nat
    decreases child,
{
    match child {
        Some(tree) => tree.rank(),
        None => 0,
    }
}

/// The points stored in the subtree at a place.
pub open spec fn child_points(child: Child) -> Seq<Point>
    decreases child,
{
    match child {
        Some(tree) => tree.all_points(),
        None => Seq::empty(),
    }
}

/// The points that a range query finds in the subtree at a place.
pub open spec fn child_query(child: Child, range: Rectangle) -> Seq<Point>
    decreases child,
{
    match child {
        Some(tree) => tree.query(range),
        None => Seq::empty(),
    }
}

/// The boundaries of the nodes of the subtree at a place.
pub open spec fn child_boundaries(child: Child) -> Seq<Rectangle>
    decreases child,
{
    match child {
        Some(tree) => tree.boundaries(),
        None => Seq::empty(),
    }
}

/// The number of divided nodes in the subtree at a place.
pub open spec fn child_internal_count(child: Child) -> nat
    decreases child,
{
    match child {
        Some(tree) => tree.internal_count(),
        None => 0,
    }
}

/// The place holds a well-formed subtree with the given boundary and
/// capacity.
pub open spec fn child_well_formed(child: Child, boundary: Rectangle, capacity: nat) -> bool
    decreases child,
{
    match child {
        Some(tree) => tree.boundary == boundary && tree.capacity == capacity
            && tree.well_formed(),
        None => false,
    }
}

/// Inserting a point into the subtree at a place: the place afterwards, and
/// whether the point was accepted. An empty place accepts nothing.
pub open spec fn child_insert(child: Child, point: Point) -> (Child, bool)
    decreases child_rank(child), 1nat,
{
    match child {
        Some(tree) => {
            let (after, accepted) = tree.insert(point);
            (Some(Box::new(after)), accepted)
        },
        None => (None, false),
    }
}

impl TreeModel {
    /// A node without points and without children.
    pub open spec fn leaf(boundary: Rectangle, capacity: nat) -> TreeModel {
        TreeModel {
            boundary,
            capacity,
            points: Seq::empty(),
            divided: false,
            northeast: None,
            northwest: None,
            southeast: None,
            southwest: None,
        }
    }

    /// The node with four fresh leaves as children, one for each quadrant of
    /// its boundary, each with the node's capacity. Earlier children are
    /// dropped; nothing else changes.
    pub open spec fn subdivide(self) -> TreeModel {
        TreeModel {
            northeast: Some(Box::new(Self::leaf(self.boundary.northeast(), self.capacity))),
            northwest: Some(Box::new(Self::leaf(self.boundary.northwest(), self.capacity))),
            southeast: Some(Box::new(Self::leaf(self.boundary.southeast(), self.capacity))),
            southwest: Some(Box::new(Self::leaf(self.boundary.southwest(), self.capacity))),
            ..self
        }
    }

    /// A bound on how deep an insertion descends: 0 for an undivided node
    /// with room, 1 for a full undivided node, and more than the ranks of
    /// its children for a divided node.
    pub open spec fn rank(self) -> nat
        decreases self,
    {
        if self.divided {
            2 + child_rank(self.northeast) + child_rank(self.northwest) + child_rank(
                self.southeast,
            ) + child_rank(self.southwest)
        } else if self.points.len() < self.capacity {
            0
        } else {
            1
        }
    }

    /// The tree after an insertion of `point`, and whether the point was
    /// accepted.
    ///
    /// A point outside the boundary is rejected and changes nothing. A node
    /// with room keeps the point. A full node divides first, unless it is
    /// divided already, and offers the point to its children in the order
    /// northeast, northwest, southeast, southwest, until one accepts it. A
    /// child that rejects the point may still have divided on the way.
    ///
    /// With capacity 0 a point inside the boundary would be passed down
    /// forever; the insertion is defined for every other case.
    pub open spec fn insert(self, point: Point) -> (TreeModel, bool)
        decreases self.rank(), 0nat,
        when self.capacity > 0 || !self.boundary.spec_contains(point)
    {
        if !self.boundary.spec_contains(point) {
            (self, false)
        } else if self.points.len() < self.capacity {
            (TreeModel { points: self.points.push(point), ..self }, true)
        } else {
            let node = if self.divided {
                self
            } else {
                TreeModel { divided: true, ..self.subdivide() }
            };
            let (northeast, in_northeast) = child_insert(node.northeast, point);
            let (northwest, in_northwest) = if in_northeast {
                (node.northwest, false)
            } else {
                child_insert(node.northwest, point)
            };
            let (southeast, in_southeast) = if in_northeast || in_northwest {
                (node.southeast, false)
            } else {
                child_insert(node.southeast, point)
            };
            let (southwest, in_southwest) = if in_northeast || in_northwest || in_southeast {
                (node.southwest, false)
            } else {
                child_insert(node.southwest, point)
            };
            (
                TreeModel { northeast, northwest, southeast, southwest, ..node },
                in_northeast || in_northwest || in_southeast || in_southwest,
            )
        }
    }

    /// The tree after the insertion of each of `points`, in their order.
    pub open spec fn insert_all(self, points: Seq<Point>) -> TreeModel
        decreases points.len(),
    {
        if points.len() == 0 {
            self
        } else {
            self.insert_all(points.drop_last()).insert(points.last()).0
        }
    }

    /// Those of `points` that are accepted when each is inserted, in their
    /// order.
    pub open spec fn accepted(self, points: Seq<Point>) -> Seq<Point>
        decreases points.len(),
    {
        if points.len() == 0 {
            Seq::empty()
        } else {
            let earlier = self.accepted(points.drop_last());
            if self.insert_all(points.drop_last()).insert(points.last()).1 {
                earlier.push(points.last())
            } else {
                earlier
            }
        }
    }

    /// All points stored in the tree: those of the node itself, then those
    /// of its children, northeast, northwest, southeast, southwest.
    pub open spec fn all_points(self) -> Seq<Point>
        decreases self,
    {
        if self.divided {
            self.points + child_points(self.northeast) + child_points(self.northwest)
                + child_points(self.southeast) + child_points(self.southwest)
        } else {
            self.points
        }
    }

    /// The stored points that lie within `range`, in the order of
    /// [`TreeModel::all_points`]. A subtree whose boundary does not
    /// intersect `range` is passed over.
    pub open spec fn query(self, range: Rectangle) -> Seq<Point>
        decreases self,
    {
        if !self.boundary.spec_intersects(range) {
            Seq::empty()
        } else {
            let own = self.points.filter(within(range));
            if self.divided {
                own + child_query(self.northeast, range) + child_query(self.northwest, range)
                    + child_query(self.southeast, range) + child_query(self.southwest, range)
            } else {
                own
            }
        }
    }

    /// The boundaries of all nodes: that of the node itself, then those of
    /// its children's subtrees, northeast, northwest, southeast, southwest.
    pub open spec fn boundaries(self) -> Seq<Rectangle>
        decreases self,
    {
        if self.divided {
            seq![self.boundary] + child_boundaries(self.northeast) + child_boundaries(
                self.northwest,
            ) + child_boundaries(self.southeast) + child_boundaries(self.southwest)
        } else {
            seq![self.boundary]
        }
    }

    /// The number of divided nodes.
    pub open spec fn internal_count(self) -> nat
        decreases self,
    {
        if self.divided {
            1 + child_internal_count(self.northeast) + child_internal_count(self.northwest)
                + child_internal_count(self.southeast) + child_internal_count(self.southwest)
        } else {
            0
        }
    }

    /// All points stored in the tree lie within `region`.
    pub open spec fn holds_within(self, region: Rectangle) -> bool {
        forall|i: int|
            0 <= i < self.all_points().len() ==> region.spec_contains(
                #[trigger] self.all_points()[i],
            )
    }

    /// The invariant of a tree. A node keeps at most `capacity` points, and
    /// every point stored at or below it lies within its boundary. A divided
    /// node is full and has four well-formed children, which cover the
    /// quadrants of its boundary and have its capacity.
    pub open spec fn well_formed(self) -> bool
        decreases self,
    {
        &&& self.points.len() <= self.capacity
        &&& self.holds_within(self.boundary)
        &&& self.divided ==> {
            &&& self.points.len() == self.capacity
            &&& child_well_formed(self.northeast, self.boundary.northeast(), self.capacity)
            &&& child_well_formed(self.northwest, self.boundary.northwest(), self.capacity)
            &&& child_well_formed(self.southeast, self.boundary.southeast(), self.capacity)
            &&& child_well_formed(self.southwest, self.boundary.southwest(), self.capacity)
        }
    }
}

} // verus!
