//! The quadtree itself: construction, insertion and the two traversals.

use crate::geometry::{lemma_quadrants_fit, Point, Rectangle};
use crate::laws::{
    lemma_boundary_count, lemma_insert_effect, lemma_query_finds_stored_within,
    lemma_subdivide_quadrants, lemma_subdivide_well_formed,
};
use crate::model::{child_boundaries, child_query, gains, within, Child, TreeModel};
use vstd::prelude::*;

verus! {

/// A node of a region quadtree, and through its children the whole subtree
/// below it. Its value is a [`TreeModel`].
pub struct QuadTree {
    boundary: Rectangle,
    capacity: usize,
    points: Vec<Point>,
    divided: bool,
    northeast: Option<Box<QuadTree>>,
    northwest: Option<Box<QuadTree>>,
    southeast: Option<Box<QuadTree>>,
    southwest: Option<Box<QuadTree>>,
}

/// The value of the subtree at one of the four places of a node.
spec fn child_model(child: Option<Box<QuadTree>>) -> Child
    decreases child,
{
    match child {
        Some(tree) => Some(Box::new(tree.model())),
        None => None,
    }
}

impl View for QuadTree {
    type V = TreeModel;

    closed spec fn view(&self) -> TreeModel {
        self.model()
    }
}

impl QuadTree {
    /// The value of the tree, node by node.
    spec fn model(self) -> TreeModel
        decreases self,
    {
        TreeModel {
            boundary: self.boundary,
            capacity: self.capacity as nat,
            points: self.points@,
            divided: self.divided,
            northeast: child_model(self.northeast),
            northwest: child_model(self.northwest),
            southeast: child_model(self.southeast),
            southwest: child_model(self.southwest),
        }
    }

    /// A buffer for `capacity` points can be reserved: a point takes eight
    /// bytes, and no buffer is larger than `isize::MAX` bytes.
    pub open spec fn reservable(capacity: nat) -> bool {
        capacity * 8 <= isize::MAX
    }

    /// The invariant of the tree: that of its value, and a capacity for
    /// which a buffer can be reserved.
    pub open spec fn well_formed(&self) -> bool {
        &&& self@.well_formed()
        &&& Self::reservable(self@.capacity)
    }

    /// A leaf that covers `boundary` and keeps up to `capacity` points
    /// before it divides.
    pub fn new(boundary: Rectangle, capacity: usize) -> (tree: QuadTree)
        requires
            Self::reservable(capacity as nat),
        ensures
            tree@ == TreeModel::leaf(boundary, capacity as nat),
            tree.well_formed(),
    {
        QuadTree {
            boundary,
            capacity,
            points: Vec::with_capacity(capacity),
            divided: false,
            northeast: None,
            northwest: None,
            southeast: None,
            southwest: None,
        }
    }

    /// Gives the node four fresh leaves as children, one for each quadrant
    /// of its boundary: half as wide and half as high, their centers a
    /// quarter of the width and of the height away, each with the node's
    /// capacity. Earlier children are dropped with all they hold. The node
    /// is not marked as divided: that is left to the caller.
    pub fn subdivide(&mut self)
        requires
            old(self).well_formed(),
            old(self)@.boundary.can_split(),
        ensures
            final(self)@ == old(self)@.subdivide(),
            final(self).well_formed(),
            final(self)@.northeast.unwrap().boundary.is_quadrant_of(
                old(self)@.boundary,
                true,
                false,
            ),
            final(self)@.northwest.unwrap().boundary.is_quadrant_of(
                old(self)@.boundary,
                false,
                false,
            ),
            final(self)@.southeast.unwrap().boundary.is_quadrant_of(
                old(self)@.boundary,
                true,
                true,
            ),
            final(self)@.southwest.unwrap().boundary.is_quadrant_of(
                old(self)@.boundary,
                false,
                true,
            ),
    {
        let half_width = self.boundary.width / 2;
        let half_height = self.boundary.height / 2;
        let quarter_width = half_width / 2;
        let quarter_height = half_height / 2;

        let ne = Rectangle {
            center: Point {
                x: self.boundary.center.x + quarter_width,
                y: self.boundary.center.y - quarter_height,
            },
            width: half_width,
            height: half_height,
        };
        let nw = Rectangle {
            center: Point {
                x: self.boundary.center.x - quarter_width,
                y: self.boundary.center.y - quarter_height,
            },
            width: half_width,
            height: half_height,
        };
        let se = Rectangle {
            center: Point {
                x: self.boundary.center.x + quarter_width,
                y: self.boundary.center.y + quarter_height,
            },
            width: half_width,
            height: half_height,
        };
        let sw = Rectangle {
            center: Point {
                x: self.boundary.center.x - quarter_width,
                y: self.boundary.center.y + quarter_height,
            },
            width: half_width,
            height: half_height,
        };

        self.northeast = Some(Box::new(QuadTree::new(ne, self.capacity)));
        self.northwest = Some(Box::new(QuadTree::new(nw, self.capacity)));
        self.southeast = Some(Box::new(QuadTree::new(se, self.capacity)));
        self.southwest = Some(Box::new(QuadTree::new(sw, self.capacity)));

        proof {
            lemma_subdivide_well_formed(old(self)@);
            lemma_subdivide_quadrants(old(self)@);
        }
    }

    /// Stores `point` in the tree, if it lies within the boundary and a place
    /// is found for it, and says whether it did.
    ///
    /// A node with room keeps the point. A full node divides first, unless
    /// it is divided already, and offers the point to its children in the
    /// order northeast, northwest, southeast, southwest, until one accepts
    /// it.
    pub fn insert(&mut self, point: Point) -> (accepted: bool)
        requires
            old(self).well_formed(),
            old(self)@.boundary.edges_fit(),
            old(self)@.capacity > 0 || !old(self)@.boundary.spec_contains(point),
        ensures
            (final(self)@, accepted) == old(self)@.insert(point),
            final(self).well_formed(),
            final(self)@.boundary == old(self)@.boundary,
            final(self)@.capacity == old(self)@.capacity,
            !old(self)@.boundary.spec_contains(point) ==> !accepted && final(self)@ == old(self)@,
            accepted ==> gains(old(self)@.all_points(), final(self)@.all_points(), point),
            !accepted ==> final(self)@.all_points() == old(self)@.all_points(),
        decreases old(self)@.rank(),
    {
        proof {
            lemma_insert_effect(old(self)@, point);
        }
        if !self.boundary.contains(&point) {
            return false;
        }
        if self.points.len() < self.capacity {
            self.points.push(point);
            true
        } else {
            if !self.divided {
                proof {
                    lemma_quadrants_fit(self.boundary, true, true);
                }
                self.subdivide();
                self.divided = true;
            }
            proof {
                lemma_quadrants_fit(self.boundary, true, false);
                lemma_quadrants_fit(self.boundary, false, false);
                lemma_quadrants_fit(self.boundary, true, true);
                lemma_quadrants_fit(self.boundary, false, true);
            }
            self.northeast.as_mut().unwrap().insert(point)
                || self.northwest.as_mut().unwrap().insert(point)
                || self.southeast.as_mut().unwrap().insert(point)
                || self.southwest.as_mut().unwrap().insert(point)
        }
    }

    /// Appends to `found_points` the stored points that lie within `range`:
    /// those of the node itself first, then those of the children,
    /// northeast, northwest, southeast, southwest. A subtree whose boundary
    /// does not intersect `range` is passed over.
    pub fn query(&self, range: &Rectangle, found_points: &mut Vec<Point>)
        ensures
            final(found_points)@ == old(found_points)@ + self@.query(*range),
            self.well_formed() ==> final(found_points)@ == old(found_points)@
                + self@.all_points().filter(within(*range)),
        decreases self,
    {
        let ghost before = found_points@;
        proof {
            if self.well_formed() {
                lemma_query_finds_stored_within(self@, *range);
            }
        }
        if !self.boundary.intersects(range) {
            assert(found_points@ == before + Seq::<Point>::empty());
            return ;
        }
        let ghost inside = within(*range);
        let mut i: usize = 0;
        assert(self.points@.take(0).filter(inside) == Seq::<Point>::empty());
        while i < self.points.len()
            invariant
                i <= self.points.len(),
                inside == within(*range),
                found_points@ == before + self.points@.take(i as int).filter(inside),
            decreases self.points.len() - i,
        {
            let point = self.points[i];
            proof {
                let seen = self.points@.take(i as int);
                assert(self.points@.take(i + 1) == seen.push(point));
                seen.lemma_filter_push(point, inside);
            }
            if range.contains(&point) {
                found_points.push(point);
            }
            i += 1;
        }
        assert(self.points@.take(i as int) == self.points@);
        let ghost own = self.points@.filter(inside);

        // A node that has not divided has nothing below it.
        if !self.divided {
            return ;
        }
        let ghost northeast = child_query(self@.northeast, *range);
        let ghost northwest = child_query(self@.northwest, *range);
        let ghost southeast = child_query(self@.southeast, *range);
        let ghost southwest = child_query(self@.southwest, *range);

        if let Some(northeast) = &self.northeast {
            northeast.query(range, found_points);
        }
        proof {
            lemma_appended(before, own, northeast, found_points@);
        }
        if let Some(northwest) = &self.northwest {
            northwest.query(range, found_points);
        }
        proof {
            lemma_appended(before, own + northeast, northwest, found_points@);
        }
        if let Some(southeast) = &self.southeast {
            southeast.query(range, found_points);
        }
        proof {
            lemma_appended(before, own + northeast + northwest, southeast, found_points@);
        }
        if let Some(southwest) = &self.southwest {
            southwest.query(range, found_points);
        }
        proof {
            lemma_appended(
                before,
                own + northeast + northwest + southeast,
                southwest,
                found_points@,
            );
        }
    }

    /// Appends to `found_rects` the boundaries of all nodes: that of the node
    /// itself first, then those of the children's subtrees, northeast,
    /// northwest, southeast, southwest.
    pub fn query_rects(&self, found_rects: &mut Vec<Rectangle>)
        ensures
            final(found_rects)@ == old(found_rects)@ + self@.boundaries(),
            self.well_formed() ==> final(found_rects)@.len() == old(found_rects)@.len() + 4
                * self@.internal_count() + 1,
        decreases self,
    {
        let ghost before = found_rects@;
        let ghost own = seq![self.boundary];
        found_rects.push(self.boundary);
        assert(found_rects@ == before + own);

        // A node that has not divided has nothing below it.
        if !self.divided {
            return ;
        }
        let ghost northeast = child_boundaries(self@.northeast);
        let ghost northwest = child_boundaries(self@.northwest);
        let ghost southeast = child_boundaries(self@.southeast);
        let ghost southwest = child_boundaries(self@.southwest);

        if let Some(northeast) = &self.northeast {
            northeast.query_rects(found_rects);
        }
        proof {
            lemma_appended(before, own, northeast, found_rects@);
        }
        if let Some(northwest) = &self.northwest {
            northwest.query_rects(found_rects);
        }
        proof {
            lemma_appended(before, own + northeast, northwest, found_rects@);
        }
        if let Some(southeast) = &self.southeast {
            southeast.query_rects(found_rects);
        }
        proof {
            lemma_appended(before, own + northeast + northwest, southeast, found_rects@);
        }
        if let Some(southwest) = &self.southwest {
            southwest.query_rects(found_rects);
        }
        proof {
            lemma_appended(
                before,
                own + northeast + northwest + southeast,
                southwest,
                found_rects@,
            );
            if self.well_formed() {
                lemma_boundary_count(self@);
            }
        }
    }
}

/// What was appended to a list after an earlier part is appended to the
/// list after that part.
proof fn lemma_appended<T>(before: Seq<T>, earlier: Seq<T>, next: Seq<T>, now: Seq<T>)
    requires
        now == before + earlier + next,
    ensures
        now == before + (earlier + next),
{
}

} // verus!
