//! What holds of every well-formed tree, proved over [`TreeModel`].

use crate::geometry::{
    lemma_common_point_intersects, lemma_quadrant_geometry, Point, Rectangle,
};
use crate::model::{
    child_boundaries, child_insert, child_internal_count, child_points, child_query,
    child_rank, child_well_formed, gains, within, Child, TreeModel,
};
use vstd::multiset::Multiset;
use vstd::prelude::*;

verus! {

/// A fresh leaf is well-formed and stores nothing.
pub proof fn lemma_leaf_well_formed(boundary: Rectangle, capacity: nat)
    ensures
        TreeModel::leaf(boundary, capacity).well_formed(),
        TreeModel::leaf(boundary, capacity).all_points() == Seq::<Point>::empty(),
{
}

/// Subdividing keeps a tree well-formed. The points of the node itself stay;
/// those that were stored below it are dropped with the earlier children.
pub proof fn lemma_subdivide_well_formed(tree: TreeModel)
    requires
        tree.well_formed(),
    ensures
        tree.subdivide().well_formed(),
        tree.subdivide().all_points() == tree.points,
{
    let after = tree.subdivide();
    lemma_leaf_well_formed(tree.boundary.northeast(), tree.capacity);
    lemma_leaf_well_formed(tree.boundary.northwest(), tree.capacity);
    lemma_leaf_well_formed(tree.boundary.southeast(), tree.capacity);
    lemma_leaf_well_formed(tree.boundary.southwest(), tree.capacity);
    assert(after.all_points() == tree.points);
    assert forall|i: int| 0 <= i < after.all_points().len() implies tree.boundary.spec_contains(
        #[trigger] after.all_points()[i],
    ) by {
        assert(tree.all_points()[i] == tree.points[i]);
    }
}

/// A sequence that gains a point in its middle part gains it as a whole.
proof fn lemma_gains_in_middle(
    front: Seq<Point>,
    middle: Seq<Point>,
    middle_after: Seq<Point>,
    back: Seq<Point>,
    point: Point,
)
    requires
        gains(middle, middle_after, point),
    ensures
        gains(front + middle + back, front + middle_after + back, point),
{
    let k = choose|k: int|
        0 <= k <= middle.len() && middle_after == #[trigger] middle.insert(k, point);
    let whole = front + middle + back;
    assert(front + middle_after + back == whole.insert(front.len() + k, point));
}

/// What an insertion into the subtree at a place does, for a place that
/// holds a well-formed child.
proof fn lemma_child_insert(child: Child, boundary: Rectangle, capacity: nat, point: Point)
    requires
        child_well_formed(child, boundary, capacity),
        capacity > 0,
    ensures
        child_well_formed(child_insert(child, point).0, boundary, capacity),
        child_insert(child, point).1 ==> gains(
            child_points(child),
            child_points(child_insert(child, point).0),
            point,
        ),
        !child_insert(child, point).1 ==> child_points(child_insert(child, point).0)
            == child_points(child),
    decreases child_rank(child), 1nat,
{
    lemma_insert_effect(*child.unwrap(), point);
}

/// An insertion keeps a tree well-formed and keeps its boundary and its
/// capacity. If the point is accepted, it lies within the boundary and the
/// stored points gain it, once; if not, the stored points are the same as
/// before.
pub proof fn lemma_insert_effect(tree: TreeModel, point: Point)
    requires
        tree.well_formed(),
        tree.capacity > 0 || !tree.boundary.spec_contains(point),
    ensures
        tree.insert(point).0.well_formed(),
        tree.insert(point).0.boundary == tree.boundary,
        tree.insert(point).0.capacity == tree.capacity,
        tree.insert(point).1 ==> tree.boundary.spec_contains(point) && gains(
            tree.all_points(),
            tree.insert(point).0.all_points(),
            point,
        ),
        !tree.insert(point).1 ==> tree.insert(point).0.all_points() == tree.all_points(),
    decreases tree.rank(), 0nat,
{
    let (after, accepted) = tree.insert(point);
    if !tree.boundary.spec_contains(point) {
    } else if tree.points.len() < tree.capacity {
        assert(after.all_points() == tree.all_points().insert(tree.points.len() as int, point));
    } else {
        let node = if tree.divided {
            tree
        } else {
            TreeModel { divided: true, ..tree.subdivide() }
        };
        if !tree.divided {
            lemma_subdivide_well_formed(tree);
            lemma_leaf_well_formed(tree.boundary.northeast(), tree.capacity);
            lemma_leaf_well_formed(tree.boundary.northwest(), tree.capacity);
            lemma_leaf_well_formed(tree.boundary.southeast(), tree.capacity);
            lemma_leaf_well_formed(tree.boundary.southwest(), tree.capacity);
        }
        let own = tree.points;
        let ne = child_points(node.northeast);
        let nw = child_points(node.northwest);
        let se = child_points(node.southeast);
        let sw = child_points(node.southwest);
        assert(node.all_points() == own + ne + nw + se + sw);
        assert(node.all_points() == tree.all_points());
        assert(node.well_formed());

        let ne_after = child_points(after.northeast);
        let nw_after = child_points(after.northwest);
        let se_after = child_points(after.southeast);
        let sw_after = child_points(after.southwest);
        assert(after.all_points() == own + ne_after + nw_after + se_after + sw_after);

        lemma_child_insert(node.northeast, node.boundary.northeast(), node.capacity, point);
        if child_insert(node.northeast, point).1 {
            lemma_gains_in_middle(own, ne, ne_after, nw + se + sw, point);
            assert(own + ne + (nw + se + sw) == node.all_points());
            assert(own + ne_after + (nw + se + sw) == after.all_points());
        } else {
            lemma_child_insert(node.northwest, node.boundary.northwest(), node.capacity, point);
            if child_insert(node.northwest, point).1 {
                lemma_gains_in_middle(own + ne, nw, nw_after, se + sw, point);
                assert(own + ne + nw + (se + sw) == node.all_points());
                assert(own + ne + nw_after + (se + sw) == after.all_points());
            } else {
                lemma_child_insert(
                    node.southeast,
                    node.boundary.southeast(),
                    node.capacity,
                    point,
                );
                if child_insert(node.southeast, point).1 {
                    lemma_gains_in_middle(own + ne + nw, se, se_after, sw, point);
                } else {
                    lemma_child_insert(
                        node.southwest,
                        node.boundary.southwest(),
                        node.capacity,
                        point,
                    );
                    if child_insert(node.southwest, point).1 {
                        lemma_gains_in_middle(
                            own + ne + nw + se,
                            sw,
                            sw_after,
                            Seq::empty(),
                            point,
                        );
                        assert(own + ne + nw + se + sw + Seq::<Point>::empty()
                            == node.all_points());
                        assert(own + ne + nw + se + sw_after + Seq::<Point>::empty()
                            == after.all_points());
                    }
                }
            }
        }
        lemma_gains_holds_within(tree.all_points(), after.all_points(), point, tree.boundary);
    }
}

/// Points that all lie within a region still do so after the sequence has
/// gained, or not gained, a point of the region.
proof fn lemma_gains_holds_within(
    before: Seq<Point>,
    after: Seq<Point>,
    point: Point,
    region: Rectangle,
)
    requires
        forall|i: int| 0 <= i < before.len() ==> region.spec_contains(#[trigger] before[i]),
        region.spec_contains(point),
        after == before || gains(before, after, point),
    ensures
        forall|i: int| 0 <= i < after.len() ==> region.spec_contains(#[trigger] after[i]),
{
    if after != before {
        let k = choose|k: int|
            0 <= k <= before.len() && after == #[trigger] before.insert(k, point);
        assert forall|i: int| 0 <= i < after.len() implies region.spec_contains(
            #[trigger] after[i],
        ) by {
            if i < k {
                assert(after[i] == before[i]);
            } else if i > k {
                assert(after[i] == before[i - 1]);
            }
        }
    }
}

/// A point outside the boundary is rejected, and the tree stays as it is.
pub proof fn lemma_insert_outside_rejected(tree: TreeModel, point: Point)
    requires
        !tree.boundary.spec_contains(point),
    ensures
        tree.insert(point) == (tree, false),
{
}

/// A node with room keeps a point of its boundary for itself, after the
/// points it has, and does not divide.
pub proof fn lemma_insert_with_room(tree: TreeModel, point: Point)
    requires
        tree.boundary.spec_contains(point),
        tree.points.len() < tree.capacity,
    ensures
        tree.insert(point) == (TreeModel { points: tree.points.push(point), ..tree }, true),
{
}

/// A full node that has not divided divides when a point of its boundary
/// is inserted: it is then marked as divided, keeps its own points, and its
/// children are what an insertion of the point, in the order northeast,
/// northwest, southeast, southwest, makes of four fresh leaves on the
/// quadrants of its boundary.
pub proof fn lemma_insert_when_full_divides(tree: TreeModel, point: Point)
    requires
        tree.capacity > 0,
        tree.boundary.spec_contains(point),
        tree.points.len() >= tree.capacity,
        !tree.divided,
    ensures
        tree.insert(point).0.divided,
        tree.insert(point).0.points == tree.points,
        tree.insert(point).0.northeast is Some,
        tree.insert(point).0.northwest is Some,
        tree.insert(point).0.southeast is Some,
        tree.insert(point).0.southwest is Some,
        tree.insert(point).0.northeast.unwrap().boundary == tree.boundary.northeast(),
        tree.insert(point).0.northwest.unwrap().boundary == tree.boundary.northwest(),
        tree.insert(point).0.southeast.unwrap().boundary == tree.boundary.southeast(),
        tree.insert(point).0.southwest.unwrap().boundary == tree.boundary.southwest(),
{
    lemma_fresh_leaf_insert(tree.boundary.northeast(), tree.capacity, point);
    lemma_fresh_leaf_insert(tree.boundary.northwest(), tree.capacity, point);
    lemma_fresh_leaf_insert(tree.boundary.southeast(), tree.capacity, point);
    lemma_fresh_leaf_insert(tree.boundary.southwest(), tree.capacity, point);
}

/// A fresh leaf that can keep a point keeps every point of its boundary and
/// rejects every other.
proof fn lemma_fresh_leaf_insert(boundary: Rectangle, capacity: nat, point: Point)
    requires
        capacity > 0,
    ensures
        TreeModel::leaf(boundary, capacity).insert(point).1 == boundary.spec_contains(point),
        TreeModel::leaf(boundary, capacity).insert(point).0.boundary == boundary,
{
}

/// As long as no more than `capacity` points have been inserted into a
/// fresh leaf, it has not divided and has no children: it keeps for itself
/// those of the points that lie within its boundary, in their order.
pub proof fn lemma_no_division_within_capacity(
    boundary: Rectangle,
    capacity: nat,
    points: Seq<Point>,
)
    requires
        points.len() <= capacity,
    ensures
        TreeModel::leaf(boundary, capacity).insert_all(points) == (TreeModel {
            points: points.filter(within(boundary)),
            ..TreeModel::leaf(boundary, capacity)
        }),
        TreeModel::leaf(boundary, capacity).accepted(points) == points.filter(within(boundary)),
    decreases points.len(),
{
    let leaf = TreeModel::leaf(boundary, capacity);
    reveal(Seq::filter);
    if points.len() == 0 {
        assert(leaf.points == points.filter(within(boundary)));
    } else {
        let earlier = points.drop_last();
        lemma_no_division_within_capacity(boundary, capacity, earlier);
        earlier.lemma_filter_len(within(boundary));
    }
}

/// Once a fresh leaf is full, the next point of its boundary makes it
/// divide.
pub proof fn lemma_division_beyond_capacity(
    boundary: Rectangle,
    capacity: nat,
    points: Seq<Point>,
    next: Point,
)
    requires
        capacity > 0,
        points.len() == capacity,
        forall|i: int| 0 <= i < points.len() ==> boundary.spec_contains(#[trigger] points[i]),
        boundary.spec_contains(next),
    ensures
        !TreeModel::leaf(boundary, capacity).insert_all(points).divided,
        TreeModel::leaf(boundary, capacity).insert_all(points).insert(next).0.divided,
{
    lemma_no_division_within_capacity(boundary, capacity, points);
    lemma_filter_keeps_all(points, within(boundary));
    let full = TreeModel::leaf(boundary, capacity).insert_all(points);
    lemma_insert_when_full_divides(full, next);
}

/// A filter keeps a sequence as it is if every element passes.
proof fn lemma_filter_keeps_all(points: Seq<Point>, test: spec_fn(Point) -> bool)
    requires
        forall|i: int| 0 <= i < points.len() ==> test(#[trigger] points[i]),
    ensures
        points.filter(test) == points,
    decreases points.len(),
{
    reveal(Seq::filter);
    if points.len() > 0 {
        lemma_filter_keeps_all(points.drop_last(), test);
        assert(points.drop_last().push(points.last()) == points);
    }
}

/// A filter leaves nothing of a sequence if no element passes.
proof fn lemma_filter_keeps_none(points: Seq<Point>, test: spec_fn(Point) -> bool)
    requires
        forall|i: int| 0 <= i < points.len() ==> !test(#[trigger] points[i]),
    ensures
        points.filter(test) == Seq::<Point>::empty(),
    decreases points.len(),
{
    reveal(Seq::filter);
    if points.len() > 0 {
        lemma_filter_keeps_none(points.drop_last(), test);
    }
}

/// What a range query finds in the subtree at a place, for a place that
/// holds a well-formed child.
proof fn lemma_child_query(child: Child, boundary: Rectangle, capacity: nat, range: Rectangle)
    requires
        child_well_formed(child, boundary, capacity),
    ensures
        child_query(child, range) == child_points(child).filter(within(range)),
    decreases child,
{
    lemma_query_finds_stored_within(*child.unwrap(), range);
}

/// A range query finds exactly the stored points that lie within the range,
/// in the order in which the tree stores them. To pass over the subtrees
/// whose boundary does not intersect the range loses nothing.
pub proof fn lemma_query_finds_stored_within(tree: TreeModel, range: Rectangle)
    requires
        tree.well_formed(),
    ensures
        tree.query(range) == tree.all_points().filter(within(range)),
    decreases tree,
{
    let all = tree.all_points();
    let test = within(range);
    if !tree.boundary.spec_intersects(range) {
        assert forall|i: int| 0 <= i < all.len() implies !test(#[trigger] all[i]) by {
            if range.spec_contains(all[i]) {
                lemma_common_point_intersects(tree.boundary, range, all[i]);
            }
        }
        lemma_filter_keeps_none(all, test);
    } else if tree.divided {
        let own = tree.points;
        let ne = child_points(tree.northeast);
        let nw = child_points(tree.northwest);
        let se = child_points(tree.southeast);
        let sw = child_points(tree.southwest);
        lemma_child_query(tree.northeast, tree.boundary.northeast(), tree.capacity, range);
        lemma_child_query(tree.northwest, tree.boundary.northwest(), tree.capacity, range);
        lemma_child_query(tree.southeast, tree.boundary.southeast(), tree.capacity, range);
        lemma_child_query(tree.southwest, tree.boundary.southwest(), tree.capacity, range);
        Seq::filter_distributes_over_add(own, ne, test);
        Seq::filter_distributes_over_add(own + ne, nw, test);
        Seq::filter_distributes_over_add(own + ne + nw, se, test);
        Seq::filter_distributes_over_add(own + ne + nw + se, sw, test);
    }
}

/// A query for the whole boundary of a tree finds all stored points, each as
/// often as it is stored, in the order in which the tree stores them.
pub proof fn lemma_query_boundary_finds_all(tree: TreeModel)
    requires
        tree.well_formed(),
    ensures
        tree.query(tree.boundary) == tree.all_points(),
{
    lemma_query_finds_stored_within(tree, tree.boundary);
    lemma_filter_keeps_all(tree.all_points(), within(tree.boundary));
}

/// Insertions one after another keep a tree well-formed and keep its
/// boundary and its capacity. The stored points are then those that were
/// stored before together with those that were accepted, each as often as it
/// was accepted.
pub proof fn lemma_insert_all_effect(tree: TreeModel, points: Seq<Point>)
    requires
        tree.well_formed(),
        tree.capacity > 0,
    ensures
        tree.insert_all(points).well_formed(),
        tree.insert_all(points).boundary == tree.boundary,
        tree.insert_all(points).capacity == tree.capacity,
        tree.insert_all(points).all_points().to_multiset() == tree.all_points().to_multiset().add(
            tree.accepted(points).to_multiset(),
        ),
    decreases points.len(),
{
    broadcast use vstd::multiset::group_multiset_axioms;

    if points.len() == 0 {
        assert(tree.accepted(points).to_multiset() == Multiset::<Point>::empty()) by {
            tree.accepted(points).to_multiset_ensures();
        }
        assert(tree.all_points().to_multiset().add(Multiset::<Point>::empty())
            == tree.all_points().to_multiset());
    } else {
        let earlier = points.drop_last();
        let last = points.last();
        let before = tree.insert_all(earlier);
        lemma_insert_all_effect(tree, earlier);
        lemma_insert_effect(before, last);
        let (after, accepted) = before.insert(last);
        if accepted {
            let k = choose|k: int|
                0 <= k <= before.all_points().len() && after.all_points()
                    == #[trigger] before.all_points().insert(k, last);
            vstd::seq_lib::to_multiset_insert(before.all_points(), k, last);
            vstd::seq_lib::to_multiset_build(tree.accepted(earlier), last);
            let stored = tree.all_points().to_multiset();
            let taken = tree.accepted(earlier).to_multiset();
            assert(stored.add(taken).insert(last) == stored.add(taken.insert(last)));
        }
    }
}

/// Round trip: after any points have been inserted into a fresh leaf, a
/// query for its whole boundary finds exactly the points that were accepted,
/// each as often as it was accepted. None is lost and none is added.
pub proof fn lemma_round_trip(boundary: Rectangle, capacity: nat, points: Seq<Point>)
    requires
        capacity > 0,
    ensures
        TreeModel::leaf(boundary, capacity).insert_all(points).query(boundary).to_multiset()
            == TreeModel::leaf(boundary, capacity).accepted(points).to_multiset(),
        TreeModel::leaf(boundary, capacity).insert_all(points).query(boundary).to_set()
            == TreeModel::leaf(boundary, capacity).accepted(points).to_set(),
{
    broadcast use vstd::multiset::group_multiset_axioms;

    let leaf = TreeModel::leaf(boundary, capacity);
    let found = leaf.insert_all(points).query(boundary);
    let accepted = leaf.accepted(points);
    lemma_leaf_well_formed(boundary, capacity);
    lemma_insert_all_effect(leaf, points);
    lemma_query_boundary_finds_all(leaf.insert_all(points));
    assert(leaf.all_points().to_multiset() == Multiset::<Point>::empty()) by {
        leaf.all_points().to_multiset_ensures();
    }
    assert(Multiset::<Point>::empty().add(accepted.to_multiset()) == accepted.to_multiset());
    assert forall|point: Point| found.contains(point) == accepted.contains(point) by {
        vstd::seq_lib::to_multiset_contains(found, point);
        vstd::seq_lib::to_multiset_contains(accepted, point);
    }
    assert(found.to_set() == accepted.to_set());
}

/// The boundaries in the subtree at a place, for a place that holds a
/// well-formed child.
proof fn lemma_child_boundary_count(child: Child, boundary: Rectangle, capacity: nat)
    requires
        child_well_formed(child, boundary, capacity),
    ensures
        child_boundaries(child).len() == 4 * child_internal_count(child) + 1,
    decreases child,
{
    lemma_boundary_count(*child.unwrap());
}

/// A tree with `k` divided nodes has `4 * k + 1` nodes, and so the list of
/// its boundaries has that many entries.
pub proof fn lemma_boundary_count(tree: TreeModel)
    requires
        tree.well_formed(),
    ensures
        tree.boundaries().len() == 4 * tree.internal_count() + 1,
    decreases tree,
{
    if tree.divided {
        lemma_child_boundary_count(tree.northeast, tree.boundary.northeast(), tree.capacity);
        lemma_child_boundary_count(tree.northwest, tree.boundary.northwest(), tree.capacity);
        lemma_child_boundary_count(tree.southeast, tree.boundary.southeast(), tree.capacity);
        lemma_child_boundary_count(tree.southwest, tree.boundary.southwest(), tree.capacity);
    }
}

/// Subdividing gives a node four empty leaves with its own capacity, one
/// on each quadrant of its boundary: half as wide and half as high, the
/// center a quarter of the width and of the height away from the node's
/// center, to the east and north, west and north, east and south, west and
/// south.
pub proof fn lemma_subdivide_quadrants(tree: TreeModel)
    requires
        tree.boundary.can_split(),
    ensures
        tree.subdivide().northeast == Some(
            Box::new(TreeModel::leaf(tree.boundary.northeast(), tree.capacity)),
        ),
        tree.subdivide().northwest == Some(
            Box::new(TreeModel::leaf(tree.boundary.northwest(), tree.capacity)),
        ),
        tree.subdivide().southeast == Some(
            Box::new(TreeModel::leaf(tree.boundary.southeast(), tree.capacity)),
        ),
        tree.subdivide().southwest == Some(
            Box::new(TreeModel::leaf(tree.boundary.southwest(), tree.capacity)),
        ),
        tree.boundary.northeast().is_quadrant_of(tree.boundary, true, false),
        tree.boundary.northwest().is_quadrant_of(tree.boundary, false, false),
        tree.boundary.southeast().is_quadrant_of(tree.boundary, true, true),
        tree.boundary.southwest().is_quadrant_of(tree.boundary, false, true),
{
    lemma_quadrant_geometry(tree.boundary, true, false);
    lemma_quadrant_geometry(tree.boundary, false, false);
    lemma_quadrant_geometry(tree.boundary, true, true);
    lemma_quadrant_geometry(tree.boundary, false, true);
}

} // verus!
