//! Points and axis-aligned rectangles of the integer plane.

use vstd::prelude::*;

verus! {

/// Half of a size, rounded toward zero.
pub open spec fn half(size: int) -> int {
    if size >= 0 {
        size / 2
    } else {
        -((-size) / 2)
    }
}

/// A point with integer coordinates. `y` grows downward, so north is the
/// direction of decreasing `y`.
#[derive(Copy, Clone, Debug, PartialEq, Eq, Structural)]
pub struct Point {
    pub x: i32,
    pub y: i32,
}

impl Point {
    pub fn new(x: i32, y: i32) -> (point: Point)
        ensures
            point == (Point { x, y }),
    {
        Point { x, y }
    }
}

/// An axis-aligned rectangle given by its center and its full width and
/// height. Its edges lie half a width (half a height) from the center,
/// the halves rounded toward zero, so a rectangle of odd size reaches as
/// far as the next smaller even size.
#[derive(Copy, Clone, Debug, PartialEq, Eq, Structural)]
pub struct Rectangle {
    pub center: Point,
    pub width: i32,
    pub height: i32,
}

impl Rectangle {
    /// Distance from the center to the west and east edges.
    pub open spec fn half_width(self) -> int {
        half(self.width as int)
    }

    /// Distance from the center to the north and south edges.
    pub open spec fn half_height(self) -> int {
        half(self.height as int)
    }

    /// Smallest `x` inside the rectangle.
    pub open spec fn west(self) -> int {
        self.center.x - self.half_width()
    }

    /// Largest `x` inside the rectangle.
    pub open spec fn east(self) -> int {
        self.center.x + self.half_width()
    }

    /// Smallest `y` inside the rectangle.
    pub open spec fn north(self) -> int {
        self.center.y - self.half_height()
    }

    /// Largest `y` inside the rectangle.
    pub open spec fn south(self) -> int {
        self.center.y + self.half_height()
    }

    /// The point lies inside the rectangle or on one of its edges.
    pub open spec fn spec_contains(self, point: Point) -> bool {
        &&& self.west() <= point.x <= self.east()
        &&& self.north() <= point.y <= self.south()
    }

    /// The two rectangles are not separated along either axis. Rectangles
    /// that only touch do intersect.
    pub open spec fn spec_intersects(self, range: Rectangle) -> bool {
        !(range.west() > self.east() || range.east() < self.west() || range.north() > self.south()
            || range.south() < self.north())
    }

    /// Distance from the center to the centers of the quadrants, along `x`:
    /// half of the half width, rounded toward zero once more.
    pub open spec fn quarter_width(self) -> int {
        half(self.half_width())
    }

    /// Distance from the center to the centers of the quadrants, along `y`.
    pub open spec fn quarter_height(self) -> int {
        half(self.half_height())
    }

    /// The four edges are `i32` coordinates.
    pub open spec fn edges_fit(self) -> bool {
        &&& i32::MIN <= self.center.x - self.half_width() <= i32::MAX
        &&& i32::MIN <= self.center.x + self.half_width() <= i32::MAX
        &&& i32::MIN <= self.center.y - self.half_height() <= i32::MAX
        &&& i32::MIN <= self.center.y + self.half_height() <= i32::MAX
    }

    /// The centers of the four quadrants are `i32` coordinates.
    pub open spec fn can_split(self) -> bool {
        &&& i32::MIN <= self.center.x - self.quarter_width() <= i32::MAX
        &&& i32::MIN <= self.center.x + self.quarter_width() <= i32::MAX
        &&& i32::MIN <= self.center.y - self.quarter_height() <= i32::MAX
        &&& i32::MIN <= self.center.y + self.quarter_height() <= i32::MAX
    }

    /// The quadrant on the east or west side and on the south or north side:
    /// half as wide and half as high as the rectangle, its center a quarter
    /// of the width and of the height away from the rectangle's center.
    pub open spec fn quadrant(self, east: bool, south: bool) -> Rectangle {
        Rectangle {
            center: Point {
                x: (if east {
                    self.center.x + self.quarter_width()
                } else {
                    self.center.x - self.quarter_width()
                }) as i32,
                y: (if south {
                    self.center.y + self.quarter_height()
                } else {
                    self.center.y - self.quarter_height()
                }) as i32,
            },
            width: self.half_width() as i32,
            height: self.half_height() as i32,
        }
    }

    /// The rectangle has the size and the place of a quadrant of `whole`.
    /// Its width and height are the halves of those of `whole`; its center
    /// lies a quarter of the width of `whole` to the east or west of the
    /// center of `whole`, and a quarter of its height to the south or north.
    /// Halves and quarters are rounded toward zero.
    pub open spec fn is_quadrant_of(self, whole: Rectangle, east: bool, south: bool) -> bool {
        &&& self.width == half(whole.width as int)
        &&& self.height == half(whole.height as int)
        &&& self.center.x == whole.center.x + (if east {
            half(half(whole.width as int))
        } else {
            -half(half(whole.width as int))
        })
        &&& self.center.y == whole.center.y + (if south {
            half(half(whole.height as int))
        } else {
            -half(half(whole.height as int))
        })
    }

    pub open spec fn northeast(self) -> Rectangle {
        self.quadrant(true, false)
    }

    pub open spec fn northwest(self) -> Rectangle {
        self.quadrant(false, false)
    }

    pub open spec fn southeast(self) -> Rectangle {
        self.quadrant(true, true)
    }

    pub open spec fn southwest(self) -> Rectangle {
        self.quadrant(false, true)
    }

    pub fn new(center: Point, width: i32, height: i32) -> (rectangle: Rectangle)
        ensures
            rectangle == (Rectangle { center, width, height }),
    {
        Rectangle { center, width, height }
    }

    /// Whether `point` lies inside the rectangle, edges included.
    pub fn contains(&self, point: &Point) -> (inside: bool)
        ensures
            inside == self.spec_contains(*point),
    {
        let half_width: i64 = (self.width / 2) as i64;
        let half_height: i64 = (self.height / 2) as i64;
        let x: i64 = point.x as i64;
        let y: i64 = point.y as i64;
        x >= self.center.x as i64 - half_width && x <= self.center.x as i64 + half_width && y
            >= self.center.y as i64 - half_height && y <= self.center.y as i64 + half_height
    }

    /// Whether the rectangle and `range` share at least one point of the
    /// plane, touching edges included.
    pub fn intersects(&self, range: &Rectangle) -> (overlapping: bool)
        ensures
            overlapping == self.spec_intersects(*range),
    {
        let west: i64 = self.center.x as i64 - (self.width / 2) as i64;
        let east: i64 = self.center.x as i64 + (self.width / 2) as i64;
        let north: i64 = self.center.y as i64 - (self.height / 2) as i64;
        let south: i64 = self.center.y as i64 + (self.height / 2) as i64;
        let range_west: i64 = range.center.x as i64 - (range.width / 2) as i64;
        let range_east: i64 = range.center.x as i64 + (range.width / 2) as i64;
        let range_north: i64 = range.center.y as i64 - (range.height / 2) as i64;
        let range_south: i64 = range.center.y as i64 + (range.height / 2) as i64;
        !(range_west > east || range_east < west || range_north > south || range_south < north)
    }
}

/// A point whose distance from the center is within the half extents, along
/// both axes, is contained.
pub proof fn lemma_contains_within_half_extents(rectangle: Rectangle, point: Point)
    requires
        -rectangle.half_width() <= point.x - rectangle.center.x <= rectangle.half_width(),
        -rectangle.half_height() <= point.y - rectangle.center.y <= rectangle.half_height(),
    ensures
        rectangle.spec_contains(point),
{
}

/// A point that lies one unit beyond any of the four edges is not contained.
pub proof fn lemma_excludes_one_beyond_edge(rectangle: Rectangle, point: Point)
    requires
        point.x == rectangle.west() - 1 || point.x == rectangle.east() + 1 || point.y
            == rectangle.north() - 1 || point.y == rectangle.south() + 1,
    ensures
        !rectangle.spec_contains(point),
{
}

/// Intersection is symmetric.
pub proof fn lemma_intersects_symmetric(a: Rectangle, b: Rectangle)
    ensures
        a.spec_intersects(b) == b.spec_intersects(a),
{
}

/// Two rectangles that contain a common point intersect.
pub proof fn lemma_common_point_intersects(a: Rectangle, b: Rectangle, point: Point)
    requires
        a.spec_contains(point),
        b.spec_contains(point),
    ensures
        a.spec_intersects(b),
{
}

/// The quadrant on the given sides is half as wide and half as high as the
/// rectangle, and its center lies a quarter of the width and of the height
/// from the rectangle's center, toward those sides.
pub proof fn lemma_quadrant_geometry(rectangle: Rectangle, east: bool, south: bool)
    requires
        rectangle.can_split(),
    ensures
        rectangle.quadrant(east, south).is_quadrant_of(rectangle, east, south),
{
}

/// A rectangle whose edges are `i32` coordinates can be split, and the edges
/// of its quadrants are `i32` coordinates again.
pub proof fn lemma_quadrants_fit(rectangle: Rectangle, east: bool, south: bool)
    requires
        rectangle.edges_fit(),
    ensures
        rectangle.can_split(),
        rectangle.quadrant(east, south).edges_fit(),
{
}

} // verus!
