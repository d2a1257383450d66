use quadtree::{Point, QuadTree, Rectangle};

fn square(x: i32, y: i32, size: i32) -> Rectangle {
    Rectangle::new(Point::new(x, y), size, size)
}

fn area(x: i32, y: i32, width: i32, height: i32) -> Rectangle {
    Rectangle::new(Point::new(x, y), width, height)
}

fn points(coordinates: &[(i32, i32)]) -> Vec<Point> {
    coordinates.iter().map(|&(x, y)| Point::new(x, y)).collect()
}

fn found_in(tree: &QuadTree, range: &Rectangle) -> Vec<Point> {
    let mut found = Vec::new();
    tree.query(range, &mut found);
    found
}

fn boundaries_of(tree: &QuadTree) -> Vec<Rectangle> {
    let mut found = Vec::new();
    tree.query_rects(&mut found);
    found
}

fn sorted(mut list: Vec<Point>) -> Vec<Point> {
    list.sort_by_key(|point| (point.x, point.y));
    list
}

#[test]
fn example_scenario() {
    let boundary = square(50, 50, 100);
    let mut tree = QuadTree::new(boundary, 1);
    let inserted = points(&[(10, 10), (90, 10), (10, 90), (90, 90), (50, 50)]);
    for point in &inserted {
        assert!(tree.insert(*point));
    }

    let all = found_in(&tree, &boundary);
    assert_eq!(all.len(), 5);
    assert_eq!(sorted(all.clone()), sorted(inserted));
    assert_eq!(all, points(&[(10, 10), (90, 10), (50, 50), (90, 90), (10, 90)]));

    assert!(boundaries_of(&tree).len() > 1);
    assert_eq!(
        boundaries_of(&tree),
        vec![
            square(50, 50, 100),
            square(75, 25, 50),
            square(87, 13, 25),
            square(63, 13, 25),
            square(87, 37, 25),
            square(63, 37, 25),
            square(25, 25, 50),
            square(75, 75, 50),
            square(25, 75, 50),
        ]
    );

    assert_eq!(found_in(&tree, &square(10, 10, 20)), points(&[(10, 10)]));
}

#[test]
fn new_tree_is_an_empty_leaf() {
    let boundary = area(3, -4, 20, 10);
    let tree = QuadTree::new(boundary, 4);
    assert_eq!(found_in(&tree, &boundary), Vec::new());
    assert_eq!(boundaries_of(&tree), vec![boundary]);
}

#[test]
fn leaf_keeps_capacity_points_without_dividing() {
    for capacity in 1..=6usize {
        let boundary = square(0, 0, 100);
        let mut tree = QuadTree::new(boundary, capacity);
        let mut inserted = Vec::new();
        for i in 0..capacity {
            let point = Point::new(i as i32 * 7 - 20, 30 - i as i32 * 5);
            assert!(tree.insert(point));
            inserted.push(point);
            assert_eq!(boundaries_of(&tree), vec![boundary]);
        }
        assert_eq!(found_in(&tree, &boundary), inserted);
    }
}

#[test]
fn point_beyond_capacity_divides_the_leaf() {
    for capacity in 1..=6usize {
        let boundary = square(0, 0, 100);
        let mut tree = QuadTree::new(boundary, capacity);
        for i in 0..capacity {
            assert!(tree.insert(Point::new(i as i32, i as i32)));
        }
        assert_eq!(boundaries_of(&tree).len(), 1);
        assert!(tree.insert(Point::new(-40, 40)));
        assert_eq!(boundaries_of(&tree).len(), 5);
        let all = found_in(&tree, &boundary);
        assert_eq!(all.len(), capacity + 1);
        assert_eq!(all[capacity], Point::new(-40, 40));
    }
}

#[test]
fn points_outside_the_boundary_do_not_fill_the_leaf() {
    let boundary = square(0, 0, 10);
    let mut tree = QuadTree::new(boundary, 2);
    assert!(!tree.insert(Point::new(6, 0)));
    assert!(!tree.insert(Point::new(0, -6)));
    assert!(!tree.insert(Point::new(100, 100)));
    assert!(tree.insert(Point::new(5, 5)));
    assert!(tree.insert(Point::new(-5, -5)));
    assert_eq!(boundaries_of(&tree).len(), 1);
    assert_eq!(found_in(&tree, &boundary), points(&[(5, 5), (-5, -5)]));
}

#[test]
fn insert_outside_the_boundary_is_rejected_and_changes_nothing() {
    let boundary = square(50, 50, 100);
    let mut tree = QuadTree::new(boundary, 1);
    for point in points(&[(10, 10), (90, 10), (10, 90)]) {
        assert!(tree.insert(point));
    }
    let stored = found_in(&tree, &boundary);
    let nodes = boundaries_of(&tree);
    for outside in points(&[(-1, 50), (101, 50), (50, -1), (50, 101), (1000, -1000)]) {
        assert!(!tree.insert(outside));
        assert_eq!(found_in(&tree, &boundary), stored);
        assert_eq!(found_in(&tree, &square(0, 0, 5000)), stored);
        assert_eq!(boundaries_of(&tree), nodes);
    }
}

#[test]
fn insert_outside_an_empty_tree_of_capacity_zero_is_rejected() {
    let boundary = square(0, 0, 10);
    let mut tree = QuadTree::new(boundary, 0);
    assert!(!tree.insert(Point::new(6, 6)));
    assert_eq!(found_in(&tree, &boundary), Vec::new());
    assert_eq!(boundaries_of(&tree), vec![boundary]);
}

#[test]
fn query_for_the_whole_boundary_finds_what_was_accepted() {
    let boundary = square(50, 50, 100);
    let mut tree = QuadTree::new(boundary, 2);
    let offered = points(&[
        (50, 50),
        (60, 60),
        (20, 80),
        (150, 20),
        (80, 20),
        (20, 20),
        (80, 80),
        (-1, 0),
        (70, 70),
        (90, 90),
        (85, 85),
        (76, 76),
    ]);
    let mut accepted = Vec::new();
    for point in offered {
        if tree.insert(point) {
            accepted.push(point);
        }
    }
    assert_eq!(accepted.len(), 10);
    let all = found_in(&tree, &boundary);
    assert_eq!(sorted(all.clone()), sorted(accepted));
    assert_eq!(
        all,
        points(&[
            (50, 50),
            (60, 60),
            (80, 20),
            (20, 20),
            (80, 80),
            (70, 70),
            (90, 90),
            (85, 85),
            (76, 76),
            (20, 80),
        ])
    );
}

#[test]
fn query_lists_own_points_first_and_then_the_quadrants_in_order() {
    let boundary = square(50, 50, 100);
    let mut tree = QuadTree::new(boundary, 1);
    // The root keeps the first point; the others go southwest, southeast,
    // northwest and northeast, in this order.
    for point in points(&[(50, 50), (20, 80), (80, 80), (20, 20), (80, 20)]) {
        assert!(tree.insert(point));
    }
    assert_eq!(
        found_in(&tree, &boundary),
        points(&[(50, 50), (80, 20), (20, 20), (80, 80), (20, 80)])
    );
}

#[test]
fn query_finds_only_the_points_within_the_range() {
    let boundary = square(50, 50, 100);
    let mut tree = QuadTree::new(boundary, 2);
    for point in points(&[
        (50, 50),
        (60, 60),
        (20, 80),
        (80, 20),
        (20, 20),
        (80, 80),
        (70, 70),
        (90, 90),
        (85, 85),
        (76, 76),
    ]) {
        assert!(tree.insert(point));
    }
    assert_eq!(
        found_in(&tree, &square(80, 80, 20)),
        points(&[(80, 80), (70, 70), (90, 90), (85, 85), (76, 76)])
    );
    assert_eq!(found_in(&tree, &square(200, 200, 20)), Vec::new());
    assert_eq!(found_in(&tree, &square(101, 50, 2)), Vec::new());
    assert_eq!(found_in(&tree, &square(20, 20, 0)), points(&[(20, 20)]));
}

#[test]
fn query_appends_to_what_the_list_holds() {
    let boundary = square(0, 0, 10);
    let mut tree = QuadTree::new(boundary, 4);
    assert!(tree.insert(Point::new(1, 1)));
    assert!(tree.insert(Point::new(2, 2)));
    let mut found = points(&[(9, 9)]);
    tree.query(&boundary, &mut found);
    tree.query(&square(2, 2, 0), &mut found);
    assert_eq!(found, points(&[(9, 9), (1, 1), (2, 2), (2, 2)]));

    let mut rects = vec![square(7, 7, 7)];
    tree.query_rects(&mut rects);
    assert_eq!(rects, vec![square(7, 7, 7), boundary]);
}

#[test]
fn division_halves_the_size_and_moves_the_centers_by_a_quarter() {
    let boundary = square(50, 50, 100);
    let mut tree = QuadTree::new(boundary, 1);
    assert!(tree.insert(Point::new(50, 50)));
    assert!(tree.insert(Point::new(50, 50)));
    assert_eq!(
        boundaries_of(&tree),
        vec![
            boundary,
            square(75, 25, 50),
            square(25, 25, 50),
            square(75, 75, 50),
            square(25, 75, 50),
        ]
    );
}

#[test]
fn division_rounds_halves_and_quarters_toward_zero() {
    // Half of 5 is 2 and a quarter is 1; half of 7 is 3 and a quarter is 1.
    let boundary = area(0, 0, 5, 7);
    let mut tree = QuadTree::new(boundary, 1);
    assert!(tree.insert(Point::new(0, 0)));
    assert!(tree.insert(Point::new(0, 0)));
    assert_eq!(
        boundaries_of(&tree),
        vec![
            boundary,
            area(1, -1, 2, 3),
            area(-1, -1, 2, 3),
            area(1, 1, 2, 3),
            area(-1, 1, 2, 3),
        ]
    );
}

#[test]
fn point_on_an_edge_that_no_quadrant_reaches_is_rejected() {
    // The boundary reaches 25 units from its center, its quadrants only 24.
    let boundary = square(0, 0, 50);
    let mut tree = QuadTree::new(boundary, 1);
    assert!(tree.insert(Point::new(0, 0)));
    assert!(boundary.contains(&Point::new(25, 25)));
    assert!(!tree.insert(Point::new(25, 25)));
    // The node has divided all the same.
    assert_eq!(
        boundaries_of(&tree),
        vec![
            boundary,
            square(12, -12, 25),
            square(-12, -12, 25),
            square(12, 12, 25),
            square(-12, 12, 25),
        ]
    );
    assert!(!tree.insert(Point::new(25, 0)));
    assert!(!tree.insert(Point::new(-25, -25)));
    assert!(tree.insert(Point::new(24, 24)));
    assert!(tree.insert(Point::new(-24, 24)));
    assert_eq!(found_in(&tree, &boundary), points(&[(0, 0), (24, 24), (-24, 24)]));
}

#[test]
fn equal_points_are_stored_until_the_quadrants_are_too_small() {
    let boundary = square(50, 50, 100);
    let mut tree = QuadTree::new(boundary, 1);
    for _ in 0..9 {
        assert!(tree.insert(Point::new(10, 10)));
    }
    assert_eq!(found_in(&tree, &boundary), vec![Point::new(10, 10); 9]);
    assert_eq!(boundaries_of(&tree).len(), 33);
    for _ in 0..5 {
        assert!(!tree.insert(Point::new(10, 10)));
    }
    assert_eq!(found_in(&tree, &boundary), vec![Point::new(10, 10); 9]);
    assert_eq!(boundaries_of(&tree).len(), 37);
}

#[test]
fn number_of_boundaries_is_one_more_than_four_for_each_division() {
    let boundary = square(50, 50, 100);
    let mut tree = QuadTree::new(boundary, 1);
    let mut before = boundaries_of(&tree).len();
    assert_eq!(before, 1);
    for point in points(&[(10, 10), (90, 10), (10, 90), (90, 90), (50, 50), (12, 12), (13, 13)]) {
        assert!(tree.insert(point));
        let after = boundaries_of(&tree).len();
        assert_eq!(after % 4, 1);
        assert!(after >= before);
        before = after;
    }
    assert_eq!(before, 17);
}

#[test]
fn subdivide_alone_does_not_mark_the_node_as_divided() {
    let boundary = square(50, 50, 100);
    let mut tree = QuadTree::new(boundary, 2);
    tree.subdivide();
    assert_eq!(boundaries_of(&tree), vec![boundary]);
    for point in points(&[(1, 1), (2, 2)]) {
        assert!(tree.insert(point));
    }
    assert_eq!(boundaries_of(&tree), vec![boundary]);
    assert!(tree.insert(Point::new(3, 3)));
    assert_eq!(
        boundaries_of(&tree),
        vec![
            boundary,
            square(75, 25, 50),
            square(25, 25, 50),
            square(75, 75, 50),
            square(25, 75, 50),
        ]
    );
    assert_eq!(found_in(&tree, &boundary), points(&[(1, 1), (2, 2), (3, 3)]));
}

#[test]
fn subdivide_of_a_divided_node_drops_what_its_children_held() {
    let boundary = square(50, 50, 100);
    let mut tree = QuadTree::new(boundary, 2);
    for point in points(&[(1, 1), (2, 2), (3, 3), (4, 4), (5, 5)]) {
        assert!(tree.insert(point));
    }
    assert_eq!(boundaries_of(&tree).len(), 9);
    tree.subdivide();
    assert_eq!(found_in(&tree, &boundary), points(&[(1, 1), (2, 2)]));
    assert_eq!(
        boundaries_of(&tree),
        vec![
            boundary,
            square(75, 25, 50),
            square(25, 25, 50),
            square(75, 75, 50),
            square(25, 75, 50),
        ]
    );
    assert!(tree.insert(Point::new(3, 3)));
    assert_eq!(found_in(&tree, &boundary), points(&[(1, 1), (2, 2), (3, 3)]));
}

#[test]
fn boundary_of_negative_size_accepts_nothing() {
    let boundary = area(0, 0, -4, 10);
    let mut tree = QuadTree::new(boundary, 1);
    for x in -3..=3 {
        assert!(!tree.insert(Point::new(x, 0)));
    }
    assert_eq!(found_in(&tree, &square(0, 0, 100)), Vec::new());
    assert_eq!(boundaries_of(&tree), vec![boundary]);
}

#[test]
fn boundary_of_size_zero_holds_its_center() {
    let boundary = square(7, 7, 0);
    let mut tree = QuadTree::new(boundary, 2);
    assert!(tree.insert(Point::new(7, 7)));
    assert!(!tree.insert(Point::new(7, 8)));
    assert!(tree.insert(Point::new(7, 7)));
    // All four quadrants are the boundary again; the first takes the point.
    assert!(tree.insert(Point::new(7, 7)));
    assert_eq!(boundaries_of(&tree), vec![boundary; 5]);
    assert_eq!(found_in(&tree, &boundary), vec![Point::new(7, 7); 3]);
}

#[test]
fn many_points_match_the_expected_totals() {
    let boundary = area(0, 0, 1000, 600);
    let mut tree = QuadTree::new(boundary, 4);
    let mut state: u64 = 42;
    let mut next = move || {
        state = (state * 1103515245 + 12345) % (1u64 << 31);
        state as i64
    };
    let mut accepted = Vec::new();
    let mut within_boundary = 0;
    for _ in 0..500 {
        let x = (next() % 1101 - 550) as i32;
        let y = (next() % 701 - 350) as i32;
        let point = Point::new(x, y);
        let inside = boundary.contains(&point);
        let taken = tree.insert(point);
        assert!(inside || !taken);
        if inside {
            within_boundary += 1;
        }
        if taken {
            accepted.push(point);
        }
    }
    // Four points lie on edges that the quadrants of some node do not reach.
    assert_eq!(within_boundary, 395);
    assert_eq!(accepted.len(), 391);

    let checksum = |list: &Vec<Point>| {
        list.iter().fold(0u64, |sum, point| {
            (sum * 31 + (point.x as i64 + 1000) as u64 * 2003 + (point.y as i64 + 1000) as u64)
                % 1_000_000_007
        })
    };
    let all = found_in(&tree, &boundary);
    assert_eq!(all.len(), 391);
    assert_eq!(sorted(all.clone()), sorted(accepted.clone()));
    assert_eq!(checksum(&all), 884053349);

    let range = area(100, -50, 300, 200);
    let some = found_in(&tree, &range);
    assert_eq!(some.len(), 43);
    assert_eq!(checksum(&some), 58458079);
    let expected: Vec<Point> = all.iter().copied().filter(|point| range.contains(point)).collect();
    assert_eq!(some, expected);

    let rects = boundaries_of(&tree);
    assert_eq!(rects.len(), 217);
    let rect_checksum = rects.iter().fold(0u64, |sum, rect| {
        (sum * 31
            + (rect.center.x as i64 + 1000) as u64 * 7919
            + (rect.center.y as i64 + 1000) as u64 * 104729
            + rect.width as u64 * 13
            + rect.height as u64)
            % 1_000_000_007
    });
    assert_eq!(rect_checksum, 229432821);
}
