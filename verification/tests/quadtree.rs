// The quadtree exercised through its public interface. Coordinates that
// were fractional in spirit are scaled to integers (the index stores plain
// i64 coordinates), keeping each scenario's geometry intact.

use equart::quadtree::Boundry;
use equart::quadtree::OutOfBounds;
use equart::quadtree::Point;
use equart::quadtree::QuadTree;

#[test]
fn point_eq() {
    let one = Point::new(2, 1);
    let two = Point::new(2, 1);
    assert_eq!(one, two);
}

#[test]
fn find_subrange_most_left() {
    let range = (0, 100);
    let point = 0;
    assert_eq!(Point::find_subrange(point, range.0, range.1), (0, 50, 0));
}

#[test]
fn find_subrange_most_right() {
    let range = (0, 100);
    let point = 100;
    assert_eq!(Point::find_subrange(point, range.0, range.1), (50, 100, 1));
}

#[test]
fn find_subrange_mid1() {
    let range = (0, 100);
    let point = 25;
    assert_eq!(Point::find_subrange(point, range.0, range.1), (0, 50, 0));
}

#[test]
fn find_subrange_mid2() {
    let range = (0, 100);
    let point = 75;
    assert_eq!(Point::find_subrange(point, range.0, range.1), (50, 100, 1));
}

#[test]
fn boundry_eq() {
    let one = Boundry::new(Point::new(1, 0), Point::new(2, 1));
    let two = Boundry::new(Point::new(1, 0), Point::new(2, 1));
    assert_eq!(one, two);
}

#[test]
fn boundry_split() {
    let input = Boundry::from_coords(0, 0, 2, 2).split();
    assert_eq!(input[0], Boundry::from_coords(0, 0, 1, 1));
    assert_eq!(input[1], Boundry::from_coords(1, 0, 2, 1));
}

#[test]
fn find_subarea_0() {
    let area = Boundry::from_coords(0, 0, 2000, 2000);
    let p = Point::new(500, 500);
    assert_eq!(area.find_subarea(p), (Boundry::from_coords(0, 0, 1000, 1000), 0));
}

#[test]
fn find_subarea_1() {
    let area = Boundry::from_coords(0, 0, 2000, 2000);
    let p = Point::new(1500, 500);
    assert_eq!(area.find_subarea(p), (Boundry::from_coords(1000, 0, 2000, 1000), 1));
}

#[test]
fn find_subarea_2() {
    let area = Boundry::from_coords(0, 0, 2000, 2000);
    let p = Point::new(500, 1500);
    assert_eq!(area.find_subarea(p), (Boundry::from_coords(0, 1000, 1000, 2000), 2));
}

#[test]
fn find_subarea_case_2() {
    let area = Boundry::from_coords(-1000, -1000, 1000, 1000);
    let p = Point::new(495, 495);
    assert_eq!(area.find_subarea(p), (Boundry::from_coords(0, 0, 1000, 1000), 3));
}

#[test]
fn find_subarea_3() {
    let area = Boundry::from_coords(0, 0, 2000, 2000);
    let p = Point::new(1500, 1500);
    assert_eq!(area.find_subarea(p), (Boundry::from_coords(1000, 1000, 2000, 2000), 3));
}

#[test]
fn overlaps_inside() {
    let area_one = Boundry::from_coords(0, -50, 100, -10);
    let area_two = Boundry::from_coords(1, -20, 2, -19);
    assert!(area_one.overlaps(area_two));
    assert!(area_two.overlaps(area_one));
}

#[test]
fn overlaps_matching() {
    let area_one = Boundry::from_coords(0, -50, 100, -10);
    assert!(area_one.overlaps(area_one));
}

#[test]
fn overlaps_partial() {
    let area_one = Boundry::from_coords(0, 0, 2, 2);
    let area_two = Boundry::from_coords(1, 1, 3, 3);
    assert!(area_one.overlaps(area_two));
    assert!(area_two.overlaps(area_one));
}

#[test]
fn overlaps_edge_1() {
    let area_one = Boundry::from_coords(0, 0, 1, 1);
    let area_two = Boundry::from_coords(1, 1, 3, 3);
    assert!(area_one.overlaps(area_two));
    assert!(area_two.overlaps(area_one));
}

#[test]
fn overlaps_edge_2() {
    let area_one = Boundry::from_coords(0, 0, 1, 1);
    let area_two = Boundry::from_coords(1, 0, 3, 3);
    assert!(area_one.overlaps(area_two));
    assert!(area_two.overlaps(area_one));
}

#[test]
fn overlaps_disjoint() {
    let area_one = Boundry::from_coords(0, 0, 1, 1);
    let area_two = Boundry::from_coords(2, 2, 3, 3);
    assert!(!area_one.overlaps(area_two));
    assert!(!area_two.overlaps(area_one));
}

#[test]
fn append_search_normal() {
    let mut foo = QuadTree::new(Boundry::from_coords(-1, -1, 1, 1));
    let point = Point::new(0, 0);
    assert_eq!(foo.append_point(point, 42), Ok(()));
    assert_eq!(foo.search(point), Some(&42));
}

#[test]
fn append_oob() {
    let mut foo = QuadTree::new(Boundry::from_coords(-1, -1, 1, 1));
    let point = Point::new(42, 42);
    assert_eq!(foo.append_point(point, 42), Err(OutOfBounds));
}

#[test]
fn not_found() {
    let mut foo = QuadTree::new(Boundry::from_coords(-10, -10, 10, 10));
    let point = Point::new(0, 0);
    let other_point = Point::new(1, 1);
    foo.append_point(point, 42).unwrap();
    assert_eq!(foo.search(other_point), None);
}

#[test]
fn add_one() {
    let mut tree = QuadTree::new(Boundry::from_coords(-10, -10, 10, 10));
    let point1 = Point::new(1, 1);
    assert_eq!(tree.append_point(point1, 1), Ok(()));
    assert_eq!(tree.search(point1), Some(&1));
}

#[test]
fn add_two() {
    let mut tree = QuadTree::new(Boundry::from_coords(-10, -10, 10, 10));
    let point1 = Point::new(1, 1);
    let point2 = Point::new(2, 2);
    assert_eq!(tree.append_point(point1, 1), Ok(()));
    assert_eq!(tree.append_point(point2, 2), Ok(()));
    assert_eq!(tree.search(point1), Some(&1));
    assert_eq!(tree.search(point2), Some(&2));
}

#[test]
fn add_four_interleave() {
    let mut tree = QuadTree::new(Boundry::from_coords(-10, -10, 10, 10));
    let point1 = Point::new(1, 1);
    let point2 = Point::new(2, 2);
    let point3 = Point::new(3, 3);
    let point4 = Point::new(4, 4);
    assert_eq!(tree.append_point(point1, 1), Ok(()));
    assert_eq!(tree.search(point1), Some(&1));
    assert_eq!(tree.append_point(point2, 2), Ok(()));
    assert_eq!(tree.search(point1), Some(&1));
    assert_eq!(tree.search(point2), Some(&2));
    assert_eq!(tree.append_point(point3, 3), Ok(()));
    assert_eq!(tree.search(point1), Some(&1));
    assert_eq!(tree.search(point2), Some(&2));
    assert_eq!(tree.search(point3), Some(&3));
    assert_eq!(tree.append_point(point4, 4), Ok(()));
    assert_eq!(tree.search(point4), Some(&4));
}

#[test]
fn add_four() {
    let mut tree = QuadTree::new(Boundry::from_coords(-10, -10, 10, 10));
    let point1 = Point::new(1, 1);
    let point2 = Point::new(2, 2);
    let point3 = Point::new(3, 3);
    let point4 = Point::new(4, 4);
    assert_eq!(tree.append_point(point1, 1), Ok(()));
    assert_eq!(tree.append_point(point2, 2), Ok(()));
    assert_eq!(tree.append_point(point3, 3), Ok(()));
    assert_eq!(tree.append_point(point4, 4), Ok(()));
    assert_eq!(tree.search(point1), Some(&1));
    assert_eq!(tree.search(point2), Some(&2));
    assert_eq!(tree.search(point3), Some(&3));
    assert_eq!(tree.search(point4), Some(&4));
}

#[test]
fn fill_quadrant() {
    // Fourteen distinct points marching toward the origin inside one
    // quadrant, so buckets along the way fill up and split.
    let mut tree = QuadTree::new(Boundry::from_coords(-10000, -10000, 10000, 10000));
    let mut x: i64 = 5000;
    let mut y: i64 = 5000;
    for cnt in 0..14 {
        x = x * 100 / 101;
        y = y * 100 / 101;
        let point = Point::new(x, y);
        assert_eq!(tree.append_point(point, cnt), Ok(()));
        assert_eq!(tree.search(point), Some(&cnt));
    }
}

#[test]
fn values_in_area_empty() {
    let tree: QuadTree<(f64, f64)> = QuadTree::new(Boundry::from_coords(-1, -1, 1, 1));
    let search_area = Boundry::from_coords(-1, -1, 1, 1);
    assert_eq!(tree.values_in_area(search_area).len(), 0);
}

#[test]
fn values_in_area_one() {
    let mut tree = QuadTree::new(Boundry::from_coords(-1, -1, 1, 1));
    let point = Point::new(0, 0);
    tree.append_point(point, 42.0).unwrap();
    let search_area = Boundry::from_coords(-1, -1, 1, 1);
    assert_eq!(tree.values_in_area(search_area).len(), 1);
}

#[test]
fn values_in_area_deep() {
    let mut tree = QuadTree::new(Boundry::from_coords(-1000, -1000, 1000, 1000));
    for i in 0..100 {
        let point = Point::new(i, i);
        tree.append_point(point, i).unwrap();
    }
    let search_area = Boundry::from_coords(-1000, -1000, 1000, 1000);
    assert_eq!(tree.values_in_area(search_area).len(), 100);
}

#[test]
fn values_in_area_wide_with_overlap() {
    let mut tree = QuadTree::new(Boundry::from_coords(0, 0, 100, 100));
    for i in 0..100 {
        let point = Point::new(i, i);
        tree.append_point(point, i).unwrap();
    }
    let search_area = Boundry::from_coords(-100, -100, 200, 200);
    assert_eq!(tree.values_in_area(search_area).len(), 100);
}

#[test]
fn values_in_area_partial() {
    let mut tree = QuadTree::new(Boundry::from_coords(0, 0, 100, 100));
    for i in 0..100 {
        let point = Point::new(i, i);
        tree.append_point(point, i).unwrap();
    }
    let search_area = Boundry::from_coords(0, 0, 10, 10);
    // 11 results because the area is inclusive: both (0, 0) and (10, 10)
    // match.
    assert_eq!(tree.values_in_area(search_area).len(), 11);
}

#[test]
fn values_in_area_outside_search_range() {
    let mut tree = QuadTree::new(Boundry::from_coords(-100, -100, 100, 100));
    for i in 0..100 {
        let point = Point::new(i, i);
        tree.append_point(point, i).unwrap();
    }
    let search_area = Boundry::from_coords(-100, -100, -50, -50);
    assert_eq!(tree.values_in_area(search_area).len(), 0);
}

#[test]
fn values_in_area_small_range() {
    let mut tree = QuadTree::new(Boundry::from_coords(-1000, -1000, 1000, 1000));
    for i in 0..100 {
        let point = Point::new(i * 10, i * 10);
        tree.append_point(point, i).unwrap();
    }
    let search_area = Boundry::from_coords(895, 895, 905, 905);
    assert_eq!(tree.values_in_area(search_area).len(), 1);
}

#[test]
fn values_in_area_too_small_range() {
    let mut tree = QuadTree::new(Boundry::from_coords(-1000, -1000, 1000, 1000));
    for i in 0..100 {
        let point = Point::new(i * 10, i * 10);
        tree.append_point(point, i).unwrap();
    }
    let search_area = Boundry::from_coords(898, 898, 899, 899);
    assert_eq!(tree.values_in_area(search_area).len(), 0);
}

#[test]
fn good_fill() {
    let mut q = QuadTree::new(Boundry::from_coords(-1000, -1000, 1000, 1000));
    for x in -1000..1000 {
        for y in -1000..1000 {
            let p = Point::new(x, y);
            q.append_point(p, (x, y)).unwrap();
        }
    }
    assert!(q.search(Point::new(0, 0)).is_some());
}

#[test]
fn double_fill() {
    // A grid inserted twice: every coordinate carries two payloads.
    let mut q = QuadTree::new(Boundry::from_coords(0, 0, 20, 20));
    for _c in 0..2 {
        for x in 0..20 {
            for y in 0..20 {
                let p = Point::new(x, y);
                q.append_point(p, x + y).unwrap();
            }
        }
    }
}

#[test]
fn test_empty_rebuild() {
    let boundry = Boundry::from_coords(-1, -1, 1, 1);
    let q: QuadTree<u32> = QuadTree::new(boundry);
    let q2 = q.rebuild(boundry);
    assert!(q2.values_in_area(boundry).is_empty());
}

#[test]
fn test_simple_rebuild() {
    let boundry = Boundry::from_coords(-10, -10, 10, 10);
    let mut q = QuadTree::new(boundry);
    q.append_point(Point::new(0, 0), 42).unwrap();
    q.append_point(Point::new(5, 5), 24).unwrap();
    let q2 = q.rebuild(boundry);
    let mut res = Vec::new();
    for v in q2.values_in_area(boundry) {
        res.push(*v);
    }
    res.sort_unstable();
    assert_eq!(res, vec![24, 42]);
}

#[test]
fn test_big_rebuild() {
    let boundry = Boundry::from_coords(-1000, -1000, 1000, 1000);
    let mut q = QuadTree::new(boundry);
    let mut should_be = Vec::new();
    for c in 1..42 {
        q.append_point(Point::new(1000 / c, 1000 / c), c).unwrap();
        should_be.push(c);
    }
    let q2 = q.rebuild(boundry);
    let mut res = Vec::new();
    for v in q2.values_in_area(boundry) {
        res.push(*v);
    }
    res.sort_unstable();
    should_be.sort_unstable();
    assert_eq!(res, should_be);
}
