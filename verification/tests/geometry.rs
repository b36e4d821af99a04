use tower_tactics::geometry::{Line, Ray, Rect, Shape, Triangle};

fn assert_equals_pos(a: (i32, i32), b: (i32, i32)) {
    assert_eq!(a.0, b.0);
    assert_eq!(a.1, b.1);
}

#[test]
fn single_pixel_lines() {
    assert!(Line::new(0, 0, 0, 0).into_iter().count() == 1);
    let p = Line::new(0, 0, 0, 0).into_iter().next().unwrap();
    assert!(p.0 == 0 && p.1 == 0);
}

#[test]
fn straight_lines() {
    assert_eq!(Line::new(0, 0, 1, 0).into_iter().count(), 2);
    assert_eq!(Line::new(0, 0, 2, 0).into_iter().count(), 3);
    assert_eq!(Line::new(0, 0, 9, 0).into_iter().count(), 10);
    assert_eq!(Line::new(0, 0, 0, 1).into_iter().count(), 2);
    assert_eq!(Line::new(0, 0, 0, 2).into_iter().count(), 3);
    assert_eq!(Line::new(0, 0, 0, 9).into_iter().count(), 10);
}

#[test]
fn diagonal_lines() {
    assert_eq!(Line::new(0, 0, 1, 1).into_iter().count(), 2);
    assert_eq!(Line::new(0, 0, 2, 2).into_iter().count(), 3);
    assert_eq!(Line::new(0, 0, 9, 9).into_iter().count(), 10);
    assert_eq!(Line::new(0, 0, -1, 1).into_iter().count(), 2);
    assert_eq!(Line::new(0, 0, -2, 2).into_iter().count(), 3);
    assert_eq!(Line::new(0, 0, -9, 9).into_iter().count(), 10);
}

#[test]
fn flat_lines() {
    assert_eq!(Line::new(0, 0, 10, 7).into_iter().count(), 11);
    let mut iter = Line::new(0, 0, 10, 7).into_iter();
    assert_equals_pos(iter.next().unwrap(), (0, 0));
    assert_equals_pos(iter.next().unwrap(), (1, 1));
    assert_equals_pos(iter.next().unwrap(), (2, 2));
    assert_equals_pos(iter.next().unwrap(), (3, 2));
    assert_equals_pos(iter.next().unwrap(), (4, 3));
    assert_equals_pos(iter.next().unwrap(), (5, 4));
    assert_equals_pos(iter.next().unwrap(), (6, 4));
    assert_equals_pos(iter.next().unwrap(), (7, 5));
    assert_equals_pos(iter.next().unwrap(), (8, 6));
    assert_equals_pos(iter.next().unwrap(), (9, 6));
    assert_equals_pos(iter.next().unwrap(), (10, 7));
}

#[test]
fn steep_lines() {
    assert_eq!(Line::new(0, 0, 7, 10).into_iter().count(), 11);
    let mut iter = Line::new(0, 0, 7, 10).into_iter();
    assert_equals_pos(iter.next().unwrap(), (0, 0));
    assert_equals_pos(iter.next().unwrap(), (1, 1));
    assert_equals_pos(iter.next().unwrap(), (2, 2));
    assert_equals_pos(iter.next().unwrap(), (2, 3));
    assert_equals_pos(iter.next().unwrap(), (3, 4));
    assert_equals_pos(iter.next().unwrap(), (4, 5));
    assert_equals_pos(iter.next().unwrap(), (4, 6));
    assert_equals_pos(iter.next().unwrap(), (5, 7));
    assert_equals_pos(iter.next().unwrap(), (6, 8));
    assert_equals_pos(iter.next().unwrap(), (6, 9));
    assert_equals_pos(iter.next().unwrap(), (7, 10));
}

#[test]
fn line_ends_after_its_last_cell() {
    let mut iter = Line::new(3, 4, 5, 4).into_iter();
    assert_eq!(iter.next(), Some((3, 4)));
    assert_eq!(iter.next(), Some((4, 4)));
    assert_eq!(iter.next(), Some((5, 4)));
    assert_eq!(iter.next(), None);
    assert_eq!(iter.next(), None);
}

#[test]
fn line_runs_from_first_endpoint_to_second() {
    assert_eq!(Line::new(2, 2, -1, 0).cells(), vec![(2, 2), (1, 1), (0, 1), (-1, 0)]);
    assert_eq!(Line::new(0, 0, 2, 1).cells(), vec![(0, 0), (1, 0), (2, 1)]);
    assert_eq!(Line::new(5, 5, 5, 2).cells(), vec![(5, 5), (5, 4), (5, 3), (5, 2)]);
}

#[test]
fn ray_between_identical_cells_is_one_cell() {
    let mut iter = Ray::new((4, -2), (4, -2)).into_iter();
    assert_eq!(iter.next(), Some((4, -2)));
    assert_eq!(iter.next(), None);
}

#[test]
fn ray_goes_on_past_its_second_cell() {
    let mut iter = Ray::new((0, 0), (2, 1)).into_iter();
    let mut cells = Vec::new();
    for _ in 0..6 {
        cells.push(iter.next().unwrap());
    }
    assert_eq!(cells, vec![(0, 0), (1, 0), (2, 1), (3, 1), (4, 2), (5, 2)]);
}

#[test]
fn ray_stops_at_the_last_representable_cell() {
    let mut iter = Ray::new((i32::MAX - 2, 0), (i32::MAX - 1, 0)).into_iter();
    assert_eq!(iter.next(), Some((i32::MAX - 2, 0)));
    assert_eq!(iter.next(), Some((i32::MAX - 1, 0)));
    assert_eq!(iter.next(), Some((i32::MAX, 0)));
    assert_eq!(iter.next(), None);
}

#[test]
fn rect_cells_come_row_by_row() {
    let r = Rect::new(1, 2, 3, 2);
    assert_eq!(r.cells(), vec![(1, 2), (2, 2), (3, 2), (1, 3), (2, 3), (3, 3)]);
    assert_eq!(Rect::new(0, 0, 0, 5).cells(), vec![]);
    assert_eq!(Rect::new(0, 0, 5, -1).cells(), vec![]);
}

#[test]
fn rect_edges_and_predicates() {
    let r = Rect::new(20, 20, 15, 15);
    assert_eq!((r.left(), r.top(), r.right(), r.bottom()), (20, 20, 34, 34));
    assert_eq!(r.center(), (27, 27));
    assert_eq!(r.bounding_box(), r);
    assert!(r.is_enclosed((20, 34)));
    assert!(!r.is_enclosed((35, 20)));
    assert!(r.is_boundary((34, 25)));
    assert!(!r.is_boundary((33, 25)));
    assert!(r.is_interior((21, 21)));
    assert!(!r.is_interior((20, 21)));
    assert_eq!(r.grow(1), Rect::new(19, 19, 17, 17));
}

#[test]
fn rect_center_rounds_toward_zero() {
    assert_eq!(Rect::new(-3, -3, 2, 2).center(), (-2, -2));
    assert_eq!(Rect::new(-4, 0, 1, 1).center(), (-3, 0));
    let mut r = Rect::new(0, 0, 5, 3);
    r.center_at(10, 10);
    assert_eq!(r, Rect::new(8, 9, 5, 3));
}

#[test]
fn triangle_cells() {
    let t = Triangle::new((0, 0), (4, 0), (0, 4));
    assert_eq!(
        t.cells(),
        vec![(0, 0), (1, 0), (2, 0), (3, 0), (0, 1), (1, 1), (2, 1), (0, 2), (1, 2), (0, 3)]
    );
    assert_eq!(t.bounding_box(), Rect { x1: 0, y1: 0, x2: 4, y2: 4 });
    assert_eq!(t.center(), (1, 1));
    assert!(t.is_enclosed((1, 1)));
    assert!(t.is_interior((1, 1)));
    assert!(!t.is_enclosed((2, 2)));
    assert!(!t.is_boundary((0, 0)));
}

#[test]
fn degenerate_triangle_covers_nothing() {
    let t = Triangle::new((0, 0), (3, 3), (6, 6));
    assert!(!t.is_enclosed((1, 1)));
    assert_eq!(t.cells(), vec![]);
    let mirrored = Triangle::new((0, 0), (0, 4), (4, 0));
    assert!(mirrored.is_enclosed((1, 1)));
    assert!(!mirrored.is_enclosed((4, 0)));
}
