use graphics::aabb::bounding_box;
use graphics::aabb::Point3;
use graphics::aabb::AABB;

fn point(x: f64, y: f64, z: f64) -> Point3 {
    Point3 { x: x.to_bits(), y: y.to_bits(), z: z.to_bits() }
}

fn cube(lo: f64, hi: f64) -> AABB {
    AABB::new(point(lo, lo, lo), point(hi, hi, hi))
}

fn floats(p: Point3) -> (f64, f64, f64) {
    (f64::from_bits(p.x), f64::from_bits(p.y), f64::from_bits(p.z))
}

#[test]
fn a_box_keeps_its_corners() {
    let b = AABB::new(point(1.0, 2.0, 3.0), point(4.0, 5.0, 6.0));
    assert_eq!(floats(b.min), (1.0, 2.0, 3.0));
    assert_eq!(floats(b.max), (4.0, 5.0, 6.0));
}

#[test]
fn the_surrounding_box_takes_the_least_and_the_greatest() {
    let a = AABB::new(point(0.0, -5.0, 2.0), point(4.0, 1.0, 3.0));
    let b = AABB::new(point(-1.0, 0.0, 2.0), point(2.0, 9.0, 8.0));
    let both = AABB::surrounding_box(a, b);
    assert_eq!(floats(both.min), (-1.0, -5.0, 2.0));
    assert_eq!(floats(both.max), (4.0, 9.0, 8.0));
    assert_eq!(AABB::surrounding_box(b, a), both);
}

#[test]
fn a_box_surrounded_with_itself_is_itself() {
    let a = AABB::new(point(0.0, -5.0, 2.0), point(4.0, 1.0, 3.0));
    assert_eq!(AABB::surrounding_box(a, a), a);
    let odd = AABB::new(point(-0.0, f64::NAN, 1.0), point(0.0, f64::INFINITY, -1.0));
    assert_eq!(AABB::surrounding_box(odd, odd), odd);
}

#[test]
fn the_surrounding_box_of_disjoint_boxes_reaches_both() {
    let both = AABB::surrounding_box(cube(0.0, 1.0), cube(5.0, 6.0));
    assert_eq!(both, cube(0.0, 6.0));
    let far = AABB::surrounding_box(cube(f64::NEG_INFINITY, 0.0), cube(0.0, f64::MAX));
    assert_eq!(far, cube(f64::NEG_INFINITY, f64::MAX));
}

#[test]
fn the_boxes_of_a_sphere_that_moves_upwards() {
    let a = AABB::new(point(-0.2, 0.0, -0.2), point(0.2, 0.4, 0.2));
    let b = AABB::new(point(-0.2, 0.25, -0.2), point(0.2, 0.65, 0.2));
    let both = AABB::surrounding_box(a, b);
    assert_eq!(floats(both.min), (-0.2, 0.0, -0.2));
    assert_eq!(floats(both.max), (0.2, 0.65, 0.2));
}

#[test]
fn the_surrounding_box_holds_the_points_of_both() {
    let a = AABB::new(point(0.0, 0.0, 0.0), point(1.0, 1.0, 1.0));
    let b = AABB::new(point(3.0, -2.0, 0.5), point(4.0, -1.0, 0.75));
    let both = AABB::surrounding_box(a, b);
    let (lo, hi) = (floats(both.min), floats(both.max));
    for p in [(0.5, 0.5, 0.5), (1.0, 0.0, 1.0), (3.5, -1.5, 0.6), (4.0, -2.0, 0.75)] {
        assert!(lo.0 <= p.0 && p.0 <= hi.0);
        assert!(lo.1 <= p.1 && p.1 <= hi.1);
        assert!(lo.2 <= p.2 && p.2 <= hi.2);
    }
}

#[test]
fn an_empty_list_has_no_bounding_box() {
    assert_eq!(bounding_box(&Vec::new()), None);
}

#[test]
fn a_list_with_an_unbounded_member_has_no_bounding_box() {
    assert_eq!(bounding_box(&vec![None]), None);
    assert_eq!(bounding_box(&vec![Some(cube(0.0, 1.0)), None]), None);
    assert_eq!(bounding_box(&vec![None, Some(cube(0.0, 1.0))]), None);
    assert_eq!(bounding_box(&vec![Some(cube(0.0, 1.0)), None, Some(cube(2.0, 3.0))]), None);
}

#[test]
fn the_bounding_box_of_a_list_reaches_every_member() {
    assert_eq!(bounding_box(&vec![Some(cube(2.0, 3.0))]), Some(cube(2.0, 3.0)));
    let boxes = vec![Some(cube(2.0, 3.0)), Some(cube(-4.0, 0.0)), Some(cube(1.0, 9.0))];
    assert_eq!(bounding_box(&boxes), Some(cube(-4.0, 9.0)));
    let ground_and_ball = vec![Some(cube(-2000.0, 0.0)), Some(cube(-0.2, 0.4))];
    assert_eq!(bounding_box(&ground_and_ball), Some(cube(-2000.0, 0.4)));
}
