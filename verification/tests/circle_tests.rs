use smallest_circle::circle::ClosedCircle;
use smallest_circle::points::Point;

fn pt(x: f64, y: f64) -> Point {
    Point { x: x.to_bits(), y: y.to_bits() }
}

fn radius_of(c: &ClosedCircle) -> f64 {
    f64::from_bits(c.sq_radius).sqrt()
}

#[test]
fn from_two_points() {
    let p1 = pt(4.0, -1.0);
    let p2 = pt(0.0, -1.0);

    assert_eq!(
        ClosedCircle::from_two_points(p1, p2),
        ClosedCircle { center: pt(2.0, -1.0), sq_radius: 4.0f64.to_bits() }
    );

    // Permutation of points shouldn't change the result
    assert_eq!(
        ClosedCircle::from_two_points(p1, p2),
        ClosedCircle::from_two_points(p2, p1),
    );
}

#[test]
fn from_three_points() {
    let p1 = pt(4.0, -1.0);
    let p2 = pt(0.0, -1.0);
    let p3 = pt(2.0, 1.0);

    assert_eq!(
        ClosedCircle::from_three_points(p1, p2, p3),
        ClosedCircle { center: pt(2.0, -1.0), sq_radius: 4.0f64.to_bits() }
    );

    // Permutation of points shouldn't change the result
    assert_eq!(
        ClosedCircle::from_three_points(p1, p2, p3),
        ClosedCircle::from_three_points(p3, p2, p1),
    );
}

#[test]
fn three_point_permutations() {
    // All six orders of the three defining points give the same circle.
    let a = pt(4.0, -1.0);
    let b = pt(0.0, -1.0);
    let c = pt(2.0, 1.0);
    let reference = ClosedCircle::from_three_points(a, b, c);
    assert_eq!(ClosedCircle::from_three_points(a, c, b), reference);
    assert_eq!(ClosedCircle::from_three_points(b, a, c), reference);
    assert_eq!(ClosedCircle::from_three_points(b, c, a), reference);
    assert_eq!(ClosedCircle::from_three_points(c, a, b), reference);
    assert_eq!(ClosedCircle::from_three_points(c, b, a), reference);
}

#[test]
fn circle_covers() {
    let circle = ClosedCircle { center: pt(2.0, -1.0), sq_radius: 4.0f64.to_bits() };

    assert!(circle.covers(pt(2.0, -1.0)));
    assert!(circle.covers(pt(1.0, 0.0)));
    assert!(circle.covers(pt(0.0, -1.0)));
    assert!(!circle.covers(pt(0.0, 0.0)));
}

#[test]
fn boundary_point_is_covered() {
    // A point at exactly the stored radius from the center is covered.
    let circle = ClosedCircle { center: pt(0.0, 0.0), sq_radius: 4.0f64.to_bits() };
    assert!(circle.covers(pt(2.0, 0.0)));
    assert!(circle.covers(pt(0.0, -2.0)));
}

#[test]
fn radius() {
    let circle = ClosedCircle { center: pt(2.0, -1.0), sq_radius: 4.0f64.to_bits() };
    assert_eq!(radius_of(&circle), 2.0);
}
