use smallest_circle::circle::ClosedCircle;
use smallest_circle::points::Point;
use smallest_circle::smallest_cover::MovingPointCloud;

fn pt(x: f64, y: f64) -> Point {
    Point { x: x.to_bits(), y: y.to_bits() }
}

fn radius_of(c: &ClosedCircle) -> f64 {
    f64::from_bits(c.sq_radius).sqrt()
}

#[test]
fn point_cloud_use() {
    let mut point_cloud = MovingPointCloud::new();

    // Populate initial points
    {
        let dth = 120_f64.to_radians();
        let theta0 = 1_f64;
        let r = 1.0;

        assert!(point_cloud.extend(vec![
            pt(r * theta0.cos(), r * theta0.sin()),
            pt(r * (theta0 + dth).cos(), r * (theta0 + dth).sin()),
            pt(r * (theta0 + 2.0 * dth).cos(), r * (theta0 + 2.0 * dth).sin()),
        ]));
    };
    assert_eq!(radius_of(&point_cloud.cover_circle().unwrap()), 1.0);
    assert_eq!(point_cloud.len(), 3);

    // Add interior points
    {
        let dth = 90_f64.to_radians();
        let theta0 = 0_f64;
        let r = 0.5;

        assert!(point_cloud.push(pt(r * theta0.cos(), r * theta0.sin())));
        assert!(point_cloud.push(pt(r * (theta0 + dth).cos(), r * (theta0 + dth).sin())));
        assert!(point_cloud.push(pt(
            r * (theta0 + 2.0 * dth).cos(),
            r * (theta0 + 2.0 * dth).sin()
        )));
        assert!(point_cloud.push(pt(
            r * (theta0 + 3.0 * dth).cos(),
            r * (theta0 + 3.0 * dth).sin()
        )));
    };
    assert_eq!(radius_of(&point_cloud.cover_circle().unwrap()), 1.0);
    assert_eq!(point_cloud.len(), 7);

    // Remove original polygon vertices
    assert!(point_cloud.pop());
    assert!(point_cloud.pop());
    assert!(point_cloud.pop());
    assert_eq!(radius_of(&point_cloud.cover_circle().unwrap()), 0.5);
    assert_eq!(point_cloud.len(), 4);

    // Add new polygon vertices, w/o changing radius
    assert!(point_cloud.push(pt(0.3, 0.3)));
    assert_eq!(radius_of(&point_cloud.cover_circle().unwrap()), 0.5);
    assert_eq!(point_cloud.len(), 5);

    // Remove all but one point
    assert!(point_cloud.pop());
    assert!(point_cloud.pop());
    assert!(point_cloud.pop());
    assert!(point_cloud.pop());
    println!("{:?}", point_cloud.len());
    assert_eq!(radius_of(&point_cloud.cover_circle().unwrap()), 0.0);
    assert_eq!(point_cloud.len(), 1);
}

#[test]
fn empty_cloud_circle_is_sentinel() {
    // Degree zero: a "no data" circle with a not-a-number center and zero
    // squared radius.
    let point_cloud = MovingPointCloud::new();
    let circle = point_cloud.cover_circle().unwrap();
    assert!(f64::from_bits(circle.center.x).is_nan());
    assert!(f64::from_bits(circle.center.y).is_nan());
    assert_eq!(circle.sq_radius, 0.0f64.to_bits());
}

#[test]
fn single_point_circle_is_degenerate() {
    let mut point_cloud = MovingPointCloud::new();
    assert!(point_cloud.push(pt(3.0, -7.0)));
    let circle = point_cloud.cover_circle().unwrap();
    assert_eq!(circle.center, pt(3.0, -7.0));
    assert_eq!(circle.sq_radius, 0.0f64.to_bits());
    assert_eq!(point_cloud.len(), 1);
}

#[test]
fn two_point_cloud_circle() {
    // Two pushed points give their diametral circle.
    let mut point_cloud = MovingPointCloud::new();
    assert!(point_cloud.push(pt(4.0, -1.0)));
    assert!(point_cloud.push(pt(0.0, -1.0)));
    let circle = point_cloud.cover_circle().unwrap();
    assert_eq!(circle.center, pt(2.0, -1.0));
    assert_eq!(circle.sq_radius, 4.0f64.to_bits());
}

#[test]
fn three_point_cloud_circle() {
    // Three pushed points on one circle give the circumscribed circle.
    let mut point_cloud = MovingPointCloud::new();
    assert!(point_cloud.push(pt(4.0, -1.0)));
    assert!(point_cloud.push(pt(0.0, -1.0)));
    assert!(point_cloud.push(pt(2.0, 1.0)));
    let circle = point_cloud.cover_circle().unwrap();
    assert_eq!(circle.center, pt(2.0, -1.0));
    assert_eq!(radius_of(&circle), 2.0);
}

#[test]
fn window_length_tracks_pushes_and_pops() {
    let mut point_cloud = MovingPointCloud::new();
    assert_eq!(point_cloud.len(), 0);
    assert!(point_cloud.push(pt(0.0, 1.0)));
    assert!(point_cloud.push(pt(2.0, 0.0)));
    assert!(point_cloud.push(pt(-1.0, -1.0)));
    assert!(point_cloud.push(pt(0.25, 0.25)));
    assert_eq!(point_cloud.len(), 4);
    assert!(point_cloud.pop());
    assert_eq!(point_cloud.len(), 3);
    assert!(point_cloud.pop());
    assert_eq!(point_cloud.len(), 2);
    assert!(point_cloud.pop());
    assert_eq!(point_cloud.len(), 1);
    assert!(point_cloud.pop());
    assert_eq!(point_cloud.len(), 0);
    // A pop on an empty window does nothing.
    assert!(point_cloud.pop());
    assert_eq!(point_cloud.len(), 0);
}

#[test]
fn pop_reports_unordered_repair() {
    // Coordinates near the binary64 overflow edge: the pushes classify
    // cleanly (each dot product stays on one side), but the repair after the
    // pop tests an interior point against a lost-region edge whose dot
    // product overflows in both directions and comes out unordered.  The pop
    // reports the breakdown and leaves the cloud unchanged.
    let big = 1.0e300;
    let mut point_cloud = MovingPointCloud::new();
    assert!(point_cloud.push(pt(-big, -big)));
    assert!(point_cloud.push(pt(big, -big)));
    assert!(point_cloud.push(pt(big, big)));
    assert!(point_cloud.push(pt(-big, big)));
    assert!(point_cloud.push(pt(0.0, 0.0)));
    assert_eq!(point_cloud.len(), 5);
    assert!(!point_cloud.pop());
    assert_eq!(point_cloud.len(), 5);
}

#[test]
fn push_reports_unordered_classification() {
    // A not-a-number point cannot be classified against a real hull edge:
    // the push reports the breakdown and leaves the cloud unchanged.
    let mut point_cloud = MovingPointCloud::new();
    assert!(point_cloud.push(pt(0.0, 0.0)));
    assert!(point_cloud.push(pt(1.0, 0.0)));
    assert!(!point_cloud.push(pt(f64::NAN, f64::NAN)));
    assert_eq!(point_cloud.len(), 2);
}
