use smallest_circle::points::Point;
use smallest_circle::points::Vector;

fn pt(x: f64, y: f64) -> Point {
    Point { x: x.to_bits(), y: y.to_bits() }
}

fn vc(x: f64, y: f64) -> Vector {
    Vector { x: x.to_bits(), y: y.to_bits() }
}

#[test]
fn make_point() {
    let _p1 = pt(1.0, 2.0);
}

#[test]
fn make_vector() {
    let _v1 = vc(1.0, 2.0);
}

#[test]
fn convert_through_bits() {
    let p1 = pt(1.0, -2.0);
    assert_eq!(p1, Point::from_bits(p1.to_bits()));
}

#[test]
fn p_add_v() {
    let p = pt(1.0, 2.0);
    let v = vc(3.0, 5.0);
    assert_eq!(p.add(v), pt(4.0, 7.0));
}

#[test]
fn v_add_v() {
    let v1 = vc(1.0, 2.0);
    let v2 = vc(3.0, 5.0);
    assert_eq!(v1.add(v2), vc(4.0, 7.0));
}

#[test]
fn p_sub_p() {
    let p1 = pt(1.0, 2.0);
    let p2 = pt(3.0, 5.0);
    assert_eq!(p2.sub(p1), vc(2.0, 3.0));
}

#[test]
fn p_sub_v() {
    let v = vc(1.0, 2.0);
    let p = pt(3.0, 5.0);
    assert_eq!(p.sub_vector(v), pt(2.0, 3.0));
}

#[test]
fn v_sub_v() {
    let v1 = vc(1.0, 2.0);
    let v2 = vc(3.0, 5.0);
    assert_eq!(v2.sub(v1), vc(2.0, 3.0));
}

#[test]
fn v_mul_s() {
    let v = vc(1.0, 2.0);
    assert_eq!(v.mul(2.0f64.to_bits()), vc(2.0, 4.0));
}

#[test]
fn v_dot_v() {
    let v1 = vc(1.0, 2.0);
    let v2 = vc(-3.0, 5.0);
    assert_eq!(v1.dot(v2), 7.0f64.to_bits());
}

#[test]
fn v_cross_v() {
    let v1 = vc(1.0, 2.0);
    let v2 = vc(-3.0, 5.0);
    assert_eq!(v1.cross(v2), 11.0f64.to_bits());
}

#[test]
fn v_normal() {
    // The left perpendicular is an exact quarter turn.
    let v = vc(1.0, 2.0);
    assert_eq!(v.normal(), vc(-2.0, 1.0));
}

#[test]
fn v_sq_mag() {
    let v = vc(3.0, 4.0);
    assert_eq!(v.sq_mag(), 25.0f64.to_bits());
}
