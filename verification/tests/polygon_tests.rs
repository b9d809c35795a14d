use smallest_circle::points::Point;
use smallest_circle::points::Vector;
use smallest_circle::polygon::ConvexPolygon;
use smallest_circle::polygon::PolygonEdge;
use smallest_circle::polygon::PolygonVertex;

fn pt(x: f64, y: f64) -> Point {
    Point { x: x.to_bits(), y: y.to_bits() }
}

fn vc(x: f64, y: f64) -> Vector {
    Vector { x: x.to_bits(), y: y.to_bits() }
}

fn convex_polygon() -> ConvexPolygon {
    let mut cp = ConvexPolygon::new();
    cp.insert(pt(0.0, 1.0)).unwrap();
    cp.insert(pt(2.0, 0.0)).unwrap();
    cp.insert(pt(-1.0, -1.0)).unwrap();
    cp.insert(pt(1.0, -1.0)).unwrap();
    assert_eq!(cp.degree(), 4);

    cp
}

fn start_vertex(cp: &ConvexPolygon) -> PolygonVertex<'_> {
    cp.find(pt(0.0, 1.0)).unwrap()
}

fn ordered_vertices() -> Vec<Point> {
    vec![pt(0.0, 1.0), pt(-1.0, -1.0), pt(1.0, -1.0), pt(2.0, 0.0)]
}

#[test]
fn new() {
    let _cp = ConvexPolygon::new();
}

#[test]
fn length() {
    let cp = convex_polygon();
    assert_eq!(cp.degree(), 4_usize);
}

#[test]
fn vertex() {
    let cp = convex_polygon();
    let mut vertex = start_vertex(&cp);
    let ordered_vertices = ordered_vertices();

    for i in 0..4 {
        assert_eq!(vertex.position(), ordered_vertices[i]);
        vertex = vertex.fwd_vertex();
    }
}

#[test]
fn fwd_edge() {
    let cp = convex_polygon();
    let mut vertex = start_vertex(&cp);
    let ordered_vertices = ordered_vertices();

    for i in 0..4 {
        assert_eq!(
            vertex.fwd_edge(),
            PolygonEdge(ordered_vertices[i], ordered_vertices[(i + 1) % 4])
        );
        vertex = vertex.fwd_vertex();
    }
}

#[test]
fn rev_edge() {
    let cp = convex_polygon();
    let mut vertex = start_vertex(&cp);
    let ordered_vertices = ordered_vertices();

    for i in 0_usize..4_usize {
        vertex = vertex.fwd_vertex();
        assert_eq!(
            vertex.rev_edge(),
            PolygonEdge(ordered_vertices[i], ordered_vertices[(i + 1) % 4])
        );
    }
}

#[test]
fn polygon_covers() {
    let cp = convex_polygon();

    assert_eq!(cp.covers(pt(1.0, 0.0)), Some(true));
    assert_eq!(cp.covers(pt(1.0, 0.5)), Some(true));
    assert_eq!(cp.covers(pt(1.0, 1.0)), Some(false));
}

#[test]
fn covers_reports_unordered_classification() {
    // Against a hull with real edges, a not-a-number point cannot be
    // classified: the scan reports the breakdown instead of an answer.
    let cp = convex_polygon();
    assert_eq!(cp.covers(pt(f64::NAN, f64::NAN)), None);
}

#[test]
fn find() {
    let cp = convex_polygon();
    let mut vertex = start_vertex(&cp);
    let ordered_vertices = ordered_vertices();

    for i in 0_usize..4_usize {
        let next_vertex = vertex.fwd_vertex();
        assert_eq!(cp.find(ordered_vertices[i]), Some(vertex));
        vertex = next_vertex;
    }
    assert_eq!(cp.find(pt(0.0, 0.0)), None);
}

#[test]
fn find_best() {
    let cp = convex_polygon();
    assert_eq!(cp.find_best(vc(2.0, 0.0)).unwrap().position(), pt(2.0, 0.0));
    assert_eq!(cp.find_best(vc(1.0, 0.0)).unwrap().position(), pt(2.0, 0.0));
    assert_eq!(cp.find_best(vc(3.0, 1.0)).unwrap().position(), pt(2.0, 0.0));
}

#[test]
fn insert() {
    let mut cp = convex_polygon();
    // Add interior point
    {
        let point = pt(0.0, 0.0);
        assert_eq!(cp.covers(point), Some(true));

        let total_count = cp.degree() + 1;
        let removed_vertices = cp.insert(point).unwrap();
        assert_eq!(removed_vertices, vec![point]);
        assert_eq!(cp.degree() + removed_vertices.len(), total_count);
    }
    // Add exterior point that obviates an existing vertex
    {
        let point = pt(0.0, 2.0);
        assert_eq!(cp.covers(point), Some(false));
        let total_count = cp.degree() + 1;

        let removed_vertices = cp.insert(point).unwrap();
        assert_eq!(cp.degree() + removed_vertices.len(), total_count);
        assert_eq!(removed_vertices, vec![pt(0.0, 1.0)]);
        assert!(cp.find(point).is_some());
        assert!(cp.find(removed_vertices[0]).is_none());
    }
    // Add exterior point w/o obviating existing vertices
    {
        let point = pt(2.0, 2.0);
        assert_eq!(cp.covers(point), Some(false));
        let total_count = cp.degree() + 1;

        let removed_vertices = cp.insert(point).unwrap();
        assert_eq!(cp.degree() + removed_vertices.len(), total_count);
        assert_eq!(removed_vertices, vec![]);
        assert!(cp.find(point).is_some());
    }
}

#[test]
fn remove() {
    let mut cp = convex_polygon();
    let vertex = start_vertex(&cp);
    let ordered_vertices = ordered_vertices();

    let vertex_id = vertex.to_id();
    assert_eq!(cp.remove(vertex_id), ordered_vertices[0]);
}

#[test]
fn insert_reports_unordered_classification() {
    let mut cp = ConvexPolygon::new();
    cp.insert(pt(0.0, 0.0)).unwrap();
    cp.insert(pt(1.0, 0.0)).unwrap();
    assert_eq!(cp.insert(pt(f64::NAN, f64::NAN)), None);
    assert_eq!(cp.degree(), 2);
}

#[test]
fn find_best_on_empty_hull_is_absent() {
    let cp = ConvexPolygon::new();
    assert!(cp.find_best(vc(1.0, 0.0)).is_none());
}

#[test]
fn inserted_points_stay_covered() {
    // After every insertion, no point fed to the hull so far classifies as
    // exterior to any hull edge.
    let points = [
        pt(0.0, 1.0),
        pt(2.0, 0.0),
        pt(-1.0, -1.0),
        pt(1.0, -1.0),
        pt(0.25, 0.25),
        pt(3.0, 3.0),
        pt(-2.0, 0.5),
    ];
    let mut cp = ConvexPolygon::new();
    for (i, p) in points.iter().enumerate() {
        cp.insert(*p).unwrap();
        for q in &points[..=i] {
            assert_eq!(cp.covers(*q), Some(true));
        }
    }
}
