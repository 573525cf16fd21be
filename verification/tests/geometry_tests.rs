use arrow_core::geometry::ConnectorMode;
use arrow_core::geometry::PathSpec;
use arrow_core::geometry::Point;
use arrow_core::geometry::build;
use arrow_core::geometry::isqrt;

fn pt(x: i64, y: i64) -> Point {
    Point { x, y }
}

#[test]
fn isqrt_exact_values() {
    assert_eq!(isqrt(0), 0);
    assert_eq!(isqrt(1), 1);
    assert_eq!(isqrt(3), 1);
    assert_eq!(isqrt(4), 2);
    assert_eq!(isqrt(1384), 37);
    assert_eq!(isqrt(10_000), 100);
    assert_eq!(isqrt((1 << 50) - 1), 33_554_431);
}

#[test]
fn straight_path_runs_between_the_endpoints() {
    let r = build(pt(0, 0), pt(100, 0), ConnectorMode::Straight);
    assert_eq!(r.path, PathSpec::Line { a: pt(0, 0), b: pt(100, 0) });
    assert!(r.start_cap.is_none());
}

#[test]
fn straight_arrowhead_exact_vertices() {
    // Span 100 along x: the head sits 18 back from the tip, 9 to each side.
    let r = build(pt(0, 0), pt(100, 0), ConnectorMode::Straight);
    let cap = r.end_cap.expect("distinct endpoints carry an end cap");
    assert_eq!(cap.tip, pt(100, 0));
    assert_eq!(cap.left, pt(82, 9));
    assert_eq!(cap.right, pt(82, -9));
}

#[test]
fn curved_control_points_and_arrowhead_exact() {
    // Span 90 along x: controls at a third and two thirds, bowed 22 left;
    // the end tangent is (30, -22), of length 37.
    let r = build(pt(0, 0), pt(90, 0), ConnectorMode::Curved);
    assert_eq!(
        r.path,
        PathSpec::Cubic { a: pt(0, 0), c1: pt(30, 22), c2: pt(60, 22), b: pt(90, 0) }
    );
    let cap = r.end_cap.expect("distinct endpoints carry an end cap");
    assert_eq!(cap.tip, pt(90, 0));
    assert_eq!(cap.left, pt(81, 17));
    assert_eq!(cap.right, pt(71, 3));
}

#[test]
fn build_is_deterministic() {
    let a = pt(-37, 1205);
    let b = pt(4_096, -9_999);
    assert_eq!(build(a, b, ConnectorMode::Curved), build(a, b, ConnectorMode::Curved));
    assert_eq!(build(a, b, ConnectorMode::Straight), build(a, b, ConnectorMode::Straight));
}

#[test]
fn degenerate_straight_collapses_without_caps() {
    let p = pt(42, -7);
    let r = build(p, p, ConnectorMode::Straight);
    assert_eq!(r.path, PathSpec::Line { a: p, b: p });
    assert!(r.start_cap.is_none());
    assert!(r.end_cap.is_none());
}

#[test]
fn degenerate_curved_collapses_without_caps() {
    let p = pt(42, -7);
    let r = build(p, p, ConnectorMode::Curved);
    assert_eq!(r.path, PathSpec::Cubic { a: p, c1: p, c2: p, b: p });
    assert!(r.start_cap.is_none());
    assert!(r.end_cap.is_none());
}

#[test]
fn translating_both_endpoints_translates_the_straight_path() {
    let r1 = build(pt(10, 20), pt(110, 70), ConnectorMode::Straight);
    let r2 = build(pt(10 + 55, 20 - 13), pt(110 + 55, 70 - 13), ConnectorMode::Straight);
    match (r1.path, r2.path) {
        (PathSpec::Line { a: a1, b: b1 }, PathSpec::Line { a: a2, b: b2 }) => {
            assert_eq!(a2, pt(a1.x + 55, a1.y - 13));
            assert_eq!(b2, pt(b1.x + 55, b1.y - 13));
        }
        _ => panic!("straight mode must yield line paths"),
    }
}
