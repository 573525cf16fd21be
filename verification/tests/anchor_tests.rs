use arrow_core::anchor::AnchorSpec;
use arrow_core::anchor::ResolutionError;
use arrow_core::anchor::Side;
use arrow_core::anchor::resolve;
use arrow_core::geometry::Point;
use arrow_core::shapes::ShapeBox;
use arrow_core::shapes::ShapeRegistry;

fn pt(x: i64, y: i64) -> Point {
    Point { x, y }
}

fn box_a() -> ShapeBox {
    ShapeBox { id: 1, x: 0, y: 0, w: 100, h: 100 }
}

#[test]
fn free_anchor_resolves_to_its_point_regardless_of_shapes() {
    let empty = ShapeRegistry::new();
    let mut full = ShapeRegistry::new();
    full.set_shape(box_a());
    full.set_shape(ShapeBox { id: 9, x: -50, y: 77, w: 3, h: 4 });
    let a = AnchorSpec::Free(pt(350, 50));
    assert_eq!(resolve(&a, &empty), Ok(pt(350, 50)));
    assert_eq!(resolve(&a, &full), Ok(pt(350, 50)));
}

#[test]
fn attached_anchor_resolves_to_each_side_midpoint() {
    let mut shapes = ShapeRegistry::new();
    shapes.set_shape(box_a());
    let at = |side| AnchorSpec::Attached { shape: 1, side };
    assert_eq!(resolve(&at(Side::Right), &shapes), Ok(pt(100, 50)));
    assert_eq!(resolve(&at(Side::Left), &shapes), Ok(pt(0, 50)));
    assert_eq!(resolve(&at(Side::Top), &shapes), Ok(pt(50, 100)));
    assert_eq!(resolve(&at(Side::Bottom), &shapes), Ok(pt(50, 0)));
    assert_eq!(resolve(&at(Side::Center), &shapes), Ok(pt(50, 50)));
}

#[test]
fn odd_extent_halves_toward_zero() {
    let mut shapes = ShapeRegistry::new();
    shapes.set_shape(ShapeBox { id: 3, x: 10, y: 20, w: 5, h: 7 });
    let a = AnchorSpec::Attached { shape: 3, side: Side::Center };
    assert_eq!(resolve(&a, &shapes), Ok(pt(12, 23)));
}

#[test]
fn missing_shape_is_shape_not_found() {
    let mut shapes = ShapeRegistry::new();
    shapes.set_shape(box_a());
    let a = AnchorSpec::Attached { shape: 2, side: Side::Left };
    assert_eq!(resolve(&a, &shapes), Err(ResolutionError::ShapeNotFound));
}

#[test]
fn moving_a_shape_moves_its_anchor_by_the_same_delta() {
    let mut shapes = ShapeRegistry::new();
    shapes.set_shape(ShapeBox { id: 4, x: 11, y: -3, w: 33, h: 9 });
    let a = AnchorSpec::Attached { shape: 4, side: Side::Center };
    let before = resolve(&a, &shapes).unwrap();
    shapes.set_shape(ShapeBox { id: 4, x: 11 + 17, y: -3 - 40, w: 33, h: 9 });
    let after = resolve(&a, &shapes).unwrap();
    assert_eq!(after, pt(before.x + 17, before.y - 40));
}

#[test]
fn replacing_a_shape_keeps_the_rest() {
    let mut shapes = ShapeRegistry::new();
    shapes.set_shape(box_a());
    shapes.set_shape(ShapeBox { id: 2, x: 300, y: 0, w: 100, h: 100 });
    shapes.set_shape(ShapeBox { id: 1, x: 1, y: 1, w: 100, h: 100 });
    let a1 = AnchorSpec::Attached { shape: 1, side: Side::Bottom };
    let a2 = AnchorSpec::Attached { shape: 2, side: Side::Bottom };
    assert_eq!(resolve(&a1, &shapes), Ok(pt(51, 1)));
    assert_eq!(resolve(&a2, &shapes), Ok(pt(350, 0)));
    shapes.remove_shape(2);
    assert_eq!(resolve(&a2, &shapes), Err(ResolutionError::ShapeNotFound));
    assert_eq!(resolve(&a1, &shapes), Ok(pt(51, 1)));
}
