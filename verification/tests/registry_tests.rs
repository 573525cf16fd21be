use arrow_core::anchor::AnchorSpec;
use arrow_core::anchor::Side;
use arrow_core::geometry::ConnectorMode;
use arrow_core::geometry::Point;
use arrow_core::plugin::ArrowPlugin;
use arrow_core::registry::ConnectorRegistry;
use arrow_core::shapes::ShapeBox;
use arrow_core::shapes::ShapeRegistry;

fn pt(x: i64, y: i64) -> Point {
    Point { x, y }
}

fn free(x: i64, y: i64) -> AnchorSpec {
    AnchorSpec::Free(Point { x, y })
}

fn attached(shape: u128, side: Side) -> AnchorSpec {
    AnchorSpec::Attached { shape, side }
}

#[test]
fn insert_get_remove_roundtrip() {
    let mut reg = ConnectorRegistry::new();
    let a = reg.insert(free(0, 0), free(10, 0), ConnectorMode::Straight, pt(0, 0), pt(10, 0));
    let b = reg.insert(free(5, 5), free(9, 9), ConnectorMode::Curved, pt(5, 5), pt(9, 9));
    assert_ne!(a, b);
    assert_eq!(reg.len(), 2);
    assert_eq!(reg.get(a).unwrap().id, a);
    assert_eq!(reg.get(b).unwrap().mode, ConnectorMode::Curved);
    reg.remove(a);
    assert_eq!(reg.len(), 1);
    assert!(reg.get(a).is_none());
    assert!(reg.get(b).is_some());
}

#[test]
fn fresh_identifiers_never_repeat_after_removal() {
    let mut reg = ConnectorRegistry::new();
    let a = reg.insert(free(0, 0), free(1, 1), ConnectorMode::Straight, pt(0, 0), pt(1, 1));
    reg.remove(a);
    let b = reg.insert(free(2, 2), free(3, 3), ConnectorMode::Straight, pt(2, 2), pt(3, 3));
    assert_ne!(a, b);
}

#[test]
fn cascade_removes_exactly_the_referencing_connectors() {
    // Shape 2 is referenced by three connectors: as start, as end, and as
    // both. A fourth connector is unrelated.
    let mut shapes = ShapeRegistry::new();
    shapes.set_shape(ShapeBox { id: 1, x: 0, y: 0, w: 100, h: 100 });
    shapes.set_shape(ShapeBox { id: 2, x: 300, y: 0, w: 100, h: 100 });
    let mut plugin = ArrowPlugin::new();
    let mut make = |plugin: &mut ArrowPlugin, s: AnchorSpec, e: AnchorSpec| {
        plugin.create_arrow_start(s, pt(0, 0), ConnectorMode::Straight, &shapes);
        plugin.create_arrow_end(e, &shapes).expect("gesture finalizes")
    };
    let as_start = make(&mut plugin, attached(2, Side::Left), free(0, 0));
    let as_end = make(&mut plugin, free(0, 0), attached(2, Side::Top));
    let as_both = make(&mut plugin, attached(2, Side::Center), attached(2, Side::Center));
    let unrelated = make(&mut plugin, attached(1, Side::Right), free(200, 50));
    assert_eq!(plugin.registry.len(), 4);

    shapes.remove_shape(2);
    plugin.shape_deleted(2);

    assert_eq!(plugin.registry.len(), 1);
    assert!(plugin.registry.get(as_start).is_none());
    assert!(plugin.registry.get(as_end).is_none());
    assert!(plugin.registry.get(as_both).is_none());
    let kept = plugin.registry.get(unrelated).expect("the unrelated connector stays");
    assert_eq!(kept.start, attached(1, Side::Right));
}

#[test]
fn orphaned_connectors_vanish_on_redraw() {
    let mut shapes = ShapeRegistry::new();
    shapes.set_shape(ShapeBox { id: 1, x: 0, y: 0, w: 100, h: 100 });
    let mut plugin = ArrowPlugin::new();
    plugin.create_arrow_start(attached(1, Side::Right), pt(0, 0), ConnectorMode::Straight, &shapes);
    plugin.create_arrow_end(free(200, 50), &shapes);
    plugin.create_arrow_start(free(-5, -5), pt(-5, -5), ConnectorMode::Straight, &shapes);
    plugin.create_arrow_end(free(0, 0), &shapes);
    assert_eq!(plugin.registry.len(), 2);

    // The shape disappears without the deletion hook firing: the next
    // redraw pass still deletes the orphan rather than reusing stale
    // coordinates.
    shapes.remove_shape(1);
    plugin.redraw_arrows(&shapes);
    assert_eq!(plugin.registry.len(), 1);
    let kept = plugin.registry.at(0);
    assert_eq!(kept.start, free(-5, -5));
}

#[test]
fn explicit_delete_takes_the_path_with_it() {
    let mut plugin = ArrowPlugin::new();
    let shapes = ShapeRegistry::new();
    plugin.create_arrow_start(free(0, 0), pt(0, 0), ConnectorMode::Curved, &shapes);
    let id = plugin.create_arrow_end(free(50, 50), &shapes).unwrap();
    assert_eq!(plugin.registry.len(), 1);
    plugin.delete_arrow(id);
    assert_eq!(plugin.registry.len(), 0);
    assert!(plugin.registry.get(id).is_none());
}
