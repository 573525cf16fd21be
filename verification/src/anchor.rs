//! Anchor resolver: from an anchor specification to the current
//! world-space coordinate. A pure read of the shape registry.

use vstd::prelude::*;

use crate::coord_ok;
use crate::geometry::Point;
use crate::geometry::point_ok;
use crate::shapes::ShapeBox;
use crate::shapes::ShapeRegistry;
use crate::shapes::keeps_shape;
use crate::shapes::lemma_find_shape_filter_other;
use crate::shapes::lemma_find_shape_id;
use crate::shapes::lemma_find_shape_push;
use crate::shapes::spec_find_shape;

verus! {

/// The side of a shape an attached anchor sits on. `Top` is the edge with
/// the larger `y` coordinates.
#[derive(Clone, Copy, PartialEq, Eq, Structural, Debug)]
pub enum Side {
    Top,
    Bottom,
    Left,
    Right,
    Center,
}

/// One logical endpoint of a connector: a fixed canvas point, or a side of
/// a live shape.
#[derive(Clone, Copy, PartialEq, Eq, Structural, Debug)]
pub enum AnchorSpec {
    Free(Point),
    Attached { shape: u128, side: Side },
}

impl AnchorSpec {
    /// A free point must lie in the raw coordinate range; an attached
    /// anchor carries no coordinate of its own.
    pub open spec fn wf(self) -> bool {
        match self {
            AnchorSpec::Free(p) => coord_ok(p.x as int) && coord_ok(p.y as int),
            AnchorSpec::Attached { .. } => true,
        }
    }
}

/// `a` is attached to the shape carrying `sid`.
pub open spec fn spec_attached_to(a: AnchorSpec, sid: u128) -> bool {
    a matches AnchorSpec::Attached { shape, .. } && shape == sid
}

/// Why resolution can fail: the referenced shape is gone. Callers treat
/// the owning connector as orphaned and delete it.
#[derive(Clone, Copy, PartialEq, Eq, Structural, Debug)]
pub enum ResolutionError {
    ShapeNotFound,
}

/// The world point of `side` on box `b`: the centroid, or the midpoint of
/// the named edge. Only the extent is halved, so translating the box
/// translates every anchor point exactly.
pub open spec fn spec_anchor_point(b: ShapeBox, side: Side) -> Point {
    match side {
        Side::Top => Point { x: (b.x + b.w as int / 2) as i64, y: (b.y + b.h as int) as i64 },
        Side::Bottom => Point { x: (b.x + b.w as int / 2) as i64, y: b.y },
        Side::Left => Point { x: b.x, y: (b.y + b.h as int / 2) as i64 },
        Side::Right => Point { x: (b.x + b.w as int) as i64, y: (b.y + b.h as int / 2) as i64 },
        Side::Center => Point {
            x: (b.x + b.w as int / 2) as i64,
            y: (b.y + b.h as int / 2) as i64,
        },
    }
}

/// What an anchor resolves to against the given shapes: a free anchor is
/// its own point; an attached one is the anchor point on the referenced
/// shape's current box, or nothing when that shape is gone.
pub open spec fn spec_resolve(a: AnchorSpec, shapes: Seq<ShapeBox>) -> Option<Point> {
    match a {
        AnchorSpec::Free(p) => Some(p),
        AnchorSpec::Attached { shape, side } => match spec_find_shape(shapes, shape) {
            Some(b) => Some(spec_anchor_point(b, side)),
            None => None,
        },
    }
}

/// The world point of `side` on box `b`.
pub fn anchor_point(b: &ShapeBox, side: Side) -> (p: Point)
    requires
        b.wf(),
    ensures
        p == spec_anchor_point(*b, side),
        point_ok(p),
{
    match side {
        Side::Top => Point { x: b.x + (b.w / 2) as i64, y: b.y + b.h as i64 },
        Side::Bottom => Point { x: b.x + (b.w / 2) as i64, y: b.y },
        Side::Left => Point { x: b.x, y: b.y + (b.h / 2) as i64 },
        Side::Right => Point { x: b.x + b.w as i64, y: b.y + (b.h / 2) as i64 },
        Side::Center => Point { x: b.x + (b.w / 2) as i64, y: b.y + (b.h / 2) as i64 },
    }
}

/// Resolve an anchor against the current shapes. Pure: no side effects.
/// `Err(ShapeNotFound)` exactly when an attached anchor's shape is absent.
pub fn resolve(a: &AnchorSpec, shapes: &ShapeRegistry) -> (r: Result<Point, ResolutionError>)
    requires
        a.wf(),
        shapes.wf(),
    ensures
        r matches Ok(p) ==> spec_resolve(*a, shapes@) == Some(p) && point_ok(p),
        r is Err ==> spec_resolve(*a, shapes@) is None && r == Err::<Point,
            ResolutionError,
        >(ResolutionError::ShapeNotFound),
{
    match a {
        AnchorSpec::Free(p) => Ok(*p),
        AnchorSpec::Attached { shape, side } => match shapes.get_shape(*shape) {
            Some(b) => {
                proof {
                    let fb = spec_find_shape(shapes@, *shape)->0;
                    assert(shapes@.contains(fb)) by {
                        lemma_find_shape_contains(shapes@, *shape);
                    }
                    let m = choose|m: int|
                        0 <= m < shapes@.len() && shapes@[m] == fb;
                    assert(shapes@[m].wf());
                }
                Ok(anchor_point(b, *side))
            },
            None => Err(ResolutionError::ShapeNotFound),
        },
    }
}

/// A found box is one of the registry's boxes.
pub proof fn lemma_find_shape_contains(s: Seq<ShapeBox>, id: u128)
    requires
        spec_find_shape(s, id) is Some,
    ensures
        s.contains(spec_find_shape(s, id)->0),
    decreases s.len(),
{
    if s.len() > 0 && s[0].id != id {
        lemma_find_shape_contains(s.skip(1), id);
        let b = spec_find_shape(s.skip(1), id)->0;
        let k = choose|k: int| 0 <= k < s.skip(1).len() && s.skip(1)[k] == b;
        assert(s[k + 1] == b);
    }
}

/// Whatever resolves, resolves into the resolved-coordinate range.
pub proof fn lemma_resolve_point_ok(a: AnchorSpec, shapes: Seq<ShapeBox>)
    requires
        a.wf(),
        forall|i: int| 0 <= i < shapes.len() ==> (#[trigger] shapes[i]).wf(),
        spec_resolve(a, shapes) is Some,
    ensures
        point_ok(spec_resolve(a, shapes)->0),
{
    match a {
        AnchorSpec::Free(_) => {},
        AnchorSpec::Attached { shape, side } => {
            lemma_find_shape_contains(shapes, shape);
            let b = spec_find_shape(shapes, shape)->0;
            let m = choose|m: int| 0 <= m < shapes.len() && shapes[m] == b;
            assert(shapes[m].wf());
        },
    }
}

/// Law: a free anchor resolves to its literal point, whatever the shape
/// registry holds — any two registries give the same coordinate.
pub proof fn lemma_free_anchor_literal(p: Point, shapes1: Seq<ShapeBox>, shapes2: Seq<ShapeBox>)
    ensures
        spec_resolve(AnchorSpec::Free(p), shapes1) == Some(p),
        spec_resolve(AnchorSpec::Free(p), shapes2) == Some(p),
{
}

/// Box `b` moved by `(dx, dy)`, extent unchanged.
pub open spec fn spec_translated(b: ShapeBox, dx: int, dy: int) -> ShapeBox {
    ShapeBox { x: (b.x + dx) as i64, y: (b.y + dy) as i64, ..b }
}

/// Law: moving a shape by `(dx, dy)` moves every anchor point on it by
/// exactly `(dx, dy)` — the halved extent is untouched by the move, so no
/// rounding drift appears.
pub proof fn lemma_anchor_point_translates(b: ShapeBox, side: Side, dx: int, dy: int)
    requires
        b.wf(),
        coord_ok(b.x + dx),
        coord_ok(b.y + dy),
    ensures
        spec_anchor_point(spec_translated(b, dx, dy), side).x == spec_anchor_point(b, side).x
            + dx,
        spec_anchor_point(spec_translated(b, dx, dy), side).y == spec_anchor_point(b, side).y
            + dy,
{
}

/// Law: committing a moved box shifts what every anchor attached to that
/// shape resolves to by exactly the move's delta, and no other resolution
/// outcome changes. The registry the law speaks of is the one `set_shape`
/// leaves behind.
pub proof fn lemma_resolve_tracks_shape_move(
    shapes: Seq<ShapeBox>,
    b: ShapeBox,
    side: Side,
    dx: int,
    dy: int,
)
    requires
        spec_find_shape(shapes, b.id) == Some(b),
        b.wf(),
        coord_ok(b.x + dx),
        coord_ok(b.y + dy),
    ensures
        ({
            let a = AnchorSpec::Attached { shape: b.id, side };
            let moved = shapes.filter(keeps_shape(b.id)).push(spec_translated(b, dx, dy));
            spec_resolve(a, moved) is Some && spec_resolve(a, shapes) is Some && spec_resolve(
                a,
                moved,
            )->0.x == spec_resolve(a, shapes)->0.x + dx && spec_resolve(a, moved)->0.y
                == spec_resolve(a, shapes)->0.y + dy
        }),
        forall|other: AnchorSpec|
            other.wf() && !spec_attached_to(other, b.id) ==> #[trigger] spec_resolve(
                other,
                shapes.filter(keeps_shape(b.id)).push(spec_translated(b, dx, dy)),
            ) == spec_resolve(other, shapes),
{
    let t = spec_translated(b, dx, dy);
    let f = shapes.filter(keeps_shape(b.id));
    let moved = f.push(t);
    assert(spec_find_shape(f, b.id) is None) by {
        if spec_find_shape(f, b.id) is Some {
            lemma_find_shape_id(f, b.id);
            lemma_find_shape_contains(f, b.id);
            let el = spec_find_shape(f, b.id)->0;
            let k = choose|k: int| 0 <= k < f.len() && f[k] == el;
            shapes.lemma_filter_pred(keeps_shape(b.id), k);
        }
    }
    lemma_find_shape_push(f, t, b.id);
    lemma_anchor_point_translates(b, side, dx, dy);
    assert forall|other: AnchorSpec|
        other.wf() && !spec_attached_to(other, b.id) implies #[trigger] spec_resolve(
        other,
        moved,
    ) == spec_resolve(other, shapes) by {
        match other {
            AnchorSpec::Free(_) => {},
            AnchorSpec::Attached { shape, .. } => {
                lemma_find_shape_push(f, t, shape);
                lemma_find_shape_filter_other(shapes, b.id, shape);
            },
        }
    }
}

} // verus!
