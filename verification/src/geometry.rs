//! Geometry builder: paths and arrowhead polygons for a connector.
//!
//! Everything here is a pure function of its arguments, so rebuilding with
//! unchanged endpoints always yields the identical rendered geometry.

use vstd::prelude::*;

verus! {

/// A point on the canvas, in integer canvas units.
#[derive(Clone, Copy, PartialEq, Eq, Structural, Debug)]
pub struct Point {
    pub x: i64,
    pub y: i64,
}

/// The path style a connector is drawn with, chosen when it is created.
#[derive(Clone, Copy, PartialEq, Eq, Structural, Debug)]
pub enum ConnectorMode {
    Straight,
    Curved,
}

/// A resolved anchor coordinate: a raw coordinate possibly shifted to the
/// far edge of a shape, hence up to twice `COORD_LIMIT`.
pub open spec fn point_ok(p: Point) -> bool {
    -2 * crate::COORD_LIMIT <= p.x <= 2 * crate::COORD_LIMIT
        && -2 * crate::COORD_LIMIT <= p.y <= 2 * crate::COORD_LIMIT
}

/// Division that rounds toward zero, as the executable helpers compute it.
pub open spec fn sdiv(a: int, b: int) -> int
    recommends
        b >= 1,
{
    if a >= 0 {
        a / b
    } else {
        -((-a) / b)
    }
}

/// Rounding toward zero never grows the magnitude.
pub proof fn lemma_sdiv_bound(a: int, b: int)
    requires
        b >= 1,
    ensures
        a >= 0 ==> 0 <= sdiv(a, b) <= a,
        a < 0 ==> a <= sdiv(a, b) <= 0,
{
    if a >= 0 {
        vstd::arithmetic::div_mod::lemma_div_nonincreasing(a, b);
        vstd::arithmetic::div_mod::lemma_div_pos_is_pos(a, b);
    } else {
        vstd::arithmetic::div_mod::lemma_div_nonincreasing(-a, b);
        vstd::arithmetic::div_mod::lemma_div_pos_is_pos(-a, b);
    }
}

/// Signed division rounding toward zero, on magnitudes small enough that
/// the sign flips cannot overflow.
pub fn div_signed(a: i64, b: u64) -> (r: i64)
    requires
        1 <= b,
        -0x4000_0000_0000_0000 <= a <= 0x4000_0000_0000_0000,
    ensures
        r == sdiv(a as int, b as int),
        a >= 0 ==> 0 <= r <= a,
        a < 0 ==> a <= r <= 0,
{
    proof {
        lemma_sdiv_bound(a as int, b as int);
    }
    if a >= 0 {
        ((a as u64) / b) as i64
    } else {
        -(((-a) as u64 / b) as i64)
    }
}

/// The integer square root: the largest `r` with `r * r <= n`.
pub open spec fn spec_isqrt(n: nat) -> nat
    decreases n,
{
    if n == 0 {
        0
    } else {
        let p = spec_isqrt((n - 1) as nat);
        if (p + 1) * (p + 1) <= n {
            p + 1
        } else {
            p
        }
    }
}

/// `spec_isqrt(n)` is bracketed by the two neighbouring squares.
pub proof fn lemma_isqrt_bracket(n: nat)
    ensures
        spec_isqrt(n) * spec_isqrt(n) <= n,
        n < (spec_isqrt(n) + 1) * (spec_isqrt(n) + 1),
    decreases n,
{
    if n == 0 {
        assert(spec_isqrt(n) == 0);
        assert(n < (spec_isqrt(n) + 1) * (spec_isqrt(n) + 1)) by (nonlinear_arith)
            requires
                n == 0,
                spec_isqrt(n) == 0,
        ;
    } else {
        let m = (n - 1) as nat;
        lemma_isqrt_bracket(m);
        let p = spec_isqrt(m);
        assert(p * p <= m);
        assert(m < (p + 1) * (p + 1));
        if (p + 1) * (p + 1) <= n {
            assert(spec_isqrt(n) == p + 1);
            assert(n < (spec_isqrt(n) + 1) * (spec_isqrt(n) + 1)) by (nonlinear_arith)
                requires
                    n <= (p + 1) * (p + 1),
                    p >= 0,
                    spec_isqrt(n) == p + 1,
            ;
        } else {
            assert(spec_isqrt(n) == p);
            assert(n < (spec_isqrt(n) + 1) * (spec_isqrt(n) + 1)) by (nonlinear_arith)
                requires
                    n < (p + 1) * (p + 1),
                    spec_isqrt(n) == p,
            ;
        }
    }
}

/// The bracket pins the root down: any `r` between the squares is the root.
pub proof fn lemma_isqrt_unique(n: nat, r: nat)
    requires
        r * r <= n,
        n < (r + 1) * (r + 1),
    ensures
        r == spec_isqrt(n),
{
    lemma_isqrt_bracket(n);
    let s = spec_isqrt(n);
    if r < s {
        assert(false) by (nonlinear_arith)
            requires
                r < s,
                s * s <= n,
                n < (r + 1) * (r + 1),
        ;
    }
    if s < r {
        assert(false) by (nonlinear_arith)
            requires
                s < r,
                r * r <= n,
                n < (s + 1) * (s + 1),
        ;
    }
}

/// Integer square root by bisection on the bracketing invariant.
pub fn isqrt(n: u64) -> (r: u64)
    requires
        n < 0x4_0000_0000_0000,
    ensures
        r == spec_isqrt(n as nat),
        r * r <= n,
        n < (r + 1) * (r + 1),
        r < 0x200_0000,
{
    let mut lo: u64 = 0;
    let mut hi: u64 = 0x200_0000;
    assert(hi * hi == 0x4_0000_0000_0000u64);
    while lo + 1 < hi
        invariant
            lo < hi <= 0x200_0000,
            lo * lo <= n,
            n < hi * hi,
        decreases hi - lo,
    {
        let mid = lo + (hi - lo) / 2;
        assert(lo < mid < hi);
        proof {
            assert(mid as int * mid as int <= 0x200_0000int * 0x200_0000int) by (nonlinear_arith)
                requires
                    0 <= mid as int <= 0x200_0000int,
            ;
        }
        if mid * mid <= n {
            lo = mid;
        } else {
            hi = mid;
        }
    }
    proof {
        lemma_isqrt_unique(n as nat, lo as nat);
    }
    lo
}

/// How far back from the tip the arrowhead's base sits, in canvas units.
pub const HEAD_LENGTH: i64 = 18;

/// Half the width of the arrowhead's base, in canvas units.
pub const HEAD_HALF_WIDTH: i64 = 9;

/// The drawable path of a connector: one segment, or one cubic curve.
#[derive(Clone, Copy, PartialEq, Eq, Structural, Debug)]
pub enum PathSpec {
    Line { a: Point, b: Point },
    Cubic { a: Point, c1: Point, c2: Point, b: Point },
}

/// An arrowhead: an isosceles triangle whose tip touches the path's end.
#[derive(Clone, Copy, PartialEq, Eq, Structural, Debug)]
pub struct PolygonSpec {
    pub tip: Point,
    pub left: Point,
    pub right: Point,
}

/// The full drawable geometry of a connector. Derived and disposable: it is
/// always replaced as a whole, never edited.
#[derive(Clone, Copy, PartialEq, Eq, Debug)]
pub struct RenderedPath {
    pub path: PathSpec,
    pub start_cap: Option<PolygonSpec>,
    pub end_cap: Option<PolygonSpec>,
}

/// Where a path begins.
pub open spec fn path_start(p: PathSpec) -> Point {
    match p {
        PathSpec::Line { a, .. } => a,
        PathSpec::Cubic { a, .. } => a,
    }
}

/// Where a path ends.
pub open spec fn path_end(p: PathSpec) -> Point {
    match p {
        PathSpec::Line { b, .. } => b,
        PathSpec::Cubic { b, .. } => b,
    }
}

/// A path collapsed onto the single point `p`: the zero-length case.
pub open spec fn path_collapsed(path: PathSpec, p: Point) -> bool {
    match path {
        PathSpec::Line { a, b } => a == p && b == p,
        PathSpec::Cubic { a, c1, c2, b } => a == p && c1 == p && c2 == p && b == p,
    }
}

/// The arrowhead for a cap at `tip` with tangent direction `(vx, vy)`,
/// or `None` when the direction is zero and no orientation exists.
pub open spec fn spec_cap(tip: Point, vx: int, vy: int) -> Option<PolygonSpec> {
    let len = spec_isqrt((vx * vx + vy * vy) as nat) as int;
    if len == 0 {
        None
    } else {
        let bx = tip.x - sdiv(HEAD_LENGTH * vx, len);
        let by = tip.y - sdiv(HEAD_LENGTH * vy, len);
        let wx = sdiv(HEAD_HALF_WIDTH * -vy, len);
        let wy = sdiv(HEAD_HALF_WIDTH * vx, len);
        Some(PolygonSpec {
            tip,
            left: Point { x: (bx + wx) as i64, y: (by + wy) as i64 },
            right: Point { x: (bx - wx) as i64, y: (by - wy) as i64 },
        })
    }
}

/// The geometry a connector from `p1` to `p2` is drawn with, in full.
///
/// Straight mode is the single segment; curved mode is a cubic whose two
/// control points sit a third and two thirds of the way along, pushed a
/// quarter of the span to the left of the direction of travel. The end cap
/// follows the local tangent there: the segment for straight paths, the
/// curve's direction at its end for curved ones. A pure function of its
/// arguments, so repeated builds agree exactly.
pub open spec fn spec_build(p1: Point, p2: Point, mode: ConnectorMode) -> RenderedPath {
    let dx = p2.x - p1.x;
    let dy = p2.y - p1.y;
    match mode {
        ConnectorMode::Straight => RenderedPath {
            path: PathSpec::Line { a: p1, b: p2 },
            start_cap: None,
            end_cap: spec_cap(p2, dx, dy),
        },
        ConnectorMode::Curved => {
            let nx = sdiv(-dy, 4);
            let ny = sdiv(dx, 4);
            let c1 = Point {
                x: (p1.x + sdiv(dx, 3) + nx) as i64,
                y: (p1.y + sdiv(dy, 3) + ny) as i64,
            };
            let c2 = Point {
                x: (p1.x + sdiv(2 * dx, 3) + nx) as i64,
                y: (p1.y + sdiv(2 * dy, 3) + ny) as i64,
            };
            let tx = p2.x - c2.x;
            let ty = p2.y - c2.y;
            let ux = if tx == 0 && ty == 0 { dx } else { tx };
            let uy = if tx == 0 && ty == 0 { dy } else { ty };
            RenderedPath {
                path: PathSpec::Cubic { a: p1, c1, c2, b: p2 },
                start_cap: None,
                end_cap: spec_cap(p2, ux, uy),
            }
        },
    }
}

/// A nonzero tangent always yields a cap, and its tip is the endpoint.
pub proof fn lemma_cap_some(tip: Point, vx: int, vy: int)
    requires
        vx != 0 || vy != 0,
    ensures
        spec_cap(tip, vx, vy) is Some,
        spec_cap(tip, vx, vy)->0.tip == tip,
{
    let n = (vx * vx + vy * vy) as nat;
    assert(n >= 1) by (nonlinear_arith)
        requires
            vx != 0 || vy != 0,
            n == (vx * vx + vy * vy) as nat,
    ;
    lemma_isqrt_bracket(n);
    if spec_isqrt(n) == 0 {
        assert(n < 1) by (nonlinear_arith)
            requires
                n < (spec_isqrt(n) + 1) * (spec_isqrt(n) + 1),
                spec_isqrt(n) == 0,
        ;
    }
}

/// The arrowhead triangle at `tip`, oriented along `(vx, vy)`.
fn build_cap(tip: Point, vx: i64, vy: i64) -> (c: Option<PolygonSpec>)
    requires
        point_ok(tip),
        -0x100_0000 <= vx <= 0x100_0000,
        -0x100_0000 <= vy <= 0x100_0000,
    ensures
        c == spec_cap(tip, vx as int, vy as int),
{
    let avx: u64 = if vx >= 0 { vx as u64 } else { (-vx) as u64 };
    let avy: u64 = if vy >= 0 { vy as u64 } else { (-vy) as u64 };
    proof {
        assert(avx as int * avx as int == vx as int * vx as int) by (nonlinear_arith)
            requires
                avx as int == vx as int || avx as int == -(vx as int),
        ;
        assert(avy as int * avy as int == vy as int * vy as int) by (nonlinear_arith)
            requires
                avy as int == vy as int || avy as int == -(vy as int),
        ;
        assert(avx as int * avx as int <= 0x100_0000int * 0x100_0000int
            && avy as int * avy as int <= 0x100_0000int * 0x100_0000int) by (nonlinear_arith)
            requires
                0 <= avx as int <= 0x100_0000int,
                0 <= avy as int <= 0x100_0000int,
        ;
    }
    let n: u64 = avx * avx + avy * avy;
    let len = isqrt(n);
    if len == 0 {
        None
    } else {
        let bx = tip.x - div_signed(HEAD_LENGTH * vx, len);
        let by = tip.y - div_signed(HEAD_LENGTH * vy, len);
        let wx = div_signed(HEAD_HALF_WIDTH * -vy, len);
        let wy = div_signed(HEAD_HALF_WIDTH * vx, len);
        Some(PolygonSpec {
            tip,
            left: Point { x: bx + wx, y: by + wy },
            right: Point { x: bx - wx, y: by - wy },
        })
    }
}

/// Build the drawable geometry for a connector from `p1` to `p2`.
///
/// The result is exactly `spec_build(p1, p2, mode)`, so two builds with the
/// same inputs agree in every vertex. The path runs from `p1` to `p2`; the
/// start carries no cap; the end carries an arrowhead whose tip touches
/// `p2` whenever the endpoints differ. Coincident endpoints collapse the
/// path onto the single point and omit the cap: never a failure.
pub fn build(p1: Point, p2: Point, mode: ConnectorMode) -> (r: RenderedPath)
    requires
        point_ok(p1),
        point_ok(p2),
    ensures
        r == spec_build(p1, p2, mode),
        path_start(r.path) == p1,
        path_end(r.path) == p2,
        r.start_cap is None,
        p1 == p2 ==> r.end_cap is None && path_collapsed(r.path, p1),
        p1 != p2 ==> r.end_cap is Some && r.end_cap->0.tip == p2,
{
    let dx = p2.x - p1.x;
    let dy = p2.y - p1.y;
    match mode {
        ConnectorMode::Straight => {
            let cap = build_cap(p2, dx, dy);
            proof {
                if p1 != p2 {
                    lemma_cap_some(p2, dx as int, dy as int);
                }
            }
            RenderedPath { path: PathSpec::Line { a: p1, b: p2 }, start_cap: None, end_cap: cap }
        },
        ConnectorMode::Curved => {
            let nx = div_signed(-dy, 4);
            let ny = div_signed(dx, 4);
            let c1 = Point { x: p1.x + div_signed(dx, 3) + nx, y: p1.y + div_signed(dy, 3) + ny };
            let c2 = Point {
                x: p1.x + div_signed(2 * dx, 3) + nx,
                y: p1.y + div_signed(2 * dy, 3) + ny,
            };
            let tx = p2.x - c2.x;
            let ty = p2.y - c2.y;
            let ux = if tx == 0 && ty == 0 { dx } else { tx };
            let uy = if tx == 0 && ty == 0 { dy } else { ty };
            let cap = build_cap(p2, ux, uy);
            proof {
                if p1 != p2 {
                    lemma_cap_some(p2, ux as int, uy as int);
                }
            }
            RenderedPath {
                path: PathSpec::Cubic { a: p1, c1, c2, b: p2 },
                start_cap: None,
                end_cap: cap,
            }
        },
    }
}

} // verus!
