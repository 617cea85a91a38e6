//! What the fan of a polygon does to its area.
//!
//! Areas are taken twice and with a sign, which keeps them whole numbers for
//! corners with whole coordinates: positive where the corners go round
//! against the clock. The triangles of a fan add up to the polygon, and in a
//! convex polygon none of them counts backwards.

use crate::parse_obj::{fan, is_polygon};
use vstd::prelude::*;

verus! {

/// A point of the plane with whole coordinates.
pub struct Point {
    pub x: int,
    pub y: int,
}

/// The cross product of the arrows from the origin to `a` and to `b`.
pub open spec fn cross(a: Point, b: Point) -> int {
    a.x * b.y - a.y * b.x
}

/// Twice the area of the triangle `a`, `b`, `c`.
pub open spec fn triangle_area2(a: Point, b: Point, c: Point) -> int {
    (b.x - a.x) * (c.y - a.y) - (b.y - a.y) * (c.x - a.x)
}

/// The cross products of the first `n` sides of the corners `p`, added up.
pub open spec fn sides_sum(p: Seq<Point>, n: nat) -> int
    decreases n,
{
    if n == 0 {
        0
    } else {
        sides_sum(p, (n - 1) as nat) + cross(p[n - 1], p[n as int])
    }
}

/// Twice the area of the polygon with the corners `p`: the cross products
/// of all its sides, the one from the last corner to the first included.
pub open spec fn polygon_area2(p: Seq<Point>) -> int {
    sides_sum(p, (p.len() - 1) as nat) + cross(p[p.len() - 1], p[0])
}

/// The corners of a polygon: the vertices that its references name.
pub open spec fn corners(vertices: Seq<Point>, polygon: Seq<u32>) -> Seq<Point> {
    Seq::new(polygon.len(), |i: int| vertices[polygon[i] - 1])
}

/// Twice the area of triangle `k` of a list of indices.
pub open spec fn indexed_area2(vertices: Seq<Point>, indices: Seq<u32>, k: int) -> int {
    triangle_area2(
        vertices[indices[3 * k] as int],
        vertices[indices[3 * k + 1] as int],
        vertices[indices[3 * k + 2] as int],
    )
}

/// Twice the areas of the first `count` triangles of a list of indices,
/// added up.
pub open spec fn triangles_area2(vertices: Seq<Point>, indices: Seq<u32>, count: nat) -> int
    decreases count,
{
    if count == 0 {
        0
    } else {
        triangles_area2(vertices, indices, (count - 1) as nat) + indexed_area2(
            vertices,
            indices,
            count - 1,
        )
    }
}

/// Twice the areas of the first `count` triangles of a list of indices,
/// each taken without its sign, added up.
pub open spec fn triangles_plain_area2(vertices: Seq<Point>, indices: Seq<u32>, count: nat) -> int
    decreases count,
{
    if count == 0 {
        0
    } else {
        let a = indexed_area2(vertices, indices, count - 1);
        triangles_plain_area2(vertices, indices, (count - 1) as nat) + if a < 0 {
            -a
        } else {
            a
        }
    }
}

/// The corner that follows corner `i` on the way round `p`.
pub open spec fn following(p: Seq<Point>, i: int) -> int {
    if i + 1 < p.len() {
        i + 1
    } else {
        0
    }
}

/// Corner `k` of `p` lies on or to the left of the side that starts at
/// corner `i`.
pub open spec fn left_of_side(p: Seq<Point>, i: int, k: int) -> bool {
    triangle_area2(p[i], p[following(p, i)], p[k]) >= 0
}

/// The corners `p` go round against the clock and the polygon is convex: no
/// corner lies to the right of a side.
pub open spec fn is_convex(p: Seq<Point>) -> bool {
    forall|i: int, k: int| 0 <= i < p.len() && 0 <= k < p.len() ==> #[trigger] left_of_side(p, i, k)
}

/// A triangle is the same triangle from whichever corner it is told, and
/// its area is made of the cross products of its sides.
pub proof fn lemma_triangle(a: Point, b: Point, c: Point)
    ensures
        triangle_area2(a, b, c) == triangle_area2(b, c, a),
        triangle_area2(a, b, c) == cross(a, b) + cross(b, c) + cross(c, a),
        cross(a, b) == -cross(b, a),
{
    let (ax, ay, bx, by, cx, cy) = (a.x, a.y, b.x, b.y, c.x, c.y);
    assert((bx - ax) * (cy - ay) == bx * cy - bx * ay - ax * cy + ax * ay) by (nonlinear_arith);
    assert((by - ay) * (cx - ax) == by * cx - by * ax - ay * cx + ay * ax) by (nonlinear_arith);
    assert((cx - bx) * (ay - by) == cx * ay - cx * by - bx * ay + bx * by) by (nonlinear_arith);
    assert((cy - by) * (ax - bx) == cy * ax - cy * bx - by * ax + by * bx) by (nonlinear_arith);
    assert(ax * cy == cy * ax && ay * cx == cx * ay && ax * by == by * ax && ay * bx == bx * ay && bx
        * cy == cy * bx && by * cx == cx * by && ax * ay == ay * ax && bx * by == by * bx)
        by (nonlinear_arith);
}

/// Which corners triangle `k` of a fan has: the first corner of the polygon,
/// and corners `k + 1` and `k + 2`.
pub proof fn lemma_fan_triangle(vertices: Seq<Point>, polygon: Seq<u32>, k: int)
    requires
        is_polygon(polygon),
        0 <= k < polygon.len() - 2,
    ensures
        indexed_area2(vertices, fan(polygon), k) == triangle_area2(
            corners(vertices, polygon)[0],
            corners(vertices, polygon)[k + 1],
            corners(vertices, polygon)[k + 2],
        ),
{
    let f = fan(polygon);
    assert(f[3 * k] == (polygon[0] - 1) as u32);
    assert(f[3 * k + 1] == (polygon[k + 1] - 1) as u32);
    assert(f[3 * k + 2] == (polygon[k + 2] - 1) as u32);
}

/// The first `count` triangles of a fan add up to the polygon of the first
/// `count + 2` corners.
proof fn lemma_fan_prefix(vertices: Seq<Point>, polygon: Seq<u32>, count: nat)
    requires
        is_polygon(polygon),
        count <= polygon.len() - 2,
    ensures
        triangles_area2(vertices, fan(polygon), count) == sides_sum(
            corners(vertices, polygon),
            count + 1,
        ) + cross(corners(vertices, polygon)[count as int + 1], corners(vertices, polygon)[0]),
    decreases count,
{
    let c = corners(vertices, polygon);
    if count == 0 {
        assert(sides_sum(c, 1) == sides_sum(c, 0) + cross(c[0], c[1]));
        lemma_triangle(c[0], c[1], c[0]);
    } else {
        let k: int = count - 1;
        lemma_fan_prefix(vertices, polygon, k as nat);
        lemma_fan_triangle(vertices, polygon, k);
        lemma_triangle(c[0], c[k + 1], c[k + 2]);
        lemma_triangle(c[k + 1], c[0], c[0]);
        assert(sides_sum(c, count + 1) == sides_sum(c, count) + cross(c[k + 1], c[k + 2]));
    }
}

/// The triangles of the fan of a polygon have, added up, the area of the
/// polygon. This holds with signs: where the polygon is not convex, a
/// triangle that lies outside counts backwards.
pub proof fn lemma_fan_keeps_area(vertices: Seq<Point>, polygon: Seq<u32>)
    requires
        is_polygon(polygon),
    ensures
        fan(polygon).len() == 3 * (polygon.len() - 2),
        triangles_area2(vertices, fan(polygon), (polygon.len() - 2) as nat) == polygon_area2(
            corners(vertices, polygon),
        ),
{
    lemma_fan_prefix(vertices, polygon, (polygon.len() - 2) as nat);
}

/// In a convex polygon every triangle of the fan goes round the way the
/// polygon does.
pub proof fn lemma_fan_of_convex_turns_one_way(vertices: Seq<Point>, polygon: Seq<u32>, k: int)
    requires
        is_polygon(polygon),
        is_convex(corners(vertices, polygon)),
        0 <= k < polygon.len() - 2,
    ensures
        indexed_area2(vertices, fan(polygon), k) >= 0,
{
    let c = corners(vertices, polygon);
    lemma_fan_triangle(vertices, polygon, k);
    lemma_triangle(c[0], c[k + 1], c[k + 2]);
    assert(left_of_side(c, k + 1, 0));
}

/// The first `count` triangles of the fan of a convex polygon have the same
/// area with and without signs.
proof fn lemma_convex_prefix(vertices: Seq<Point>, polygon: Seq<u32>, count: nat)
    requires
        is_polygon(polygon),
        is_convex(corners(vertices, polygon)),
        count <= polygon.len() - 2,
    ensures
        triangles_plain_area2(vertices, fan(polygon), count) == triangles_area2(
            vertices,
            fan(polygon),
            count,
        ),
    decreases count,
{
    if count > 0 {
        lemma_convex_prefix(vertices, polygon, (count - 1) as nat);
        lemma_fan_of_convex_turns_one_way(vertices, polygon, count - 1);
    }
}

/// A convex polygon of `n` corners is cut by its fan into `n - 2` triangles
/// whose areas add up to the area of the polygon.
pub proof fn lemma_fan_of_convex_keeps_area(vertices: Seq<Point>, polygon: Seq<u32>)
    requires
        is_polygon(polygon),
        is_convex(corners(vertices, polygon)),
    ensures
        fan(polygon).len() == 3 * (polygon.len() - 2),
        triangles_plain_area2(vertices, fan(polygon), (polygon.len() - 2) as nat) == polygon_area2(
            corners(vertices, polygon),
        ),
        polygon_area2(corners(vertices, polygon)) >= 0,
{
    lemma_convex_prefix(vertices, polygon, (polygon.len() - 2) as nat);
    lemma_fan_keeps_area(vertices, polygon);
    lemma_plain_area_is_not_negative(vertices, fan(polygon), (polygon.len() - 2) as nat);
}

/// Areas without signs do not add up to less than nothing.
proof fn lemma_plain_area_is_not_negative(vertices: Seq<Point>, indices: Seq<u32>, count: nat)
    ensures
        triangles_plain_area2(vertices, indices, count) >= 0,
    decreases count,
{
    if count > 0 {
        lemma_plain_area_is_not_negative(vertices, indices, (count - 1) as nat);
    }
}

} // verus!
