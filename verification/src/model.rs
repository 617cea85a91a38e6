//! Fitting a model to the viewing volume: the box around its vertices, and
//! the extent that decides its scale.
//!
//! A model is centred on the middle of its box and scaled so that the
//! longest half of the box's sides becomes 1. This module finds the box and,
//! of the three half sides that the caller computes from it, the one that
//! counts.

use crate::single::{Single, HIGHEST, LOWEST};
use vstd::prelude::*;

verus! {

/// Why a model cannot be fitted.
#[derive(Clone, Copy, Debug, PartialEq, Eq, Structural)]
pub enum NormalizationError {
    /// The model has no vertex.
    EmptyModel,
}

/// A point in space.
#[derive(Clone, Copy, Debug, PartialEq, Eq, Structural)]
pub struct Position {
    pub x: Single,
    pub y: Single,
    pub z: Single,
}

/// A box with its sides along the axes, by its lowest and its highest
/// corner.
#[derive(Clone, Copy, Debug, PartialEq, Eq, Structural)]
pub struct Bounds {
    pub min: Position,
    pub max: Position,
}

/// The coordinates of the points along the first axis.
pub open spec fn xs(points: Seq<Position>) -> Seq<Single> {
    Seq::new(points.len(), |i: int| points[i].x)
}

/// The coordinates of the points along the second axis.
pub open spec fn ys(points: Seq<Position>) -> Seq<Single> {
    Seq::new(points.len(), |i: int| points[i].y)
}

/// The coordinates of the points along the third axis.
pub open spec fn zs(points: Seq<Position>) -> Seq<Single> {
    Seq::new(points.len(), |i: int| points[i].z)
}

/// `m` is the highest of `values`: it is one of those that are numbers, or
/// the smallest finite number, and none of them, nor the smallest finite
/// number, ranks above it.
pub open spec fn is_highest(m: Single, values: Seq<Single>) -> bool {
    &&& m.bits == LOWEST || exists|i: int|
        0 <= i < values.len() && !(#[trigger] values[i]).is_nan() && values[i] == m
    &&& m.rank() >= (Single { bits: LOWEST }).rank()
    &&& forall|i: int|
        0 <= i < values.len() && !(#[trigger] values[i]).is_nan() ==> values[i].rank() <= m.rank()
}

/// `m` is the lowest of `values`: it is one of those that are numbers, or
/// the largest finite number, and none of them, nor the largest finite
/// number, ranks below it.
pub open spec fn is_lowest(m: Single, values: Seq<Single>) -> bool {
    &&& m.bits == HIGHEST || exists|i: int|
        0 <= i < values.len() && !(#[trigger] values[i]).is_nan() && values[i] == m
    &&& m.rank() <= (Single { bits: HIGHEST }).rank()
    &&& forall|i: int|
        0 <= i < values.len() && !(#[trigger] values[i]).is_nan() ==> m.rank() <= values[i].rank()
}

/// `b` is the box around `points`, axis by axis.
pub open spec fn is_bounds(b: Bounds, points: Seq<Position>) -> bool {
    &&& is_lowest(b.min.x, xs(points))
    &&& is_highest(b.max.x, xs(points))
    &&& is_lowest(b.min.y, ys(points))
    &&& is_highest(b.max.y, ys(points))
    &&& is_lowest(b.min.z, zs(points))
    &&& is_highest(b.max.z, zs(points))
}

/// The higher of `best` and `value`; `best` where `value` is no number.
fn raise(best: Single, value: Single) -> (r: Single)
    ensures
        r == if !value.is_nan() && value.rank() > best.rank() {
            value
        } else {
            best
        },
{
    if !value.is_not_a_number() && value.order() > best.order() {
        value
    } else {
        best
    }
}

/// The lower of `best` and `value`; `best` where `value` is no number.
fn lower(best: Single, value: Single) -> (r: Single)
    ensures
        r == if !value.is_nan() && value.rank() < best.rank() {
            value
        } else {
            best
        },
{
    if !value.is_not_a_number() && value.order() < best.order() {
        value
    } else {
        best
    }
}

/// Finds the box around the vertices of a model.
///
/// Along each axis the box reaches from the lowest to the highest
/// coordinate. A coordinate that is no number is passed over. The search for
/// the highest starts from the smallest finite number and the search for the
/// lowest from the largest, so that is what an axis without a number gives. A
/// model without a vertex has no box.
pub fn bounding_box(vertices: &Vec<Position>) -> (r: Result<Bounds, NormalizationError>)
    ensures
        match r {
            Ok(b) => vertices@.len() > 0 && is_bounds(b, vertices@),
            Err(e) => vertices@.len() == 0 && e == NormalizationError::EmptyModel,
        },
{
    if vertices.len() == 0 {
        return Err(NormalizationError::EmptyModel);
    }
    let top = Single { bits: HIGHEST };
    let bottom = Single { bits: LOWEST };
    let mut min = Position { x: top, y: top, z: top };
    let mut max = Position { x: bottom, y: bottom, z: bottom };
    let mut i: usize = 0;
    while i < vertices.len()
        invariant
            i <= vertices@.len(),
            is_bounds(Bounds { min, max }, vertices@.subrange(0, i as int)),
        decreases vertices@.len() - i,
    {
        let p: Position = vertices[i];
        let ghost seen = vertices@.subrange(0, i as int);
        let ghost more = vertices@.subrange(0, i + 1);
        let ghost before = Bounds { min, max };
        min = Position { x: lower(min.x, p.x), y: lower(min.y, p.y), z: lower(min.z, p.z) };
        max = Position { x: raise(max.x, p.x), y: raise(max.y, p.y), z: raise(max.z, p.z) };
        proof {
            assert(more.len() == i + 1);
            assert(forall|k: int| 0 <= k < i ==> more[k] == seen[k]);
            assert(more[i as int] == p);
            lemma_highest_step(before.max.x, xs(seen), xs(more), p.x);
            lemma_highest_step(before.max.y, ys(seen), ys(more), p.y);
            lemma_highest_step(before.max.z, zs(seen), zs(more), p.z);
            lemma_lowest_step(before.min.x, xs(seen), xs(more), p.x);
            lemma_lowest_step(before.min.y, ys(seen), ys(more), p.y);
            lemma_lowest_step(before.min.z, zs(seen), zs(more), p.z);
        }
        i = i + 1;
    }
    proof {
        assert(vertices@.subrange(0, i as int) =~= vertices@);
    }
    Ok(Bounds { min, max })
}

/// The highest of a list with one more value is the higher of the highest so
/// far and that value.
proof fn lemma_highest_step(best: Single, seen: Seq<Single>, more: Seq<Single>, value: Single)
    requires
        is_highest(best, seen),
        more.len() == seen.len() + 1,
        forall|k: int| 0 <= k < seen.len() ==> more[k] == seen[k],
        more[seen.len() as int] == value,
    ensures
        is_highest(
            if !value.is_nan() && value.rank() > best.rank() {
                value
            } else {
                best
            },
            more,
        ),
{
    let next = if !value.is_nan() && value.rank() > best.rank() {
        value
    } else {
        best
    };
    let last = seen.len() as int;
    if next == value && !value.is_nan() {
        assert(!more[last].is_nan() && more[last] == next);
    } else if best.bits != LOWEST {
        let i = choose|i: int| 0 <= i < seen.len() && !(#[trigger] seen[i]).is_nan() && seen[i] == best;
        assert(!more[i].is_nan() && more[i] == next);
    }
    assert forall|i: int| 0 <= i < more.len() && !(#[trigger] more[i]).is_nan() implies more[i].rank()
        <= next.rank() by {
        if i < last {
            assert(more[i] == seen[i]);
        }
    }
}

/// The lowest of a list with one more value is the lower of the lowest so
/// far and that value.
proof fn lemma_lowest_step(best: Single, seen: Seq<Single>, more: Seq<Single>, value: Single)
    requires
        is_lowest(best, seen),
        more.len() == seen.len() + 1,
        forall|k: int| 0 <= k < seen.len() ==> more[k] == seen[k],
        more[seen.len() as int] == value,
    ensures
        is_lowest(
            if !value.is_nan() && value.rank() < best.rank() {
                value
            } else {
                best
            },
            more,
        ),
{
    let next = if !value.is_nan() && value.rank() < best.rank() {
        value
    } else {
        best
    };
    let last = seen.len() as int;
    if next == value && !value.is_nan() {
        assert(!more[last].is_nan() && more[last] == next);
    } else if best.bits != HIGHEST {
        let i = choose|i: int| 0 <= i < seen.len() && !(#[trigger] seen[i]).is_nan() && seen[i] == best;
        assert(!more[i].is_nan() && more[i] == next);
    }
    assert forall|i: int| 0 <= i < more.len() && !(#[trigger] more[i]).is_nan() implies next.rank()
        <= more[i].rank() by {
        if i < last {
            assert(more[i] == seen[i]);
        }
    }
}

/// A list has one highest value and one lowest: `is_highest` and `is_lowest`
/// each hold of a single pattern.
pub proof fn lemma_bounds_are_unique(values: Seq<Single>, a: Single, b: Single)
    ensures
        is_highest(a, values) && is_highest(b, values) ==> a == b,
        is_lowest(a, values) && is_lowest(b, values) ==> a == b,
{
    if is_highest(a, values) && is_highest(b, values) {
        assert(a.rank() <= b.rank());
        assert(b.rank() <= a.rank());
    }
    if is_lowest(a, values) && is_lowest(b, values) {
        assert(a.rank() >= b.rank());
        assert(b.rank() >= a.rank());
    }
}

/// The one of three values that has the greatest magnitude; of two with the
/// same magnitude, the later one. A value that is no number has a magnitude
/// above every number's.
pub open spec fn widest_of(x: Single, y: Single, z: Single) -> Single {
    if z.magnitude() >= x.magnitude() && z.magnitude() >= y.magnitude() {
        z
    } else if y.magnitude() >= x.magnitude() {
        y
    } else {
        x
    }
}

/// Picks, of the half sides of a box along the three axes, the one with the
/// greatest magnitude: the extent that the model's scale goes by.
pub fn widest(x: Single, y: Single, z: Single) -> (r: Single)
    ensures
        r == widest_of(x, y, z),
        r == x || r == y || r == z,
        r.magnitude() >= x.magnitude() && r.magnitude() >= y.magnitude() && r.magnitude()
            >= z.magnitude(),
{
    let mx: u32 = x.magnitude_bits();
    let my: u32 = y.magnitude_bits();
    let mz: u32 = z.magnitude_bits();
    if mz >= mx && mz >= my {
        z
    } else if my >= mx {
        y
    } else {
        x
    }
}

} // verus!
