//! Shadow test: does the segment from a light to a point cross an occluder?
use vstd::prelude::*;
use crate::extract::ExtractedLightOccluder2d;
use crate::light::Vec2i;

verus! {

/// Which side of the line through `a` and `b` the point `(cx, cy)` lies on:
/// positive on the left, negative on the right, zero on the line.
pub open spec fn side_of(a: Vec2i, b: Vec2i, cx: int, cy: int) -> int {
    (b.x - a.x) * (cy - a.y) - (b.y - a.y) * (cx - a.x)
}

/// The closed segment from `a` to `b` meets the closed rectangle of `o`; an
/// occluder with a zero half-extent never blocks.
///
/// The rectangle and the segment meet exactly when their extents overlap on
/// both axes and the rectangle's corners do not all lie strictly on one side
/// of the segment's line.
pub open spec fn blocks(o: ExtractedLightOccluder2d, a: Vec2i, b: Vec2i) -> bool {
    let x0 = o.center.x - o.half_width;
    let x1 = o.center.x + o.half_width;
    let y0 = o.center.y - o.half_height;
    let y1 = o.center.y + o.half_height;
    &&& o.half_width > 0
    &&& o.half_height > 0
    &&& (a.x <= x1 || b.x <= x1)
    &&& (a.x >= x0 || b.x >= x0)
    &&& (a.y <= y1 || b.y <= y1)
    &&& (a.y >= y0 || b.y >= y0)
    &&& !(side_of(a, b, x0, y0) > 0 && side_of(a, b, x0, y1) > 0 && side_of(a, b, x1, y0) > 0
        && side_of(a, b, x1, y1) > 0)
    &&& !(side_of(a, b, x0, y0) < 0 && side_of(a, b, x0, y1) < 0 && side_of(a, b, x1, y0) < 0
        && side_of(a, b, x1, y1) < 0)
}

/// Some occluder blocks the segment from `a` to `b`.
pub open spec fn shadowed(occluders: Seq<ExtractedLightOccluder2d>, a: Vec2i, b: Vec2i) -> bool {
    exists|i: int| 0 <= i < occluders.len() && blocks(#[trigger] occluders[i], a, b)
}

proof fn lemma_product_bound(u: int, v: int)
    requires
        -0x4_0000_0000 < u < 0x4_0000_0000,
        -0x4_0000_0000 < v < 0x4_0000_0000,
    ensures
        -0x10_0000_0000_0000_0000 < u * v < 0x10_0000_0000_0000_0000,
{
    assert(-0x10_0000_0000_0000_0000 < u * v < 0x10_0000_0000_0000_0000) by (nonlinear_arith)
        requires
            -0x4_0000_0000 < u < 0x4_0000_0000,
            -0x4_0000_0000 < v < 0x4_0000_0000,
    ;
}

fn side(a: Vec2i, b: Vec2i, cx: i64, cy: i64) -> (r: i128)
    requires
        -0x2_0000_0000 < cx < 0x2_0000_0000,
        -0x2_0000_0000 < cy < 0x2_0000_0000,
    ensures
        r as int == side_of(a, b, cx as int, cy as int),
{
    let ux = b.x as i128 - a.x as i128;
    let uy = b.y as i128 - a.y as i128;
    let vx = cx as i128 - a.x as i128;
    let vy = cy as i128 - a.y as i128;
    proof {
        lemma_product_bound(ux as int, vy as int);
        lemma_product_bound(uy as int, vx as int);
    }
    ux * vy - uy * vx
}

/// Whether the occluder blocks the segment from `a` to `b`.
pub fn occluder_blocks(o: &ExtractedLightOccluder2d, a: Vec2i, b: Vec2i) -> (r: bool)
    ensures
        r == blocks(*o, a, b),
{
    if o.half_width == 0 || o.half_height == 0 {
        return false;
    }
    let x0 = o.center.x as i64 - o.half_width as i64;
    let x1 = o.center.x as i64 + o.half_width as i64;
    let y0 = o.center.y as i64 - o.half_height as i64;
    let y1 = o.center.y as i64 + o.half_height as i64;
    let ax = a.x as i64;
    let ay = a.y as i64;
    let bx = b.x as i64;
    let by = b.y as i64;
    if !(ax <= x1 || bx <= x1) || !(ax >= x0 || bx >= x0) || !(ay <= y1 || by <= y1) || !(ay
        >= y0 || by >= y0) {
        return false;
    }
    let s00 = side(a, b, x0, y0);
    let s01 = side(a, b, x0, y1);
    let s10 = side(a, b, x1, y0);
    let s11 = side(a, b, x1, y1);
    if s00 > 0 && s01 > 0 && s10 > 0 && s11 > 0 {
        return false;
    }
    if s00 < 0 && s01 < 0 && s10 < 0 && s11 < 0 {
        return false;
    }
    true
}

/// Whether any of the occluders blocks the segment from `a` to `b`.
pub fn is_shadowed(occluders: &Vec<ExtractedLightOccluder2d>, a: Vec2i, b: Vec2i) -> (r: bool)
    ensures
        r == shadowed(occluders@, a, b),
{
    let mut i: usize = 0;
    while i < occluders.len()
        invariant
            i <= occluders@.len(),
            forall|j: int| 0 <= j < i ==> !blocks(#[trigger] occluders@[j], a, b),
        decreases occluders@.len() - i,
    {
        if occluder_blocks(&occluders[i], a, b) {
            return true;
        }
        i = i + 1;
    }
    false
}

/// An occluder with a zero half-extent never blocks any light.
pub proof fn lemma_flat_occluder_inert(o: ExtractedLightOccluder2d, a: Vec2i, b: Vec2i)
    requires
        o.half_width == 0 || o.half_height == 0,
    ensures
        !blocks(o, a, b),
{
}

} // verus!
