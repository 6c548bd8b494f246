//! Axis-aligned rectangles with whole-number sides.
use vstd::prelude::*;

verus! {

/// A rectangle given by its width and height.
#[derive(Debug)]
pub struct Rectangle {
    width: u32,
    height: u32,
}

/// `outer` holds `inner`: it is strictly wider and strictly taller.
pub open spec fn holds(outer: (u32, u32), inner: (u32, u32)) -> bool {
    outer.0 > inner.0 && outer.1 > inner.1
}

impl View for Rectangle {
    /// The pair (width, height).
    type V = (u32, u32);

    closed spec fn view(&self) -> (u32, u32) {
        (self.width, self.height)
    }
}

impl Rectangle {
    pub fn new(width: u32, height: u32) -> (r: Self)
        ensures
            r@ == (width, height),
    {
        Self { width, height }
    }

    /// A square with sides of length `size`.
    pub fn new_square(size: u32) -> (r: Self)
        ensures
            r@ == (size, size),
    {
        Self { width: size, height: size }
    }

    /// Width times height; the product must fit in a `u32`.
    pub fn area(&self) -> (r: u32)
        requires
            self@.0 * self@.1 <= u32::MAX,
        ensures
            r == self@.0 * self@.1,
    {
        self.width * self.height
    }

    /// Whether `other` fits strictly inside this rectangle.
    pub fn can_hold(&self, other: &Rectangle) -> (r: bool)
        ensures
            r == holds(self@, other@),
    {
        self.width > other.width && self.height > other.height
    }
}

/// A rectangle holds another exactly when its width is greater than the
/// other's width and its height greater than the other's height; turning
/// the inner one does not count.
pub proof fn lemma_holds_sides(outer: (u32, u32), inner: (u32, u32))
    ensures
        holds(outer, inner) <==> (outer.0 > inner.0 && outer.1 > inner.1),
        holds(outer, inner) ==> outer.1 > inner.1,
{
}

/// No rectangle holds one of its own size.
pub proof fn lemma_holds_irreflexive(r: (u32, u32))
    ensures
        !holds(r, r),
{
}

/// If `a` holds `b`, `b` does not hold `a`.
pub proof fn lemma_holds_asymmetric(a: (u32, u32), b: (u32, u32))
    ensures
        holds(a, b) ==> !holds(b, a),
{
}

/// If `a` holds `b` and `b` holds `c`, `a` holds `c`.
pub proof fn lemma_holds_transitive(a: (u32, u32), b: (u32, u32), c: (u32, u32))
    ensures
        holds(a, b) && holds(b, c) ==> holds(a, c),
{
}

/// A side of length 0 gives an area of 0, and an area of 0 needs such a side.
pub proof fn lemma_area_zero(w: u32, h: u32)
    ensures
        w * h == 0 <==> (w == 0 || h == 0),
{
    if w != 0 && h != 0 {
        assert(w * h >= 1) by (nonlinear_arith)
            requires
                w >= 1,
                h >= 1,
        ;
    }
}

} // verus!
