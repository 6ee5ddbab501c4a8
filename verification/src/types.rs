//! Geometric primitives shared by the codestream: sizes, points,
//! rectangles and ceiling division.

use vstd::prelude::*;

verus! {

/// Ceiling of `a / b` over the integers.
pub open spec fn spec_div_ceil(a: int, b: int) -> int {
    if a % b == 0 { a / b } else { a / b + 1 }
}

/// Ceiling division: the smallest `q` with `q * b >= a`.
pub fn div_ceil(a: u32, b: u32) -> (q: u32)
    requires
        b > 0,
    ensures
        q == spec_div_ceil(a as int, b as int),
{
    let q = a / b;
    if a % b == 0 {
        q
    } else {
        assert(q < u32::MAX) by (nonlinear_arith)
            requires
                q == a / b,
                a % b != 0,
                b > 0,
                a <= u32::MAX,
        {
            assert(b != 1);
            assert(q * b <= a);
        }
        q + 1
    }
}

/// Ceiling division is monotonic in its dividend.
pub proof fn lemma_div_ceil_monotonic(a: int, b: int, d: int)
    requires
        0 <= a <= b,
        d > 0,
    ensures
        0 <= spec_div_ceil(a, d) <= spec_div_ceil(b, d),
{
    vstd::arithmetic::div_mod::lemma_div_is_ordered(a, b, d);
    vstd::arithmetic::div_mod::lemma_div_pos_is_pos(a, d);
    if a / d == b / d && a % d != 0 && b % d == 0 {
        vstd::arithmetic::div_mod::lemma_fundamental_div_mod(a, d);
        vstd::arithmetic::div_mod::lemma_fundamental_div_mod(b, d);
    }
}

/// A two dimensional extent (width by height).
#[derive(Debug, Clone, Copy, PartialEq, Eq, Structural, Default)]
pub struct Size {
    pub w: u32,
    pub h: u32,
}

impl Size {
    pub fn new(w: u32, h: u32) -> (s: Size)
        ensures
            s.w == w,
            s.h == h,
    {
        Size { w, h }
    }

    /// Number of samples covered, `w * h`.
    pub fn area(&self) -> (a: u64)
        ensures
            a == self.w * self.h,
    {
        proof {
            vstd::arithmetic::mul::lemma_mul_upper_bound(
                self.w as int, u32::MAX as int, self.h as int, u32::MAX as int);
        }
        (self.w as u64) * (self.h as u64)
    }
}

/// A position on the sample grid.
#[derive(Debug, Clone, Copy, PartialEq, Eq, Structural, Default)]
pub struct Point {
    pub x: u32,
    pub y: u32,
}

impl Point {
    pub fn new(x: u32, y: u32) -> (p: Point)
        ensures
            p.x == x,
            p.y == y,
    {
        Point { x, y }
    }
}

/// An axis-aligned rectangle given by its origin and size.
#[derive(Debug, Clone, Copy, PartialEq, Eq, Structural, Default)]
pub struct Rect {
    pub org: Point,
    pub siz: Size,
}

impl Rect {
    pub fn new(org: Point, siz: Size) -> (r: Rect)
        ensures
            r.org == org,
            r.siz == siz,
    {
        Rect { org, siz }
    }
}

/// The extent of `rect` fits the `u32` coordinate range.
pub open spec fn rect_fits(rect: Rect) -> bool {
    &&& rect.org.x + rect.siz.w <= u32::MAX
    &&& rect.org.y + rect.siz.h <= u32::MAX
}

/// `rect` on a grid subsampled by `dx` horizontally and `dy` vertically:
/// both corners are divided and rounded up.
pub open spec fn scaled_rect(rect: Rect, dx: int, dy: int) -> Rect {
    Rect {
        org: Point {
            x: spec_div_ceil(rect.org.x as int, dx) as u32,
            y: spec_div_ceil(rect.org.y as int, dy) as u32,
        },
        siz: Size {
            w: (spec_div_ceil(rect.org.x + rect.siz.w, dx) - spec_div_ceil(rect.org.x as int, dx)) as u32,
            h: (spec_div_ceil(rect.org.y + rect.siz.h, dy) - spec_div_ceil(rect.org.y as int, dy)) as u32,
        },
    }
}

/// A ceiling quotient does not exceed its dividend.
pub proof fn lemma_div_ceil_le(a: int, d: int)
    requires
        0 <= a,
        d > 0,
    ensures
        0 <= spec_div_ceil(a, d) <= a,
{
    vstd::arithmetic::div_mod::lemma_div_pos_is_pos(a, d);
    vstd::arithmetic::div_mod::lemma_fundamental_div_mod(a, d);
    if d > 1 && a % d != 0 {
        vstd::arithmetic::mul::lemma_mul_inequality(2, d, a / d);
        vstd::arithmetic::mul::lemma_mul_is_commutative(d, a / d);
    }
    vstd::arithmetic::div_mod::lemma_div_is_ordered_by_denominator(a, 1, d);
}

/// Scale `rect` down by `dx` horizontally and `dy` vertically.
pub fn scale_rect(rect: Rect, dx: u32, dy: u32) -> (r: Rect)
    requires
        dx > 0,
        dy > 0,
        rect_fits(rect),
    ensures
        r == scaled_rect(rect, dx as int, dy as int),
        rect_fits(r),
{
    let x0 = div_ceil(rect.org.x, dx);
    let y0 = div_ceil(rect.org.y, dy);
    let x1 = div_ceil(rect.org.x + rect.siz.w, dx);
    let y1 = div_ceil(rect.org.y + rect.siz.h, dy);
    proof {
        lemma_div_ceil_monotonic(rect.org.x as int, rect.org.x + rect.siz.w, dx as int);
        lemma_div_ceil_monotonic(rect.org.y as int, rect.org.y + rect.siz.h, dy as int);
        lemma_div_ceil_le(rect.org.x + rect.siz.w, dx as int);
        lemma_div_ceil_le(rect.org.y + rect.siz.h, dy as int);
    }
    Rect::new(Point::new(x0, y0), Size::new(x1 - x0, y1 - y0))
}

} // verus!
