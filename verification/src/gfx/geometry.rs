//! Sizes, points and rectangles on the pixel grid.
//!
//! Coordinates are signed 16-bit, extents are unsigned. The edges of a
//! rectangle are specified as mathematical integers, so that a rectangle
//! whose far edge lies beyond the 16-bit range still has a meaning.
use vstd::prelude::*;

verus! {

/// Unsigned pixel dimensions.
#[derive(Clone, Copy, Debug, PartialEq, Eq, Structural)]
pub struct Size {
    pub width: usize,
    pub height: usize,
}

impl Size {
    pub fn wh(width: usize, height: usize) -> (s: Size)
        ensures
            s == (Size { width, height }),
    {
        Size { width, height }
    }

    pub fn zero() -> (s: Size)
        ensures
            s == (Size { width: 0, height: 0 }),
    {
        Size::wh(0, 0)
    }
}

/// A signed pixel coordinate or displacement.
#[derive(Clone, Copy, Debug, PartialEq, Eq, Structural)]
pub struct Vector {
    pub x: i16,
    pub y: i16,
}

impl Vector {
    pub fn zero() -> (v: Vector)
        ensures
            v == (Vector { x: 0, y: 0 }),
    {
        Vector::xy(0, 0)
    }

    pub fn xy(x: i16, y: i16) -> (v: Vector)
        ensures
            v == (Vector { x, y }),
    {
        Vector { x, y }
    }

    /// Whether moving `self` by `(dx, dy)` stays on the 16-bit grid.
    pub open spec fn can_move(self, dx: int, dy: int) -> bool {
        &&& i16::MIN <= self.x + dx <= i16::MAX
        &&& i16::MIN <= self.y + dy <= i16::MAX
    }

    /// This vector moved by `(dx, dy)`.
    pub fn add_xy(&self, dx: i16, dy: i16) -> (v: Vector)
        requires
            self.can_move(dx as int, dy as int),
        ensures
            v.x == self.x + dx,
            v.y == self.y + dy,
    {
        Vector::xy(self.x + dx, self.y + dy)
    }
}

impl vstd::std_specs::ops::AddSpecImpl<Vector> for Vector {
    open spec fn obeys_add_spec() -> bool {
        true
    }

    open spec fn add_req(self, rhs: Vector) -> bool {
        self.can_move(rhs.x as int, rhs.y as int)
    }

    open spec fn add_spec(self, rhs: Vector) -> Vector {
        Vector { x: (self.x + rhs.x) as i16, y: (self.y + rhs.y) as i16 }
    }
}

impl std::ops::Add<Vector> for Vector {
    type Output = Vector;

    fn add(self, b: Vector) -> (v: Vector) {
        Vector::xy(self.x + b.x, self.y + b.y)
    }
}

/// An axis-aligned rectangle: a corner and an extent.
///
/// The rectangle of zero position and zero size is the canonical empty one.
#[derive(Clone, Copy, Debug, PartialEq, Eq, Structural)]
pub struct Rect {
    pub pos: Vector,
    pub size: Size,
}

impl Rect {
    /// The x coordinate of the leftmost column.
    pub open spec fn spec_left(self) -> int {
        self.pos.x as int
    }

    /// The x coordinate one past the rightmost column.
    pub open spec fn spec_right(self) -> int {
        self.pos.x + self.size.width
    }

    /// The y coordinate of the topmost row.
    pub open spec fn spec_top(self) -> int {
        self.pos.y as int
    }

    /// The y coordinate one past the bottommost row.
    pub open spec fn spec_bottom(self) -> int {
        self.pos.y + self.size.height
    }

    /// Whether the pixel `(x, y)` lies inside the rectangle.
    pub open spec fn contains(self, x: int, y: int) -> bool {
        &&& self.spec_left() <= x < self.spec_right()
        &&& self.spec_top() <= y < self.spec_bottom()
    }

    pub open spec fn spec_xywh(x: i16, y: i16, width: usize, height: usize) -> Rect {
        Rect { pos: Vector { x, y }, size: Size { width, height } }
    }

    /// The canonical empty rectangle.
    pub open spec fn spec_zero() -> Rect {
        Rect { pos: Vector { x: 0, y: 0 }, size: Size { width: 0, height: 0 } }
    }

    /// The rectangle common to `self` and `b`, or the canonical empty
    /// rectangle where they share no pixel.
    pub open spec fn spec_intersect(self, b: Rect) -> Rect {
        let left = if self.spec_left() >= b.spec_left() { self.spec_left() } else { b.spec_left() };
        let right = if self.spec_right() <= b.spec_right() { self.spec_right() } else { b.spec_right() };
        let top = if self.spec_top() >= b.spec_top() { self.spec_top() } else { b.spec_top() };
        let bottom = if self.spec_bottom() <= b.spec_bottom() { self.spec_bottom() } else { b.spec_bottom() };
        if left >= right || top >= bottom {
            Rect::spec_zero()
        } else {
            Rect {
                pos: Vector { x: left as i16, y: top as i16 },
                size: Size { width: (right - left) as usize, height: (bottom - top) as usize },
            }
        }
    }

    pub fn zero() -> (r: Rect)
        ensures
            r == Rect::spec_zero(),
    {
        Rect::ps(Vector::zero(), Size::zero())
    }

    pub fn xywh(x: i16, y: i16, width: usize, height: usize) -> (r: Rect)
        ensures
            r == Rect::spec_xywh(x, y, width, height),
    {
        Rect::ps(Vector::xy(x, y), Size::wh(width, height))
    }

    /// The rectangle between four edges. The edges must be in order: an
    /// extent cannot be negative.
    pub fn ltrb(left: i16, top: i16, right: i16, bottom: i16) -> (r: Rect)
        requires
            left <= right,
            top <= bottom,
        ensures
            r.pos == (Vector { x: left, y: top }),
            r.size.width == right - left,
            r.size.height == bottom - top,
            r.spec_right() == right,
            r.spec_bottom() == bottom,
    {
        let width: i32 = right as i32 - left as i32;
        let height: i32 = bottom as i32 - top as i32;
        Rect::ps(Vector::xy(left, top), Size::wh(width as usize, height as usize))
    }

    pub fn ps(pos: Vector, size: Size) -> (r: Rect)
        ensures
            r == (Rect { pos, size }),
    {
        Rect { pos, size }
    }

    pub fn left(&self) -> (x: i16)
        ensures
            x == self.spec_left(),
    {
        self.pos.x
    }

    /// The right edge, where it lies on the 16-bit grid.
    pub fn right(&self) -> (x: i16)
        requires
            self.spec_right() <= i16::MAX,
        ensures
            x == self.spec_right(),
    {
        let x: i32 = self.pos.x as i32 + self.size.width as i32;
        x as i16
    }

    pub fn top(&self) -> (y: i16)
        ensures
            y == self.spec_top(),
    {
        self.pos.y
    }

    /// The bottom edge, where it lies on the 16-bit grid.
    pub fn bottom(&self) -> (y: i16)
        requires
            self.spec_bottom() <= i16::MAX,
        ensures
            y == self.spec_bottom(),
    {
        let y: i32 = self.pos.y as i32 + self.size.height as i32;
        y as i16
    }

    /// This rectangle moved by `d`.
    pub fn translate(&self, d: Vector) -> (r: Rect)
        requires
            self.pos.can_move(d.x as int, d.y as int),
        ensures
            r.size == self.size,
            r.pos.x == self.pos.x + d.x,
            r.pos.y == self.pos.y + d.y,
    {
        Rect::ps(self.pos + d, self.size)
    }

    /// The rectangle common to `self` and `b`, or the canonical empty
    /// rectangle where they share no pixel. Every drawing operation clips
    /// through this.
    pub fn intersect(&self, b: Rect) -> (r: Rect)
        ensures
            r == self.spec_intersect(b),
    {
        let left: i16 = if self.pos.x >= b.pos.x { self.pos.x } else { b.pos.x };
        let top: i16 = if self.pos.y >= b.pos.y { self.pos.y } else { b.pos.y };
        let right: i128 = lesser(far_edge(self.pos.x, self.size.width), far_edge(b.pos.x, b.size.width));
        let bottom: i128 = lesser(far_edge(self.pos.y, self.size.height), far_edge(b.pos.y, b.size.height));
        if left as i128 >= right || top as i128 >= bottom {
            Rect::zero()
        } else {
            let width: i128 = right - left as i128;
            let height: i128 = bottom - top as i128;
            Rect::ps(Vector::xy(left, top), Size::wh(width as usize, height as usize))
        }
    }
}

/// The coordinate one past the last pixel of an extent that starts at `near`.
fn far_edge(near: i16, extent: usize) -> (far: i128)
    ensures
        far == near + extent,
{
    near as i128 + extent as i128
}

fn lesser(a: i128, b: i128) -> (m: i128)
    ensures
        m == if a <= b { a } else { b },
{
    if a <= b { a } else { b }
}

/// A pixel lies in the intersection exactly when it lies in both rectangles.
pub proof fn lemma_intersect_contains(a: Rect, b: Rect, x: int, y: int)
    ensures
        a.spec_intersect(b).contains(x, y) <==> a.contains(x, y) && b.contains(x, y),
{
}

/// The intersection is the canonical empty rectangle exactly when the two
/// rectangles share no pixel.
pub proof fn lemma_intersect_empty(a: Rect, b: Rect)
    ensures
        a.spec_intersect(b) == Rect::spec_zero() <==> forall|x: int, y: int|
            !(a.contains(x, y) && b.contains(x, y)),
{
    let r = a.spec_intersect(b);
    if r != Rect::spec_zero() {
        assert(a.contains(r.spec_left(), r.spec_top()) && b.contains(r.spec_left(), r.spec_top()));
    } else {
        assert forall|x: int, y: int| !(a.contains(x, y) && b.contains(x, y)) by {
            lemma_intersect_contains(a, b, x, y);
        }
    }
}

} // verus!
