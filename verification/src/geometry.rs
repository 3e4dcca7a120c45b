use vstd::prelude::*;

verus! {

/// A coordinate or a length, in whole layout units.
pub type Coord = i64;

/// A pair of coordinates: across, then down.
pub type Point = (Coord, Coord);

/// The greatest coordinate, to either side of zero, that an edge of a
/// rectangle can have.
pub const EDGE_LIMIT: Coord = 0x2000_0000_0000_0000;

/// The floor of half of `x`.
pub fn half(x: Coord) -> (r: Coord)
    ensures
        r == x / 2,
{
    if x >= 0 {
        x / 2
    } else {
        let up: Coord = (x + 1) / 2;
        up - 1
    }
}

/// Whether `x` can be the coordinate of an edge.
pub open spec fn is_edge(x: int) -> bool {
    -EDGE_LIMIT <= x <= EDGE_LIMIT
}

/// A rectangle with sides along the axes.
#[derive(Debug, PartialEq, Eq, Structural, Clone, Copy)]
pub struct Rect {
    pub left: Coord,
    pub top: Coord,
    pub width: Coord,
    pub height: Coord,
}

impl Rect {
    /// Whether the four edges are within `EDGE_LIMIT`.
    pub open spec fn wf(self) -> bool {
        &&& is_edge(self.left as int)
        &&& is_edge(self.top as int)
        &&& is_edge(self.left + self.width)
        &&& is_edge(self.top + self.height)
    }

    /// The coordinate of the right edge.
    pub open spec fn spec_right(self) -> int {
        self.left + self.width
    }

    /// The coordinate of the bottom edge.
    pub open spec fn spec_bottom(self) -> int {
        self.top + self.height
    }

    /// Whether `other` lies within this rectangle.
    pub open spec fn holds(self, other: Rect) -> bool {
        &&& self.left <= other.left
        &&& self.top <= other.top
        &&& other.spec_right() <= self.spec_right()
        &&& other.spec_bottom() <= self.spec_bottom()
    }

    /// The smallest rectangle that holds this one and `other`.
    pub open spec fn spec_cover(self, other: Rect) -> Rect {
        let left = if other.left < self.left {
            other.left
        } else {
            self.left
        };
        let top = if other.top < self.top {
            other.top
        } else {
            self.top
        };
        let right = if other.spec_right() > self.spec_right() {
            other.spec_right()
        } else {
            self.spec_right()
        };
        let bottom = if other.spec_bottom() > self.spec_bottom() {
            other.spec_bottom()
        } else {
            self.spec_bottom()
        };
        Rect { left, top, width: (right - left) as Coord, height: (bottom - top) as Coord }
    }

    /// Whether the four edges are within `EDGE_LIMIT`.
    pub fn is_wf(&self) -> (r: bool)
        ensures
            r == self.wf(),
    {
        let limit: i128 = EDGE_LIMIT as i128;
        let right: i128 = self.left as i128 + self.width as i128;
        let bottom: i128 = self.top as i128 + self.height as i128;
        -limit <= self.left as i128 && self.left as i128 <= limit && -limit <= self.top as i128
            && self.top as i128 <= limit && -limit <= right && right <= limit && -limit <= bottom
            && bottom <= limit
    }

    /// The rectangle with this left edge, top edge, width and height.
    pub fn new_ltwh(left: Coord, top: Coord, width: Coord, height: Coord) -> (r: Rect)
        ensures
            r == (Rect { left, top, width, height }),
    {
        Rect { left, top, width, height }
    }

    /// The rectangle with this width and height about a centre. Where a
    /// side is odd the centre is half a unit to the right of, or below, the
    /// middle.
    pub fn new_cwh(center: Point, width: Coord, height: Coord) -> (r: Rect)
        requires
            is_edge(center.0 as int),
            is_edge(center.1 as int),
            is_edge(width as int),
            is_edge(height as int),
        ensures
            r == (Rect {
                left: (center.0 - width / 2) as Coord,
                top: (center.1 - height / 2) as Coord,
                width,
                height,
            }),
    {
        Rect { left: center.0 - half(width), top: center.1 - half(height), width, height }
    }

    /// The rectangle with these four edges.
    pub fn new_ltrb(left: Coord, top: Coord, right: Coord, bottom: Coord) -> (r: Rect)
        requires
            is_edge(left as int),
            is_edge(top as int),
            is_edge(right as int),
            is_edge(bottom as int),
        ensures
            r.wf(),
            r.left == left,
            r.top == top,
            r.spec_right() == right,
            r.spec_bottom() == bottom,
    {
        Rect { left, top, width: right - left, height: bottom - top }
    }

    pub fn top(&self) -> (r: Coord)
        ensures
            r == self.top,
    {
        self.top
    }

    pub fn left(&self) -> (r: Coord)
        ensures
            r == self.left,
    {
        self.left
    }

    pub fn right(&self) -> (r: Coord)
        requires
            self.wf(),
        ensures
            r == self.spec_right(),
    {
        self.left + self.width
    }

    pub fn bottom(&self) -> (r: Coord)
        requires
            self.wf(),
        ensures
            r == self.spec_bottom(),
    {
        self.top + self.height
    }

    pub fn width(&self) -> (r: Coord)
        ensures
            r == self.width,
    {
        self.width
    }

    pub fn height(&self) -> (r: Coord)
        ensures
            r == self.height,
    {
        self.height
    }

    /// The point in the middle, rounded down where a side is odd.
    pub fn center(&self) -> (r: Point)
        requires
            self.wf(),
        ensures
            r.0 == self.left + self.width / 2,
            r.1 == self.top + self.height / 2,
    {
        (self.left + half(self.width), self.top + half(self.height))
    }

    /// The coordinate down of the point in the middle.
    pub fn center_y(&self) -> (r: Coord)
        requires
            self.wf(),
        ensures
            r == self.top + self.height / 2,
    {
        self.top + half(self.height)
    }

    /// The smallest rectangle that holds both this one and `other`.
    pub fn cover(&self, other: &Rect) -> (r: Rect)
        requires
            self.wf(),
            other.wf(),
        ensures
            r == self.spec_cover(*other),
            r.wf(),
            r.holds(*self),
            r.holds(*other),
    {
        let left = if other.left < self.left {
            other.left
        } else {
            self.left
        };
        let top = if other.top < self.top {
            other.top
        } else {
            self.top
        };
        let right = if other.right() > self.right() {
            other.right()
        } else {
            self.right()
        };
        let bottom = if other.bottom() > self.bottom() {
            other.bottom()
        } else {
            self.bottom()
        };
        Rect::new_ltrb(left, top, right, bottom)
    }

    /// Moves the rectangle by `dx` across and `dy` down.
    pub fn translate(&mut self, dx: Coord, dy: Coord)
        requires
            is_edge(old(self).left + dx),
            is_edge(old(self).top + dy),
        ensures
            *final(self) == (Rect {
                left: (old(self).left + dx) as Coord,
                top: (old(self).top + dy) as Coord,
                ..*old(self)
            }),
    {
        self.left = self.left + dx;
        self.top = self.top + dy;
    }

    /// The rectangle moved by `dx` across and `dy` down.
    pub fn translated(&self, dx: Coord, dy: Coord) -> (r: Rect)
        requires
            is_edge(self.left + dx),
            is_edge(self.top + dy),
        ensures
            r == (Rect {
                left: (self.left + dx) as Coord,
                top: (self.top + dy) as Coord,
                ..*self
            }),
    {
        Rect { left: self.left + dx, top: self.top + dy, width: self.width, height: self.height }
    }
}

} // verus!
