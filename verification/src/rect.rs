use vstd::prelude::*;

verus! {

/// An axis-aligned rectangle. Rooms are rectangles; generation carves a room's
/// interior (exclusive of its `x1`/`y1` border line) into the tile grid.
#[derive(PartialEq, Eq, Structural, Clone, Copy, Debug)]
pub struct Rect {
    pub x1: i32,
    pub y1: i32,
    pub x2: i32,
    pub y2: i32,
}

impl Rect {
    /// The rectangle-intersection predicate used to reject overlapping rooms.
    /// Edge-touching rectangles (shared border coordinate) count as overlapping.
    pub open spec fn overlaps(self, other: Rect) -> bool {
        self.x1 <= other.x2 && self.x2 >= other.x1 && self.y1 <= other.y2 && self.y2 >= other.y1
    }

    /// The centre point, rounded down on each axis.
    pub open spec fn spec_center(self) -> (int, int) {
        ((self.x1 + self.x2) / 2, (self.y1 + self.y2) / 2)
    }

    /// The tiles carved to floor for this room: exclusive of the `x1`/`y1`
    /// border line, inclusive of `x2`/`y2`.
    pub open spec fn interior_contains(self, x: int, y: int) -> bool {
        self.x1 + 1 <= x <= self.x2 && self.y1 + 1 <= y <= self.y2
    }

    pub fn new(x: i32, y: i32, w: i32, h: i32) -> (r: Rect)
        requires
            i32::MIN <= x + w <= i32::MAX,
            i32::MIN <= y + h <= i32::MAX,
        ensures
            r == (Rect { x1: x, y1: y, x2: (x + w) as i32, y2: (y + h) as i32 }),
    {
        Rect { x1: x, y1: y, x2: x + w, y2: y + h }
    }

    pub fn intersect(&self, other: &Rect) -> (r: bool)
        ensures
            r == self.overlaps(*other),
    {
        self.x1 <= other.x2 && self.x2 >= other.x1 && self.y1 <= other.y2 && self.y2 >= other.y1
    }

    pub fn center(&self) -> (r: (i32, i32))
        requires
            0 <= self.x1 <= self.x2,
            0 <= self.y1 <= self.y2,
        ensures
            r.0 == self.spec_center().0,
            r.1 == self.spec_center().1,
    {
        let cx = ((self.x1 as usize + self.x2 as usize) / 2) as i32;
        let cy = ((self.y1 as usize + self.y2 as usize) / 2) as i32;
        (cx, cy)
    }
}

/// No two rooms of the list overlap, for every pair.
pub open spec fn rooms_pairwise_disjoint(rooms: Seq<Rect>) -> bool {
    forall|i: int, j: int|
        0 <= i < j < rooms.len() ==> !(#[trigger] rooms[i].overlaps(rooms[j]))
}

} // verus!
