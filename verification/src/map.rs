use vstd::prelude::*;

use crate::rect::{rooms_pairwise_disjoint, Rect};
use crate::rng::{rng_new, rng_range};
use bracket_random::prelude::RandomNumberGenerator;
use std::collections::HashSet;

verus! {

/// One atomic grid unit.
#[derive(PartialEq, Eq, Structural, Clone, Copy, Debug)]
pub enum TileType {
    Wall,
    Floor,
    DownStairs,
}

/// The error kinds of the map component: generation that accepted no room, and
/// a coordinate pair that does not name a tile of the grid.
#[derive(PartialEq, Eq, Structural, Clone, Copy, Debug)]
pub enum MapError {
    MapGenerationFailed,
    OutOfBoundsIndex,
}

/// The linear index of grid coordinates: row-major, `y * width + x`.
pub open spec fn grid_idx(width: int, x: int, y: int) -> int {
    y * width + x
}

/// A linear index of a grid cell lies inside the grid's linear extent.
pub proof fn lemma_grid_idx_in_range(w: int, h: int, x: int, y: int)
    requires
        1 <= w,
        1 <= h,
        0 <= x < w,
        0 <= y < h,
    ensures
        0 <= grid_idx(w, x, y) < w * h,
{
    assert(0 <= y * w + x < w * h) by (nonlinear_arith)
        requires
            1 <= w,
            1 <= h,
            0 <= x < w,
            0 <= y < h,
    ;
}

/// Distinct in-grid coordinates have distinct linear indices.
pub proof fn lemma_grid_idx_injective(w: int, x1: int, y1: int, x2: int, y2: int)
    requires
        1 <= w,
        0 <= x1 < w,
        0 <= x2 < w,
    ensures
        grid_idx(w, x1, y1) == grid_idx(w, x2, y2) <==> (x1 == x2 && y1 == y2),
{
    assert(y1 * w + x1 == y2 * w + x2 <==> (x1 == x2 && y1 == y2)) by (nonlinear_arith)
        requires
            1 <= w,
            0 <= x1 < w,
            0 <= x2 < w,
    ;
}

/// Decoding a linear index back to coordinates inverts `grid_idx`.
pub proof fn lemma_grid_decode(w: int, h: int, idx: int)
    requires
        1 <= w,
        1 <= h,
        0 <= idx < w * h,
    ensures
        0 <= idx % w < w,
        0 <= idx / w < h,
        idx == grid_idx(w, idx % w, idx / w),
{
    vstd::arithmetic::div_mod::lemma_fundamental_div_mod(idx, w);
    assert(w * (idx / w) == (idx / w) * w) by (nonlinear_arith);
    assert(0 <= idx % w < w) by (nonlinear_arith)
        requires
            1 <= w,
            0 <= idx,
    ;
    assert(0 <= idx / w < h) by (nonlinear_arith)
        requires
            1 <= w,
            1 <= h,
            0 <= idx < w * h,
            idx == w * (idx / w) + idx % w,
            0 <= idx % w < w,
    ;
}

/// The grid aggregate: tiles, the placed rooms in generation order, the
/// parallel per-tile state arrays, the bloodstain overlay, and the transient
/// per-tile occupant index (entity references, rebuilt every turn).
pub struct GameMap {
    pub tiles: Vec<TileType>,
    pub rooms: Vec<Rect>,
    pub width: i32,
    pub height: i32,
    pub revealed_tiles: Vec<bool>,
    pub visible_tiles: Vec<bool>,
    pub blocked: Vec<bool>,
    pub depth: i32,
    pub bloodstains: HashSet<usize>,
    pub tile_content: Vec<Vec<usize>>,
}

impl GameMap {
    /// Length invariant: every parallel array has exactly `width * height`
    /// entries, and that extent fits the machine's indices.
    pub open spec fn wf(self) -> bool {
        &&& 1 <= self.width
        &&& 1 <= self.height
        &&& self.width * self.height <= usize::MAX
        &&& self.tiles@.len() == self.width * self.height
        &&& self.revealed_tiles@.len() == self.tiles@.len()
        &&& self.visible_tiles@.len() == self.tiles@.len()
        &&& self.blocked@.len() == self.tiles@.len()
        &&& self.tile_content@.len() == self.tiles@.len()
    }

    pub open spec fn in_grid(self, x: int, y: int) -> bool {
        0 <= x < self.width && 0 <= y < self.height
    }

    /// Converts grid coordinates to the linear tile index.
    pub fn xy_idx(&self, x: i32, y: i32) -> (r: usize)
        requires
            self.wf(),
            self.in_grid(x as int, y as int),
        ensures
            r == grid_idx(self.width as int, x as int, y as int),
            r < self.tiles@.len(),
    {
        proof {
            lemma_grid_idx_in_range(self.width as int, self.height as int, x as int, y as int);
        }
        (y as usize) * (self.width as usize) + (x as usize)
    }

    /// The checked conversion: out-of-grid coordinates are rejected explicitly
    /// rather than ever being used to index.
    pub fn try_xy_idx(&self, x: i32, y: i32) -> (r: Result<usize, MapError>)
        requires
            self.wf(),
        ensures
            r is Ok <==> self.in_grid(x as int, y as int),
            r is Ok ==> r->Ok_0 == grid_idx(self.width as int, x as int, y as int)
                && r->Ok_0 < self.tiles@.len(),
            r is Err ==> r->Err_0 == MapError::OutOfBoundsIndex,
    {
        if 0 <= x && x < self.width && 0 <= y && y < self.height {
            Ok(self.xy_idx(x, y))
        } else {
            Err(MapError::OutOfBoundsIndex)
        }
    }

    /// The grid's extent, for external pathfinding and field-of-view
    /// collaborators.
    pub fn dimensions(&self) -> (r: (i32, i32))
        ensures
            r.0 == self.width,
            r.1 == self.height,
    {
        (self.width, self.height)
    }

    /// A tile blocks sight exactly when it is a wall.
    pub fn is_opaque(&self, idx: usize) -> (r: bool)
        requires
            idx < self.tiles@.len(),
        ensures
            r == (self.tiles@[idx as int] == TileType::Wall),
    {
        self.tiles[idx] == TileType::Wall
    }

    /// Recomputes the traversability flags from the tile types; must run after
    /// any mutation that changes a tile's type.
    pub fn populate_blocked(&mut self)
        requires
            old(self).wf(),
        ensures
            final(self).wf(),
            final(self).tiles@ == old(self).tiles@,
            final(self).rooms@ == old(self).rooms@,
            final(self).width == old(self).width,
            final(self).height == old(self).height,
            final(self).depth == old(self).depth,
            final(self).revealed_tiles@ == old(self).revealed_tiles@,
            final(self).visible_tiles@ == old(self).visible_tiles@,
            final(self).bloodstains@ == old(self).bloodstains@,
            final(self).tile_content@ == old(self).tile_content@,
            forall|i: int|
                0 <= i < old(self).tiles@.len() ==> final(self).blocked@[i] == (old(
                    self,
                ).tiles@[i] == TileType::Wall),
    {
        let n = self.tiles.len();
        let mut i: usize = 0;
        while i < n
            invariant
                self.wf(),
                i <= n,
                n == self.tiles@.len(),
                self.tiles@ == old(self).tiles@,
                self.rooms@ == old(self).rooms@,
                self.width == old(self).width,
                self.height == old(self).height,
                self.depth == old(self).depth,
                self.revealed_tiles@ == old(self).revealed_tiles@,
                self.visible_tiles@ == old(self).visible_tiles@,
                self.bloodstains@ == old(self).bloodstains@,
                self.tile_content@ == old(self).tile_content@,
                forall|j: int|
                    0 <= j < i ==> self.blocked@[j] == (old(self).tiles@[j] == TileType::Wall),
            decreases n - i,
        {
            let b = self.tiles[i] == TileType::Wall;
            self.blocked[i] = b;
            i += 1;
        }
    }

    /// Empties every tile's occupant list; must run once at the start of each
    /// turn, before movement and placement systems repopulate the index.
    pub fn clear_content_index(&mut self)
        requires
            old(self).wf(),
        ensures
            final(self).wf(),
            final(self).tiles@ == old(self).tiles@,
            final(self).rooms@ == old(self).rooms@,
            final(self).width == old(self).width,
            final(self).height == old(self).height,
            final(self).depth == old(self).depth,
            final(self).revealed_tiles@ == old(self).revealed_tiles@,
            final(self).visible_tiles@ == old(self).visible_tiles@,
            final(self).blocked@ == old(self).blocked@,
            final(self).bloodstains@ == old(self).bloodstains@,
            forall|i: int|
                0 <= i < old(self).tiles@.len() ==> final(self).tile_content@[i]@.len() == 0,
    {
        let n = self.tile_content.len();
        let mut i: usize = 0;
        while i < n
            invariant
                self.wf(),
                i <= n,
                n == self.tile_content@.len(),
                self.tiles@ == old(self).tiles@,
                self.rooms@ == old(self).rooms@,
                self.width == old(self).width,
                self.height == old(self).height,
                self.depth == old(self).depth,
                self.revealed_tiles@ == old(self).revealed_tiles@,
                self.visible_tiles@ == old(self).visible_tiles@,
                self.blocked@ == old(self).blocked@,
                self.bloodstains@ == old(self).bloodstains@,
                forall|j: int| 0 <= j < i ==> self.tile_content@[j]@.len() == 0,
            decreases n - i,
        {
            self.tile_content[i] = Vec::new();
            i += 1;
        }
    }

    /// The occupant list of one tile, as movement and AI systems query it.
    pub fn tile_content_at(&self, idx: usize) -> (r: &Vec<usize>)
        requires
            idx < self.tile_content@.len(),
        ensures
            r@ == self.tile_content@[idx as int]@,
    {
        &self.tile_content[idx]
    }

    /// Stores the field-of-view collaborator's freshly recomputed visibility
    /// and OR-accumulates it into `revealed_tiles`: a tile once revealed stays
    /// revealed, whatever `visible` later says of it.
    pub fn set_visibility(&mut self, visible: &Vec<bool>)
        requires
            old(self).wf(),
            visible@.len() == old(self).visible_tiles@.len(),
        ensures
            final(self).wf(),
            final(self).tiles@ == old(self).tiles@,
            final(self).rooms@ == old(self).rooms@,
            final(self).width == old(self).width,
            final(self).height == old(self).height,
            final(self).depth == old(self).depth,
            final(self).blocked@ == old(self).blocked@,
            final(self).bloodstains@ == old(self).bloodstains@,
            final(self).tile_content@ == old(self).tile_content@,
            final(self).visible_tiles@ == visible@,
            forall|i: int|
                0 <= i < old(self).tiles@.len() ==> (#[trigger] final(self).revealed_tiles@[i])
                    == (old(self).revealed_tiles@[i] || visible@[i]),
    {
        let n = self.visible_tiles.len();
        let mut i: usize = 0;
        while i < n
            invariant
                self.wf(),
                old(self).wf(),
                i <= n,
                n == self.visible_tiles@.len(),
                n == self.revealed_tiles@.len(),
                n == old(self).revealed_tiles@.len(),
                visible@.len() == n,
                self.tiles@ == old(self).tiles@,
                self.rooms@ == old(self).rooms@,
                self.width == old(self).width,
                self.height == old(self).height,
                self.depth == old(self).depth,
                self.blocked@ == old(self).blocked@,
                self.bloodstains@ == old(self).bloodstains@,
                self.tile_content@ == old(self).tile_content@,
                self.revealed_tiles@ == old(self).revealed_tiles@,
                forall|j: int| 0 <= j < i ==> self.visible_tiles@[j] == visible@[j],
            decreases n - i,
        {
            let v = visible[i];
            self.visible_tiles[i] = v;
            i += 1;
        }
        proof {
            assert(self.visible_tiles@ =~= visible@);
        }
        let ghost rev0: Seq<bool> = self.revealed_tiles@;
        let mut k: usize = 0;
        while k < n
            invariant
                self.wf(),
                old(self).wf(),
                rev0 == old(self).revealed_tiles@,
                k <= n,
                n == self.revealed_tiles@.len(),
                n == rev0.len(),
                visible@.len() == n,
                self.tiles@ == old(self).tiles@,
                self.rooms@ == old(self).rooms@,
                self.width == old(self).width,
                self.height == old(self).height,
                self.depth == old(self).depth,
                self.blocked@ == old(self).blocked@,
                self.bloodstains@ == old(self).bloodstains@,
                self.tile_content@ == old(self).tile_content@,
                self.visible_tiles@ == visible@,
                forall|j: int|
                    0 <= j < k ==> self.revealed_tiles@[j] == (rev0[j] || visible@[j]),
                forall|j: int| k <= j < n ==> self.revealed_tiles@[j] == rev0[j],
            decreases n - k,
        {
            let r = self.revealed_tiles[k];
            let v = visible[k];
            self.revealed_tiles[k] = r || v;
            k += 1;
        }
        proof {
            assert forall|i: int| 0 <= i < old(self).tiles@.len() implies self.revealed_tiles@[i]
                == (old(self).revealed_tiles@[i] || visible@[i]) by {
                assert(self.revealed_tiles@[i] == (rev0[i] || visible@[i]));
            }
        }
    }
}

impl GameMap {
    /// Carves every in-grid tile of the closed box to floor; writes whose
    /// coordinates fall outside the grid are silently skipped (defensive: the
    /// generator only ever passes in-grid boxes).
    fn carve_box(&mut self, lo_x: i32, hi_x: i32, lo_y: i32, hi_y: i32)
        requires
            old(self).wf(),
        ensures
            final(self).wf(),
            final(self).rooms@ == old(self).rooms@,
            final(self).width == old(self).width,
            final(self).height == old(self).height,
            final(self).depth == old(self).depth,
            final(self).revealed_tiles@ == old(self).revealed_tiles@,
            final(self).visible_tiles@ == old(self).visible_tiles@,
            final(self).blocked@ == old(self).blocked@,
            final(self).bloodstains@ == old(self).bloodstains@,
            final(self).tile_content@ == old(self).tile_content@,
            final(self).tiles@.len() == old(self).tiles@.len(),
            forall|i: int|
                0 <= i < old(self).tiles@.len() ==> final(self).tiles@[i] == TileType::Floor
                    || final(self).tiles@[i] == old(self).tiles@[i],
            forall|x: int, y: int|
                lo_x <= x <= hi_x && lo_y <= y <= hi_y && old(self).in_grid(x, y)
                    ==> final(self).tiles@[#[trigger] grid_idx(old(self).width as int, x, y)]
                    == TileType::Floor,
            forall|x: int, y: int|
                old(self).in_grid(x, y) && !(lo_x <= x <= hi_x && lo_y <= y <= hi_y)
                    ==> final(self).tiles@[#[trigger] grid_idx(old(self).width as int, x, y)]
                    == old(self).tiles@[grid_idx(old(self).width as int, x, y)],
    {
        let w64 = self.width as i64;
        let h64 = self.height as i64;
        let mut y: i64 = lo_y as i64;
        while y <= hi_y as i64
            invariant
                self.wf(),
                old(self).wf(),
                self.rooms@ == old(self).rooms@,
                self.width == old(self).width,
                self.height == old(self).height,
                self.depth == old(self).depth,
                self.revealed_tiles@ == old(self).revealed_tiles@,
                self.visible_tiles@ == old(self).visible_tiles@,
                self.blocked@ == old(self).blocked@,
                self.bloodstains@ == old(self).bloodstains@,
                self.tile_content@ == old(self).tile_content@,
                self.tiles@.len() == old(self).tiles@.len(),
                w64 == self.width,
                h64 == self.height,
                lo_y <= y <= vstd::math::max(hi_y as int + 1, lo_y as int),
                forall|i: int|
                    0 <= i < old(self).tiles@.len() ==> self.tiles@[i] == TileType::Floor
                        || self.tiles@[i] == old(self).tiles@[i],
                forall|px: int, py: int|
                    lo_x <= px <= hi_x && lo_y <= py < y && old(self).in_grid(px, py)
                        ==> self.tiles@[#[trigger] grid_idx(old(self).width as int, px, py)]
                        == TileType::Floor,
                forall|px: int, py: int|
                    old(self).in_grid(px, py) && !(lo_x <= px <= hi_x && lo_y <= py < y)
                        ==> self.tiles@[#[trigger] grid_idx(old(self).width as int, px, py)]
                        == old(self).tiles@[grid_idx(old(self).width as int, px, py)],
            decreases hi_y as int + 1 - y,
        {
            let mut x: i64 = lo_x as i64;
            while x <= hi_x as i64
                invariant
                    self.wf(),
                    old(self).wf(),
                    self.rooms@ == old(self).rooms@,
                    self.width == old(self).width,
                    self.height == old(self).height,
                    self.depth == old(self).depth,
                    self.revealed_tiles@ == old(self).revealed_tiles@,
                    self.visible_tiles@ == old(self).visible_tiles@,
                    self.blocked@ == old(self).blocked@,
                    self.bloodstains@ == old(self).bloodstains@,
                    self.tile_content@ == old(self).tile_content@,
                    self.tiles@.len() == old(self).tiles@.len(),
                    w64 == self.width,
                    h64 == self.height,
                    lo_y <= y <= hi_y,
                    lo_x <= x <= vstd::math::max(hi_x as int + 1, lo_x as int),
                    forall|i: int|
                        0 <= i < old(self).tiles@.len() ==> self.tiles@[i] == TileType::Floor
                            || self.tiles@[i] == old(self).tiles@[i],
                    forall|px: int, py: int|
                        lo_x <= px <= hi_x && lo_y <= py < y && old(self).in_grid(px, py)
                            ==> self.tiles@[#[trigger] grid_idx(old(self).width as int, px, py)]
                            == TileType::Floor,
                    forall|px: int|
                        lo_x <= px < x && old(self).in_grid(px, y as int) ==> self.tiles@[
                            #[trigger] grid_idx(old(self).width as int, px, y as int)
                        ] == TileType::Floor,
                    forall|px: int, py: int|
                        old(self).in_grid(px, py) && !((lo_x <= px <= hi_x && lo_y <= py < y) || (
                        py == y && lo_x <= px < x)) ==> self.tiles@[
                            #[trigger] grid_idx(old(self).width as int, px, py)
                        ] == old(self).tiles@[grid_idx(old(self).width as int, px, py)],
                decreases hi_x as int + 1 - x,
            {
                if 0 <= x && x < w64 && 0 <= y && y < h64 {
                    let xi = x as i32;
                    let yi = y as i32;
                    let idx = self.xy_idx(xi, yi);
                    self.tiles[idx] = TileType::Floor;
                    proof {
                        assert forall|px: int, py: int|
                            old(self).in_grid(px, py) && !(px == x && py == y) implies grid_idx(
                            old(self).width as int,
                            px,
                            py,
                        ) != idx as int by {
                            lemma_grid_idx_injective(
                                old(self).width as int,
                                px,
                                py,
                                x as int,
                                y as int,
                            );
                        }
                        assert forall|px: int, py: int|
                            old(self).in_grid(px, py) implies 0 <= grid_idx(
                            old(self).width as int,
                            px,
                            py,
                        ) < old(self).tiles@.len() by {
                            lemma_grid_idx_in_range(
                                old(self).width as int,
                                old(self).height as int,
                                px,
                                py,
                            );
                        }
                    }
                }
                x += 1;
            }
            y += 1;
        }
    }

    /// Carves the room's interior (exclusive of its border line) to floor.
    fn apply_room_to_map(&mut self, room: &Rect)
        requires
            old(self).wf(),
            0 <= room.x1 < old(self).width,
            0 <= room.y1 < old(self).height,
            room.x2 < old(self).width,
            room.y2 < old(self).height,
        ensures
            final(self).wf(),
            final(self).rooms@ == old(self).rooms@,
            final(self).width == old(self).width,
            final(self).height == old(self).height,
            final(self).depth == old(self).depth,
            final(self).revealed_tiles@ == old(self).revealed_tiles@,
            final(self).visible_tiles@ == old(self).visible_tiles@,
            final(self).blocked@ == old(self).blocked@,
            final(self).bloodstains@ == old(self).bloodstains@,
            final(self).tile_content@ == old(self).tile_content@,
            final(self).tiles@.len() == old(self).tiles@.len(),
            forall|i: int|
                0 <= i < old(self).tiles@.len() ==> final(self).tiles@[i] == TileType::Floor
                    || final(self).tiles@[i] == old(self).tiles@[i],
            forall|x: int, y: int|
                room.interior_contains(x, y) ==> final(self).tiles@[#[trigger] grid_idx(
                    old(self).width as int,
                    x,
                    y,
                )] == TileType::Floor,
            forall|x: int, y: int|
                old(self).in_grid(x, y) && !room.interior_contains(x, y) ==> final(self).tiles@[
                    #[trigger] grid_idx(old(self).width as int, x, y)
                ] == old(self).tiles@[grid_idx(old(self).width as int, x, y)],
    {
        self.carve_box(room.x1 + 1, room.x2, room.y1 + 1, room.y2)
    }

    /// Carves a one-tile-high floor strip between the two columns, as the
    /// horizontal leg of an L-shaped corridor.
    fn apply_horizontal_tunnel(&mut self, x1: i32, x2: i32, y: i32)
        requires
            old(self).wf(),
        ensures
            final(self).wf(),
            final(self).rooms@ == old(self).rooms@,
            final(self).width == old(self).width,
            final(self).height == old(self).height,
            final(self).depth == old(self).depth,
            final(self).revealed_tiles@ == old(self).revealed_tiles@,
            final(self).visible_tiles@ == old(self).visible_tiles@,
            final(self).blocked@ == old(self).blocked@,
            final(self).bloodstains@ == old(self).bloodstains@,
            final(self).tile_content@ == old(self).tile_content@,
            final(self).tiles@.len() == old(self).tiles@.len(),
            forall|i: int|
                0 <= i < old(self).tiles@.len() ==> final(self).tiles@[i] == TileType::Floor
                    || final(self).tiles@[i] == old(self).tiles@[i],
            forall|x: int|
                vstd::math::min(x1 as int, x2 as int) <= x <= vstd::math::max(
                    x1 as int,
                    x2 as int,
                ) && old(self).in_grid(x, y as int) ==> final(self).tiles@[#[trigger] grid_idx(
                    old(self).width as int,
                    x,
                    y as int,
                )] == TileType::Floor,
            forall|px: int, py: int|
                old(self).in_grid(px, py) && !(py == y && vstd::math::min(x1 as int, x2 as int)
                    <= px <= vstd::math::max(x1 as int, x2 as int)) ==> final(self).tiles@[
                    #[trigger] grid_idx(old(self).width as int, px, py)
                ] == old(self).tiles@[grid_idx(old(self).width as int, px, py)],
    {
        let lo = crate::min_i32(x1, x2);
        let hi = crate::max_i32(x1, x2);
        self.carve_box(lo, hi, y, y)
    }

    /// Carves a one-tile-wide floor strip between the two rows, as the vertical
    /// leg of an L-shaped corridor.
    fn apply_vertical_tunnel(&mut self, y1: i32, y2: i32, x: i32)
        requires
            old(self).wf(),
        ensures
            final(self).wf(),
            final(self).rooms@ == old(self).rooms@,
            final(self).width == old(self).width,
            final(self).height == old(self).height,
            final(self).depth == old(self).depth,
            final(self).revealed_tiles@ == old(self).revealed_tiles@,
            final(self).visible_tiles@ == old(self).visible_tiles@,
            final(self).blocked@ == old(self).blocked@,
            final(self).bloodstains@ == old(self).bloodstains@,
            final(self).tile_content@ == old(self).tile_content@,
            final(self).tiles@.len() == old(self).tiles@.len(),
            forall|i: int|
                0 <= i < old(self).tiles@.len() ==> final(self).tiles@[i] == TileType::Floor
                    || final(self).tiles@[i] == old(self).tiles@[i],
            forall|y: int|
                vstd::math::min(y1 as int, y2 as int) <= y <= vstd::math::max(
                    y1 as int,
                    y2 as int,
                ) && old(self).in_grid(x as int, y) ==> final(self).tiles@[#[trigger] grid_idx(
                    old(self).width as int,
                    x as int,
                    y,
                )] == TileType::Floor,
            forall|px: int, py: int|
                old(self).in_grid(px, py) && !(px == x && vstd::math::min(y1 as int, y2 as int)
                    <= py <= vstd::math::max(y1 as int, y2 as int)) ==> final(self).tiles@[
                    #[trigger] grid_idx(old(self).width as int, px, py)
                ] == old(self).tiles@[grid_idx(old(self).width as int, px, py)],
    {
        let lo = crate::min_i32(y1, y2);
        let hi = crate::max_i32(y1, y2);
        self.carve_box(x, x, lo, hi)
    }
}

/// Whether the coordinates name a tile of the grid; movement input uses this
/// before any conversion to a linear index.
pub fn is_inbounds(map: &GameMap, x: i32, y: i32) -> (r: bool)
    requires
        map.wf(),
    ensures
        r == map.in_grid(x as int, y as int),
{
    if x < 0 || x > map.width - 1 || y < 0 || y > map.height - 1 {
        false
    } else {
        true
    }
}

/// Cost of a cardinal step, in hundredths (the renderer's pathfinding reads
/// these as 1.0).
pub const CARDINAL_COST_CENTI: u32 = 100;

/// Cost of a diagonal step, in hundredths (read as about 1.45).
pub const DIAGONAL_COST_CENTI: u32 = 145;

/// Encoding then decoding grid coordinates round-trips.
pub proof fn lemma_grid_encode_decode(w: int, x: int, y: int)
    requires
        1 <= w,
        0 <= x < w,
        0 <= y,
    ensures
        grid_idx(w, x, y) % w == x,
        grid_idx(w, x, y) / w == y,
{
    assert(y * w == w * y) by (nonlinear_arith);
    vstd::arithmetic::div_mod::lemma_fundamental_div_mod_converse(y * w + x, w, y, x);
}

/// A neighbor's linear index is the cell's own plus the delta row times the
/// width plus the delta column, and lies inside the grid's linear extent.
pub proof fn lemma_neighbor_idx(w: int, h: int, x: int, y: int, dx: int, dy: int)
    requires
        1 <= w,
        1 <= h,
        0 <= x < w,
        0 <= y < h,
        0 <= x + dx < w,
        0 <= y + dy < h,
    ensures
        grid_idx(w, x + dx, y + dy) == grid_idx(w, x, y) + dy * w + dx,
        0 <= grid_idx(w, x + dx, y + dy) < w * h,
{
    lemma_grid_idx_in_range(w, h, x + dx, y + dy);
    assert((y + dy) * w == y * w + dy * w) by (nonlinear_arith);
}

impl GameMap {
    /// A coordinate is a valid exit: within a one-tile interior margin of the
    /// grid bounds, and its traversability flag is clear.
    pub open spec fn exit_ok(self, x: int, y: int) -> bool {
        &&& 1 <= x <= self.width - 2
        &&& 1 <= y <= self.height - 2
        &&& !self.blocked@[grid_idx(self.width as int, x, y)]
    }

    /// The adjacency contract: `to` is listed as an exit of `from` with the
    /// given cost. Up to eight neighbors: four cardinal at the cardinal cost,
    /// four diagonal at the diagonal cost, each included exactly when the
    /// neighbor coordinate is a valid exit.
    pub open spec fn lists_exit(self, from: int, to: int, cost: u32) -> bool {
        let w = self.width as int;
        let x = from % w;
        let y = from / w;
        ||| (to == from - 1 && cost == CARDINAL_COST_CENTI && self.exit_ok(x - 1, y))
        ||| (to == from + 1 && cost == CARDINAL_COST_CENTI && self.exit_ok(x + 1, y))
        ||| (to == from - w && cost == CARDINAL_COST_CENTI && self.exit_ok(x, y - 1))
        ||| (to == from + w && cost == CARDINAL_COST_CENTI && self.exit_ok(x, y + 1))
        ||| (to == from - w - 1 && cost == DIAGONAL_COST_CENTI && self.exit_ok(x - 1, y - 1))
        ||| (to == from - w + 1 && cost == DIAGONAL_COST_CENTI && self.exit_ok(x + 1, y - 1))
        ||| (to == from + w - 1 && cost == DIAGONAL_COST_CENTI && self.exit_ok(x - 1, y + 1))
        ||| (to == from + w + 1 && cost == DIAGONAL_COST_CENTI && self.exit_ok(x + 1, y + 1))
    }

    /// One optional entry of the exits list.
    pub open spec fn opt_exit(ok: bool, to: int, cost: u32) -> Seq<(usize, u32)> {
        if ok {
            seq![(to as usize, cost)]
        } else {
            Seq::empty()
        }
    }

    /// The exact exits list of a tile: the four cardinal then the four diagonal
    /// neighbors, each present exactly when its coordinate is a valid exit; no
    /// neighbor is ever listed twice.
    pub open spec fn exit_seq(self, from: int) -> Seq<(usize, u32)> {
        let w = self.width as int;
        let x = from % w;
        let y = from / w;
        Self::opt_exit(self.exit_ok(x - 1, y), from - 1, CARDINAL_COST_CENTI) + Self::opt_exit(
            self.exit_ok(x + 1, y),
            from + 1,
            CARDINAL_COST_CENTI,
        ) + Self::opt_exit(self.exit_ok(x, y - 1), from - w, CARDINAL_COST_CENTI)
            + Self::opt_exit(self.exit_ok(x, y + 1), from + w, CARDINAL_COST_CENTI)
            + Self::opt_exit(self.exit_ok(x - 1, y - 1), from - w - 1, DIAGONAL_COST_CENTI)
            + Self::opt_exit(self.exit_ok(x + 1, y - 1), from - w + 1, DIAGONAL_COST_CENTI)
            + Self::opt_exit(self.exit_ok(x - 1, y + 1), from + w - 1, DIAGONAL_COST_CENTI)
            + Self::opt_exit(self.exit_ok(x + 1, y + 1), from + w + 1, DIAGONAL_COST_CENTI)
    }

    /// Whether the coordinate can be stepped onto, as `get_available_exits`
    /// tests each neighbor.
    fn is_exit_valid(&self, x: i32, y: i32) -> (r: bool)
        requires
            self.wf(),
        ensures
            r == self.exit_ok(x as int, y as int),
    {
        if x < 1 || x > self.width - 2 || y < 1 || y > self.height - 2 {
            return false;
        }
        let idx = self.xy_idx(x, y);
        !self.blocked[idx]
    }

    /// Appends the entry for one neighbor exactly when it is a valid exit.
    fn push_exit(exits: &mut Vec<(usize, u32)>, ok: bool, to: usize, cost: u32)
        ensures
            final(exits)@ == old(exits)@ + Self::opt_exit(ok, to as int, cost),
    {
        if ok {
            exits.push((to, cost));
        }
        proof {
            assert(exits@ =~= old(exits)@ + Self::opt_exit(ok, to as int, cost));
        }
    }

    /// Collects the exits in the fixed direction order; the contract is the
    /// exact list, which `get_available_exits` restates as membership clauses.
    fn exits_core(&self, idx: usize) -> (r: Vec<(usize, u32)>)
        requires
            self.wf(),
            idx < self.tiles@.len(),
        ensures
            r@ == self.exit_seq(idx as int),
    {
        let ghost w = self.width as int;
        let ghost h = self.height as int;
        proof {
            lemma_grid_decode(w, h, idx as int);
        }
        let w_us = self.width as usize;
        let x = (idx % w_us) as i32;
        let y = (idx / w_us) as i32;
        let mut exits: Vec<(usize, u32)> = Vec::new();
        let ok1 = self.is_exit_valid(x - 1, y);
        let to1: usize = if ok1 {
            proof {
                lemma_neighbor_idx(w, h, x as int, y as int, -1, 0);
            }
            idx - 1
        } else {
            0
        };
        Self::push_exit(&mut exits, ok1, to1, CARDINAL_COST_CENTI);
        proof {
            assert(Self::opt_exit(ok1, to1 as int, CARDINAL_COST_CENTI) == Self::opt_exit(
                self.exit_ok(x as int - 1, y as int),
                idx as int - 1,
                CARDINAL_COST_CENTI,
            ));
        }
        let ok2 = self.is_exit_valid(x + 1, y);
        let to2: usize = if ok2 {
            proof {
                lemma_neighbor_idx(w, h, x as int, y as int, 1, 0);
            }
            idx + 1
        } else {
            0
        };
        Self::push_exit(&mut exits, ok2, to2, CARDINAL_COST_CENTI);
        proof {
            assert(Self::opt_exit(ok2, to2 as int, CARDINAL_COST_CENTI) == Self::opt_exit(
                self.exit_ok(x as int + 1, y as int),
                idx as int + 1,
                CARDINAL_COST_CENTI,
            ));
        }
        let ok3 = self.is_exit_valid(x, y - 1);
        let to3: usize = if ok3 {
            proof {
                lemma_neighbor_idx(w, h, x as int, y as int, 0, -1);
            }
            idx - w_us
        } else {
            0
        };
        Self::push_exit(&mut exits, ok3, to3, CARDINAL_COST_CENTI);
        proof {
            assert(Self::opt_exit(ok3, to3 as int, CARDINAL_COST_CENTI) == Self::opt_exit(
                self.exit_ok(x as int, y as int - 1),
                idx as int - w,
                CARDINAL_COST_CENTI,
            ));
        }
        let ok4 = self.is_exit_valid(x, y + 1);
        let to4: usize = if ok4 {
            proof {
                lemma_neighbor_idx(w, h, x as int, y as int, 0, 1);
            }
            idx + w_us
        } else {
            0
        };
        Self::push_exit(&mut exits, ok4, to4, CARDINAL_COST_CENTI);
        proof {
            assert(Self::opt_exit(ok4, to4 as int, CARDINAL_COST_CENTI) == Self::opt_exit(
                self.exit_ok(x as int, y as int + 1),
                idx as int + w,
                CARDINAL_COST_CENTI,
            ));
        }
        let ok5 = self.is_exit_valid(x - 1, y - 1);
        let to5: usize = if ok5 {
            proof {
                lemma_neighbor_idx(w, h, x as int, y as int, -1, -1);
            }
            idx - w_us - 1
        } else {
            0
        };
        Self::push_exit(&mut exits, ok5, to5, DIAGONAL_COST_CENTI);
        proof {
            assert(Self::opt_exit(ok5, to5 as int, DIAGONAL_COST_CENTI) == Self::opt_exit(
                self.exit_ok(x as int - 1, y as int - 1),
                idx as int - w - 1,
                DIAGONAL_COST_CENTI,
            ));
        }
        let ok6 = self.is_exit_valid(x + 1, y - 1);
        let to6: usize = if ok6 {
            proof {
                lemma_neighbor_idx(w, h, x as int, y as int, 1, -1);
            }
            idx - w_us + 1
        } else {
            0
        };
        Self::push_exit(&mut exits, ok6, to6, DIAGONAL_COST_CENTI);
        proof {
            assert(Self::opt_exit(ok6, to6 as int, DIAGONAL_COST_CENTI) == Self::opt_exit(
                self.exit_ok(x as int + 1, y as int - 1),
                idx as int - w + 1,
                DIAGONAL_COST_CENTI,
            ));
        }
        let ok7 = self.is_exit_valid(x - 1, y + 1);
        let to7: usize = if ok7 {
            proof {
                lemma_neighbor_idx(w, h, x as int, y as int, -1, 1);
            }
            idx + w_us - 1
        } else {
            0
        };
        Self::push_exit(&mut exits, ok7, to7, DIAGONAL_COST_CENTI);
        proof {
            assert(Self::opt_exit(ok7, to7 as int, DIAGONAL_COST_CENTI) == Self::opt_exit(
                self.exit_ok(x as int - 1, y as int + 1),
                idx as int + w - 1,
                DIAGONAL_COST_CENTI,
            ));
        }
        let ok8 = self.is_exit_valid(x + 1, y + 1);
        let to8: usize = if ok8 {
            proof {
                lemma_neighbor_idx(w, h, x as int, y as int, 1, 1);
            }
            idx + w_us + 1
        } else {
            0
        };
        Self::push_exit(&mut exits, ok8, to8, DIAGONAL_COST_CENTI);
        proof {
            assert(Self::opt_exit(ok8, to8 as int, DIAGONAL_COST_CENTI) == Self::opt_exit(
                self.exit_ok(x as int + 1, y as int + 1),
                idx as int + w + 1,
                DIAGONAL_COST_CENTI,
            ));
        }
        proof {
            assert(Seq::<(usize, u32)>::empty() + Self::opt_exit(
                self.exit_ok(x as int - 1, y as int),
                idx as int - 1,
                CARDINAL_COST_CENTI,
            ) =~= Self::opt_exit(
                self.exit_ok(x as int - 1, y as int),
                idx as int - 1,
                CARDINAL_COST_CENTI,
            ));
            assert(exits@ == self.exit_seq(idx as int));
        }
        exits
    }

    /// The exits of a tile for the pathfinding collaborator: every valid
    /// cardinal and diagonal neighbor, with its step cost in hundredths. The
    /// result is exactly `exit_seq`, so a neighbor appears iff its coordinate
    /// is a valid exit, and never twice.
    pub fn get_available_exits(&self, idx: usize) -> (r: Vec<(usize, u32)>)
        requires
            self.wf(),
            idx < self.tiles@.len(),
        ensures
            r@ == self.exit_seq(idx as int),
            r@.len() <= 8,
            forall|j: int|
                0 <= j < r@.len() ==> self.lists_exit(
                    idx as int,
                    #[trigger] r@[j].0 as int,
                    r@[j].1,
                ),
            forall|to: usize, c: u32| self.lists_exit(idx as int, to as int, c) ==> r@.contains(
                (to, c),
            ),
    {
        let r = self.exits_core(idx);
        proof {
            lemma_exit_seq_entries(*self, idx as int);
            lemma_exit_seq_complete(*self, idx as int);
            assert forall|j: int| 0 <= j < r@.len() implies self.lists_exit(
                idx as int,
                r@[j].0 as int,
                r@[j].1,
            ) by {
                assert(r@.contains(r@[j]));
            }
        }
        r
    }

    /// The squared Euclidean distance between the grid coordinates decoded from
    /// the two linear indices. The pathfinding collaborator takes the square
    /// root itself; the square avoids any floating point in this core.
    pub open spec fn pathing_distance_sq(self, idx1: int, idx2: int) -> int {
        let w = self.width as int;
        let dx = idx1 % w - idx2 % w;
        let dy = idx1 / w - idx2 / w;
        dx * dx + dy * dy
    }

    /// Computes the squared pathing distance between two tiles.
    pub fn get_pathing_distance_squared(&self, idx1: usize, idx2: usize) -> (r: u64)
        requires
            self.wf(),
            idx1 < self.tiles@.len(),
            idx2 < self.tiles@.len(),
        ensures
            r == self.pathing_distance_sq(idx1 as int, idx2 as int),
    {
        let ghost w = self.width as int;
        let ghost h = self.height as int;
        proof {
            lemma_grid_decode(w, h, idx1 as int);
            lemma_grid_decode(w, h, idx2 as int);
        }
        let w_us = self.width as usize;
        let x1 = (idx1 % w_us) as i64;
        let y1 = (idx1 / w_us) as i64;
        let x2 = (idx2 % w_us) as i64;
        let y2 = (idx2 / w_us) as i64;
        let dx = x1 - x2;
        let dy = y1 - y2;
        proof {
            assert(dx * dx + dy * dy <= 0x7fff_ffff_ffff_ffff && 0 <= dx * dx && 0 <= dy * dy)
                by (nonlinear_arith)
                requires
                    -0x7fff_ffff <= dx <= 0x7fff_ffff,
                    -0x7fff_ffff <= dy <= 0x7fff_ffff,
            ;
        }
        (dx * dx + dy * dy) as u64
    }
}

/// The exact exits list has at most eight entries and everything it contains
/// is a listed exit of the adjacency contract.
#[verifier::rlimit(100)]
#[verifier::spinoff_prover]
pub proof fn lemma_exit_seq_entries(m: GameMap, from: int)
    requires
        m.wf(),
        0 <= from < m.width * m.height,
    ensures
        m.exit_seq(from).len() <= 8,
        forall|p: (usize, u32)| #[trigger]
            m.exit_seq(from).contains(p) ==> m.lists_exit(from, p.0 as int, p.1),
{
    broadcast use vstd::seq_lib::lemma_seq_concat_contains_all_elements;

    let w = m.width as int;
    let h = m.height as int;
    lemma_grid_decode(w, h, from);
    let x = from % w;
    let y = from / w;
    if m.exit_ok(x - 1, y) {
        lemma_neighbor_idx(w, h, x, y, -1, 0);
    }
    if m.exit_ok(x + 1, y) {
        lemma_neighbor_idx(w, h, x, y, 1, 0);
    }
    if m.exit_ok(x, y - 1) {
        lemma_neighbor_idx(w, h, x, y, 0, -1);
    }
    if m.exit_ok(x, y + 1) {
        lemma_neighbor_idx(w, h, x, y, 0, 1);
    }
    if m.exit_ok(x - 1, y - 1) {
        lemma_neighbor_idx(w, h, x, y, -1, -1);
    }
    if m.exit_ok(x + 1, y - 1) {
        lemma_neighbor_idx(w, h, x, y, 1, -1);
    }
    if m.exit_ok(x - 1, y + 1) {
        lemma_neighbor_idx(w, h, x, y, -1, 1);
    }
    if m.exit_ok(x + 1, y + 1) {
        lemma_neighbor_idx(w, h, x, y, 1, 1);
    }
}

/// Every listed exit of the adjacency contract stands in the exact exits list.
#[verifier::rlimit(100)]
#[verifier::spinoff_prover]
pub proof fn lemma_exit_seq_complete(m: GameMap, from: int)
    requires
        m.wf(),
        0 <= from < m.width * m.height,
    ensures
        forall|to: usize, c: u32| m.lists_exit(from, to as int, c) ==> m.exit_seq(from).contains(
            (to, c),
        ),
{
    broadcast use vstd::seq_lib::lemma_seq_concat_contains_all_elements;

    let w = m.width as int;
    let h = m.height as int;
    lemma_grid_decode(w, h, from);
    let x = from % w;
    let y = from / w;
    if m.exit_ok(x - 1, y) {
        lemma_neighbor_idx(w, h, x, y, -1, 0);
    }
    if m.exit_ok(x + 1, y) {
        lemma_neighbor_idx(w, h, x, y, 1, 0);
    }
    if m.exit_ok(x, y - 1) {
        lemma_neighbor_idx(w, h, x, y, 0, -1);
    }
    if m.exit_ok(x, y + 1) {
        lemma_neighbor_idx(w, h, x, y, 0, 1);
    }
    if m.exit_ok(x - 1, y - 1) {
        lemma_neighbor_idx(w, h, x, y, -1, -1);
    }
    if m.exit_ok(x + 1, y - 1) {
        lemma_neighbor_idx(w, h, x, y, 1, -1);
    }
    if m.exit_ok(x - 1, y + 1) {
        lemma_neighbor_idx(w, h, x, y, -1, 1);
    }
    if m.exit_ok(x + 1, y + 1) {
        lemma_neighbor_idx(w, h, x, y, 1, 1);
    }
    assert forall|to: usize, c: u32| m.lists_exit(from, to as int, c) implies m.exit_seq(
        from,
    ).contains((to, c)) by {
        if to == from - 1 && c == CARDINAL_COST_CENTI && m.exit_ok(x - 1, y) {
            let single = GameMap::opt_exit(m.exit_ok(x - 1, y), from - 1, CARDINAL_COST_CENTI);
            assert(single[0] == (to, c));
            assert(single.contains((to, c)));
        } else if to == from + 1 && c == CARDINAL_COST_CENTI && m.exit_ok(x + 1, y) {
            let single = GameMap::opt_exit(m.exit_ok(x + 1, y), from + 1, CARDINAL_COST_CENTI);
            assert(single[0] == (to, c));
            assert(single.contains((to, c)));
        } else if to == from - w && c == CARDINAL_COST_CENTI && m.exit_ok(x, y - 1) {
            let single = GameMap::opt_exit(m.exit_ok(x, y - 1), from - w, CARDINAL_COST_CENTI);
            assert(single[0] == (to, c));
            assert(single.contains((to, c)));
        } else if to == from + w && c == CARDINAL_COST_CENTI && m.exit_ok(x, y + 1) {
            let single = GameMap::opt_exit(m.exit_ok(x, y + 1), from + w, CARDINAL_COST_CENTI);
            assert(single[0] == (to, c));
            assert(single.contains((to, c)));
        } else if to == from - w - 1 && c == DIAGONAL_COST_CENTI && m.exit_ok(x - 1, y - 1) {
            let single = GameMap::opt_exit(m.exit_ok(x - 1, y - 1), from - w - 1, DIAGONAL_COST_CENTI);
            assert(single[0] == (to, c));
            assert(single.contains((to, c)));
        } else if to == from - w + 1 && c == DIAGONAL_COST_CENTI && m.exit_ok(x + 1, y - 1) {
            let single = GameMap::opt_exit(m.exit_ok(x + 1, y - 1), from - w + 1, DIAGONAL_COST_CENTI);
            assert(single[0] == (to, c));
            assert(single.contains((to, c)));
        } else if to == from + w - 1 && c == DIAGONAL_COST_CENTI && m.exit_ok(x - 1, y + 1) {
            let single = GameMap::opt_exit(m.exit_ok(x - 1, y + 1), from + w - 1, DIAGONAL_COST_CENTI);
            assert(single[0] == (to, c));
            assert(single.contains((to, c)));
        } else if to == from + w + 1 && c == DIAGONAL_COST_CENTI && m.exit_ok(x + 1, y + 1) {
            let single = GameMap::opt_exit(m.exit_ok(x + 1, y + 1), from + w + 1, DIAGONAL_COST_CENTI);
            assert(single[0] == (to, c));
            assert(single.contains((to, c)));
        }
    }
}

/// On a generated map whose traversability flags have been recomputed, the
/// centre of every placed room is an open tile of the grid interior: carved,
/// within the one-tile margin, and unblocked. This is the per-room piece of
/// the reachability story: the adjacency model can step onto every room's
/// centre, the corridors' endpoints.
pub proof fn lemma_room_center_is_open(m: GameMap, k: int)
    requires
        m.wf(),
        0 <= k < m.rooms@.len(),
        m.room_in_interior(m.rooms@[k]),
        m.room_interior_nonwall(m.rooms@[k]),
        forall|i: int|
            0 <= i < m.tiles@.len() ==> m.blocked@[i] == (m.tiles@[i] == TileType::Wall),
    ensures
        m.exit_ok(m.rooms@[k].spec_center().0, m.rooms@[k].spec_center().1),
{
    let room = m.rooms@[k];
    lemma_center_in_interior(room);
    let cx = room.spec_center().0;
    let cy = room.spec_center().1;
    lemma_grid_idx_in_range(m.width as int, m.height as int, cx, cy);
    assert(m.tiles@[grid_idx(m.width as int, cx, cy)] != TileType::Wall);
}

/// `lists_exit` is symmetric on the open interior: if `b` is a listed exit of
/// `a` with some cost, and `a`'s own coordinate is a valid exit (interior and
/// unblocked), then `a` is a listed exit of `b` with the same cost.
pub proof fn lemma_exits_symmetric(m: GameMap, a: int, b: int, cost: u32)
    requires
        m.wf(),
        0 <= a < m.width * m.height,
        m.exit_ok(a % (m.width as int), a / (m.width as int)),
        m.lists_exit(a, b, cost),
    ensures
        m.lists_exit(b, a, cost),
{
    let w = m.width as int;
    let h = m.height as int;
    lemma_grid_decode(w, h, a);
    let x = a % w;
    let y = a / w;
    if b == a - 1 && cost == CARDINAL_COST_CENTI && m.exit_ok(x - 1, y) {
        lemma_neighbor_idx(w, h, x, y, -1, 0);
        lemma_grid_encode_decode(w, x - 1, y);
    } else if b == a + 1 && cost == CARDINAL_COST_CENTI && m.exit_ok(x + 1, y) {
        lemma_neighbor_idx(w, h, x, y, 1, 0);
        lemma_grid_encode_decode(w, x + 1, y);
    } else if b == a - w && cost == CARDINAL_COST_CENTI && m.exit_ok(x, y - 1) {
        lemma_neighbor_idx(w, h, x, y, 0, -1);
        lemma_grid_encode_decode(w, x, y - 1);
    } else if b == a + w && cost == CARDINAL_COST_CENTI && m.exit_ok(x, y + 1) {
        lemma_neighbor_idx(w, h, x, y, 0, 1);
        lemma_grid_encode_decode(w, x, y + 1);
    } else if b == a - w - 1 && cost == DIAGONAL_COST_CENTI && m.exit_ok(x - 1, y - 1) {
        lemma_neighbor_idx(w, h, x, y, -1, -1);
        lemma_grid_encode_decode(w, x - 1, y - 1);
    } else if b == a - w + 1 && cost == DIAGONAL_COST_CENTI && m.exit_ok(x + 1, y - 1) {
        lemma_neighbor_idx(w, h, x, y, 1, -1);
        lemma_grid_encode_decode(w, x + 1, y - 1);
    } else if b == a + w - 1 && cost == DIAGONAL_COST_CENTI && m.exit_ok(x - 1, y + 1) {
        lemma_neighbor_idx(w, h, x, y, -1, 1);
        lemma_grid_encode_decode(w, x - 1, y + 1);
    } else {
        lemma_neighbor_idx(w, h, x, y, 1, 1);
        lemma_grid_encode_decode(w, x + 1, y + 1);
    }
}

/// A tile that has been perceived and is a wall; the renderer picks the wall
/// glyph from the pattern these make around a cell.
pub fn is_revealed_and_wall(map: &GameMap, x: i32, y: i32) -> (r: bool)
    requires
        map.wf(),
        map.in_grid(x as int, y as int),
    ensures
        r == map.revealed_wall_at(x as int, y as int),
{
    let idx = map.xy_idx(x, y);
    map.tiles[idx] == TileType::Wall && map.revealed_tiles[idx]
}

impl GameMap {
    pub open spec fn revealed_wall_at(self, x: int, y: int) -> bool {
        &&& self.tiles@[grid_idx(self.width as int, x, y)] == TileType::Wall
        &&& self.revealed_tiles@[grid_idx(self.width as int, x, y)]
    }

    /// The four-bit pattern of revealed walls around a cell: north is 1, south
    /// is 2, west is 4, east is 8.
    pub open spec fn wall_mask(self, x: int, y: int) -> int {
        (if self.revealed_wall_at(x, y - 1) { 1int } else { 0int })
            + (if self.revealed_wall_at(x, y + 1) { 2int } else { 0int })
            + (if self.revealed_wall_at(x - 1, y) { 4int } else { 0int })
            + (if self.revealed_wall_at(x + 1, y) { 8int } else { 0int })
    }

    /// The glyph drawn for a wall cell: one distinguishable code page 437 box
    /// drawing character for each of the sixteen neighbor-wall patterns, and a
    /// plain wall block at the grid edge.
    pub open spec fn wall_glyph_spec(self, x: int, y: int) -> u16 {
        if !(1 <= x <= self.width - 2 && 1 <= y <= self.height - 2) {
            35u16
        } else {
            Self::glyph_for_mask(self.wall_mask(x, y))
        }
    }

    pub open spec fn glyph_for_mask(mask: int) -> u16 {
        if mask == 0 {
            9u16
        } else if mask == 1 {
            208u16
        } else if mask == 2 {
            210u16
        } else if mask == 3 {
            186u16
        } else if mask == 4 {
            181u16
        } else if mask == 5 {
            188u16
        } else if mask == 6 {
            187u16
        } else if mask == 7 {
            185u16
        } else if mask == 8 {
            198u16
        } else if mask == 9 {
            200u16
        } else if mask == 10 {
            201u16
        } else if mask == 11 {
            204u16
        } else if mask == 12 {
            205u16
        } else if mask == 13 {
            202u16
        } else if mask == 14 {
            203u16
        } else if mask == 15 {
            206u16
        } else {
            35u16
        }
    }
}

/// Picks the box-drawing glyph for a wall tile from the revealed walls around
/// it; cells on the grid edge draw the plain wall block.
pub fn wall_glyph(map: &GameMap, x: i32, y: i32) -> (r: u16)
    requires
        map.wf(),
    ensures
        r == map.wall_glyph_spec(x as int, y as int),
{
    if x < 1 || x > map.width - 2 || y < 1 || y > map.height - 2 {
        return 35;
    }
    let mut mask: u8 = 0;
    if is_revealed_and_wall(map, x, y - 1) {
        mask += 1;
    }
    if is_revealed_and_wall(map, x, y + 1) {
        mask += 2;
    }
    if is_revealed_and_wall(map, x - 1, y) {
        mask += 4;
    }
    if is_revealed_and_wall(map, x + 1, y) {
        mask += 8;
    }
    proof {
        assert(mask as int == map.wall_mask(x as int, y as int));
    }
    match mask {
        0 => 9,
        1 => 208,
        2 => 210,
        3 => 186,
        4 => 181,
        5 => 188,
        6 => 187,
        7 => 185,
        8 => 198,
        9 => 200,
        10 => 201,
        11 => 204,
        12 => 205,
        13 => 202,
        14 => 203,
        15 => 206,
        16..=255 => 35,
    }
}

/// The grid width the dungeon uses per level.
pub const MAPWIDTH: usize = 80;

/// The grid height the dungeon uses per level.
pub const MAPHEIGHT: usize = 40;

/// Tiles per level.
pub const MAPCOUNT: usize = MAPHEIGHT * MAPWIDTH;

/// A wall-filled tile array of the given extent.
fn filled_tiles(n: usize) -> (r: Vec<TileType>)
    ensures
        r@.len() == n,
        forall|i: int| 0 <= i < n ==> r@[i] == TileType::Wall,
{
    let mut v: Vec<TileType> = Vec::new();
    let mut i: usize = 0;
    while i < n
        invariant
            i <= n,
            v@.len() == i,
            forall|j: int| 0 <= j < i ==> v@[j] == TileType::Wall,
        decreases n - i,
    {
        v.push(TileType::Wall);
        i += 1;
    }
    v
}

/// An all-false flag array of the given extent.
fn filled_bools(n: usize) -> (r: Vec<bool>)
    ensures
        r@.len() == n,
        forall|i: int| 0 <= i < n ==> !r@[i],
{
    let mut v: Vec<bool> = Vec::new();
    let mut i: usize = 0;
    while i < n
        invariant
            i <= n,
            v@.len() == i,
            forall|j: int| 0 <= j < i ==> !v@[j],
        decreases n - i,
    {
        v.push(false);
        i += 1;
    }
    v
}

/// An occupant index of the given extent with every list empty.
fn empty_contents(n: usize) -> (r: Vec<Vec<usize>>)
    ensures
        r@.len() == n,
        forall|i: int| 0 <= i < n ==> (#[trigger] r@[i])@.len() == 0,
{
    let mut v: Vec<Vec<usize>> = Vec::new();
    let mut i: usize = 0;
    while i < n
        invariant
            i <= n,
            v@.len() == i,
            forall|j: int| 0 <= j < i ==> (#[trigger] v@[j])@.len() == 0,
        decreases n - i,
    {
        v.push(Vec::new());
        i += 1;
    }
    v
}

/// The centre of a rectangle with at least two tiles of extent on each axis
/// lies strictly inside its interior.
pub proof fn lemma_center_in_interior(room: Rect)
    requires
        0 <= room.x1,
        room.x1 + 2 <= room.x2,
        0 <= room.y1,
        room.y1 + 2 <= room.y2,
    ensures
        room.interior_contains(room.spec_center().0, room.spec_center().1),
{
    let sx = room.x1 + room.x2;
    let sy = room.y1 + room.y2;
    vstd::arithmetic::div_mod::lemma_fundamental_div_mod(sx, 2);
    vstd::arithmetic::div_mod::lemma_fundamental_div_mod(sy, 2);
    assert(0 <= sx % 2 < 2) by (nonlinear_arith)
        requires
            0 <= sx,
    ;
    assert(0 <= sy % 2 < 2) by (nonlinear_arith)
        requires
            0 <= sy,
    ;
}

/// Both side lengths of the room lie in the sampled range.
pub open spec fn room_sides_in(room: Rect, lo: int, hi: int) -> bool {
    lo <= room.x2 - room.x1 < hi && lo <= room.y2 - room.y1 < hi
}

impl GameMap {
    /// The room stands inside the one-tile border of the grid, with at least
    /// two tiles of interior extent on each axis.
    pub open spec fn room_in_interior(self, room: Rect) -> bool {
        &&& 1 <= room.x1
        &&& room.x1 + 2 <= room.x2
        &&& room.x2 + 3 <= self.width
        &&& 1 <= room.y1
        &&& room.y1 + 2 <= room.y2
        &&& room.y2 + 3 <= self.height
    }

    /// Every tile on the grid edge is a wall: rooms and corridors are carved
    /// only strictly inside the one-tile border.
    pub open spec fn border_walls(self) -> bool {
        forall|x: int, y: int|
            self.in_grid(x, y) && (x == 0 || x == self.width - 1 || y == 0 || y == self.height
                - 1) ==> self.tiles@[#[trigger] grid_idx(self.width as int, x, y)]
                == TileType::Wall
    }

    /// Every tile of the room's interior has been carved: floor or stairs,
    /// never wall.
    pub open spec fn room_interior_nonwall(self, room: Rect) -> bool {
        forall|x: int, y: int|
            room.interior_contains(x, y) ==> self.tiles@[#[trigger] grid_idx(
                self.width as int,
                x,
                y,
            )] != TileType::Wall
    }

    /// The per-turn state is pristine: nothing revealed, visible or blocked,
    /// no occupants, no bloodstains.
    pub open spec fn per_turn_state_clear(self) -> bool {
        &&& (forall|i: int| 0 <= i < self.tiles@.len() ==> !(#[trigger] self.revealed_tiles@[i]))
        &&& (forall|i: int| 0 <= i < self.tiles@.len() ==> !(#[trigger] self.visible_tiles@[i]))
        &&& (forall|i: int| 0 <= i < self.tiles@.len() ==> !(#[trigger] self.blocked@[i]))
        &&& (forall|i: int|
            0 <= i < self.tiles@.len() ==> (#[trigger] self.tile_content@[i])@.len() == 0)
        &&& self.bloodstains@ == Set::<usize>::empty()
    }

    /// Builds a level: up to `max_rooms` candidate rooms with sides sampled in
    /// `[min_size, max_size)` and a one-tile border kept from the grid edge;
    /// a candidate overlapping an already placed room is rejected; each later
    /// accepted room is joined to the previous one by an L-shaped corridor
    /// whose leg order one random bit decides; the stairs go at the centre of
    /// the last accepted room and nowhere else, and the grid's one-tile border
    /// stays wall. If no room is accepted (only possible with a zero attempt
    /// budget) generation fails explicitly.
    pub fn generate(
        new_depth: i32,
        width: i32,
        height: i32,
        max_rooms: i32,
        min_size: i32,
        max_size: i32,
        rng: &mut RandomNumberGenerator,
    ) -> (r: Result<GameMap, MapError>)
        requires
            2 <= min_size < max_size,
            max_size + 3 <= width,
            max_size + 3 <= height,
            width * height <= usize::MAX,
            0 <= max_rooms,
        ensures
            r is Ok <==> max_rooms >= 1,
            r is Err ==> r->Err_0 == MapError::MapGenerationFailed,
            r is Ok ==> (r->Ok_0).wf(),
            r is Ok ==> (r->Ok_0).width == width && (r->Ok_0).height == height && (
            r->Ok_0).depth == new_depth,
            r is Ok ==> 1 <= (r->Ok_0).rooms@.len() <= max_rooms,
            r is Ok ==> rooms_pairwise_disjoint((r->Ok_0).rooms@),
            r is Ok ==> forall|k: int|
                0 <= k < (r->Ok_0).rooms@.len() ==> (r->Ok_0).room_in_interior(
                    #[trigger] (r->Ok_0).rooms@[k],
                ),
            r is Ok ==> forall|k: int|
                0 <= k < (r->Ok_0).rooms@.len() ==> (r->Ok_0).room_interior_nonwall(
                    #[trigger] (r->Ok_0).rooms@[k],
                ),
            r is Ok ==> (r->Ok_0).tiles@[grid_idx(
                (r->Ok_0).width as int,
                (r->Ok_0).rooms@.last().spec_center().0,
                (r->Ok_0).rooms@.last().spec_center().1,
            )] == TileType::DownStairs,
            r is Ok ==> (r->Ok_0).per_turn_state_clear(),
            r is Ok ==> (r->Ok_0).border_walls(),
            r is Ok ==> forall|k: int|
                0 <= k < (r->Ok_0).rooms@.len() ==> room_sides_in(
                    #[trigger] (r->Ok_0).rooms@[k],
                    min_size as int,
                    max_size as int,
                ),
            r is Ok ==> forall|i: int|
                0 <= i < (r->Ok_0).tiles@.len() && i != grid_idx(
                    (r->Ok_0).width as int,
                    (r->Ok_0).rooms@.last().spec_center().0,
                    (r->Ok_0).rooms@.last().spec_center().1,
                ) ==> (#[trigger] (r->Ok_0).tiles@[i]) == TileType::Wall || (
                r->Ok_0).tiles@[i] == TileType::Floor,
    {
        proof {
            lemma_grid_idx_in_range(width as int, height as int, 0, 0);
        }
        let count: usize = (width as usize) * (height as usize);
        let mut map = GameMap {
            tiles: filled_tiles(count),
            rooms: Vec::new(),
            width,
            height,
            revealed_tiles: filled_bools(count),
            visible_tiles: filled_bools(count),
            blocked: filled_bools(count),
            depth: new_depth,
            bloodstains: HashSet::new(),
            tile_content: empty_contents(count),
        };

        proof {
            assert forall|px: int, py: int| map.in_grid(px, py) implies map.tiles@[
                #[trigger] grid_idx(map.width as int, px, py)
            ] == TileType::Wall by {
                lemma_grid_idx_in_range(map.width as int, map.height as int, px, py);
            }
        }
        let mut attempt: i32 = 0;
        while attempt < max_rooms
            invariant
                2 <= min_size < max_size,
                max_size + 3 <= width,
                max_size + 3 <= height,
                width * height <= usize::MAX,
                0 <= attempt <= max_rooms,
                map.wf(),
                map.width == width,
                map.height == height,
                map.depth == new_depth,
                map.rooms@.len() <= attempt,
                attempt >= 1 ==> map.rooms@.len() >= 1,
                rooms_pairwise_disjoint(map.rooms@),
                forall|k: int|
                    0 <= k < map.rooms@.len() ==> map.room_in_interior(#[trigger] map.rooms@[k]),
                forall|k: int|
                    0 <= k < map.rooms@.len() ==> map.room_interior_nonwall(
                        #[trigger] map.rooms@[k],
                    ),
                forall|k: int|
                    0 <= k < map.rooms@.len() ==> room_sides_in(
                        #[trigger] map.rooms@[k],
                        min_size as int,
                        max_size as int,
                    ),
                map.per_turn_state_clear(),
                map.border_walls(),
                forall|i: int|
                    0 <= i < map.tiles@.len() ==> (#[trigger] map.tiles@[i]) == TileType::Wall
                        || map.tiles@[i] == TileType::Floor,
            decreases max_rooms - attempt,
        {
            let w = rng_range(rng, min_size, max_size);
            let h = rng_range(rng, min_size, max_size);
            let x = rng_range(rng, 2, width - w - 1) - 1;
            let y = rng_range(rng, 2, height - h - 1) - 1;
            let new_room = Rect::new(x, y, w, h);

            let mut ok: bool = true;
            let mut ri: usize = 0;
            while ri < map.rooms.len()
                invariant
                    ri <= map.rooms@.len(),
                    ok <==> (forall|j: int|
                        0 <= j < ri ==> !new_room.overlaps(#[trigger] map.rooms@[j])),
                decreases map.rooms@.len() - ri,
            {
                let other = map.rooms[ri];
                if new_room.intersect(&other) {
                    ok = false;
                }
                ri += 1;
            }

            if ok {
                map.apply_room_to_map(&new_room);
                proof {
                    assert forall|px: int, py: int|
                        new_room.interior_contains(px, py) implies map.in_grid(px, py) by {}
                }
                if map.rooms.len() != 0 {
                    let (new_x, new_y) = new_room.center();
                    let prev = map.rooms[map.rooms.len() - 1];
                    proof {
                        lemma_center_in_interior(new_room);
                        lemma_center_in_interior(prev);
                    }
                    let (prev_x, prev_y) = prev.center();
                    let coin = rng_range(rng, 0, 2);
                    if coin == 1 {
                        map.apply_horizontal_tunnel(prev_x, new_x, prev_y);
                        map.apply_vertical_tunnel(prev_y, new_y, new_x);
                    } else {
                        map.apply_vertical_tunnel(prev_y, new_y, prev_x);
                        map.apply_horizontal_tunnel(prev_x, new_x, new_y);
                    }
                }
                proof {
                    assert forall|px: int, py: int|
                        new_room.interior_contains(px, py) implies map.tiles@[#[trigger] grid_idx(
                        map.width as int,
                        px,
                        py,
                    )] != TileType::Wall by {
                        lemma_grid_idx_in_range(map.width as int, map.height as int, px, py);
                    }
                    assert forall|k: int|
                        0 <= k < map.rooms@.len() implies map.room_interior_nonwall(
                        #[trigger] map.rooms@[k],
                    ) by {
                        assert forall|px: int, py: int|
                            map.rooms@[k].interior_contains(px, py) implies map.tiles@[
                            #[trigger] grid_idx(map.width as int, px, py)
                        ] != TileType::Wall by {
                            lemma_grid_idx_in_range(map.width as int, map.height as int, px, py);
                        }
                    }
                    assert forall|px: int, py: int|
                        map.in_grid(px, py) && (px == 0 || px == map.width - 1 || py == 0 || py
                            == map.height - 1) implies map.tiles@[#[trigger] grid_idx(
                        map.width as int,
                        px,
                        py,
                    )] == TileType::Wall by {
                        lemma_grid_idx_in_range(map.width as int, map.height as int, px, py);
                    }
                }
                map.rooms.push(new_room);
            }
            attempt += 1;
        }

        if map.rooms.len() == 0 {
            return Err(MapError::MapGenerationFailed);
        }

        let last = map.rooms[map.rooms.len() - 1];
        proof {
            lemma_center_in_interior(last);
        }
        let (cx, cy) = last.center();
        let stairs_idx = map.xy_idx(cx, cy);
        map.tiles[stairs_idx] = TileType::DownStairs;
        proof {
            assert forall|k: int|
                0 <= k < map.rooms@.len() implies map.room_interior_nonwall(
                #[trigger] map.rooms@[k],
            ) by {
                assert forall|px: int, py: int|
                    map.rooms@[k].interior_contains(px, py) implies map.tiles@[#[trigger] grid_idx(
                    map.width as int,
                    px,
                    py,
                )] != TileType::Wall by {
                    lemma_grid_idx_in_range(map.width as int, map.height as int, px, py);
                }
            }
            assert forall|px: int, py: int|
                map.in_grid(px, py) && (px == 0 || px == map.width - 1 || py == 0 || py
                    == map.height - 1) implies map.tiles@[#[trigger] grid_idx(
                map.width as int,
                px,
                py,
            )] == TileType::Wall by {
                lemma_grid_idx_in_range(map.width as int, map.height as int, px, py);
                lemma_grid_idx_injective(map.width as int, px, py, cx as int, cy as int);
            }
            assert forall|i: int|
                0 <= i < map.tiles@.len() && i != stairs_idx implies (#[trigger] map.tiles@[i])
                    == TileType::Wall || map.tiles@[i] == TileType::Floor by {}
        }
        Ok(map)
    }

    /// Builds the level for a descent to the given depth, on the fixed grid
    /// extent and with the fixed room budget and size range of the dungeon.
    pub fn new_map_rooms_and_corridors(new_depth: i32) -> (m: GameMap)
        ensures
            m.wf(),
            m.width == MAPWIDTH && m.height == MAPHEIGHT && m.depth == new_depth,
            1 <= m.rooms@.len() <= 30,
            rooms_pairwise_disjoint(m.rooms@),
            forall|k: int|
                0 <= k < m.rooms@.len() ==> m.room_in_interior(#[trigger] m.rooms@[k]),
            forall|k: int|
                0 <= k < m.rooms@.len() ==> m.room_interior_nonwall(#[trigger] m.rooms@[k]),
            m.tiles@[grid_idx(
                m.width as int,
                m.rooms@.last().spec_center().0,
                m.rooms@.last().spec_center().1,
            )] == TileType::DownStairs,
            m.per_turn_state_clear(),
            m.border_walls(),
            forall|k: int|
                0 <= k < m.rooms@.len() ==> room_sides_in(#[trigger] m.rooms@[k], 6, 10),
            forall|i: int|
                0 <= i < m.tiles@.len() && i != grid_idx(
                    m.width as int,
                    m.rooms@.last().spec_center().0,
                    m.rooms@.last().spec_center().1,
                ) ==> (#[trigger] m.tiles@[i]) == TileType::Wall || m.tiles@[i]
                    == TileType::Floor,
    {
        let mut rng = rng_new();
        let r = GameMap::generate(
            new_depth,
            MAPWIDTH as i32,
            MAPHEIGHT as i32,
            30,
            6,
            10,
            &mut rng,
        );
        match r {
            Ok(m) => m,
            Err(_) => vstd::pervasive::unreached(),
        }
    }
}

} // verus!
