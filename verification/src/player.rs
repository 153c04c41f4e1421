use vstd::prelude::*;

use crate::combat::Position;
use crate::map::{grid_idx, GameMap, TileType};

verus! {

/// Moves the player by the given delta when the destination names a tile of
/// the grid and that tile is not a wall; otherwise the position is unchanged.
/// The bounds test comes first, so no out-of-grid coordinate is ever converted
/// to an index.
pub fn try_move_player(delta_x: i32, delta_y: i32, map: &GameMap, pos: &mut Position)
    requires
        map.wf(),
    ensures
        ({
            let nx = old(pos).x + delta_x;
            let ny = old(pos).y + delta_y;
            if map.in_grid(nx, ny) && map.tiles@[grid_idx(map.width as int, nx, ny)]
                != TileType::Wall {
                final(pos).x == nx && final(pos).y == ny
            } else {
                *final(pos) == *old(pos)
            }
        }),
{
    let nx64 = pos.x as i64 + delta_x as i64;
    let ny64 = pos.y as i64 + delta_y as i64;
    if 0 <= nx64 && nx64 < map.width as i64 && 0 <= ny64 && ny64 < map.height as i64 {
        let nx = nx64 as i32;
        let ny = ny64 as i32;
        let idx = map.xy_idx(nx, ny);
        if map.tiles[idx] != TileType::Wall {
            pos.x = nx;
            pos.y = ny;
        }
    }
}

} // verus!
