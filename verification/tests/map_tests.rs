use bracket_random::prelude::RandomNumberGenerator;
use dungeon_core::map::{
    is_inbounds, wall_glyph, GameMap, MapError, TileType, MAPCOUNT, MAPHEIGHT, MAPWIDTH,
};
use dungeon_core::rect::Rect;
use std::collections::HashSet;

fn blank_map(width: i32, height: i32) -> GameMap {
    let count = (width as usize) * (height as usize);
    GameMap {
        tiles: vec![TileType::Wall; count],
        rooms: Vec::new(),
        width,
        height,
        revealed_tiles: vec![false; count],
        visible_tiles: vec![false; count],
        blocked: vec![false; count],
        depth: 1,
        bloodstains: HashSet::new(),
        tile_content: vec![Vec::new(); count],
    }
}

fn open_map(width: i32, height: i32) -> GameMap {
    let mut m = blank_map(width, height);
    for y in 1..height - 1 {
        for x in 1..width - 1 {
            let idx = m.xy_idx(x, y);
            m.tiles[idx] = TileType::Floor;
        }
    }
    m.populate_blocked();
    m
}

#[test]
fn new_map_has_rooms_stairs_and_fixed_extent() {
    let m = GameMap::new_map_rooms_and_corridors(3);
    assert_eq!(m.width as usize, MAPWIDTH);
    assert_eq!(m.height as usize, MAPHEIGHT);
    assert_eq!(m.depth, 3);
    assert_eq!(m.tiles.len(), MAPCOUNT);
    assert!(!m.rooms.is_empty());
    assert!(m.rooms.len() <= 30);
    let (cx, cy) = m.rooms[m.rooms.len() - 1].center();
    let stairs_idx = m.xy_idx(cx, cy);
    assert_eq!(m.tiles[stairs_idx], TileType::DownStairs);
}

#[test]
fn generated_rooms_are_pairwise_disjoint() {
    let m = GameMap::new_map_rooms_and_corridors(1);
    for i in 0..m.rooms.len() {
        for j in 0..m.rooms.len() {
            if i != j {
                assert!(!m.rooms[i].intersect(&m.rooms[j]));
            }
        }
    }
}

#[test]
fn generated_rooms_stay_inside_the_border() {
    let mut rng = RandomNumberGenerator::seeded(42);
    let m = GameMap::generate(1, 60, 50, 25, 4, 9, &mut rng).unwrap();
    // a 25-attempt run on a 60x50 grid accepts more than one room, so the
    // sampler really varies its draws
    assert!(m.rooms.len() >= 2);
    for room in &m.rooms {
        assert!(room.x1 >= 1);
        assert!(room.y1 >= 1);
        assert!(room.x2 <= m.width - 3);
        assert!(room.y2 <= m.height - 3);
        assert!(room.x2 - room.x1 >= 4);
        assert!(room.x2 - room.x1 < 9);
    }
}

#[test]
fn generation_with_zero_attempts_fails_explicitly() {
    let mut rng = RandomNumberGenerator::seeded(7);
    let r = GameMap::generate(1, 40, 40, 0, 4, 8, &mut rng);
    assert_eq!(r.err(), Some(MapError::MapGenerationFailed));
}

#[test]
fn generation_with_one_attempt_places_a_room() {
    let mut rng = RandomNumberGenerator::seeded(11);
    let m = GameMap::generate(1, 40, 40, 1, 4, 8, &mut rng).unwrap();
    assert_eq!(m.rooms.len(), 1);
}

#[test]
fn room_interiors_are_carved_to_floor() {
    let mut rng = RandomNumberGenerator::seeded(5);
    let m = GameMap::generate(2, 50, 40, 12, 5, 9, &mut rng).unwrap();
    for room in &m.rooms {
        for y in room.y1 + 1..=room.y2 {
            for x in room.x1 + 1..=room.x2 {
                let idx = m.xy_idx(x, y);
                assert_ne!(m.tiles[idx], TileType::Wall);
            }
        }
    }
}

#[test]
fn xy_idx_is_row_major() {
    let m = blank_map(7, 5);
    assert_eq!(m.xy_idx(0, 0), 0);
    assert_eq!(m.xy_idx(6, 0), 6);
    assert_eq!(m.xy_idx(0, 1), 7);
    assert_eq!(m.xy_idx(3, 2), 17);
}

#[test]
fn try_xy_idx_rejects_out_of_grid_coordinates() {
    let m = blank_map(7, 5);
    assert_eq!(m.try_xy_idx(3, 2), Ok(17));
    assert_eq!(m.try_xy_idx(-1, 2), Err(MapError::OutOfBoundsIndex));
    assert_eq!(m.try_xy_idx(7, 0), Err(MapError::OutOfBoundsIndex));
    assert_eq!(m.try_xy_idx(0, 5), Err(MapError::OutOfBoundsIndex));
}

#[test]
fn is_inbounds_matches_the_grid() {
    let m = blank_map(7, 5);
    assert!(is_inbounds(&m, 0, 0));
    assert!(is_inbounds(&m, 6, 4));
    assert!(!is_inbounds(&m, 7, 4));
    assert!(!is_inbounds(&m, 0, -1));
}

#[test]
fn populate_blocked_mirrors_walls() {
    let mut m = blank_map(6, 6);
    let floor_idx = m.xy_idx(2, 3);
    m.tiles[floor_idx] = TileType::Floor;
    m.populate_blocked();
    for idx in 0..m.tiles.len() {
        assert_eq!(m.blocked[idx], m.tiles[idx] == TileType::Wall);
    }
    assert!(!m.blocked[floor_idx]);
}

#[test]
fn clear_content_index_empties_every_occupant_list() {
    let mut m = blank_map(5, 4);
    m.tile_content[3].push(17);
    m.tile_content[7].push(4);
    m.tile_content[7].push(9);
    m.clear_content_index();
    for idx in 0..m.tiles.len() {
        assert!(m.tile_content_at(idx).is_empty());
    }
}

#[test]
fn revealed_is_monotonic_across_turns() {
    let mut m = blank_map(5, 5);
    let n = m.tiles.len();
    let mut seen = vec![false; n];
    seen[6] = true;
    seen[7] = true;
    m.set_visibility(&seen);
    assert!(m.revealed_tiles[6] && m.revealed_tiles[7]);
    assert!(m.visible_tiles[6]);
    // later turns: visibility moves away, revealed stays
    let mut seen2 = vec![false; n];
    seen2[8] = true;
    m.set_visibility(&seen2);
    m.clear_content_index();
    m.populate_blocked();
    assert!(m.revealed_tiles[6] && m.revealed_tiles[7] && m.revealed_tiles[8]);
    assert!(!m.visible_tiles[6]);
    assert!(m.visible_tiles[8]);
    let seen3 = vec![false; n];
    m.set_visibility(&seen3);
    assert!(m.revealed_tiles[6] && m.revealed_tiles[7] && m.revealed_tiles[8]);
}

#[test]
fn is_opaque_means_wall() {
    let mut m = blank_map(4, 4);
    let idx = m.xy_idx(1, 1);
    m.tiles[idx] = TileType::Floor;
    assert!(!m.is_opaque(idx));
    assert!(m.is_opaque(m.xy_idx(2, 2)));
}

#[test]
fn interior_cell_of_an_open_map_has_eight_exits() {
    let m = open_map(9, 9);
    let idx = m.xy_idx(4, 4);
    let exits = m.get_available_exits(idx);
    assert_eq!(exits.len(), 8);
    let set: HashSet<(usize, u32)> = exits.iter().copied().collect();
    let w = 9usize;
    assert!(set.contains(&(idx - 1, 100)));
    assert!(set.contains(&(idx + 1, 100)));
    assert!(set.contains(&(idx - w, 100)));
    assert!(set.contains(&(idx + w, 100)));
    assert!(set.contains(&(idx - w - 1, 145)));
    assert!(set.contains(&(idx - w + 1, 145)));
    assert!(set.contains(&(idx + w - 1, 145)));
    assert!(set.contains(&(idx + w + 1, 145)));
}

#[test]
fn blocked_neighbors_are_not_exits() {
    let mut m = open_map(9, 9);
    let wall_idx = m.xy_idx(5, 4);
    m.tiles[wall_idx] = TileType::Wall;
    m.populate_blocked();
    let exits = m.get_available_exits(m.xy_idx(4, 4));
    assert_eq!(exits.len(), 7);
    assert!(exits.iter().all(|&(to, _)| to != wall_idx));
}

#[test]
fn exits_are_symmetric_on_the_open_interior() {
    let m = open_map(12, 10);
    for y in 1..9 {
        for x in 1..11 {
            let a = m.xy_idx(x, y);
            for &(b, cost) in m.get_available_exits(a).iter() {
                let back = m.get_available_exits(b);
                assert!(
                    back.iter().any(|&(to, c)| to == a && c == cost),
                    "exit {} -> {} with cost {} has no mirror",
                    a,
                    b,
                    cost
                );
            }
        }
    }
}

#[test]
fn pathing_distance_squared_is_euclidean() {
    let m = blank_map(20, 20);
    let a = m.xy_idx(2, 3);
    let b = m.xy_idx(5, 7);
    assert_eq!(m.get_pathing_distance_squared(a, b), 25);
    assert_eq!(m.get_pathing_distance_squared(a, a), 0);
    let c = m.xy_idx(3, 3);
    assert_eq!(m.get_pathing_distance_squared(a, c), 1);
}

#[test]
fn dimensions_report_the_grid_extent() {
    let m = blank_map(13, 9);
    assert_eq!(m.dimensions(), (13, 9));
}

#[test]
fn every_floor_tile_is_reachable_from_the_first_room_center() {
    let mut rng = RandomNumberGenerator::seeded(1234);
    let mut m = GameMap::generate(1, 80, 40, 30, 6, 10, &mut rng).unwrap();
    m.populate_blocked();
    let start = {
        let (cx, cy) = m.rooms[0].center();
        m.xy_idx(cx, cy)
    };
    // flood fill over the adjacency model's exits
    let mut reached = vec![false; m.tiles.len()];
    let mut frontier = vec![start];
    reached[start] = true;
    while let Some(at) = frontier.pop() {
        for &(to, _) in m.get_available_exits(at).iter() {
            if !reached[to] {
                reached[to] = true;
                frontier.push(to);
            }
        }
    }
    let non_wall = m
        .tiles
        .iter()
        .filter(|&&t| t != TileType::Wall)
        .count();
    let reached_count = reached.iter().filter(|&&r| r).count();
    assert_eq!(reached_count, non_wall);
}

#[test]
fn wall_glyph_distinguishes_the_sixteen_patterns() {
    // a 5x5 map, fully revealed, all walls: the centre sees walls on all four
    // sides
    let mut m = blank_map(5, 5);
    let n = m.tiles.len();
    m.set_visibility(&vec![true; n]);
    assert_eq!(wall_glyph(&m, 2, 2), 206);
    // at the edge the plain wall block is drawn
    assert_eq!(wall_glyph(&m, 0, 2), 35);
    // carve the north and south neighbors to floor: east-west wall remains
    let north = m.xy_idx(2, 1);
    let south = m.xy_idx(2, 3);
    m.tiles[north] = TileType::Floor;
    m.tiles[south] = TileType::Floor;
    assert_eq!(wall_glyph(&m, 2, 2), 205);
    // carve east and west too: a free-standing pillar
    let west = m.xy_idx(1, 2);
    let east = m.xy_idx(3, 2);
    m.tiles[west] = TileType::Floor;
    m.tiles[east] = TileType::Floor;
    assert_eq!(wall_glyph(&m, 2, 2), 9);
    // only a wall to the north
    m.tiles[north] = TileType::Wall;
    assert_eq!(wall_glyph(&m, 2, 2), 208);
    // walls to the north and west
    m.tiles[west] = TileType::Wall;
    assert_eq!(wall_glyph(&m, 2, 2), 188);
}

#[test]
fn unrevealed_walls_do_not_shape_the_glyph() {
    let mut m = blank_map(5, 5);
    // nothing revealed: the mask is zero, a pillar
    assert_eq!(wall_glyph(&m, 2, 2), 9);
    let n = m.tiles.len();
    m.set_visibility(&vec![true; n]);
    assert_eq!(wall_glyph(&m, 2, 2), 206);
}

#[test]
fn rect_center_and_intersect() {
    let a = Rect::new(1, 1, 6, 6);
    assert_eq!(a.center(), (4, 4));
    let b = Rect::new(7, 7, 4, 4);
    assert!(a.intersect(&b)); // edge-touching counts as overlap
    let c = Rect::new(8, 8, 3, 3);
    assert!(!a.intersect(&c));
    assert!(c.intersect(&c));
}

#[test]
fn generation_is_deterministic_for_a_fixed_seed() {
    let mut rng1 = RandomNumberGenerator::seeded(99);
    let mut rng2 = RandomNumberGenerator::seeded(99);
    let a = GameMap::generate(4, 70, 45, 20, 5, 9, &mut rng1).unwrap();
    let b = GameMap::generate(4, 70, 45, 20, 5, 9, &mut rng2).unwrap();
    assert_eq!(a.tiles, b.tiles);
    assert_eq!(a.rooms, b.rooms);
}

#[test]
fn border_tiles_stay_wall() {
    let mut rng = RandomNumberGenerator::seeded(21);
    let m = GameMap::generate(1, 48, 36, 18, 5, 9, &mut rng).unwrap();
    for x in 0..m.width {
        assert_eq!(m.tiles[m.xy_idx(x, 0)], TileType::Wall);
        assert_eq!(m.tiles[m.xy_idx(x, m.height - 1)], TileType::Wall);
    }
    for y in 0..m.height {
        assert_eq!(m.tiles[m.xy_idx(0, y)], TileType::Wall);
        assert_eq!(m.tiles[m.xy_idx(m.width - 1, y)], TileType::Wall);
    }
}

#[test]
fn exactly_one_stairs_tile() {
    let m = GameMap::new_map_rooms_and_corridors(2);
    let stairs = m
        .tiles
        .iter()
        .filter(|&&t| t == TileType::DownStairs)
        .count();
    assert_eq!(stairs, 1);
    let (cx, cy) = m.rooms[m.rooms.len() - 1].center();
    assert_eq!(m.tiles[m.xy_idx(cx, cy)], TileType::DownStairs);
}

#[test]
fn fixed_generator_room_sides_are_in_range() {
    let m = GameMap::new_map_rooms_and_corridors(1);
    for room in &m.rooms {
        assert!((6..10).contains(&(room.x2 - room.x1)));
        assert!((6..10).contains(&(room.y2 - room.y1)));
    }
}

#[test]
fn exits_list_no_neighbor_twice() {
    let mut m = open_map(9, 9);
    // wall off most neighbors so fewer than eight remain
    for (x, y) in [(3, 3), (4, 3), (5, 3), (3, 4), (3, 5), (4, 5)] {
        let idx = m.xy_idx(x, y);
        m.tiles[idx] = TileType::Wall;
    }
    m.populate_blocked();
    let exits = m.get_available_exits(m.xy_idx(4, 4));
    assert_eq!(exits.len(), 2);
    let mut seen: Vec<usize> = Vec::new();
    for &(to, _) in exits.iter() {
        assert!(!seen.contains(&to));
        seen.push(to);
    }
}
