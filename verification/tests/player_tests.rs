use dungeon_core::combat::Position;
use dungeon_core::map::{GameMap, TileType};
use dungeon_core::player::try_move_player;
use std::collections::HashSet;

fn corridor_map() -> GameMap {
    // 7x5, walls everywhere but a floor corridor on row 2, columns 1..=5
    let width = 7i32;
    let height = 5i32;
    let count = (width * height) as usize;
    let mut m = GameMap {
        tiles: vec![TileType::Wall; count],
        rooms: Vec::new(),
        width,
        height,
        revealed_tiles: vec![false; count],
        visible_tiles: vec![false; count],
        blocked: vec![false; count],
        depth: 1,
        bloodstains: HashSet::new(),
        tile_content: vec![Vec::new(); count],
    };
    for x in 1..=5 {
        let idx = m.xy_idx(x, 2);
        m.tiles[idx] = TileType::Floor;
    }
    m
}

#[test]
fn moving_onto_floor_updates_the_position() {
    let m = corridor_map();
    let mut pos = Position { x: 2, y: 2 };
    try_move_player(1, 0, &m, &mut pos);
    assert_eq!((pos.x, pos.y), (3, 2));
    try_move_player(-1, 0, &m, &mut pos);
    assert_eq!((pos.x, pos.y), (2, 2));
}

#[test]
fn moving_into_a_wall_is_rejected() {
    let m = corridor_map();
    let mut pos = Position { x: 2, y: 2 };
    try_move_player(0, 1, &m, &mut pos);
    assert_eq!((pos.x, pos.y), (2, 2));
    try_move_player(0, -1, &m, &mut pos);
    assert_eq!((pos.x, pos.y), (2, 2));
}

#[test]
fn moving_off_the_grid_is_rejected() {
    let m = corridor_map();
    let mut pos = Position { x: 1, y: 2 };
    // two steps west would leave through the wall; even with the wall carved,
    // the border check holds
    try_move_player(-5, 0, &m, &mut pos);
    assert_eq!((pos.x, pos.y), (1, 2));
}
