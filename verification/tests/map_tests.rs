use hexworld::height::HeightMap;
use hexworld::hex::Hex;
use hexworld::map::build_attempt;
use hexworld::map::build_map;
use hexworld::map::MapError;
use hexworld::map::Tile;
use hexworld::map::TileMap;
use hexworld::map::TileType;
use hexworld::map::DEFAULT_BUILD_ATTEMPTS;
use hexworld::map::DEFAULT_GRID_SIZE;
use hexworld::map::DEFAULT_WALKABLE_THRESHOLD;
use hexworld::map::DEFAULT_WATER_LEVEL;
use hexworld::map::PLAYER_DRAW_ORDER;

fn grass(q: i32, r: i32) -> Tile {
    Tile { hex: Hex::new(q, r), tile_type: TileType::Grass, walkable: true, revealed: false }
}

fn water(q: i32, r: i32) -> Tile {
    Tile { hex: Hex::new(q, r), tile_type: TileType::Water, walkable: false, revealed: false }
}

#[test]
fn walkable_follows_kind() {
    assert!(!TileType::Water.walkable());
    assert!(TileType::Grass.walkable());
    assert!(TileType::Exit.walkable());
}

#[test]
fn draw_order_is_water_grass_exit_player() {
    assert!(TileType::Water.draw_order() < TileType::Grass.draw_order());
    assert!(TileType::Grass.draw_order() < TileType::Exit.draw_order());
    assert!(TileType::Exit.draw_order() < PLAYER_DRAW_ORDER);
}

#[test]
fn build_attempt_is_deterministic() {
    let a = build_attempt(42, 40, 40, DEFAULT_WATER_LEVEL);
    let b = build_attempt(42, 40, 40, DEFAULT_WATER_LEVEL);
    assert_eq!(a.tiles.len(), 39 * 39);
    assert_eq!(a.tiles, b.tiles);
}

#[test]
fn build_attempt_classifies_against_the_field() {
    let seed = 7;
    let t = build_attempt(seed, 40, 40, DEFAULT_WATER_LEVEL);
    let hm = HeightMap::new(40, 40, seed);
    for (i, tile) in t.tiles.iter().enumerate() {
        let x = (i % 39) as u32;
        let y = (i / 39) as u32;
        let elev = hm.get(x, y);
        if elev < DEFAULT_WATER_LEVEL {
            assert_eq!(tile.tile_type, TileType::Water);
            assert!(!tile.walkable);
        } else {
            assert_eq!(tile.tile_type, TileType::Grass);
            assert!(tile.walkable);
        }
        assert!(!tile.revealed);
        let expected_hex = Hex::new(x as i32, y as i32 - (x as i32) / 2);
        assert_eq!(tile.hex, expected_hex);
    }
}

#[test]
fn build_map_meets_the_walkable_threshold() {
    let t = build_map(
        DEFAULT_GRID_SIZE,
        DEFAULT_GRID_SIZE,
        DEFAULT_WATER_LEVEL,
        DEFAULT_WALKABLE_THRESHOLD,
        DEFAULT_BUILD_ATTEMPTS,
    )
    .unwrap();
    assert!(t.count_walkable() >= DEFAULT_WALKABLE_THRESHOLD);
    assert_eq!(t.tiles.len(), 39 * 39);
}

#[test]
fn build_map_with_zero_threshold_always_succeeds() {
    // Every attempt meets a zero threshold, so one attempt is enough.
    assert!(build_map(4, 4, DEFAULT_WATER_LEVEL, 0, 1).is_ok());
}

#[test]
fn build_map_with_no_attempts_is_exhausted() {
    let res = build_map(40, 40, DEFAULT_WATER_LEVEL, 250, 0);
    assert_eq!(res.unwrap_err(), MapError::GenerationExhausted);
}

#[test]
fn build_map_with_unreachable_threshold_is_exhausted() {
    // A 10x10 grid has 81 cells; 500 walkable ones can never exist.
    let res = build_map(10, 10, DEFAULT_WATER_LEVEL, 500, 3);
    assert_eq!(res.unwrap_err(), MapError::GenerationExhausted);
}

#[test]
fn lookup_finds_tiles_by_coordinate() {
    let tm = TileMap { tiles: vec![grass(0, 0), water(1, 0), grass(0, 1)] };
    assert_eq!(tm.lookup(Hex::new(1, 0)), Some(1));
    assert_eq!(tm.lookup(Hex::new(0, 1)), Some(2));
    assert_eq!(tm.lookup(Hex::new(5, 5)), None);
}

#[test]
fn reveal_around_marks_exactly_the_neighborhood() {
    let tiles = vec![
        grass(0, 0),
        grass(1, 0),
        grass(-1, 0),
        grass(0, 1),
        grass(0, -1),
        grass(1, -1),
        water(-1, 1),
        grass(2, 0),
        water(0, 2),
        grass(-3, 1),
    ];
    let mut tm = TileMap { tiles };
    tm.reveal_around(Hex::new(0, 0));
    let revealed: Vec<bool> = tm.tiles.iter().map(|t| t.revealed).collect();
    // The center and its six neighbors, and nothing else.
    assert_eq!(revealed, vec![true, true, true, true, true, true, true, false, false, false]);
    assert_eq!(tm.tiles.iter().filter(|t| t.revealed).count(), 7);
}

#[test]
fn reveal_at_the_map_edge_marks_fewer_tiles() {
    let mut tm = TileMap { tiles: vec![grass(0, 0), grass(1, 0), grass(5, 5)] };
    tm.reveal_around(Hex::new(0, 0));
    assert_eq!(tm.tiles.iter().filter(|t| t.revealed).count(), 2);
}

#[test]
fn revealed_tiles_stay_revealed() {
    let mut tm = TileMap {
        tiles: vec![grass(0, 0), grass(1, 0), grass(8, 8), grass(9, 8)],
    };
    tm.reveal_around(Hex::new(0, 0));
    assert!(tm.tiles[0].revealed && tm.tiles[1].revealed);
    // Further reveals elsewhere never reset an earlier one.
    tm.reveal_around(Hex::new(8, 8));
    assert!(tm.tiles[0].revealed && tm.tiles[1].revealed);
    assert!(tm.tiles[2].revealed && tm.tiles[3].revealed);
    tm.reveal_around(Hex::new(100, 100));
    assert!(tm.tiles.iter().all(|t| t.revealed));
}

#[test]
fn placement_picks_distinct_walkable_tiles() {
    let mut tm = build_map(40, 40, DEFAULT_WATER_LEVEL, 250, 100).unwrap();
    let before = tm.tiles.clone();
    let (spawn, exit) = tm.place_spawn_and_exit().unwrap();
    assert_ne!(spawn, exit);
    let si = tm.lookup(spawn).unwrap();
    let ei = tm.lookup(exit).unwrap();
    assert!(tm.tiles[si].walkable);
    assert_eq!(tm.tiles[ei].tile_type, TileType::Exit);
    assert!(tm.tiles[ei].walkable);
    assert!(!tm.tiles[si].revealed && !tm.tiles[ei].revealed);
    // The exit tile was grass before; nothing else changed.
    assert_eq!(before[ei].tile_type, TileType::Grass);
    for i in 0..before.len() {
        if i != ei {
            assert_eq!(tm.tiles[i], before[i]);
        }
    }
}

#[test]
fn placement_fails_without_walkable_tiles() {
    let mut tm = TileMap { tiles: vec![water(0, 0), water(1, 0)] };
    assert_eq!(tm.place_spawn_and_exit().unwrap_err(), MapError::NoWalkableTiles);
    let mut empty = TileMap::new();
    assert_eq!(empty.place_spawn_and_exit().unwrap_err(), MapError::NoWalkableTiles);
}

#[test]
fn placement_fails_on_a_single_walkable_tile() {
    let mut tm = TileMap { tiles: vec![water(0, 0), grass(1, 0), water(2, 0)] };
    assert_eq!(tm.place_spawn_and_exit().unwrap_err(), MapError::DegenerateWalkableSet);
}

#[test]
fn count_walkable_counts_grass_and_exit() {
    let tm = TileMap {
        tiles: vec![
            grass(0, 0),
            water(1, 0),
            Tile {
                hex: Hex::new(2, 0),
                tile_type: TileType::Exit,
                walkable: true,
                revealed: false,
            },
        ],
    };
    assert_eq!(tm.count_walkable(), 2);
}
