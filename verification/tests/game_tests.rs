use hexworld::game::Game;
use hexworld::game::Player;
use hexworld::hex::Hex;
use hexworld::map::MapError;
use hexworld::map::Tile;
use hexworld::map::TileMap;
use hexworld::map::TileType;

fn tile(q: i32, r: i32, kind: TileType) -> Tile {
    Tile {
        hex: Hex::new(q, r),
        tile_type: kind,
        walkable: kind != TileType::Water,
        revealed: false,
    }
}

/// A small straight corridor: grass at (0,0) and (1,0), the exit at (2,0),
/// water at (0,1), far grass at (0,3); the player starts at (0,0).
fn corridor() -> Game {
    let tiles = vec![
        tile(0, 0, TileType::Grass),
        tile(1, 0, TileType::Grass),
        tile(2, 0, TileType::Exit),
        tile(0, 1, TileType::Water),
        tile(0, 3, TileType::Grass),
    ];
    Game {
        tiles: TileMap { tiles },
        player: Player { hex: Hex::new(0, 0) },
        exit: Hex::new(2, 0),
        won: false,
    }
}

fn pixel_of(q: i32, r: i32) -> (i64, i64) {
    Hex::new(q, r).to_pixel_coords()
}

#[test]
fn move_to_adjacent_walkable_tile_is_accepted() {
    let mut g = corridor();
    let (px, py) = pixel_of(1, 0);
    assert!(g.try_move(px, py));
    assert_eq!(g.player.hex, Hex::new(1, 0));
    assert!(!g.won);
    // Exactly the tiles within one step of (1, 0) are now revealed: the
    // water at (0, 1) is adjacent and becomes visible, the far grass not.
    assert!(g.tiles.tiles[0].revealed);
    assert!(g.tiles.tiles[1].revealed);
    assert!(g.tiles.tiles[2].revealed);
    assert!(g.tiles.tiles[3].revealed);
    assert!(!g.tiles.tiles[4].revealed);
}

#[test]
fn move_two_steps_away_is_rejected_without_change() {
    let mut g = corridor();
    let (px, py) = pixel_of(2, 0);
    assert!(!g.try_move(px, py));
    assert_eq!(g.player.hex, Hex::new(0, 0));
    assert!(g.tiles.tiles.iter().all(|t| !t.revealed));
    assert!(!g.won);
}

#[test]
fn move_onto_water_is_rejected() {
    let mut g = corridor();
    let (px, py) = pixel_of(0, 1);
    assert!(!g.try_move(px, py));
    assert_eq!(g.player.hex, Hex::new(0, 0));
}

#[test]
fn move_outside_the_map_is_rejected() {
    let mut g = corridor();
    let (px, py) = pixel_of(-1, 0);
    assert!(!g.try_move(px, py));
    assert_eq!(g.player.hex, Hex::new(0, 0));
}

#[test]
fn reaching_the_exit_wins() {
    let mut g = corridor();
    let (px, py) = pixel_of(1, 0);
    assert!(g.try_move(px, py));
    let (px, py) = pixel_of(2, 0);
    assert!(g.try_move(px, py));
    assert_eq!(g.player.hex, Hex::new(2, 0));
    assert!(g.won);
}

#[test]
fn preview_agrees_with_commit() {
    let cases = [(1, 0), (2, 0), (0, 1), (-1, 0), (0, 0)];
    for (q, r) in cases {
        let g = corridor();
        let (px, py) = pixel_of(q, r);
        let previewed = g.preview_move(px, py);
        let mut g2 = corridor();
        let committed = g2.try_move(px, py);
        assert_eq!(previewed, committed);
    }
}

#[test]
fn staying_in_place_is_rejected() {
    let mut g = corridor();
    let (px, py) = pixel_of(0, 0);
    assert!(!g.try_move(px, py));
}

#[test]
fn player_position_is_the_cell_center() {
    let g = corridor();
    assert_eq!(g.player_position(), (0, 0));
    let mut g = corridor();
    let (px, py) = pixel_of(1, 0);
    g.try_move(px, py);
    assert_eq!(g.player_position(), (12, 8));
}

#[test]
fn new_game_starts_ready_to_play() {
    let g = Game::new(40, 40, 270_000, 250, 100).unwrap();
    assert!(!g.won);
    assert_ne!(g.player.hex, g.exit);
    assert!(g.tiles.count_walkable() >= 250);
    assert_eq!(g.tiles.tiles.len(), 39 * 39);
    // The player stands on a walkable tile and the exit is marked.
    let pi = g.tiles.lookup(g.player.hex).unwrap();
    assert!(g.tiles.tiles[pi].walkable);
    let ei = g.tiles.lookup(g.exit).unwrap();
    assert_eq!(g.tiles.tiles[ei].tile_type, TileType::Exit);
    // Exactly the spawn neighborhood is revealed.
    for t in g.tiles.tiles.iter() {
        let d = t.hex.distance_i64(&g.player.hex);
        assert_eq!(t.revealed, d <= 1);
    }
}

#[test]
fn new_game_on_a_tiny_grid_fails_explicitly() {
    // A 3x3 grid has 4 cells: 250 walkable tiles can never exist.
    match Game::new(3, 3, 270_000, 250, 2) {
        Err(e) => assert_eq!(e, MapError::GenerationExhausted),
        Ok(_) => panic!("a 3x3 grid met a 250-tile threshold"),
    }
}
