//! The session context: the built world, the player, the exit, and the
//! step-wise movement rule. A session is set up in a fixed order —
//! terrain synthesis, map build, spawn and exit placement, the first
//! reveal — and then mutated only by accepted moves.

use vstd::prelude::*;

verus! {

use crate::height::GRID_MAX;
use crate::hex::hex_distance;
use crate::hex::pixel_to_axial;
use crate::hex::pixel_x;
use crate::hex::pixel_y;
use crate::hex::Hex;
use crate::hex::PIXEL_BOUND;
use crate::map::build_map;
use crate::map::placement_of;
use crate::map::walkable_count;
use crate::map::MapError;
use crate::map::Tile;
use crate::map::TileMap;
use crate::map::TileType;

/// The player: the cell it occupies. Its world position is the pixel
/// center of that cell.
#[derive(Clone, Copy, Debug, PartialEq, Eq, Structural)]
pub struct Player {
    pub hex: Hex,
}

/// One session: the tile registry, the player, the exit cell, and whether
/// the exit has been reached.
pub struct Game {
    pub tiles: TileMap,
    pub player: Player,
    pub exit: Hex,
    pub won: bool,
}

/// The cell a world-space pixel position addresses.
pub open spec fn spec_target(px: int, py: int) -> Hex {
    let qr = pixel_to_axial(px, py);
    Hex { q: qr.0 as i32, r: qr.1 as i32 }
}

/// The movement rule: a move onto `target` is allowed exactly when a tile
/// sits there, that tile is walkable, and it is exactly one hex step from
/// the player. Both committing a move and previewing one use this same
/// predicate.
pub open spec fn spec_move_allowed(g: Game, target: Hex) -> bool {
    &&& exists|i: int|
        0 <= i < g.tiles.tiles.len() && (#[trigger] g.tiles.tiles[i]).hex == target
            && g.tiles.tiles[i].walkable
    &&& hex_distance(g.player.hex, target) == 1
}

/// What an accepted move onto the cell at pixel `(px, py)` does: the player
/// occupies the target, reaching the exit wins, and exactly the tiles
/// within one step of the target become revealed (already revealed ones
/// stay so); nothing else changes.
pub open spec fn spec_moved(before: Game, after: Game, px: int, py: int) -> bool {
    let target = spec_target(px, py);
    &&& after.player.hex == target
    &&& after.exit == before.exit
    &&& after.won == (before.won || target == before.exit)
    &&& after.tiles.tiles.len() == before.tiles.tiles.len()
    &&& forall|i: int|
        0 <= i < before.tiles.tiles.len() ==> after.tiles.tiles[i] == (Tile {
            revealed: before.tiles.tiles[i].revealed || hex_distance(
                before.tiles.tiles[i].hex,
                target,
            ) <= 1,
            ..before.tiles.tiles[i]
        })
}

impl Game {
    /// The registry is sound, the player stands on a walkable tile, and
    /// the exit marks some tile.
    pub open spec fn wf(&self) -> bool {
        &&& self.tiles.wf()
        &&& exists|i: int|
            0 <= i < self.tiles.tiles.len() && (#[trigger] self.tiles.tiles[i]).hex
                == self.player.hex && self.tiles.tiles[i].walkable
        &&& exists|i: int|
            0 <= i < self.tiles.tiles.len() && (#[trigger] self.tiles.tiles[i]).hex == self.exit
                && self.tiles.tiles[i].tile_type == TileType::Exit
    }

    /// Set up a session in order: build an acceptable map (regenerating up
    /// to `max_attempts` times), place distinct spawn and exit tiles, and
    /// reveal the spawn's neighborhood. On success the player stands on a
    /// walkable spawn tile distinct from the exit, the walkable-tile count
    /// meets the threshold, and exactly the tiles within one step of the
    /// spawn are revealed.
    pub fn new(
        width: u32,
        height: u32,
        water_level: i64,
        threshold: usize,
        max_attempts: u32,
    ) -> (res: Result<Game, MapError>)
        requires
            2 <= width <= GRID_MAX,
            2 <= height <= GRID_MAX,
        ensures
            match res {
                Ok(g) => {
                    &&& g.wf()
                    &&& max_attempts >= 1
                    &&& !g.won
                    &&& g.player.hex != g.exit
                    &&& walkable_count(g.tiles.tiles@) >= threshold
                    &&& g.tiles.tiles.len() == (width - 1) * (height - 1)
                    &&& forall|i: int|
                        0 <= i < g.tiles.tiles.len() ==> ((#[trigger] g.tiles.tiles[i]).revealed
                            <==> hex_distance(g.tiles.tiles[i].hex, g.player.hex) <= 1)
                },
                Err(e) => {
                    &&& threshold >= 1 ==> e != MapError::NoWalkableTiles
                    &&& threshold >= 2 ==> e != MapError::DegenerateWalkableSet
                    &&& threshold == 0 && max_attempts >= 1 ==> e != MapError::GenerationExhausted
                },
            },
    {
        let mut tiles = match build_map(width, height, water_level, threshold, max_attempts) {
            Ok(t) => t,
            Err(e) => {
                return Err(e);
            },
        };
        let ghost built = tiles;
        let (spawn, exit) = match tiles.place_spawn_and_exit() {
            Ok(p) => p,
            Err(e) => {
                return Err(e);
            },
        };
        let ghost placed = tiles;
        proof {
            let (si, ei) = choose|si: int, ei: int|
                placement_of(built, placed, spawn, exit, si, ei);
            lemma_walkable_count_congruence(built.tiles@, placed.tiles@);
        }
        tiles.reveal_around(spawn);
        proof {
            lemma_walkable_count_congruence(placed.tiles@, tiles.tiles@);
            let (si, ei) = choose|si: int, ei: int|
                placement_of(built, placed, spawn, exit, si, ei);
            assert(tiles.tiles[si].hex == spawn && tiles.tiles[si].walkable);
            assert(tiles.tiles[ei].hex == exit && tiles.tiles[ei].tile_type == TileType::Exit);
        }
        Ok(Game { tiles, player: Player { hex: spawn }, exit, won: false })
    }

    /// Whether a move onto `target` would be accepted; see
    /// [`spec_move_allowed`].
    pub fn move_allowed(&self, target: Hex) -> (r: bool)
        requires
            self.tiles.wf(),
        ensures
            r == spec_move_allowed(*self, target),
    {
        match self.tiles.lookup(target) {
            Some(i) => {
                let t = self.tiles.tile_at(i);
                let near = self.player.hex.distance_i64(&target) == 1;
                proof {
                    if !t.walkable {
                        assert forall|j: int|
                            0 <= j < self.tiles.tiles.len() && (#[trigger] self.tiles.tiles[j]).hex
                                == target implies !self.tiles.tiles[j].walkable by {
                            if j < (i as int) {
                                assert(self.tiles.tiles[j].hex != self.tiles.tiles[i as int].hex);
                            } else if (i as int) < j {
                                assert(self.tiles.tiles[i as int].hex != self.tiles.tiles[j].hex);
                            }
                        }
                    }
                }
                t.walkable && near
            },
            None => false,
        }
    }

    /// The same check as committing a move, against a world-space pixel
    /// position, without touching any state: used for hover affordances.
    pub fn preview_move(&self, px: i64, py: i64) -> (r: bool)
        requires
            self.tiles.wf(),
            -PIXEL_BOUND <= px <= PIXEL_BOUND,
            -PIXEL_BOUND <= py <= PIXEL_BOUND,
        ensures
            r == spec_move_allowed(*self, spec_target(px as int, py as int)),
    {
        let target = Hex::from_pixel_coords(px, py);
        self.move_allowed(target)
    }

    /// Validate a move onto the cell at a world-space pixel position, and
    /// commit it if allowed: the player occupies the target cell, the
    /// target's neighborhood is revealed, and reaching the exit wins the
    /// session. A rejected move — no tile there, not walkable, or not
    /// exactly one step — changes nothing and is a normal outcome.
    pub fn try_move(&mut self, px: i64, py: i64) -> (accepted: bool)
        requires
            old(self).wf(),
            -PIXEL_BOUND <= px <= PIXEL_BOUND,
            -PIXEL_BOUND <= py <= PIXEL_BOUND,
        ensures
            final(self).wf(),
            accepted == spec_move_allowed(*old(self), spec_target(px as int, py as int)),
            !accepted ==> *final(self) == *old(self),
            accepted ==> spec_moved(*old(self), *final(self), px as int, py as int),
    {
        let target = Hex::from_pixel_coords(px, py);
        proof {
            assert(target == spec_target(px as int, py as int));
        }
        if self.move_allowed(target) {
            self.player = Player { hex: target };
            self.won = self.won || (target == self.exit);
            self.tiles.reveal_around(target);
            proof {
                let gi = choose|i: int|
                    0 <= i < old(self).tiles.tiles.len() && (#[trigger] old(
                        self,
                    ).tiles.tiles[i]).hex == target && old(self).tiles.tiles[i].walkable;
                assert(self.tiles.tiles[gi].hex == target && self.tiles.tiles[gi].walkable);
                let ge = choose|i: int|
                    0 <= i < old(self).tiles.tiles.len() && (#[trigger] old(
                        self,
                    ).tiles.tiles[i]).hex == old(self).exit && old(self).tiles.tiles[i].tile_type
                        == TileType::Exit;
                assert(self.tiles.tiles[ge].hex == self.exit && self.tiles.tiles[ge].tile_type
                    == TileType::Exit);
                assert forall|i: int| 0 <= i < self.tiles.tiles.len() implies (
                #[trigger] self.tiles.tiles[i]).wf() by {
                    assert(old(self).tiles.tiles[i].wf());
                }
                assert forall|i: int, j: int|
                    0 <= i < j < self.tiles.tiles.len() implies (
                #[trigger] self.tiles.tiles[i]).hex != (#[trigger] self.tiles.tiles[j]).hex by {
                    assert(old(self).tiles.tiles[i].hex != old(self).tiles.tiles[j].hex);
                }
            }
            true
        } else {
            false
        }
    }

    /// The player's world position: the pixel center of its cell, for the
    /// camera to follow.
    pub fn player_position(&self) -> (p: (i64, i64))
        ensures
            p.0 == pixel_x(self.player.hex),
            p.1 == pixel_y(self.player.hex),
    {
        self.player.hex.to_pixel_coords()
    }
}

/// Tile sequences whose walkable flags agree cell by cell have the same
/// walkable count.
proof fn lemma_walkable_count_congruence(s1: Seq<Tile>, s2: Seq<Tile>)
    requires
        s1.len() == s2.len(),
        forall|i: int| 0 <= i < s1.len() ==> s1[i].walkable == s2[i].walkable,
    ensures
        walkable_count(s1) == walkable_count(s2),
    decreases s1.len(),
{
    if s1.len() > 0 {
        lemma_walkable_count_congruence(s1.drop_last(), s2.drop_last());
    }
}

} // verus!
