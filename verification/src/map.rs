//! The built world: classification of elevation into tiles, the tile
//! registry keyed by rounded hex coordinate, bounded retry generation,
//! spawn and exit placement, and the fog-of-war reveal operation.

use vstd::prelude::*;

verus! {

use crate::height::spec_cell_value;
use crate::height::HeightMap;
use crate::height::ELEV_ONE;
use crate::height::GRID_MAX;
use crate::hex::hex_distance;
use crate::hex::Hex;
use crate::rng::random_index;
use crate::rng::random_seed;

/// What a tile is drawn and walked as. An exit replaces the rendered kind
/// of the grass cell it is placed on; the cell itself stays standable.
#[derive(Clone, Copy, Debug, PartialEq, Eq, Structural)]
pub enum TileType {
    Water,
    Grass,
    Exit,
}

/// Draw order of the player marker: above every tile kind.
pub const PLAYER_DRAW_ORDER: u32 = 3;

/// Draw order of the cursor marker: above everything.
pub const CURSOR_DRAW_ORDER: u32 = 4;

/// Where a tile kind sits in the draw order (lowest drawn first).
pub open spec fn spec_draw_order(t: TileType) -> u32 {
    match t {
        TileType::Water => 0u32,
        TileType::Grass => 1u32,
        TileType::Exit => 2u32,
    }
}

impl TileType {
    /// Whether the player may stand on a cell of this kind: water cannot be
    /// entered; grass can; an exit rests on a grass cell and stays
    /// standable.
    pub open spec fn spec_walkable(self) -> bool {
        self != TileType::Water
    }

    /// See [`TileType::spec_walkable`].
    pub fn walkable(&self) -> (r: bool)
        ensures
            r == self.spec_walkable(),
    {
        match self {
            TileType::Water => false,
            TileType::Grass => true,
            TileType::Exit => true,
        }
    }

    /// Where this kind sits in the draw order: water below grass below the
    /// exit, all below the player and cursor markers.
    pub fn draw_order(&self) -> (r: u32)
        ensures
            r == spec_draw_order(*self),
            r < PLAYER_DRAW_ORDER,
    {
        match self {
            TileType::Water => 0,
            TileType::Grass => 1,
            TileType::Exit => 2,
        }
    }
}

/// One cell of the built map. Created by the map builder; the revealed flag
/// is written only by the reveal operation, and the kind only by exit
/// placement.
#[derive(Clone, Copy, Debug, PartialEq, Eq, Structural)]
pub struct Tile {
    pub hex: Hex,
    pub tile_type: TileType,
    pub walkable: bool,
    pub revealed: bool,
}

impl Tile {
    /// The walkable flag is derived from the kind.
    pub open spec fn wf(self) -> bool {
        self.walkable == self.tile_type.spec_walkable()
    }
}

/// The tile registry: every tile of the session, keyed by its rounded hex
/// coordinate (no two tiles share one). Owned by the map builder; other
/// components reach it only through lookup and the reveal operation.
#[derive(Debug)]
pub struct TileMap {
    pub tiles: Vec<Tile>,
}

/// What one reveal around `center` does to the registry: exactly the tiles
/// within one step of `center` gain the revealed flag, every tile that
/// already carried it keeps it, and nothing else about any tile changes.
pub open spec fn reveal_step(before: TileMap, after: TileMap, center: Hex) -> bool {
    &&& after.tiles.len() == before.tiles.len()
    &&& forall|i: int|
        0 <= i < before.tiles.len() ==> after.tiles[i] == (Tile {
            revealed: before.tiles[i].revealed || hex_distance(before.tiles[i].hex, center) <= 1,
            ..before.tiles[i]
        })
}

/// Visibility is monotonic: a reveal, around whatever center, never clears
/// a revealed flag, so a tile once revealed stays revealed through any
/// sequence of further reveals.
pub proof fn lemma_visibility_monotone(before: TileMap, after: TileMap, center: Hex, i: int)
    requires
        reveal_step(before, after, center),
        0 <= i < before.tiles.len(),
        before.tiles[i].revealed,
    ensures
        after.tiles[i].revealed,
{
}

/// How many tiles of a registry may be stood on.
pub open spec fn walkable_count(s: Seq<Tile>) -> int
    decreases s.len(),
{
    if s.len() == 0 {
        0
    } else {
        walkable_count(s.drop_last()) + if s.last().walkable {
            1int
        } else {
            0
        }
    }
}

impl TileMap {
    /// Every tile is well formed and no two tiles share a hex coordinate.
    pub open spec fn wf(&self) -> bool {
        &&& forall|i: int| 0 <= i < self.tiles.len() ==> (#[trigger] self.tiles[i]).wf()
        &&& forall|i: int, j: int|
            0 <= i < j < self.tiles.len() ==> (#[trigger] self.tiles[i]).hex != (
            #[trigger] self.tiles[j]).hex
    }

    /// Whether some tile sits at the given coordinate.
    pub open spec fn spec_has_tile(&self, hex: Hex) -> bool {
        exists|i: int| 0 <= i < self.tiles.len() && (#[trigger] self.tiles[i]).hex == hex
    }

    /// An empty registry.
    pub fn new() -> (t: TileMap)
        ensures
            t.tiles.len() == 0,
            t.wf(),
    {
        TileMap { tiles: Vec::new() }
    }

    /// How many tiles the registry holds.
    pub fn len(&self) -> (n: usize)
        ensures
            n == self.tiles.len(),
    {
        self.tiles.len()
    }

    /// The tile at a position of the registry.
    pub fn tile_at(&self, i: usize) -> (t: Tile)
        requires
            i < self.tiles.len(),
        ensures
            t == self.tiles[i as int],
    {
        self.tiles[i]
    }

    /// The position of the tile at a coordinate, if any: `Some` exactly
    /// when a tile sits there.
    pub fn lookup(&self, hex: Hex) -> (res: Option<usize>)
        ensures
            match res {
                Some(i) => i < self.tiles.len() && self.tiles[i as int].hex == hex,
                None => !self.spec_has_tile(hex),
            },
    {
        let n = self.tiles.len();
        let mut i: usize = 0;
        while i < n
            invariant
                n == self.tiles.len(),
                0 <= i <= n,
                forall|k: int| 0 <= k < i ==> (#[trigger] self.tiles[k]).hex != hex,
            decreases n - i,
        {
            if self.tiles[i].hex.q == hex.q && self.tiles[i].hex.r == hex.r {
                return Some(i);
            }
            i = i + 1;
        }
        None
    }

    /// Set the revealed flag of every tile within one step of `center`:
    /// the center tile and its up to six existing neighbors, and no other.
    /// A flag that is already set stays set, whatever further reveals come.
    pub fn reveal_around(&mut self, center: Hex)
        ensures
            reveal_step(*old(self), *final(self), center),
    {
        let n = self.tiles.len();
        let mut i: usize = 0;
        while i < n
            invariant
                n == self.tiles.len(),
                0 <= i <= n,
                forall|k: int|
                    i <= k < n ==> #[trigger] self.tiles[k] == old(self).tiles[k],
                forall|k: int|
                    0 <= k < i ==> #[trigger] self.tiles[k] == (Tile {
                        revealed: old(self).tiles[k].revealed || hex_distance(
                            old(self).tiles[k].hex,
                            center,
                        ) <= 1,
                        ..old(self).tiles[k]
                    }),
            decreases n - i,
        {
            let t = self.tiles[i];
            let d = t.hex.distance_i64(&center);
            if d <= 1 {
                self.tiles[i] = Tile { revealed: true, ..t };
            } else {
                self.tiles[i] = t;
            }
            i = i + 1;
        }
    }
}


/// Default side length of the generated grid.
pub const DEFAULT_GRID_SIZE: u32 = 40;

/// Default elevation below which a cell is water, at scale [`ELEV_ONE`]:
/// 0.27.
pub const DEFAULT_WATER_LEVEL: i64 = 270_000;

/// Default least number of walkable tiles an acceptable map must have.
pub const DEFAULT_WALKABLE_THRESHOLD: usize = 250;

/// Default bound on whole-map regeneration attempts.
pub const DEFAULT_BUILD_ATTEMPTS: u32 = 100;

/// Bound on resampling attempts for a distinct exit tile.
pub const PLACEMENT_ATTEMPTS: u32 = 64;

/// How the generation or placement of a map can fail.
#[derive(Clone, Copy, Debug, PartialEq, Eq, Structural)]
pub enum MapError {
    /// Whole-map regeneration attempts ran out without any map meeting the
    /// walkable-tile threshold.
    GenerationExhausted,
    /// No walkable tile exists to place the player on.
    NoWalkableTiles,
    /// Exactly one walkable tile exists, so distinct spawn and exit tiles
    /// cannot be chosen.
    DegenerateWalkableSet,
    /// The bounded resampling for an exit tile distinct from the spawn ran
    /// out of attempts.
    PlacementExhausted,
}

/// The axial address of generation grid cell `(x, y)`: a fixed skew,
/// `q = x`, `r = y - floor(x / 2)`.
pub open spec fn grid_hex(x: int, y: int) -> Hex {
    Hex { q: x as i32, r: (y - x / 2) as i32 }
}

/// Distinct grid cells have distinct axial addresses.
proof fn lemma_grid_hex_injective(x1: int, y1: int, x2: int, y2: int)
    requires
        0 <= x1 < GRID_MAX,
        0 <= y1 < GRID_MAX,
        0 <= x2 < GRID_MAX,
        0 <= y2 < GRID_MAX,
        x1 != x2 || y1 != y2,
    ensures
        grid_hex(x1, y1) != grid_hex(x2, y2),
{
}

/// The tile that generation puts at position `i` of the registry, reading
/// the grid row-major: its cell is `(i % (w-1), i / (w-1))`, its kind comes
/// from the elevation against the water level, and it starts unrevealed.
pub open spec fn spec_built_tile(seed: u32, w: int, h: int, wl: int, i: int) -> Tile {
    let x = i % (w - 1);
    let y = i / (w - 1);
    Tile {
        hex: grid_hex(x, y),
        tile_type: if spec_cell_value(seed, w, h, x, y) < wl {
            TileType::Water
        } else {
            TileType::Grass
        },
        walkable: !(spec_cell_value(seed, w, h, x, y) < wl),
        revealed: false,
    }
}

/// The registry holds exactly the tiles of one generation attempt from the
/// given seed and parameters.
pub open spec fn built_from(t: TileMap, seed: u32, w: int, h: int, wl: int) -> bool {
    &&& t.tiles.len() == (w - 1) * (h - 1)
    &&& forall|i: int|
        0 <= i < t.tiles.len() ==> #[trigger] t.tiles[i] == spec_built_tile(seed, w, h, wl, i)
}

/// Build the registry of one generation attempt from an explicit seed:
/// every cell of the synthesizer's domain classified against the water
/// level. Equal arguments always yield the equal registry.
pub fn build_attempt(seed: u32, width: u32, height: u32, water_level: i64) -> (t: TileMap)
    requires
        2 <= width <= GRID_MAX,
        2 <= height <= GRID_MAX,
    ensures
        t.wf(),
        t.tiles.len() == (width - 1) * (height - 1),
        built_from(t, seed, width as int, height as int, water_level as int),
{
    let hm = HeightMap::new(width, height, seed);
    let w1 = width - 1;
    let h1 = height - 1;
    let mut tiles: Vec<Tile> = Vec::new();
    let mut y: u32 = 0;
    while y < h1
        invariant
            hm.wf(),
            hm.width == width,
            hm.height == height,
            hm.seed == seed,
            w1 == width - 1,
            h1 == height - 1,
            2 <= width <= GRID_MAX,
            2 <= height <= GRID_MAX,
            0 <= y <= h1,
            tiles.len() == y * w1,
            forall|i: int|
                0 <= i < tiles.len() ==> #[trigger] tiles[i] == spec_built_tile(
                    seed,
                    width as int,
                    height as int,
                    water_level as int,
                    i,
                ),
        decreases h1 - y,
    {
        let mut x: u32 = 0;
        while x < w1
            invariant
                hm.wf(),
                hm.width == width,
                hm.height == height,
                hm.seed == seed,
                w1 == width - 1,
                h1 == height - 1,
                2 <= width <= GRID_MAX,
                2 <= height <= GRID_MAX,
                0 <= y < h1,
                0 <= x <= w1,
                tiles.len() == y * w1 + x,
                forall|i: int|
                    0 <= i < tiles.len() ==> #[trigger] tiles[i] == spec_built_tile(
                        seed,
                        width as int,
                        height as int,
                        water_level as int,
                        i,
                    ),
            decreases w1 - x,
        {
            let elev = hm.get(x, y);
            let kind = if elev < water_level {
                TileType::Water
            } else {
                TileType::Grass
            };
            let q = x as i32;
            let r = ((y as i64) - ((x / 2) as i64)) as i32;
            let tile = Tile {
                hex: Hex { q, r },
                tile_type: kind,
                walkable: !(elev < water_level),
                revealed: false,
            };
            proof {
                vstd::arithmetic::div_mod::lemma_fundamental_div_mod_converse(
                    tiles.len() as int,
                    w1 as int,
                    y as int,
                    x as int,
                );
                assert(tile == spec_built_tile(
                    seed,
                    width as int,
                    height as int,
                    water_level as int,
                    tiles.len() as int,
                ));
            }
            tiles.push(tile);
            x = x + 1;
        }
        proof {
            assert((y as int + 1) * (w1 as int) == (y as int) * (w1 as int) + (w1 as int))
                by (nonlinear_arith);
        }
        y = y + 1;
    }
    proof {
        assert((h1 as int) * (w1 as int) == (w1 as int) * (h1 as int)) by (nonlinear_arith);
    }
    let t = TileMap { tiles };
    proof {
        lemma_built_registry_wf(t, seed, width as int, height as int, water_level as int);
    }
    t
}

/// A registry whose tiles all come from generation is well formed: the
/// walkable flag follows the kind, and the row-major skew gives every tile
/// its own coordinate.
proof fn lemma_built_registry_wf(t: TileMap, seed: u32, w: int, h: int, wl: int)
    requires
        2 <= w <= GRID_MAX,
        2 <= h <= GRID_MAX,
        t.tiles.len() == (w - 1) * (h - 1),
        forall|i: int|
            0 <= i < t.tiles.len() ==> #[trigger] t.tiles[i] == spec_built_tile(seed, w, h, wl, i),
    ensures
        t.wf(),
{
    assert forall|i: int, j: int|
        0 <= i < j < t.tiles.len() implies (#[trigger] t.tiles[i]).hex != (
    #[trigger] t.tiles[j]).hex by {
        let w1 = w - 1;
        vstd::arithmetic::div_mod::lemma_fundamental_div_mod(i, w1);
        vstd::arithmetic::div_mod::lemma_fundamental_div_mod(j, w1);
        vstd::arithmetic::div_mod::lemma_mod_bound(i, w1);
        vstd::arithmetic::div_mod::lemma_mod_bound(j, w1);
        lemma_row_div_bound(i, w1, h - 1);
        lemma_row_div_bound(j, w1, h - 1);
        lemma_grid_hex_injective(i % w1, i / w1, j % w1, j / w1);
    }
}

/// A position below `rows * w` lies in a row below `rows`.
proof fn lemma_row_div_bound(i: int, w: int, rows: int)
    requires
        0 < w,
        0 <= i < rows * w,
    ensures
        0 <= i / w < rows,
{
    vstd::arithmetic::div_mod::lemma_fundamental_div_mod(i, w);
    vstd::arithmetic::div_mod::lemma_mod_bound(i, w);
    assert(i / w < rows) by (nonlinear_arith)
        requires
            0 < w && 0 <= i < rows * w && i == w * (i / w) + i % w && 0 <= i % w < w,
    ;
    assert(i / w >= 0) by (nonlinear_arith)
        requires
            0 < w && 0 <= i && i == w * (i / w) + i % w && 0 <= i % w < w,
    ;
}

/// Generation is a function of the seed: two attempts from equal seeds and
/// parameters build the equal registry.
pub proof fn lemma_build_deterministic(t1: TileMap, t2: TileMap, seed: u32, w: int, h: int, wl: int)
    requires
        built_from(t1, seed, w, h, wl),
        built_from(t2, seed, w, h, wl),
    ensures
        t1.tiles@ == t2.tiles@,
{
    assert(t1.tiles@ =~= t2.tiles@);
}

impl TileMap {
    /// How many tiles of the registry may be stood on.
    pub fn count_walkable(&self) -> (c: usize)
        ensures
            c == walkable_count(self.tiles@),
    {
        let n = self.tiles.len();
        let mut c: usize = 0;
        let mut i: usize = 0;
        while i < n
            invariant
                n == self.tiles.len(),
                0 <= i <= n,
                c <= i,
                c == walkable_count(self.tiles@.take(i as int)),
            decreases n - i,
        {
            proof {
                assert(self.tiles@.take(i as int + 1).drop_last() =~= self.tiles@.take(i as int));
                assert(self.tiles@.take(i as int + 1).last() == self.tiles@[i as int]);
            }
            if self.tiles[i].walkable {
                c = c + 1;
            }
            i = i + 1;
        }
        proof {
            assert(self.tiles@.take(n as int) =~= self.tiles@);
        }
        c
    }
}

/// What the map builder promises of a registry it accepts: well formed,
/// exactly one tile per cell of the synthesizer's domain, at least the
/// asked-for number of walkable tiles, and built wholesale from one seed.
pub open spec fn acceptable_map(
    t: TileMap,
    width: u32,
    height: u32,
    water_level: i64,
    threshold: usize,
) -> bool {
    &&& t.wf()
    &&& t.tiles.len() == (width - 1) * (height - 1)
    &&& walkable_count(t.tiles@) >= threshold
    &&& exists|s: u32|
        #[trigger] built_from(t, s, width as int, height as int, water_level as int)
}

/// Build an acceptable map: generate whole maps from fresh random seeds
/// until one meets the walkable-tile threshold, giving up with an explicit
/// error after `max_attempts` tries. A zero threshold is met by every
/// attempt, so with at least one attempt allowed the build succeeds; with
/// none allowed it always gives up.
pub fn build_map(width: u32, height: u32, water_level: i64, threshold: usize, max_attempts: u32) -> (res:
    Result<TileMap, MapError>)
    requires
        2 <= width <= GRID_MAX,
        2 <= height <= GRID_MAX,
    ensures
        match res {
            Ok(m) => acceptable_map(m, width, height, water_level, threshold) && max_attempts
                >= 1,
            Err(e) => {
                &&& e == MapError::GenerationExhausted
                &&& threshold > 0 || max_attempts == 0
            },
        },
{
    let mut k: u32 = 0;
    while k < max_attempts
        invariant
            2 <= width <= GRID_MAX,
            2 <= height <= GRID_MAX,
            threshold == 0 ==> k == 0,
        decreases max_attempts - k,
    {
        let seed = random_seed();
        let t = build_attempt(seed, width, height, water_level);
        if t.count_walkable() >= threshold {
            return Ok(t);
        }
        k = k + 1;
    }
    Err(MapError::GenerationExhausted)
}


/// What a successful placement did: the spawn is the walkable tile at
/// position `si`, the exit the distinct walkable tile at position `ei`,
/// whose kind alone was rewritten to `Exit`.
pub open spec fn placement_of(
    before: TileMap,
    after: TileMap,
    spawn: Hex,
    exit: Hex,
    si: int,
    ei: int,
) -> bool {
    &&& 0 <= si < before.tiles.len()
    &&& 0 <= ei < before.tiles.len()
    &&& si != ei
    &&& before.tiles[si].walkable
    &&& before.tiles[si].hex == spawn
    &&& before.tiles[ei].walkable
    &&& before.tiles[ei].hex == exit
    &&& after.tiles@ == before.tiles@.update(
        ei,
        Tile { tile_type: TileType::Exit, ..before.tiles[ei] },
    )
}

impl TileMap {
    /// The positions of all walkable tiles, in registry order.
    fn walkable_indices(&self) -> (ws: Vec<usize>)
        ensures
            ws.len() == walkable_count(self.tiles@),
            forall|k: int|
                0 <= k < ws.len() ==> #[trigger] ws[k] < self.tiles.len() && self.tiles[ws[k] as int].walkable,
            forall|a: int, b: int|
                #![trigger ws[a], ws[b]]
                0 <= a < b < ws.len() ==> ws[a] < ws[b],
    {
        let n = self.tiles.len();
        let mut ws: Vec<usize> = Vec::new();
        let mut i: usize = 0;
        while i < n
            invariant
                n == self.tiles.len(),
                0 <= i <= n,
                ws.len() == walkable_count(self.tiles@.take(i as int)),
                forall|k: int|
                    0 <= k < ws.len() ==> #[trigger] ws[k] < i && self.tiles[ws[k] as int].walkable,
                forall|a: int, b: int|
                    #![trigger ws[a], ws[b]]
                    0 <= a < b < ws.len() ==> ws[a] < ws[b],
            decreases n - i,
        {
            proof {
                assert(self.tiles@.take(i as int + 1).drop_last() =~= self.tiles@.take(i as int));
                assert(self.tiles@.take(i as int + 1).last() == self.tiles@[i as int]);
            }
            if self.tiles[i].walkable {
                ws.push(i);
            }
            i = i + 1;
        }
        proof {
            assert(self.tiles@.take(n as int) =~= self.tiles@);
        }
        ws
    }

    /// Choose a random walkable spawn tile and a distinct random walkable
    /// exit tile, and rewrite the exit tile's kind to `Exit`; nothing else
    /// changes, the revealed flags included. Fails explicitly when no
    /// walkable tile exists, when only one does, or when the bounded
    /// resampling never drew a tile distinct from the spawn.
    #[verifier::spinoff_prover]
    pub fn place_spawn_and_exit(&mut self) -> (res: Result<(Hex, Hex), MapError>)
        requires
            old(self).wf(),
        ensures
            final(self).wf(),
            match res {
                Ok(p) => p.0 != p.1 && exists|si: int, ei: int|
                    #[trigger] placement_of(*old(self), *final(self), p.0, p.1, si, ei),
                Err(e) => {
                    &&& *final(self) == *old(self)
                    &&& e == (if walkable_count(old(self).tiles@) == 0 {
                        MapError::NoWalkableTiles
                    } else if walkable_count(old(self).tiles@) == 1 {
                        MapError::DegenerateWalkableSet
                    } else {
                        MapError::PlacementExhausted
                    })
                },
            },
    {
        let ws = self.walkable_indices();
        let n = ws.len();
        if n == 0 {
            return Err(MapError::NoWalkableTiles);
        }
        if n == 1 {
            return Err(MapError::DegenerateWalkableSet);
        }
        let sd = random_index(n);
        let si = ws[sd];
        let spawn_hex = self.tiles[si].hex;
        let mut k: u32 = 0;
        while k < PLACEMENT_ATTEMPTS
            invariant
                *self == *old(self),
                self.wf(),
                n == ws.len(),
                n >= 2,
                walkable_count(self.tiles@) == n,
                forall|kk: int|
                    0 <= kk < ws.len() ==> #[trigger] ws[kk] < self.tiles.len()
                        && self.tiles[ws[kk] as int].walkable,
                si < self.tiles.len(),
                self.tiles[si as int].walkable,
                spawn_hex == self.tiles[si as int].hex,
            decreases PLACEMENT_ATTEMPTS - k,
        {
            let ed = random_index(n);
            let ei = ws[ed];
            if ei != si {
                let t = self.tiles[ei];
                self.tiles[ei] = Tile { tile_type: TileType::Exit, ..t };
                proof {
                    let before = *old(self);
                    let after = *self;
                    assert(placement_of(before, after, spawn_hex, t.hex, si as int, ei as int));
                    assert forall|i: int| 0 <= i < after.tiles.len() implies (
                    #[trigger] after.tiles[i]).wf() by {
                        assert(before.tiles[i].wf());
                    }
                    assert forall|i: int, j: int|
                        0 <= i < j < after.tiles.len() implies (#[trigger] after.tiles[i]).hex != (
                    #[trigger] after.tiles[j]).hex by {
                        assert(before.tiles[i].hex != before.tiles[j].hex);
                    }
                    assert(spawn_hex != t.hex) by {
                        if si < ei {
                            assert(before.tiles[si as int].hex != before.tiles[ei as int].hex);
                        } else {
                            assert(before.tiles[ei as int].hex != before.tiles[si as int].hex);
                        }
                    }
                }
                return Ok((spawn_hex, t.hex));
            }
            k = k + 1;
        }
        Err(MapError::PlacementExhausted)
    }
}

} // verus!
