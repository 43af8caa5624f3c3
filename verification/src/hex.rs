//! Hexagonal grid geometry: axial and cube coordinates, conversion to and
//! from pixel space, rounding of fractional coordinates to the nearest cell,
//! and the hex distance metric.
//!
//! A pointy-top hex cell of tile size 16 has its center at pixel
//! `x = 12 * q`, `y = 8 * q + 16 * r` for axial coordinates `(q, r)`;
//! both transforms are exactly integral, and the inverse transform is a
//! rational with denominator 48, so all geometry here is exact integer
//! arithmetic.

use vstd::prelude::*;

verus! {

use vstd::math::abs;

/// Pixel edge length of one tile.
pub const TILE_SIZE: i64 = 16;

/// Horizontal pixel step per unit of `q`: three quarters of the tile size.
pub const PIXEL_STEP_Q_X: i64 = 12;

/// Vertical pixel step per unit of `q`: half the tile size.
pub const PIXEL_STEP_Q_Y: i64 = 8;

/// Vertical pixel step per unit of `r`: `TILE_SIZE`.
pub const PIXEL_STEP_R_Y: i64 = TILE_SIZE;

/// Common denominator of the fractional axial coordinates produced by the
/// pixel-to-axial transform: `q = 4*x / 48`, `r = (3*y - 2*x) / 48`.
pub const HEX_DEN: i64 = 48;

/// An axial hex-grid address. Values of this type are always whole cells:
/// fractional intermediates live in [`FracHex`] and [`FracCube`] and are
/// reduced to a `Hex` by rounding before they are used as an identity.
#[derive(Clone, Copy, Debug, PartialEq, Eq, Structural, Hash)]
pub struct Hex {
    pub q: i32,
    pub r: i32,
}

/// A cube hex-grid address; `x + y + z == 0` for every well-formed value.
/// Used only for rounding and for the distance metric.
#[derive(Clone, Copy, Debug, PartialEq, Eq, Structural, Hash)]
pub struct Cube {
    pub x: i64,
    pub y: i64,
    pub z: i64,
}

impl Cube {
    /// The defining invariant of cube coordinates.
    pub open spec fn wf(self) -> bool {
        self.x + self.y + self.z == 0
    }

    pub fn new(x: i64, y: i64, z: i64) -> (c: Cube)
        ensures
            c == (Cube { x, y, z }),
    {
        Cube { x, y, z }
    }

    pub fn to_axial_coords(&self) -> (h: Hex)
        requires
            i32::MIN <= self.x <= i32::MAX,
            i32::MIN <= self.z <= i32::MAX,
        ensures
            h.q == self.x,
            h.r == self.z,
    {
        Hex { q: self.x as i32, r: self.z as i32 }
    }

    pub fn distance_to(&self, other: &Cube) -> (d: u32)
        requires
            self.wf(),
            other.wf(),
            cube_distance(*self, *other) <= u32::MAX,
        ensures
            d == cube_distance(*self, *other),
    {
        let dx = if self.x >= other.x { self.x - other.x } else { other.x - self.x };
        let dy = if self.y >= other.y { self.y - other.y } else { other.y - self.y };
        let dz = if self.z >= other.z { self.z - other.z } else { other.z - self.z };
        ((dx + dy + dz) / 2) as u32
    }
}

/// Hex distance between two cube coordinates: half the taxicab distance of
/// the triples, which equals the minimum number of single-hex steps.
pub open spec fn cube_distance(a: Cube, b: Cube) -> int {
    (abs(a.x - b.x) + abs(a.y - b.y) + abs(a.z - b.z)) as int / 2
}

impl Hex {
    pub fn new(q: i32, r: i32) -> (h: Hex)
        ensures
            h == (Hex { q, r }),
    {
        Hex { q, r }
    }

    /// The cube form of this axial address; always well-formed.
    pub fn to_cube_coords(&self) -> (c: Cube)
        ensures
            c == self.spec_cube(),
            c.wf(),
    {
        Cube { x: self.q as i64, y: -(self.q as i64) - (self.r as i64), z: self.r as i64 }
    }

    pub open spec fn spec_cube(self) -> Cube {
        Cube { x: self.q as i64, y: (-self.q - self.r) as i64, z: self.r as i64 }
    }

    /// The pixel center of this cell. Exact: no rounding is involved.
    pub fn to_pixel_coords(&self) -> (p: (i64, i64))
        ensures
            p.0 == pixel_x(*self),
            p.1 == pixel_y(*self),
    {
        (
            PIXEL_STEP_Q_X * (self.q as i64),
            PIXEL_STEP_Q_Y * (self.q as i64) + PIXEL_STEP_R_Y * (self.r as i64),
        )
    }

    /// The cell containing a pixel position: the inverse of
    /// [`Hex::to_pixel_coords`], rounded to the nearest cell.
    pub fn from_pixel_coords(px: i64, py: i64) -> (h: Hex)
        requires
            -PIXEL_BOUND <= px <= PIXEL_BOUND,
            -PIXEL_BOUND <= py <= PIXEL_BOUND,
        ensures
            (h.q as int, h.r as int) == pixel_to_axial(px as int, py as int),
    {
        FracHex { qn: 4 * px, rn: 3 * py - 2 * px }.rounded()
    }

    pub fn distance_to(&self, other: &Hex) -> (d: u32)
        requires
            hex_distance(*self, *other) <= u32::MAX,
        ensures
            d == hex_distance(*self, *other),
    {
        let ac = self.to_cube_coords();
        let bc = other.to_cube_coords();
        ac.distance_to(&bc)
    }

    /// Hex distance as a wide machine integer; total over every pair of
    /// cells.
    pub fn distance_i64(&self, other: &Hex) -> (d: i64)
        ensures
            d == hex_distance(*self, *other),
    {
        let ax = self.q as i64;
        let az = self.r as i64;
        let ay = -ax - az;
        let bx = other.q as i64;
        let bz = other.r as i64;
        let by = -bx - bz;
        let dx = if ax >= bx { ax - bx } else { bx - ax };
        let dy = if ay >= by { ay - by } else { by - ay };
        let dz = if az >= bz { az - bz } else { bz - az };
        (((dx + dy + dz) as u64) / 2) as i64
    }
}

/// Pixel x of a cell center: `12 * q` at the default tile size.
pub open spec fn pixel_x(h: Hex) -> int {
    PIXEL_STEP_Q_X * h.q
}

/// Pixel y of a cell center: `8 * q + 16 * r` at the default tile size.
pub open spec fn pixel_y(h: Hex) -> int {
    PIXEL_STEP_Q_Y * h.q + PIXEL_STEP_R_Y * h.r
}

/// Hex distance between two axial addresses.
pub open spec fn hex_distance(a: Hex, b: Hex) -> int {
    cube_distance(a.spec_cube(), b.spec_cube())
}

/// Largest pixel magnitude accepted by the pixel-to-axial transform; keeps
/// every intermediate numerator far inside the `i64` range and the rounded
/// cell inside the `i32` range.
pub const PIXEL_BOUND: i64 = 1_000_000_000;

/// Largest numerator magnitude accepted by the rounding routines.
pub const FRAC_BOUND: i64 = 6_000_000_000;

/// Fractional axial coordinates: the cell address `(qn / 48, rn / 48)`.
/// This is what the pixel-to-axial transform produces before rounding.
#[derive(Clone, Copy, Debug, PartialEq, Eq, Structural)]
pub struct FracHex {
    pub qn: i64,
    pub rn: i64,
}

/// Fractional cube coordinates `(xn / 48, yn / 48, zn / 48)` with
/// `xn + yn + zn == 0`; the form in which rounding is carried out.
#[derive(Clone, Copy, Debug, PartialEq, Eq, Structural)]
pub struct FracCube {
    pub xn: i64,
    pub yn: i64,
    pub zn: i64,
}

/// The nearest integer to `n / d`, ties away from zero (`d > 0`).
pub open spec fn round_div(n: int, d: int) -> int
    recommends
        d > 0,
{
    if n >= 0 {
        (n + d / 2) / d
    } else {
        -((-n + d / 2) / d)
    }
}

/// Cube rounding over numerators with denominator 48: round each component
/// to the nearest integer, then restore `x + y + z == 0` by recomputing the
/// component whose rounding error was largest from the other two.
pub open spec fn spec_round_cube(xn: int, yn: int, zn: int) -> (int, int, int) {
    let rx = round_div(xn, HEX_DEN as int);
    let ry = round_div(yn, HEX_DEN as int);
    let rz = round_div(zn, HEX_DEN as int);
    let dx = abs(rx * HEX_DEN - xn);
    let dy = abs(ry * HEX_DEN - yn);
    let dz = abs(rz * HEX_DEN - zn);
    if dx > dy && dx > dz {
        (-ry - rz, ry, rz)
    } else if dy > dz {
        (rx, -rx - rz, rz)
    } else {
        (rx, ry, -rx - ry)
    }
}

/// Axial form of cube rounding.
pub open spec fn spec_round_axial(qn: int, rn: int) -> (int, int) {
    let xyz = spec_round_cube(qn, -qn - rn, rn);
    (xyz.0, xyz.2)
}

/// The cell addressed by a pixel position: the fractional inverse transform
/// `q = 4*px / 48`, `r = (3*py - 2*px) / 48`, rounded to the nearest cell.
pub open spec fn pixel_to_axial(px: int, py: int) -> (int, int) {
    spec_round_axial(4 * px, 3 * py - 2 * px)
}

/// The nearest integer to `n / d`, ties away from zero.
fn round_div_exec(n: i64, d: i64) -> (r: i64)
    requires
        0 < d <= HEX_DEN,
        -FRAC_BOUND * 3 <= n <= FRAC_BOUND * 3,
    ensures
        r == round_div(n as int, d as int),
{
    if n >= 0 {
        (((n as u64) + ((d / 2) as u64)) / (d as u64)) as i64
    } else {
        let m = -n;
        -((((m as u64) + ((d / 2) as u64)) / (d as u64)) as i64)
    }
}

impl FracHex {
    pub fn new(qn: i64, rn: i64) -> (h: FracHex)
        ensures
            h == (FracHex { qn, rn }),
    {
        FracHex { qn, rn }
    }

    pub fn to_cube_coords(&self) -> (c: FracCube)
        requires
            -FRAC_BOUND <= self.qn <= FRAC_BOUND,
            -FRAC_BOUND <= self.rn <= FRAC_BOUND,
        ensures
            c.xn == self.qn && c.zn == self.rn,
            c.yn == -self.qn - self.rn,
            c.xn + c.yn + c.zn == 0,
    {
        FracCube { xn: self.qn, yn: -self.qn - self.rn, zn: self.rn }
    }

    /// The nearest whole cell to this fractional address.
    pub fn rounded(&self) -> (h: Hex)
        requires
            -FRAC_BOUND <= self.qn <= FRAC_BOUND,
            -FRAC_BOUND <= self.rn <= FRAC_BOUND,
        ensures
            (h.q as int, h.r as int) == spec_round_axial(self.qn as int, self.rn as int),
    {
        let c = self.to_cube_coords().rounded();
        c.to_axial_coords()
    }
}

/// Rounding a fraction whose value is exactly an integer returns that
/// integer.
proof fn lemma_round_div_exact(k: int, d: int)
    requires
        d > 0,
    ensures
        round_div(k * d, d) == k,
{
    if k >= 0 {
        assert(k * d >= 0) by (nonlinear_arith)
            requires
                d > 0 && k >= 0,
        ;
        assert((k * d + d / 2) / d == k) by (nonlinear_arith)
            requires
                d > 0 && k >= 0,
        ;
    } else {
        assert(k * d < 0) by (nonlinear_arith)
            requires
                d > 0 && k < 0,
        ;
        assert((-(k * d) + d / 2) / d == -k) by (nonlinear_arith)
            requires
                d > 0 && k < 0,
        ;
    }
}

/// Converting a cell to its pixel center and back returns the same cell:
/// the inverse transform lands exactly on whole coordinates, which rounding
/// preserves.
pub proof fn lemma_pixel_round_trip(h: Hex)
    ensures
        pixel_to_axial(pixel_x(h), pixel_y(h)) == (h.q as int, h.r as int),
{
    let qn = 4 * pixel_x(h);
    let rn = 3 * pixel_y(h) - 2 * pixel_x(h);
    assert(qn == 48 * h.q);
    assert(rn == 48 * h.r);
    lemma_round_div_exact(h.q as int, 48);
    lemma_round_div_exact(h.r as int, 48);
    lemma_round_div_exact(-h.q - h.r, 48);
    assert(round_div(qn, HEX_DEN as int) == h.q) by {
        assert(qn == (h.q as int) * 48);
    }
    assert(round_div(rn, HEX_DEN as int) == h.r) by {
        assert(rn == (h.r as int) * 48);
    }
    assert(round_div(-qn - rn, HEX_DEN as int) == -h.q - h.r) by {
        assert(-qn - rn == (-h.q - h.r) * 48);
    }
}

/// A cell is at distance zero from itself, and only from itself.
pub proof fn lemma_distance_identity(a: Hex, b: Hex)
    ensures
        hex_distance(a, a) == 0,
        hex_distance(a, b) == 0 ==> a == b,
{
}

/// The hex distance is symmetric.
pub proof fn lemma_distance_symmetric(a: Hex, b: Hex)
    ensures
        hex_distance(a, b) == hex_distance(b, a),
{
}

/// The sum of the three absolute cube differences is even, so halving it in
/// the distance loses nothing.
proof fn lemma_abs_sum_even(a: Cube, b: Cube)
    requires
        a.wf(),
        b.wf(),
    ensures
        abs(a.x - b.x) + abs(a.y - b.y) + abs(a.z - b.z) == 2 * cube_distance(a, b),
{
    let dx = a.x - b.x;
    let dy = a.y - b.y;
    let dz = a.z - b.z;
    let ex: int = if dx >= 0 { dx } else { 0 };
    let ey: int = if dy >= 0 { dy } else { 0 };
    let ez: int = if dz >= 0 { dz } else { 0 };
    assert(abs(dx) + dx == 2 * ex);
    assert(abs(dy) + dy == 2 * ey);
    assert(abs(dz) + dz == 2 * ez);
    assert(dx + dy + dz == 0);
    assert(abs(dx) + abs(dy) + abs(dz) == 2 * (ex + ey + ez));
}

/// The hex distance satisfies the triangle inequality.
pub proof fn lemma_distance_triangle(a: Hex, b: Hex, c: Hex)
    ensures
        hex_distance(a, c) <= hex_distance(a, b) + hex_distance(b, c),
{
    let ca = a.spec_cube();
    let cb = b.spec_cube();
    let cc = c.spec_cube();
    lemma_abs_sum_even(ca, cb);
    lemma_abs_sum_even(cb, cc);
    lemma_abs_sum_even(ca, cc);
    assert(abs(ca.x - cc.x) <= abs(ca.x - cb.x) + abs(cb.x - cc.x));
    assert(abs(ca.y - cc.y) <= abs(ca.y - cb.y) + abs(cb.y - cc.y));
    assert(abs(ca.z - cc.z) <= abs(ca.z - cb.z) + abs(cb.z - cc.z));
}

/// The six axial offsets that one hex step can take.
pub open spec fn is_unit_step(dq: int, dr: int) -> bool {
    ||| (dq == 1 && dr == 0)
    ||| (dq == -1 && dr == 0)
    ||| (dq == 0 && dr == 1)
    ||| (dq == 0 && dr == -1)
    ||| (dq == 1 && dr == -1)
    ||| (dq == -1 && dr == 1)
}

/// Two cells are at distance one exactly when they differ by one of the six
/// unit steps: one hex step reaches the six adjacent cells and no other.
pub proof fn lemma_distance_one_is_adjacency(a: Hex, b: Hex)
    ensures
        hex_distance(a, b) == 1 <==> is_unit_step(b.q - a.q, b.r - a.r),
{
    lemma_abs_sum_even(a.spec_cube(), b.spec_cube());
}


/// A walk over the grid: consecutive cells are one hex step apart.
pub open spec fn is_step_path(p: Seq<Hex>) -> bool {
    forall|i: int| 0 <= i < p.len() - 1 ==> hex_distance(#[trigger] p[i], p[i + 1]) == 1
}

/// No walk of single hex steps is shorter than the hex distance of its
/// endpoints: the distance bounds every step path from below.
pub proof fn lemma_distance_bounds_step_paths(p: Seq<Hex>)
    requires
        p.len() >= 1,
        is_step_path(p),
    ensures
        hex_distance(p.first(), p.last()) <= p.len() - 1,
    decreases p.len(),
{
    if p.len() == 1 {
        lemma_distance_identity(p.first(), p.first());
    } else {
        let q = p.drop_last();
        assert(is_step_path(q)) by {
            assert forall|i: int| 0 <= i < q.len() - 1 implies hex_distance(
                #[trigger] q[i],
                q[i + 1],
            ) == 1 by {
                assert(q[i] == p[i] && q[i + 1] == p[i + 1]);
                assert(hex_distance(p[i], p[i + 1]) == 1);
            }
        }
        lemma_distance_bounds_step_paths(q);
        assert(hex_distance(p[p.len() - 2], p.last()) == 1);
        lemma_distance_triangle(p.first(), p[p.len() - 2], p.last());
    }
}

/// From a cell short of the goal, some single step brings the distance
/// down by one.
proof fn lemma_step_toward(a: Hex, b: Hex) -> (c: Hex)
    requires
        a != b,
    ensures
        hex_distance(a, c) == 1,
        hex_distance(c, b) == hex_distance(a, b) - 1,
{
    lemma_abs_sum_even(a.spec_cube(), b.spec_cube());
    let dq = a.q - b.q;
    let dr = a.r - b.r;
    let c = if dq > 0 && dr >= 0 {
        Hex { q: (a.q - 1) as i32, r: a.r }
    } else if dq > 0 {
        Hex { q: (a.q - 1) as i32, r: (a.r + 1) as i32 }
    } else if dq < 0 && dr <= 0 {
        Hex { q: (a.q + 1) as i32, r: a.r }
    } else if dq < 0 {
        Hex { q: (a.q + 1) as i32, r: (a.r - 1) as i32 }
    } else if dr > 0 {
        Hex { q: a.q, r: (a.r - 1) as i32 }
    } else {
        Hex { q: a.q, r: (a.r + 1) as i32 }
    };
    lemma_abs_sum_even(a.spec_cube(), c.spec_cube());
    lemma_abs_sum_even(c.spec_cube(), b.spec_cube());
    c
}

/// The hex distance is attained: a walk of exactly that many single steps
/// joins the two cells. With the lower bound above, the distance is the
/// minimum number of hex steps between two cells.
pub proof fn lemma_distance_steps_exist(a: Hex, b: Hex)
    ensures
        exists|p: Seq<Hex>|
            {
                &&& #[trigger] is_step_path(p)
                &&& p.len() == hex_distance(a, b) + 1
                &&& p.first() == a
                &&& p.last() == b
            },
    decreases hex_distance(a, b),
{
    lemma_abs_sum_even(a.spec_cube(), b.spec_cube());
    if a == b {
        lemma_distance_identity(a, b);
        let p = seq![a];
        assert(is_step_path(p));
        assert(p.len() == hex_distance(a, b) + 1 && p.first() == a && p.last() == b);
    } else {
        let c = lemma_step_toward(a, b);
        lemma_distance_steps_exist(c, b);
        let pc = choose|p: Seq<Hex>|
            {
                &&& #[trigger] is_step_path(p)
                &&& p.len() == hex_distance(c, b) + 1
                &&& p.first() == c
                &&& p.last() == b
            };
        let p = seq![a] + pc;
        assert(is_step_path(p)) by {
            assert forall|i: int| 0 <= i < p.len() - 1 implies hex_distance(
                #[trigger] p[i],
                p[i + 1],
            ) == 1 by {
                if i == 0 {
                    assert(p[0] == a && p[1] == pc[0]);
                } else {
                    assert(p[i] == pc[i - 1] && p[i + 1] == pc[i]);
                    assert(hex_distance(pc[i - 1], pc[i - 1 + 1]) == 1);
                }
            }
        }
        assert(p.len() == hex_distance(a, b) + 1 && p.first() == a && p.last() == b);
    }
}


impl FracCube {
    /// The nearest whole cube cell: round each component, then restore the
    /// cube invariant by recomputing the component with the largest error.
    pub fn rounded(&self) -> (c: Cube)
        requires
            -2 * FRAC_BOUND <= self.xn <= 2 * FRAC_BOUND,
            -2 * FRAC_BOUND <= self.yn <= 2 * FRAC_BOUND,
            -2 * FRAC_BOUND <= self.zn <= 2 * FRAC_BOUND,
        ensures
            (c.x as int, c.y as int, c.z as int) == spec_round_cube(
                self.xn as int,
                self.yn as int,
                self.zn as int,
            ),
            c.wf(),
    {
        let rx = round_div_exec(self.xn, HEX_DEN);
        let ry = round_div_exec(self.yn, HEX_DEN);
        let rz = round_div_exec(self.zn, HEX_DEN);

        let ex = rx * HEX_DEN - self.xn;
        let ey = ry * HEX_DEN - self.yn;
        let ez = rz * HEX_DEN - self.zn;
        let dx = if ex >= 0 { ex } else { -ex };
        let dy = if ey >= 0 { ey } else { -ey };
        let dz = if ez >= 0 { ez } else { -ez };

        if dx > dy && dx > dz {
            Cube { x: -ry - rz, y: ry, z: rz }
        } else if dy > dz {
            Cube { x: rx, y: -rx - rz, z: rz }
        } else {
            Cube { x: rx, y: ry, z: -rx - ry }
        }
    }
}

} // verus!


