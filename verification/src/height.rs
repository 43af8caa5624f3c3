//! Terrain elevation synthesis: layered coherent noise ("octaves") shaped by
//! a radial falloff, producing an island-like scalar field over a
//! rectangular grid.
//!
//! All values are fixed-point integers. A noise sample and a noise-space
//! coordinate carry [`NOISE_ONE`] units per 1.0; an elevation or falloff
//! value carries [`ELEV_ONE`] units per 1.0 and lies in `[0, ELEV_ONE]`.

use vstd::prelude::*;

verus! {

/// Fixed-point scale of noise samples and noise-space coordinates.
pub const NOISE_ONE: i64 = 1_048_576;

/// Fixed-point scale of elevation and falloff values.
pub const ELEV_ONE: i64 = 1_000_000;

/// The integer square root: the largest `r` with `r * r <= n` (zero for
/// negative arguments).
pub open spec fn sqrt_floor(n: int) -> int
    decreases n,
{
    if n <= 0 {
        0
    } else {
        let p = sqrt_floor(n - 1);
        if (p + 1) * (p + 1) <= n {
            p + 1
        } else {
            p
        }
    }
}

/// The square of `sqrt_floor(n)` brackets `n`.
proof fn lemma_sqrt_floor_bounds(n: int)
    requires
        n >= 0,
    ensures
        0 <= sqrt_floor(n),
        sqrt_floor(n) * sqrt_floor(n) <= n,
        n < (sqrt_floor(n) + 1) * (sqrt_floor(n) + 1),
    decreases n,
{
    if n > 0 {
        lemma_sqrt_floor_bounds(n - 1);
        let p = sqrt_floor(n - 1);
        if (p + 1) * (p + 1) <= n {
            assert(sqrt_floor(n) == p + 1);
            assert(n <= (p + 1) * (p + 1)) by {
                assert(n - 1 < (p + 1) * (p + 1));
            }
            assert((p + 1) * (p + 1) < (p + 2) * (p + 2)) by (nonlinear_arith)
                requires
                    p >= 0,
            ;
        } else {
            assert(sqrt_floor(n) == p);
        }
    }
}

/// Any `r` whose square brackets `n` equals `sqrt_floor(n)`.
proof fn lemma_sqrt_floor_unique(n: int, r: int)
    requires
        0 <= r,
        r * r <= n,
        n < (r + 1) * (r + 1),
    ensures
        r == sqrt_floor(n),
{
    lemma_sqrt_floor_bounds(n);
    let s = sqrt_floor(n);
    if r < s {
        assert((r + 1) * (r + 1) <= s * s) by (nonlinear_arith)
            requires
                0 <= r && r + 1 <= s,
        ;
    }
    if s < r {
        assert((s + 1) * (s + 1) <= r * r) by (nonlinear_arith)
            requires
                0 <= s && s + 1 <= r,
        ;
    }
}

/// The integer square root is monotone.
pub proof fn lemma_sqrt_floor_monotone(m: int, n: int)
    requires
        0 <= m <= n,
    ensures
        sqrt_floor(m) <= sqrt_floor(n),
{
    lemma_sqrt_floor_bounds(m);
    lemma_sqrt_floor_bounds(n);
    let sm = sqrt_floor(m);
    let sn = sqrt_floor(n);
    if sn < sm {
        assert((sn + 1) * (sn + 1) <= sm * sm) by (nonlinear_arith)
            requires
                0 <= sn && sn + 1 <= sm,
        ;
    }
}

/// The integer square root, by binary search.
pub fn isqrt(n: u64) -> (r: u64)
    ensures
        r == sqrt_floor(n as int),
{
    if n == 0 {
        proof {
            lemma_sqrt_floor_unique(0, 0);
        }
        return 0;
    }
    let mut lo: u64 = 0;
    let mut hi: u64 = 4_294_967_296;
    assert((hi as int) * (hi as int) > u64::MAX as int) by (nonlinear_arith)
        requires
            hi == 4_294_967_296u64,
    ;
    while lo + 1 < hi
        invariant
            lo < hi <= 4_294_967_296,
            (lo as int) * (lo as int) <= n as int,
            (n as int) < (hi as int) * (hi as int),
        decreases hi - lo,
    {
        let mid = lo + (hi - lo) / 2;
        proof {
            assert((mid as int) * (mid as int) <= u128::MAX as int) by (nonlinear_arith)
                requires
                    0 <= mid as int <= 4_294_967_296,
            ;
        }
        if (mid as u128) * (mid as u128) <= n as u128 {
            lo = mid;
        } else {
            hi = mid;
        }
    }
    proof {
        lemma_sqrt_floor_unique(n as int, lo as int);
    }
    lo
}



/// Number of noise layers accumulated per cell.
pub const OCTAVE_COUNT: u32 = 8;

/// Frequency of the first octave, in [`NOISE_ONE`] units per grid step:
/// about 0.025. Each further octave doubles it.
pub const FREQ_BASE: u32 = 26_214;

/// Fixed-point scale of octave amplitudes.
pub const AMP_ONE: i64 = 1_000_000_000;

/// Per-octave amplitude decay ("persistence"): each octave carries
/// `PERSIST_NUM / PERSIST_DEN` (0.015) of the previous amplitude.
pub const PERSIST_NUM: i64 = 15;

/// See [`PERSIST_NUM`].
pub const PERSIST_DEN: i64 = 1000;

/// Largest accepted grid side length.
pub const GRID_MAX: u32 = 1000;

/// Amplitude of octave `k`, at scale [`AMP_ONE`].
pub open spec fn amp_at(k: int) -> int
    decreases k,
{
    if k <= 0 {
        AMP_ONE as int
    } else {
        amp_at(k - 1) * PERSIST_NUM / (PERSIST_DEN as int)
    }
}

/// Sum of the amplitudes of the first `k` octaves.
pub open spec fn amp_total(k: int) -> int
    decreases k,
{
    if k <= 0 {
        0
    } else {
        amp_total(k - 1) + amp_at(k - 1)
    }
}

/// Frequency of octave `k`, in [`NOISE_ONE`] units per grid step.
pub open spec fn freq_at(k: int) -> int
    decreases k,
{
    if k <= 0 {
        FREQ_BASE as int
    } else {
        2 * freq_at(k - 1)
    }
}

/// A noise sample limited to one unit in either direction.
pub open spec fn clamp_unit(v: int) -> int {
    if v > NOISE_ONE {
        NOISE_ONE as int
    } else if v < -NOISE_ONE {
        -NOISE_ONE
    } else {
        v
    }
}

/// Amplitude-weighted sum of the first `k` clamped noise samples for a cell.
pub open spec fn octave_sum(seed: u32, x: int, y: int, k: int) -> int
    decreases k,
{
    if k <= 0 {
        0
    } else {
        octave_sum(seed, x, y, k - 1) + clamp_unit(
            noise_val(seed, x * freq_at(k - 1), y * freq_at(k - 1)),
        ) * amp_at(k - 1)
    }
}

/// The accumulated octave noise of a cell, normalized by the total
/// amplitude and rescaled from one unit either way into `[0, ELEV_ONE]`.
pub open spec fn spec_sum_octave(seed: u32, x: int, y: int) -> int {
    let ma = amp_total(OCTAVE_COUNT as int);
    (octave_sum(seed, x, y, OCTAVE_COUNT as int) + ma * NOISE_ONE) * ELEV_ONE / (2 * ma
        * (NOISE_ONE as int))
}

/// The amplitudes of the eight octaves, written out.
proof fn lemma_amp_values()
    ensures
        amp_at(0) == 1_000_000_000,
        amp_at(1) == 15_000_000,
        amp_at(2) == 225_000,
        amp_at(3) == 3_375,
        amp_at(4) == 50,
        amp_at(5) == 0,
        amp_at(6) == 0,
        amp_at(7) == 0,
        amp_total(8) == 1_015_228_425,
{
    assert(amp_at(0) == 1_000_000_000);
    assert(amp_at(1) == 15_000_000);
    assert(amp_at(2) == 225_000);
    assert(amp_at(3) == 3_375);
    assert(amp_at(4) == 50);
    assert(amp_at(5) == 0);
    assert(amp_at(6) == 0);
    assert(amp_at(7) == 0);
    assert(amp_total(1) == amp_total(0) + amp_at(0));
    assert(amp_total(2) == amp_total(1) + amp_at(1));
    assert(amp_total(3) == amp_total(2) + amp_at(2));
    assert(amp_total(4) == amp_total(3) + amp_at(3));
    assert(amp_total(5) == amp_total(4) + amp_at(4));
    assert(amp_total(6) == amp_total(5) + amp_at(5));
    assert(amp_total(7) == amp_total(6) + amp_at(6));
    assert(amp_total(8) == amp_total(7) + amp_at(7));
}

/// Octave amplitudes stay within `[0, AMP_ONE]`.
proof fn lemma_amp_at_range(k: int)
    requires
        0 <= k < 8,
    ensures
        0 <= amp_at(k) <= AMP_ONE,
{
    lemma_amp_values();
}

/// The frequencies of the eight octaves, written out.
proof fn lemma_freq_values()
    ensures
        freq_at(0) == 26_214,
        freq_at(1) == 52_428,
        freq_at(2) == 104_856,
        freq_at(3) == 209_712,
        freq_at(4) == 419_424,
        freq_at(5) == 838_848,
        freq_at(6) == 1_677_696,
        freq_at(7) == 3_355_392,
{
    assert(freq_at(0) == 26_214);
    assert(freq_at(1) == 52_428);
    assert(freq_at(2) == 104_856);
    assert(freq_at(3) == 209_712);
    assert(freq_at(4) == 419_424);
    assert(freq_at(5) == 838_848);
    assert(freq_at(6) == 1_677_696);
    assert(freq_at(7) == 3_355_392);
}

/// Octave frequencies stay within `(0, freq_at(7)]`.
proof fn lemma_freq_at_range(k: int)
    requires
        0 <= k < 8,
    ensures
        0 < freq_at(k) <= 3_355_392,
{
    lemma_freq_values();
}

/// What one two-dimensional OpenSimplex sample is, for a given seed at a
/// given noise-space point (both coordinates and the sample itself in
/// [`NOISE_ONE`] fixed-point units).
pub uninterp spec fn noise_val(seed: u32, x: int, y: int) -> int;

/// Relies on noise::OpenSimplex: the sample returned by `NoiseFn::get` is a
/// pure function of the permutation table that `Seedable::set_seed` builds
/// from the seed and of the sampled point, so equal arguments always yield
/// the same sample. The body only converts the fixed-point coordinates to
/// the crate's scalar type (dividing by the scale) and the sample back
/// (multiplying by it).
#[verifier::external_body]
fn noise_sample(seed: u32, x: u32, y: u32) -> (v: i64)
    ensures
        v == noise_val(seed, x as int, y as int),
{
    let gen = noise::Seedable::set_seed(noise::OpenSimplex::new(), seed);
    // The crate's scalar type is never written out here: the qualified
    // `NoiseFn<[_; 2]>` call fixes it, a throwaway sample at the origin
    // yields a value of it, and every conversion below goes through that
    // value (`zero.mul_add(zero, k)` is exactly the scalar of the integer
    // `k`).
    let origin: [_; 2] = Default::default();
    let at_origin = <noise::OpenSimplex as noise::NoiseFn<[_; 2]>>::get(&gen, origin);
    let zero = at_origin - at_origin;
    let scale = zero.mul_add(zero, Into::<_>::into(1_048_576u32));
    let sx = zero.mul_add(zero, Into::<_>::into(x)) / scale;
    let sy = zero.mul_add(zero, Into::<_>::into(y)) / scale;
    let s = noise::NoiseFn::get(&gen, [sx, sy]);
    s.mul_add(scale, zero) as i64
}


/// The octave sum never exceeds the total amplitude in magnitude.
proof fn lemma_octave_sum_bound(seed: u32, x: int, y: int, k: int)
    requires
        0 <= k <= 8,
    ensures
        0 <= amp_total(k),
        -(amp_total(k) * (NOISE_ONE as int)) <= octave_sum(seed, x, y, k) <= amp_total(k) * (
        NOISE_ONE as int),
    decreases k,
{
    if k > 0 {
        lemma_octave_sum_bound(seed, x, y, k - 1);
        lemma_amp_at_range(k - 1);
        let a = amp_at(k - 1);
        let c = clamp_unit(noise_val(seed, x * freq_at(k - 1), y * freq_at(k - 1)));
        assert(-(NOISE_ONE as int) <= c <= NOISE_ONE as int);
        assert(-((NOISE_ONE as int) * a) <= c * a <= (NOISE_ONE as int) * a) by (nonlinear_arith)
            requires
                0 <= a && -(NOISE_ONE as int) <= c <= NOISE_ONE as int,
        ;
    }
}

/// Four times the squared distance of cell `(x, y)` from the grid center
/// `(w/2, h/2)` (kept times four so that it stays integral for odd sides).
pub open spec fn grid_dist4(w: int, h: int, x: int, y: int) -> int {
    (w - 2 * x) * (w - 2 * x) + (h - 2 * y) * (h - 2 * y)
}

/// Precision factor applied under the square roots of the falloff ratio.
pub const SQ_PREC: i64 = 1_000_000;

/// The radial falloff of a cell: one minus the cell's distance from the
/// grid center over the largest possible distance (center to a far corner),
/// at scale [`ELEV_ONE`]. Highest at the center, zero at the far corners.
pub open spec fn spec_base_value(w: int, h: int, x: int, y: int) -> int {
    let sd = sqrt_floor(grid_dist4(w, h, x, y) * SQ_PREC);
    let sm = sqrt_floor((w * w + h * h) * SQ_PREC);
    ELEV_ONE - ELEV_ONE * sd / sm
}

/// The synthesized elevation of a cell: octave noise shaped by the radial
/// falloff, in `[0, ELEV_ONE]`.
pub open spec fn spec_elevation(seed: u32, w: int, h: int, x: int, y: int) -> int {
    spec_sum_octave(seed, x, y) * spec_base_value(w, h, x, y) / (ELEV_ONE as int)
}

/// What a field cell holds: the synthesized elevation inside the
/// synthesizer's domain, zero on the boundary row and column.
pub open spec fn spec_cell_value(seed: u32, w: int, h: int, x: int, y: int) -> int {
    if x < w - 1 && y < h - 1 {
        spec_elevation(seed, w, h, x, y)
    } else {
        0
    }
}


/// Row-major position of cell `(x, y)` in a field of width `w`.
pub open spec fn row_index(w: int, x: int, y: int) -> int {
    y * w + x
}

/// A cell of a row before row `h` sits before `h * w`.
proof fn lemma_row_index_in_row(w: int, h: int, x: int, y: int)
    requires
        0 <= x < w,
        0 <= y < h,
    ensures
        0 <= row_index(w, x, y),
        row_index(w, x, y) < h * w,
        row_index(w, x, y) < (y + 1) * w,
        y * w + x == row_index(w, x, y),
{
    assert(0 <= y * w + x < h * w && y * w + x < (y + 1) * w) by (nonlinear_arith)
        requires
            0 <= x < w && 0 <= y < h,
    ;
}


/// A rectangular field of elevation values: the product of accumulated
/// octave noise and the radial falloff, at scale [`ELEV_ONE`], over the
/// cells `(x, y)` with `x < width - 1` and `y < height - 1` (zero on the
/// boundary row and column, which the synthesizer leaves out of its
/// domain). Regenerated wholesale; never patched cell by cell.
pub struct HeightMap {
    pub width: u32,
    pub height: u32,
    pub seed: u32,
    pub map: Vec<i64>,
}

impl HeightMap {
    /// Side lengths the synthesizer accepts.
    pub open spec fn dims_ok(&self) -> bool {
        &&& 2 <= self.width <= GRID_MAX
        &&& 2 <= self.height <= GRID_MAX
    }

    /// The stored value of cell `(x, y)`.
    pub open spec fn elev_at(&self, x: int, y: int) -> int {
        self.map[y * self.width + x] as int
    }

    /// The field holds exactly the synthesized elevation of every cell.
    pub open spec fn wf(&self) -> bool {
        &&& self.dims_ok()
        &&& self.map.len() == self.height * self.width
        &&& forall|x: int, y: int|
            0 <= x < self.width && 0 <= y < self.height ==> #[trigger] self.elev_at(x, y)
                == spec_cell_value(
                self.seed,
                self.width as int,
                self.height as int,
                x,
                y,
            )
    }

    /// The accumulated octave noise of a cell, in `[0, ELEV_ONE]`.
    pub fn sum_octave(&self, x: u32, y: u32) -> (v: i64)
        requires
            x <= GRID_MAX,
            y <= GRID_MAX,
        ensures
            v == spec_sum_octave(self.seed, x as int, y as int),
            0 <= v <= ELEV_ONE,
    {
        let seed = self.seed;
        let mut value: i64 = 0;
        let mut max_amp: i64 = 0;
        let mut amp: i64 = AMP_ONE;
        let mut freq: u32 = FREQ_BASE;
        let mut k: u32 = 0;
        while k < OCTAVE_COUNT
            invariant
                0 <= k <= 8,
                x <= GRID_MAX,
                y <= GRID_MAX,
                seed == self.seed,
                max_amp == amp_total(k as int),
                amp == amp_at(k as int),
                value == octave_sum(seed, x as int, y as int, k as int),
                0 <= max_amp <= k * AMP_ONE,
                0 <= amp <= AMP_ONE,
                -(max_amp * NOISE_ONE) <= value <= max_amp * NOISE_ONE,
                k < 8 ==> freq == freq_at(k as int),
            decreases 8 - k,
        {
            proof {
                lemma_freq_at_range(k as int);
                lemma_amp_at_range(k as int);
            }
            assert(x * freq <= 1000 * 3_355_392) by (nonlinear_arith)
                requires
                    x <= 1000 && freq <= 3_355_392,
            ;
            assert(y * freq <= 1000 * 3_355_392) by (nonlinear_arith)
                requires
                    y <= 1000 && freq <= 3_355_392,
            ;
            let sx = x * freq;
            let sy = y * freq;
            let n = noise_sample(seed, sx, sy);
            let c = if n > NOISE_ONE {
                NOISE_ONE
            } else if n < -NOISE_ONE {
                -NOISE_ONE
            } else {
                n
            };
            assert(c == clamp_unit(noise_val(seed, (x * freq_at(k as int)), (y * freq_at(
                k as int,
            )))));
            assert(-(NOISE_ONE * amp) <= c * amp <= NOISE_ONE * amp) by (nonlinear_arith)
                requires
                    0 <= amp && -NOISE_ONE <= c <= NOISE_ONE,
            ;
            value = value + c * amp;
            max_amp = max_amp + amp;
            assert(((amp * PERSIST_NUM) as u64 / (PERSIST_DEN as u64)) as int == amp * PERSIST_NUM
                / (PERSIST_DEN as int));
            assert(amp * PERSIST_NUM / (PERSIST_DEN as int) <= amp) by (nonlinear_arith)
                requires
                    amp >= 0,
            ;
            assert(amp * PERSIST_NUM / (PERSIST_DEN as int) >= 0) by (nonlinear_arith)
                requires
                    amp >= 0,
            ;
            amp = ((amp * PERSIST_NUM) as u64 / (PERSIST_DEN as u64)) as i64;
            if k < OCTAVE_COUNT - 1 {
                freq = freq * 2;
            }
            k = k + 1;
        }
        proof {
            lemma_amp_values();
            lemma_octave_sum_bound(seed, x as int, y as int, 8);
        }
        assert(max_amp == 1_015_228_425);
        let shifted = value + max_amp * NOISE_ONE;
        let num = (shifted as u128) * (ELEV_ONE as u128);
        let den: u128 = 2 * 1_015_228_425 * 1_048_576;
        assert(den as int == 2 * (amp_total(8) * (NOISE_ONE as int)));
        proof {
            vstd::arithmetic::div_mod::lemma_div_is_ordered(
                num as int,
                (den as int) * (ELEV_ONE as int),
                den as int,
            );
            vstd::arithmetic::div_mod::lemma_div_multiples_vanish(
                ELEV_ONE as int,
                den as int,
            );
            vstd::arithmetic::div_mod::lemma_div_pos_is_pos(num as int, den as int);
        }
        (num / den) as i64
    }

    /// The radial falloff at a cell, in `[0, ELEV_ONE]`.
    pub fn get_base_value(&self, x: u32, y: u32) -> (v: i64)
        requires
            self.dims_ok(),
            x < self.width,
            y < self.height,
        ensures
            v == spec_base_value(self.width as int, self.height as int, x as int, y as int),
            0 <= v <= ELEV_ONE,
    {
        let w = self.width as i64;
        let h = self.height as i64;
        let dx = w - 2 * (x as i64);
        let dy = h - 2 * (y as i64);
        assert(0 <= dx * dx && dx * dx <= w * w && w * w <= 1_000_000) by (nonlinear_arith)
            requires
                0 <= w <= 1000 && -w <= dx && dx <= w,
        ;
        assert(0 <= dy * dy && dy * dy <= h * h && h * h <= 1_000_000) by (nonlinear_arith)
            requires
                0 <= h <= 1000 && -h <= dy && dy <= h,
        ;
        let ds4 = dx * dx + dy * dy;
        let ms4 = w * w + h * h;
        let sd = isqrt((ds4 * SQ_PREC) as u64);
        let sm = isqrt((ms4 * SQ_PREC) as u64);
        proof {
            lemma_sqrt_floor_monotone(ds4 * SQ_PREC, ms4 * SQ_PREC);
            assert(ms4 >= 8) by (nonlinear_arith)
                requires
                    w >= 2 && h >= 2 && ms4 == w * w + h * h,
            ;
            lemma_sqrt_floor_unique(1, 1);
            lemma_sqrt_floor_monotone(1, ms4 * SQ_PREC);
            lemma_sqrt_floor_bounds(ds4 * SQ_PREC);
            lemma_sqrt_floor_bounds(ms4 * SQ_PREC);
            assert(sd <= 2_000_000) by (nonlinear_arith)
                requires
                    0 <= sd && (sd as int) * (sd as int) <= 2_000_000_000_000,
            ;
            assert(sm <= 2_000_000) by (nonlinear_arith)
                requires
                    0 <= sm && (sm as int) * (sm as int) <= 2_000_000_000_000,
            ;
            vstd::arithmetic::div_mod::lemma_div_is_ordered(
                (ELEV_ONE as int) * (sd as int),
                (ELEV_ONE as int) * (sm as int),
                sm as int,
            );
            vstd::arithmetic::div_mod::lemma_div_multiples_vanish(ELEV_ONE as int, sm as int);
            vstd::arithmetic::div_mod::lemma_div_pos_is_pos(
                (ELEV_ONE as int) * (sd as int),
                sm as int,
            );
        }
        let q = (ELEV_ONE as u64) * sd / sm;
        ELEV_ONE - (q as i64)
    }

    /// The synthesized elevation of a cell inside the synthesizer's domain.
    fn elevation(&self, x: u32, y: u32) -> (v: i64)
        requires
            self.dims_ok(),
            x < self.width - 1,
            y < self.height - 1,
        ensures
            v == spec_elevation(
                self.seed,
                self.width as int,
                self.height as int,
                x as int,
                y as int,
            ),
            0 <= v <= ELEV_ONE,
    {
        let so = self.sum_octave(x, y);
        let bv = self.get_base_value(x, y);
        assert(0 <= so * bv <= 1_000_000_000_000) by (nonlinear_arith)
            requires
                0 <= so <= 1_000_000 && 0 <= bv <= 1_000_000,
        ;
        proof {
            vstd::arithmetic::div_mod::lemma_div_is_ordered(
                (so as int) * (bv as int),
                1_000_000_000_000,
                ELEV_ONE as int,
            );
            vstd::arithmetic::div_mod::lemma_div_pos_is_pos(
                (so as int) * (bv as int),
                ELEV_ONE as int,
            );
        }
        (((so as u64) * (bv as u64)) / (ELEV_ONE as u64)) as i64
    }

    /// Fill the field: every cell of the synthesizer's domain gets its
    /// elevation, the boundary row and column zero.
    pub fn generate(&mut self)
        requires
            old(self).dims_ok(),
        ensures
            final(self).wf(),
            final(self).width == old(self).width,
            final(self).height == old(self).height,
            final(self).seed == old(self).seed,
    {
        let w = self.width;
        let h = self.height;
        let mut map: Vec<i64> = Vec::new();
        let mut y: u32 = 0;
        while y < h
            invariant
                self == old(self),
                w == self.width,
                h == self.height,
                self.dims_ok(),
                0 <= y <= h,
                map.len() == y * w,
                forall|xx: int, yy: int|
                    0 <= xx < w && 0 <= yy < y ==> map[#[trigger] row_index(w as int, xx, yy)]
                        == spec_cell_value(self.seed, w as int, h as int, xx, yy),
            decreases h - y,
        {
            let mut x: u32 = 0;
            while x < w
                invariant
                    self == old(self),
                    w == self.width,
                    h == self.height,
                    self.dims_ok(),
                    0 <= y < h,
                    0 <= x <= w,
                    map.len() == y * w + x,
                    forall|xx: int, yy: int|
                        0 <= xx < w && 0 <= yy < y ==> map[#[trigger] row_index(w as int, xx, yy)]
                            == spec_cell_value(self.seed, w as int, h as int, xx, yy),
                    forall|xx: int|
                        0 <= xx < x ==> map[#[trigger] row_index(w as int, xx, y as int)]
                            == spec_cell_value(self.seed, w as int, h as int, xx, y as int),
                decreases w - x,
            {
                let v: i64 = if x < w - 1 && y < h - 1 {
                    self.elevation(x, y)
                } else {
                    0
                };
                proof {
                    lemma_row_index_in_row(w as int, h as int, x as int, y as int);
                }
                map.push(v);
                proof {
                    assert forall|xx: int, yy: int|
                        0 <= xx < w && 0 <= yy < y implies map[#[trigger] row_index(
                        w as int,
                        xx,
                        yy,
                    )] == spec_cell_value(self.seed, w as int, h as int, xx, yy) by {
                        lemma_row_index_in_row(w as int, y as int, xx, yy);
                        assert(row_index(w as int, xx, yy) < y * w + x);
                    }
                    assert forall|xx: int|
                        0 <= xx < x + 1 implies map[#[trigger] row_index(w as int, xx, y as int)]
                        == spec_cell_value(self.seed, w as int, h as int, xx, y as int) by {
                        assert(row_index(w as int, xx, y as int) == y * w + xx);
                        if xx < x {
                            assert(map[row_index(w as int, xx, y as int)] == spec_cell_value(
                                self.seed,
                                w as int,
                                h as int,
                                xx,
                                y as int,
                            ));
                        } else {
                            assert(row_index(w as int, xx, y as int) == y * w + x);
                        }
                    }
                }
                x = x + 1;
            }
            proof {
                assert((y as int + 1) * (w as int) == (y as int) * (w as int) + (w as int))
                    by (nonlinear_arith);
                assert forall|xx: int, yy: int|
                    0 <= xx < w && 0 <= yy < y + 1 implies map[#[trigger] row_index(
                    w as int,
                    xx,
                    yy,
                )] == spec_cell_value(self.seed, w as int, h as int, xx, yy) by {
                    if yy == y as int {
                        assert(map[row_index(w as int, xx, y as int)] == spec_cell_value(
                            self.seed,
                            w as int,
                            h as int,
                            xx,
                            y as int,
                        ));
                    }
                }
            }
            y = y + 1;
        }
        self.map = map;
        proof {
            assert forall|x: int, y: int|
                0 <= x < self.width && 0 <= y < self.height implies #[trigger] self.elev_at(x, y)
                == spec_cell_value(self.seed, self.width as int, self.height as int, x, y) by {
                assert(row_index(w as int, x, y) == y * w + x);
                lemma_row_index_in_row(w as int, h as int, x, y);
            }
        }
    }

    /// Build a field of the given dimensions from an explicit seed: equal
    /// seeds always yield the equal field.
    pub fn new(width: u32, height: u32, seed: u32) -> (hm: HeightMap)
        requires
            2 <= width <= GRID_MAX,
            2 <= height <= GRID_MAX,
        ensures
            hm.wf(),
            hm.width == width,
            hm.height == height,
            hm.seed == seed,
    {
        let mut hm = HeightMap { width, height, seed, map: Vec::new() };
        hm.generate();
        hm
    }

    /// The value of cell `(x, y)`.
    pub fn get(&self, x: u32, y: u32) -> (v: i64)
        requires
            self.wf(),
            x < self.width,
            y < self.height,
        ensures
            v == spec_cell_value(
                self.seed,
                self.width as int,
                self.height as int,
                x as int,
                y as int,
            ),
    {
        proof {
            lemma_row_index_in_row(self.width as int, self.height as int, x as int, y as int);
            assert(self.elev_at(x as int, y as int) == spec_cell_value(
                self.seed,
                self.width as int,
                self.height as int,
                x as int,
                y as int,
            ));
        }
        assert((y as usize) * (self.width as usize) + (x as usize) < self.map.len());
        self.map[(y as usize) * (self.width as usize) + (x as usize)]
    }
}


/// The falloff never rises when moving to a cell no nearer the grid center:
/// along any ray from the center toward a corner the falloff is
/// non-increasing.
pub proof fn lemma_base_value_monotone(w: int, h: int, x1: int, y1: int, x2: int, y2: int)
    requires
        2 <= w,
        2 <= h,
        grid_dist4(w, h, x1, y1) <= grid_dist4(w, h, x2, y2),
    ensures
        spec_base_value(w, h, x2, y2) <= spec_base_value(w, h, x1, y1),
{
    let d1 = grid_dist4(w, h, x1, y1);
    let d2 = grid_dist4(w, h, x2, y2);
    assert(d1 >= 0) by (nonlinear_arith)
        requires
            d1 == (w - 2 * x1) * (w - 2 * x1) + (h - 2 * y1) * (h - 2 * y1),
    ;
    lemma_sqrt_floor_monotone(d1 * SQ_PREC, d2 * SQ_PREC);
    let sd1 = sqrt_floor(d1 * SQ_PREC);
    let sd2 = sqrt_floor(d2 * SQ_PREC);
    let sm = sqrt_floor((w * w + h * h) * SQ_PREC);
    assert(w * w + h * h >= 8) by (nonlinear_arith)
        requires
            w >= 2 && h >= 2,
    ;
    lemma_sqrt_floor_unique(1, 1);
    lemma_sqrt_floor_monotone(1, (w * w + h * h) * SQ_PREC);
    vstd::arithmetic::div_mod::lemma_div_is_ordered(
        (ELEV_ONE as int) * sd1,
        (ELEV_ONE as int) * sd2,
        sm,
    );
}

/// The grid's center cell is where the falloff is greatest.
pub proof fn lemma_base_value_center_max(w: int, h: int, x: int, y: int)
    requires
        2 <= w,
        2 <= h,
    ensures
        spec_base_value(w, h, x, y) <= spec_base_value(w, h, w / 2, h / 2),
{
    let cw = w - 2 * (w / 2);
    let ch = h - 2 * (h / 2);
    assert(0 <= cw <= 1 && 0 <= ch <= 1);
    let a = w - 2 * x;
    let b = h - 2 * y;
    assert(a * a >= cw * cw) by (nonlinear_arith)
        requires
            (cw == 0 || cw == 1) && a == cw + 2 * ((w / 2) - x),
    ;
    assert(b * b >= ch * ch) by (nonlinear_arith)
        requires
            (ch == 0 || ch == 1) && b == ch + 2 * ((h / 2) - y),
    ;
    lemma_base_value_monotone(w, h, w / 2, h / 2, x, y);
}

} // verus!
