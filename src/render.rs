//! The render plan: configuration checks, the split of the image rows into
//! bands with their own seeds, pixel addressing inside a band's buffer, and
//! the bounce-depth rule of the path integrator.
use vstd::prelude::*;

verus! {

/// Bounces a path may take before it is cut off and counted as black.
pub const MAX_DEPTH: u32 = 50;

/// Seed of the first band's random series when none is chosen.
pub const DEFAULT_SEED: u32 = 485468;

/// Bytes per pixel in the output buffer (8-bit R, G, B).
pub const PIXEL_BYTES: u32 = 3;

/// What a render is asked to produce.
#[derive(Debug, Clone, Copy)]
pub struct RenderConfig {
    pub width: u32,
    pub height: u32,
    pub samples: u32,
    pub max_depth: u32,
    pub seed: u32,
}

/// Why a render cannot start.
#[derive(Debug, Clone, Copy, PartialEq, Eq)]
pub enum ConfigError {
    ZeroWidth,
    ZeroHeight,
    ZeroSamples,
    ZeroUnits,
    ZeroSeed,
    /// More workers than the rounded share of rows allows: a band would
    /// hold no row.
    TooFewRows,
    /// The pixel buffer's size does not fit in memory's address range.
    BufferTooLarge,
}

/// A contiguous strip of image rows, rendered by one worker with its own
/// random series.
#[derive(Debug, Clone, Copy, PartialEq, Eq)]
pub struct Band {
    pub start_row: u32,
    pub rows: u32,
    pub seed: u32,
}

/// `height / units` rounded to the nearest integer, halves upward.
pub open spec fn rounded_rows(height: int, units: int) -> int {
    (2 * height + units) / (2 * units)
}

/// Number of non-zero states: seeds of bands run through `1..=SEED_RANGE`.
pub const SEED_RANGE: u64 = 0xffff_ffff;

/// The seed of band `index`: the base seed moved `index` places along the
/// non-zero states, wrapping round.
pub open spec fn band_seed_of(seed: u32, index: int) -> u32 {
    (((seed + SEED_RANGE - 1 + index) % (SEED_RANGE as int)) + 1) as u32
}

/// Band `i` of the plan with `rpb` rows per band.
pub open spec fn band_of(height: int, rpb: int, seed: u32, i: int) -> Band {
    Band {
        start_row: (i * rpb) as u32,
        rows: (if rpb <= height - i * rpb { rpb } else { height - i * rpb }) as u32,
        seed: band_seed_of(seed, i),
    }
}

/// `bands` is the plan for `height` rows in bands of `rpb`: as few bands as
/// reach the last row, band `i` starting at row `i * rpb`, the last one
/// possibly shorter.
pub open spec fn is_band_plan(bands: Seq<Band>, height: int, rpb: int, seed: u32) -> bool {
    &&& bands.len() > 0
    &&& (bands.len() - 1) * rpb < height <= bands.len() * rpb
    &&& forall|i: int| 0 <= i < bands.len() ==> #[trigger] bands[i] == band_of(height, rpb, seed, i)
}

/// Size in bytes of the pixel buffer of a whole image.
pub open spec fn buffer_len_of(cfg: RenderConfig) -> int {
    cfg.width * cfg.height * PIXEL_BYTES
}

/// The first check that `cfg`, run on `units` workers, fails, if any.
pub open spec fn plan_error(cfg: RenderConfig, units: u32) -> Option<ConfigError> {
    if cfg.width == 0 {
        Some(ConfigError::ZeroWidth)
    } else if cfg.height == 0 {
        Some(ConfigError::ZeroHeight)
    } else if cfg.samples == 0 {
        Some(ConfigError::ZeroSamples)
    } else if units == 0 {
        Some(ConfigError::ZeroUnits)
    } else if cfg.seed == 0 {
        Some(ConfigError::ZeroSeed)
    } else if rounded_rows(cfg.height as int, units as int) == 0 {
        Some(ConfigError::TooFewRows)
    } else if buffer_len_of(cfg) > usize::MAX {
        Some(ConfigError::BufferTooLarge)
    } else {
        None
    }
}

/// Rows per band: `height / units`, rounded to the nearest integer.
pub fn rows_per_band(height: u32, units: u32) -> (r: u32)
    requires
        units > 0,
    ensures
        r == rounded_rows(height as int, units as int),
        r <= height,
{
    let n: u64 = 2 * (height as u64) + units as u64;
    let d: u64 = 2 * (units as u64);
    let q: u64 = n / d;
    proof {
        assert(q <= height) by (nonlinear_arith)
            requires
                q == n / d,
                n == 2 * height + units,
                d == 2 * units,
                units >= 1,
        ;
    }
    q as u32
}

/// The seed of band `index` (see `band_seed_of`). Never zero, and distinct
/// for indices less than `SEED_RANGE` apart.
pub fn band_seed(seed: u32, index: u32) -> (r: u32)
    ensures
        r == band_seed_of(seed, index as int),
        r != 0,
        seed != 0 && index == 0 ==> r == seed,
{
    let s: u64 = (seed as u64 + (SEED_RANGE - 1) + index as u64) % SEED_RANGE + 1;
    s as u32
}

/// Byte offset of pixel `(x, y)` in a row-major buffer `width` pixels wide.
pub open spec fn pixel_offset_of(width: int, x: int, y: int) -> int {
    (width * y + x) * PIXEL_BYTES
}

/// Where pixel `(x, y)` of a band `width` pixels wide starts in the band's
/// buffer; its three bytes stay inside row `y`.
pub fn pixel_offset(width: u32, x: u32, y: u32) -> (r: usize)
    requires
        x < width,
        width * (y + 1) * PIXEL_BYTES <= usize::MAX,
    ensures
        r == pixel_offset_of(width as int, x as int, y as int),
        width * y * PIXEL_BYTES <= r,
        r + PIXEL_BYTES <= width * (y + 1) * PIXEL_BYTES,
{
    proof {
        assert(width * y * 3 <= (width * y + x) * 3 && (width * y + x) * 3 + 3 <= width * (y
            + 1) * 3) by (nonlinear_arith)
            requires
                x < width,
        ;
    }
    (width as usize * y as usize + x as usize) * (PIXEL_BYTES as usize)
}

/// Two different pixels of one buffer own byte ranges that do not overlap.
pub proof fn lemma_pixels_disjoint(width: u32, x1: u32, y1: u32, x2: u32, y2: u32)
    requires
        x1 < width,
        x2 < width,
        x1 != x2 || y1 != y2,
    ensures
        pixel_offset_of(width as int, x1 as int, y1 as int) + PIXEL_BYTES <= pixel_offset_of(
            width as int,
            x2 as int,
            y2 as int,
        ) || pixel_offset_of(width as int, x2 as int, y2 as int) + PIXEL_BYTES
            <= pixel_offset_of(width as int, x1 as int, y1 as int),
{
    let w = width as int;
    if y1 < y2 {
        assert(w * y1 + x1 + 1 <= w * y2 + x2) by (nonlinear_arith)
            requires
                y1 < y2,
                x1 < w,
                0 <= x2,
        ;
    } else if y2 < y1 {
        assert(w * y2 + x2 + 1 <= w * y1 + x1) by (nonlinear_arith)
            requires
                y2 < y1,
                x2 < w,
                0 <= x1,
        ;
    }
}

/// Bytes taken by `rows` rows of `width` pixels.
pub fn band_bytes(width: u32, rows: u32) -> (r: usize)
    requires
        width * rows * PIXEL_BYTES <= usize::MAX,
    ensures
        r == width * rows * PIXEL_BYTES,
{
    proof {
        assert(width * rows <= width * rows * 3) by (nonlinear_arith);
    }
    width as usize * rows as usize * (PIXEL_BYTES as usize)
}

/// Camera row of image row `y` of a band that starts at `start_row`: the
/// image runs top-down, the camera's `v` bottom-up.
pub fn flipped_row(height: u32, start_row: u32, y: u32) -> (r: u32)
    requires
        start_row + y < height,
    ensures
        r == height - (start_row + y) - 1,
{
    height - (start_row + y) - 1
}

/// What the integrator does after a hit at recursion depth `depth`:
/// go one level deeper, or stop with black.
pub open spec fn bounce_of(depth: u32, max_depth: u32, should_continue: bool) -> Option<u32> {
    if depth < max_depth && should_continue {
        Some((depth + 1) as u32)
    } else {
        None
    }
}

/// The depth of the next bounce after a hit at `depth`, or `None` where the
/// path ends in black: at the depth cap, or where the material absorbed it.
pub fn next_depth(depth: u32, max_depth: u32, should_continue: bool) -> (r: Option<u32>)
    ensures
        r == bounce_of(depth, max_depth, should_continue),
{
    if depth < max_depth && should_continue {
        Some(depth + 1)
    } else {
        None
    }
}

/// `depths` are the recursion depths of one path from the camera: it starts
/// at zero and each step is a bounce that `bounce_of` allowed.
pub open spec fn is_bounce_chain(depths: Seq<u32>, flags: Seq<bool>, max_depth: u32) -> bool {
    &&& depths.len() > 0
    &&& depths[0] == 0
    &&& flags.len() + 1 == depths.len()
    &&& forall|k: int|
        0 <= k < flags.len() ==> bounce_of(depths[k], max_depth, #[trigger] flags[k]) == Some(
            depths[k + 1],
        )
}

/// Depth cap: whatever the materials decide, a path from the camera visits
/// depths `0, 1, 2, ...` in turn and never goes past `max_depth`, so the
/// integrator makes at most `max_depth + 1` nested calls.
pub proof fn lemma_depth_cap(depths: Seq<u32>, flags: Seq<bool>, max_depth: u32)
    requires
        is_bounce_chain(depths, flags, max_depth),
    ensures
        depths.len() <= max_depth + 1,
        forall|k: int| 0 <= k < depths.len() ==> #[trigger] depths[k] == k && depths[k] <= max_depth,
{
    assert forall|k: int| 0 <= k < depths.len() implies #[trigger] depths[k] == k && depths[k]
        <= max_depth by {
        lemma_chain_depth(depths, flags, max_depth, k);
    }
    let last = depths.len() - 1;
    assert(depths[last] == last);
}

proof fn lemma_chain_depth(depths: Seq<u32>, flags: Seq<bool>, max_depth: u32, k: int)
    requires
        is_bounce_chain(depths, flags, max_depth),
        0 <= k < depths.len(),
    ensures
        depths[k] == k,
        depths[k] <= max_depth,
    decreases k,
{
    if k > 0 {
        lemma_chain_depth(depths, flags, max_depth, k - 1);
        assert(bounce_of(depths[k - 1], max_depth, flags[k - 1]) == Some(depths[k]));
    }
}

/// Row `row` lies in band `b`.
pub open spec fn band_holds_row(b: Band, row: int) -> bool {
    b.start_row <= row < b.start_row + b.rows
}

/// Some band of `bands` holds row `row`.
pub open spec fn row_in_some_band(bands: Seq<Band>, row: int) -> bool {
    exists|i: int| 0 <= i < bands.len() && #[trigger] band_holds_row(bands[i], row)
}

/// Band `i` of a plan lies inside the image and ends no later than the next
/// band's start.
proof fn lemma_band_bounds(bands: Seq<Band>, height: int, rpb: int, seed: u32, i: int)
    requires
        0 < height <= u32::MAX,
        0 < rpb,
        is_band_plan(bands, height, rpb, seed),
        0 <= i < bands.len(),
    ensures
        bands[i].start_row == i * rpb,
        0 < bands[i].rows <= rpb,
        bands[i].start_row + bands[i].rows <= height,
        bands[i].start_row + bands[i].rows <= (i + 1) * rpb,
{
    let n = bands.len() as int;
    assert(i * rpb <= (n - 1) * rpb) by (nonlinear_arith)
        requires
            0 <= i <= n - 1,
            0 < rpb,
    ;
    assert(bands[i] == band_of(height, rpb, seed, i));
    assert((i + 1) * rpb == i * rpb + rpb) by (nonlinear_arith);
}

/// Partition of the rows: for any image height and any worker count whose
/// rounded share of rows is not zero, the bands of the plan cover every row
/// `0..height` exactly once, in order, and every band runs its own non-zero
/// seed, the first band the base seed itself.
pub proof fn lemma_band_partition(height: u32, units: u32, seed: u32, bands: Seq<Band>)
    requires
        height > 0,
        units > 0,
        rounded_rows(height as int, units as int) > 0,
        is_band_plan(bands, height as int, rounded_rows(height as int, units as int), seed),
    ensures
        forall|i: int|
            0 <= i < bands.len() ==> 0 < (#[trigger] bands[i]).rows && bands[i].start_row
                + bands[i].rows <= height,
        forall|row: int| 0 <= row < height ==> #[trigger] row_in_some_band(bands, row),
        forall|i: int, j: int|
            0 <= i < j < bands.len() ==> #[trigger] bands[i].start_row + bands[i].rows
                <= #[trigger] bands[j].start_row,
        forall|i: int, j: int|
            0 <= i < j < bands.len() ==> (#[trigger] bands[i]).seed != (#[trigger] bands[j]).seed,
        forall|i: int| 0 <= i < bands.len() ==> (#[trigger] bands[i]).seed != 0,
        seed != 0 ==> bands[0].seed == seed,
{
    let h = height as int;
    let rpb = rounded_rows(h, units as int);
    let n = bands.len() as int;
    assert forall|i: int|
        0 <= i < bands.len() implies 0 < (#[trigger] bands[i]).rows && bands[i].start_row
        + bands[i].rows <= height && bands[i].seed != 0 by {
        lemma_band_bounds(bands, h, rpb, seed, i);
    }
    assert forall|row: int| 0 <= row < height implies #[trigger] row_in_some_band(bands, row) by {
        let i = row / rpb;
        assert(i * rpb <= row < i * rpb + rpb && 0 <= i) by (nonlinear_arith)
            requires
                i == row / rpb,
                0 <= row,
                0 < rpb,
        ;
        if i >= n {
            assert(i * rpb >= n * rpb) by (nonlinear_arith)
                requires
                    i >= n,
                    0 < rpb,
            ;
        }
        lemma_band_bounds(bands, h, rpb, seed, i);
        assert(band_holds_row(bands[i], row));
    }
    assert forall|i: int, j: int| 0 <= i < j < bands.len() implies #[trigger] bands[i].start_row
        + bands[i].rows <= #[trigger] bands[j].start_row by {
        lemma_band_bounds(bands, h, rpb, seed, i);
        lemma_band_bounds(bands, h, rpb, seed, j);
        assert((i + 1) * rpb <= j * rpb) by (nonlinear_arith)
            requires
                i + 1 <= j,
                0 < rpb,
        ;
    }
    assert forall|i: int, j: int| 0 <= i < j < bands.len() implies (#[trigger] bands[i]).seed
        != (#[trigger] bands[j]).seed by {
        assert(bands[i] == band_of(h, rpb, seed, i));
        assert(bands[j] == band_of(h, rpb, seed, j));
        assert(n <= h) by (nonlinear_arith)
            requires
                (n - 1) * rpb < h,
                0 < rpb,
                0 < n,
        ;
    }
    assert(bands[0] == band_of(h, rpb, seed, 0));
}

impl RenderConfig {
    /// A configuration with the standard depth cap of `MAX_DEPTH` bounces.
    pub fn new(width: u32, height: u32, samples: u32, seed: u32) -> (r: RenderConfig)
        ensures
            r == (RenderConfig { width, height, samples, max_depth: MAX_DEPTH, seed }),
    {
        RenderConfig { width, height, samples, max_depth: MAX_DEPTH, seed }
    }

    /// Size in bytes of the whole image's pixel buffer.
    pub fn buffer_len(&self) -> (r: usize)
        requires
            buffer_len_of(*self) <= usize::MAX,
        ensures
            r == buffer_len_of(*self),
    {
        band_bytes(self.width, self.height)
    }

    /// Checks the configuration for a render on `units` workers and splits
    /// its rows into bands of `rows_per_band(height, units)` rows, each with
    /// the seed `band_seed(seed, index)`.
    pub fn plan_bands(&self, units: u32) -> (r: Result<Vec<Band>, ConfigError>)
        ensures
            r is Err <==> plan_error(*self, units) is Some,
            r matches Err(e) ==> plan_error(*self, units) == Some(e),
            r matches Ok(bands) ==> is_band_plan(
                bands@,
                self.height as int,
                rounded_rows(self.height as int, units as int),
                self.seed,
            ),
    {
        if self.width == 0 {
            return Err(ConfigError::ZeroWidth);
        }
        if self.height == 0 {
            return Err(ConfigError::ZeroHeight);
        }
        if self.samples == 0 {
            return Err(ConfigError::ZeroSamples);
        }
        if units == 0 {
            return Err(ConfigError::ZeroUnits);
        }
        if self.seed == 0 {
            return Err(ConfigError::ZeroSeed);
        }
        let rpb = rows_per_band(self.height, units);
        if rpb == 0 {
            return Err(ConfigError::TooFewRows);
        }
        let pixels = (self.width as usize).checked_mul(self.height as usize);
        let total = match pixels {
            Some(p) => p.checked_mul(PIXEL_BYTES as usize),
            None => None,
        };
        if total.is_none() {
            proof {
                assert(buffer_len_of(*self) > usize::MAX) by (nonlinear_arith)
                    requires
                        pixels is None ==> self.width * self.height > usize::MAX,
                        pixels matches Some(p) ==> p == self.width * self.height && p * 3 > usize::MAX,
                        buffer_len_of(*self) == self.width * self.height * 3,
                ;
            }
            return Err(ConfigError::BufferTooLarge);
        }
        let height: u64 = self.height as u64;
        let step: u64 = rpb as u64;
        let mut bands: Vec<Band> = Vec::new();
        let mut start: u64 = 0;
        let mut i: u32 = 0;
        while start < height
            invariant
                0 < step <= height <= u32::MAX,
                step == rpb,
                height == self.height,
                rpb == rounded_rows(self.height as int, units as int),
                start == i * step,
                i == 0 || (i - 1) * step < height,
                i * step <= height + step,
                bands@.len() == i,
                forall|k: int| 0 <= k < i ==> #[trigger] bands@[k] == band_of(height as int, step as int, self.seed, k),
            decreases height + step - start,
        {
            let left: u64 = height - start;
            let rows: u64 = if step <= left { step } else { left };
            let seed = band_seed(self.seed, i);
            bands.push(Band { start_row: start as u32, rows: rows as u32, seed });
            proof {
                assert((i + 1) * step == i * step + step) by (nonlinear_arith);
            }
            start = start + step;
            i = i + 1;
        }
        Ok(bands)
    }
}

} // verus!
