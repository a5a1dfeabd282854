//! The raster pipeline: RGBA pixel buffers built from a height map (grayscale
//! encoding of the normalized height) or as flat diagnostic fills, a
//! row-major byte serialization, a gradient color-ramp transform over an
//! ascending stop table, and posterization of the color channels to a fixed
//! number of evenly spaced levels.

use vstd::prelude::*;

verus! {

use crate::fixed::{
    div_round, div_trunc, lemma_sdiv_round_bound, sdiv, sdiv_round, ONE,
};
use crate::heightmap::{index_spec, lemma_heightmap_size_bounds, HeightMap};
use vstd::arithmetic::div_mod::{
    lemma_div_is_ordered, lemma_div_multiples_vanish, lemma_div_pos_is_pos,
    lemma_fundamental_div_mod_converse, lemma_multiply_divide_lt,
};

/// One RGBA8 pixel.
#[derive(Clone, Copy, PartialEq, Eq, Structural, Debug)]
pub struct Pixel {
    pub r: u8,
    pub g: u8,
    pub b: u8,
    pub a: u8,
}

/// One stop of a color ramp: a fixed-point threshold in `[0, ONE]` and the
/// color taken there.
#[derive(Clone, Copy, PartialEq, Eq, Structural, Debug)]
pub struct GradientStop {
    pub threshold: i64,
    pub color: Pixel,
}

/// Largest pixel count a buffer may hold.
pub const PIXEL_COUNT_MAX: usize = 16777216;

/// The channels of a pixel as a mathematical quadruple.
pub open spec fn pix4(p: Pixel) -> (int, int, int, int) {
    (p.r as int, p.g as int, p.b as int, p.a as int)
}

/// The grayscale value of a height `h` in `[-ONE, ONE]`:
/// `round(((h + 1) / 2) * 255)`.
pub open spec fn gray_spec(h: int) -> int {
    sdiv_round((h + ONE as int) * 255, 2 * (ONE as int))
}

/// `p` is the opaque gray pixel encoding height `h`.
pub open spec fn is_gray_of(p: Pixel, h: int) -> bool {
    &&& p.r as int == gray_spec(h)
    &&& p.g == p.r
    &&& p.b == p.r
    &&& p.a == 255
}

/// The diagnostic ramp value of pixel `i` in a `w` by `h` buffer.
pub open spec fn ramp_spec(i: int, w: int, h: int) -> int {
    255 * i / (w * h)
}

/// The normalized value of a pixel: its red channel mapped into `[0, ONE]`.
pub open spec fn tval_spec(p: Pixel) -> int {
    (p.r as int) * (ONE as int) / 255
}

/// The posterization level of channel value `v`: the nearest of `steps`
/// evenly spaced levels.
pub open spec fn quant_level_spec(v: int, steps: int) -> int {
    sdiv_round(v * (steps - 1), 255)
}

/// The channel value of posterization level `lev`.
pub open spec fn quant_value_spec(lev: int, steps: int) -> int {
    sdiv_round(lev * 255, steps - 1)
}

/// A channel value posterized to `steps` levels.
pub open spec fn quant_channel_spec(v: int, steps: int) -> int {
    quant_value_spec(quant_level_spec(v, steps), steps)
}

/// A pixel with R, G and B posterized and alpha untouched.
pub open spec fn quant_pixel_ok(p: Pixel, q: Pixel, steps: int) -> bool {
    &&& q.r as int == quant_channel_spec(p.r as int, steps)
    &&& q.g as int == quant_channel_spec(p.g as int, steps)
    &&& q.b as int == quant_channel_spec(p.b as int, steps)
    &&& q.a == p.a
}

/// One linearly interpolated channel: `c0` moved toward `c1` by the
/// fixed-point ratio, rounded to the nearest integer.
pub open spec fn lerp_channel_spec(c0: int, c1: int, ratio: int) -> int {
    c0 + sdiv_round((c1 - c0) * ratio, ONE as int)
}

/// The fixed-point interpolation ratio of `t` between two thresholds.
pub open spec fn ratio_spec(t0: int, t1: int, t: int) -> int {
    sdiv((t - t0) * (ONE as int), t1 - t0)
}

/// The color the ramp assigns between stops `i - 1` and `i`, or further
/// right if `t` has not yet been bracketed.
pub open spec fn grad_search_spec(stops: Seq<GradientStop>, t: int, i: int) -> (
    int,
    int,
    int,
    int,
)
    recommends
        1 <= i <= stops.len(),
    decreases stops.len() - i,
{
    if i < 1 || i >= stops.len() {
        pix4(stops[stops.len() - 1].color)
    } else if t < stops[i].threshold {
        let ratio = ratio_spec(stops[i - 1].threshold as int, stops[i].threshold as int, t);
        let c0 = stops[i - 1].color;
        let c1 = stops[i].color;
        (
            lerp_channel_spec(c0.r as int, c1.r as int, ratio),
            lerp_channel_spec(c0.g as int, c1.g as int, ratio),
            lerp_channel_spec(c0.b as int, c1.b as int, ratio),
            lerp_channel_spec(c0.a as int, c1.a as int, ratio),
        )
    } else {
        grad_search_spec(stops, t, i + 1)
    }
}

/// The color a stop table assigns to the normalized value `t`: the first
/// stop's color below the first threshold, the last stop's color at or above
/// the last threshold, and otherwise the linear blend of the bracketing pair
/// `t0 <= t < t1`.
pub open spec fn grad_color_spec(stops: Seq<GradientStop>, t: int) -> (int, int, int, int)
    recommends
        stops.len() >= 1,
{
    if t < stops[0].threshold {
        pix4(stops[0].color)
    } else if t >= stops[stops.len() - 1].threshold {
        pix4(stops[stops.len() - 1].color)
    } else {
        grad_search_spec(stops, t, 1)
    }
}

/// A usable stop table: at least one stop, strictly ascending thresholds,
/// all of them within `[0, ONE]`.
pub open spec fn stops_wf(stops: Seq<GradientStop>) -> bool {
    &&& stops.len() >= 1
    &&& forall|i: int|
        0 <= i < stops.len() - 1 ==> (#[trigger] stops[i].threshold) < stops[i + 1].threshold
    &&& forall|i: int| 0 <= i < stops.len() ==> 0 <= (#[trigger] stops[i].threshold) <= ONE as int
}

/// Ascending adjacent thresholds are ascending across any distance.
proof fn lemma_stops_monotone(stops: Seq<GradientStop>, i: int, j: int)
    requires
        stops_wf(stops),
        0 <= i <= j < stops.len(),
    ensures
        stops[i].threshold <= stops[j].threshold,
    decreases j - i,
{
    if i < j {
        lemma_stops_monotone(stops, i + 1, j);
    }
}

/// Gradient clamping: below the first threshold the ramp takes exactly the
/// first stop's color, and at or above the last threshold exactly the last
/// stop's color.
pub proof fn lemma_gradient_clamp(stops: Seq<GradientStop>, t: int)
    requires
        stops_wf(stops),
    ensures
        t < stops[0].threshold ==> grad_color_spec(stops, t) == pix4(stops[0].color),
        t >= stops[stops.len() - 1].threshold ==> grad_color_spec(stops, t) == pix4(
            stops[stops.len() - 1].color,
        ),
{
    lemma_stops_monotone(stops, 0, stops.len() - 1);
}

/// Posterization cardinality: every posterized channel value is one of the
/// `steps` level values, so each channel takes at most `steps` distinct
/// values across any buffer.
pub proof fn lemma_quantize_cardinality(v: int, steps: int)
    requires
        0 <= v <= 255,
        2 <= steps,
    ensures
        exists|lev: int|
            0 <= lev < steps && quant_channel_spec(v, steps) == #[trigger] quant_value_spec(
                lev,
                steps,
            ),
{
    let lev = quant_level_spec(v, steps);
    assert(0 <= v * (steps - 1) <= (steps - 1) * 255) by (nonlinear_arith)
        requires 0 <= v <= 255, 2 <= steps,
    ;
    lemma_sdiv_round_bound(v * (steps - 1), 255, steps - 1);
    assert(0 <= lev < steps);
    assert(quant_channel_spec(v, steps) == quant_value_spec(lev, steps));
}

/// The bytes of a pixel sequence, row-major RGBA.
pub open spec fn rgba_flat_ok(bytes: Seq<u8>, pix: Seq<Pixel>) -> bool {
    &&& bytes.len() == 4 * pix.len()
    &&& forall|j: int|
        0 <= j < pix.len() ==> {
            let p = #[trigger] pix[j];
            bytes[4 * j] == p.r && bytes[4 * j + 1] == p.g && bytes[4 * j + 2] == p.b && bytes[4
                * j + 3] == p.a
        }
}

/// The gray pixels of a height map, in the map's row-major storage order:
/// pixel `x * n + z` encodes the height of local cell `(x, z)`.
pub fn pixel_data_from_height_map(map: &HeightMap) -> (v: Vec<Pixel>)
    requires
        map.wf(),
    ensures
        v@.len() == map.size() * map.size(),
        forall|x: int, z: int|
            0 <= x < map.size() && 0 <= z < map.size() ==> is_gray_of(
                #[trigger] v@[index_spec(x, z, map.size())],
                map.height_at(x, z),
            ),
{
    proof {
        lemma_heightmap_size_bounds(map);
    }
    let n = map.resolution();
    let ghost ni = map.size();
    let mut v: Vec<Pixel> = Vec::new();
    let mut x: usize = 0;
    while x < n
        invariant
            map.wf(),
            ni == map.size(),
            n == ni,
            0 <= x <= n,
            v@.len() == x * n,
            forall|k: int|
                0 <= k < v@.len() ==> is_gray_of(#[trigger] v@[k], map.height_at(k / ni, k % ni)),
        decreases n - x,
    {
        let mut z: usize = 0;
        while z < n
            invariant
                map.wf(),
                ni == map.size(),
                n == ni,
                0 <= x < n,
                0 <= z <= n,
                v@.len() == x * n + z,
                forall|k: int|
                    0 <= k < v@.len() ==> is_gray_of(
                        #[trigger] v@[k],
                        map.height_at(k / ni, k % ni),
                    ),
            decreases n - z,
        {
            let h = map.get(x, z);
            let g = gray_of_height(h);
            proof {
                lemma_fundamental_div_mod_converse(
                    (x as int) * ni + (z as int),
                    ni,
                    x as int,
                    z as int,
                );
            }
            v.push(Pixel { r: g, g, b: g, a: 255 });
            z = z + 1;
        }
        x = x + 1;
        proof {
            assert(((x - 1) as int) * ni + ni == (x as int) * ni) by (nonlinear_arith);
        }
    }
    proof {
        assert forall|xi: int, zi: int| 0 <= xi < map.size() && 0 <= zi < map.size() implies
            is_gray_of(
            #[trigger] v@[index_spec(xi, zi, map.size())],
            map.height_at(xi, zi),
        ) by {
            let k = index_spec(xi, zi, map.size());
            lemma_fundamental_div_mod_converse(k, map.size(), xi, zi);
            assert(0 <= k < map.size() * map.size()) by (nonlinear_arith)
                requires 0 <= xi < map.size(), 0 <= zi < map.size(), k == xi * map.size() + zi,
            ;
        }
        assert(v@.len() == map.size() * map.size());
    }
    v
}

/// The gray value of one height, matching `gray_spec`.
fn gray_of_height(h: i64) -> (g: u8)
    requires
        -(ONE as int) <= h <= ONE as int,
    ensures
        g as int == gray_spec(h as int),
{
    proof {
        lemma_sdiv_round_bound((h as int + ONE as int) * 255, 2 * (ONE as int), 255);
        if h >= -ONE {
            vstd::arithmetic::mul::lemma_mul_nonnegative(h as int + ONE as int, 255);
        }
    }
    let num: i64 = (h + ONE) * 255;
    let g = div_round(num, 2 * ONE);
    g as u8
}

/// A diagnostic ramp: pixel `i` of a `w` by `h` buffer carries the gray
/// value `255 * i / (w * h)`.
pub fn pixel_data_empty(width: u32, height: u32) -> (v: Vec<Pixel>)
    requires
        (width as int) * (height as int) <= PIXEL_COUNT_MAX as int,
    ensures
        v@.len() == (width as int) * (height as int),
        forall|i: int|
            0 <= i < v@.len() ==> {
                let p = #[trigger] v@[i];
                p.r as int == ramp_spec(i, width as int, height as int) && p.g == p.r && p.b == p.r
                    && p.a == 255
            },
{
    proof {
        assert(0 <= (width as int) * (height as int)) by (nonlinear_arith);
    }
    let count: u64 = (width as u64) * (height as u64);
    let mut v: Vec<Pixel> = Vec::new();
    let mut i: u64 = 0;
    while i < count
        invariant
            count == (width as int) * (height as int),
            count <= PIXEL_COUNT_MAX as int,
            0 <= i <= count,
            v@.len() == i,
            forall|j: int|
                0 <= j < v@.len() ==> {
                    let p = #[trigger] v@[j];
                    p.r as int == ramp_spec(j, width as int, height as int) && p.g == p.r && p.b
                        == p.r && p.a == 255
                },
        decreases count - i,
    {
        let val: u64 = 255 * i / count;
        proof {
            lemma_multiply_divide_lt(255 * (i as int), count as int, 255);
            assert((count as int) * 255 == 255 * (count as int)) by (nonlinear_arith);
            lemma_div_pos_is_pos(255 * (i as int), count as int);
        }
        let g = val as u8;
        v.push(Pixel { r: g, g, b: g, a: 255 });
        i = i + 1;
    }
    v
}

/// A `width` by `height` RGBA buffer with its dimensions.
pub struct PixelData {
    pixels: Vec<Pixel>,
    width: u32,
    height: u32,
}

impl PixelData {
    /// The stored pixels, row-major.
    pub closed spec fn pix(&self) -> Seq<Pixel> {
        self.pixels@
    }

    /// Buffer width in pixels.
    pub closed spec fn width_spec(&self) -> int {
        self.width as int
    }

    /// Buffer height in pixels.
    pub closed spec fn height_spec(&self) -> int {
        self.height as int
    }

    /// Shape invariant: the buffer holds exactly `width * height` pixels.
    pub open spec fn wf(&self) -> bool {
        self.pix().len() == self.width_spec() * self.height_spec()
    }

    /// Buffer width in pixels.
    pub fn width(&self) -> (w: u32)
        ensures
            w == self.width_spec(),
    {
        self.width
    }

    /// Buffer height in pixels.
    pub fn height(&self) -> (h: u32)
        ensures
            h == self.height_spec(),
    {
        self.height
    }

    /// The pixel at buffer position `i`.
    pub fn pixel(&self, i: usize) -> (p: Pixel)
        requires
            i < self.pix().len(),
        ensures
            p == self.pix()[i as int],
    {
        self.pixels[i]
    }

    /// Number of pixels in the buffer.
    pub fn len(&self) -> (n: usize)
        ensures
            n == self.pix().len(),
    {
        self.pixels.len()
    }

    /// The grayscale image of a height map: a square buffer of the map's
    /// resolution whose pixel `x * n + z` encodes the height of cell
    /// `(x, z)` as `round(((h + 1) / 2) * 255)`, fully opaque.
    pub fn from_height_map(map: &HeightMap) -> (d: PixelData)
        requires
            map.wf(),
        ensures
            d.wf(),
            d.width_spec() == map.size(),
            d.height_spec() == map.size(),
            d.pix().len() == map.size() * map.size(),
            forall|x: int, z: int|
                0 <= x < map.size() && 0 <= z < map.size() ==> is_gray_of(
                    #[trigger] d.pix()[index_spec(x, z, map.size())],
                    map.height_at(x, z),
                ),
    {
        proof {
            lemma_heightmap_size_bounds(map);
        }
        let n = map.resolution();
        let pixels = pixel_data_from_height_map(map);
        PixelData { pixels, width: n as u32, height: n as u32 }
    }

    /// A `width` by `height` diagnostic ramp buffer.
    pub fn empty(width: u32, height: u32) -> (d: PixelData)
        requires
            (width as int) * (height as int) <= PIXEL_COUNT_MAX as int,
        ensures
            d.wf(),
            d.width_spec() == width,
            d.height_spec() == height,
            forall|i: int|
                0 <= i < d.pix().len() ==> {
                    let p = #[trigger] d.pix()[i];
                    p.r as int == ramp_spec(i, width as int, height as int) && p.g == p.r && p.b
                        == p.r && p.a == 255
                },
    {
        let pixels = pixel_data_empty(width, height);
        PixelData { pixels, width, height }
    }

    /// A `width` by `height` buffer filled with one pixel value.
    pub fn splat(width: u32, height: u32, pixel: Pixel) -> (d: PixelData)
        requires
            (width as int) * (height as int) <= PIXEL_COUNT_MAX as int,
        ensures
            d.wf(),
            d.width_spec() == width,
            d.height_spec() == height,
            forall|i: int| 0 <= i < d.pix().len() ==> #[trigger] d.pix()[i] == pixel,
    {
        proof {
            assert(0 <= (width as int) * (height as int)) by (nonlinear_arith);
        }
        let count: u64 = (width as u64) * (height as u64);
        let mut pixels: Vec<Pixel> = Vec::new();
        let mut i: u64 = 0;
        while i < count
            invariant
                count <= PIXEL_COUNT_MAX as int,
                0 <= i <= count,
                pixels@.len() == i,
                forall|j: int| 0 <= j < pixels@.len() ==> #[trigger] pixels@[j] == pixel,
            decreases count - i,
        {
            pixels.push(pixel);
            i = i + 1;
        }
        PixelData { pixels, width, height }
    }

    /// The buffer serialized row-major as RGBA bytes, four per pixel.
    pub fn flat_data(&self) -> (bytes: Vec<u8>)
        ensures
            rgba_flat_ok(bytes@, self.pix()),
    {
        let mut bytes: Vec<u8> = Vec::new();
        let mut i: usize = 0;
        while i < self.pixels.len()
            invariant
                0 <= i <= self.pix().len(),
                bytes@.len() == 4 * i,
                forall|j: int|
                    0 <= j < i ==> {
                        let p = #[trigger] self.pix()[j];
                        bytes@[4 * j] == p.r && bytes@[4 * j + 1] == p.g && bytes@[4 * j + 2]
                            == p.b && bytes@[4 * j + 3] == p.a
                    },
            decreases self.pix().len() - i,
        {
            let p = self.pixels[i];
            bytes.push(p.r);
            bytes.push(p.g);
            bytes.push(p.b);
            bytes.push(p.a);
            i = i + 1;
        }
        bytes
    }

    /// Posterizes the R, G and B channels in place to `steps` evenly spaced
    /// levels; alpha is left untouched. `steps` must be at least 2.
    pub fn quantize(&mut self, steps: u32)
        requires
            steps >= 2,
        ensures
            final(self).width_spec() == old(self).width_spec(),
            final(self).height_spec() == old(self).height_spec(),
            final(self).pix().len() == old(self).pix().len(),
            final(self).wf() == old(self).wf(),
            forall|i: int|
                0 <= i < final(self).pix().len() ==> quant_pixel_ok(
                    old(self).pix()[i],
                    #[trigger] final(self).pix()[i],
                    steps as int,
                ),
    {
        let mut i: usize = 0;
        while i < self.pixels.len()
            invariant
                steps >= 2,
                self.width_spec() == old(self).width_spec(),
                self.height_spec() == old(self).height_spec(),
                self.pix().len() == old(self).pix().len(),
                0 <= i <= self.pix().len(),
                forall|j: int|
                    0 <= j < i ==> quant_pixel_ok(
                        old(self).pix()[j],
                        #[trigger] self.pix()[j],
                        steps as int,
                    ),
                forall|j: int|
                    i <= j < self.pix().len() ==> #[trigger] self.pix()[j] == old(self).pix()[j],
            decreases self.pix().len() - i,
        {
            let p = self.pixels[i];
            let q = Pixel {
                r: quant_channel(p.r, steps),
                g: quant_channel(p.g, steps),
                b: quant_channel(p.b, steps),
                a: p.a,
            };
            self.pixels[i] = q;
            i = i + 1;
        }
    }

    /// Re-colors every pixel through the gradient ramp: the pixel's red
    /// channel, normalized into `[0, ONE]`, picks a color from the ascending
    /// stop table — clamped to the outer stops, linearly interpolated
    /// between the bracketing pair elsewhere.
    pub fn apply_gradient(&mut self, stops: &Vec<GradientStop>)
        requires
            stops_wf(stops@),
        ensures
            final(self).width_spec() == old(self).width_spec(),
            final(self).height_spec() == old(self).height_spec(),
            final(self).pix().len() == old(self).pix().len(),
            final(self).wf() == old(self).wf(),
            forall|i: int|
                0 <= i < final(self).pix().len() ==> pix4(#[trigger] final(self).pix()[i])
                    == grad_color_spec(stops@, tval_spec(old(self).pix()[i])),
    {
        let mut i: usize = 0;
        while i < self.pixels.len()
            invariant
                stops_wf(stops@),
                self.width_spec() == old(self).width_spec(),
                self.height_spec() == old(self).height_spec(),
                self.pix().len() == old(self).pix().len(),
                0 <= i <= self.pix().len(),
                forall|j: int|
                    0 <= j < i ==> pix4(#[trigger] self.pix()[j]) == grad_color_spec(
                        stops@,
                        tval_spec(old(self).pix()[j]),
                    ),
                forall|j: int|
                    i <= j < self.pix().len() ==> #[trigger] self.pix()[j] == old(self).pix()[j],
            decreases self.pix().len() - i,
        {
            let p = self.pixels[i];
            let t = normalized_red(p);
            let q = grad_color(stops, t);
            self.pixels[i] = q;
            i = i + 1;
        }
    }
}

/// The red channel mapped into `[0, ONE]`, matching `tval_spec`.
fn normalized_red(p: Pixel) -> (t: i64)
    ensures
        t == tval_spec(p),
        0 <= t <= ONE as int,
{
    let t: u64 = (p.r as u64) * 65536 / 255;
    proof {
        assert((p.r as int) * (ONE as int) == (p.r as int) * 65536) by (nonlinear_arith)
            requires ONE == 65536,
        ;
        lemma_div_pos_is_pos((p.r as int) * 65536, 255);
        lemma_div_is_ordered((p.r as int) * 65536, 255int * 65536, 255);
        lemma_div_multiples_vanish(65536, 255);
    }
    t as i64
}

/// One channel posterized to `steps` levels, matching `quant_channel_spec`.
fn quant_channel(v: u8, steps: u32) -> (r: u8)
    requires
        steps >= 2,
    ensures
        r as int == quant_channel_spec(v as int, steps as int),
{
    let s1: i64 = (steps as i64) - 1;
    proof {
        assert(0 <= (v as int) * (s1 as int) <= (s1 as int) * 255 && (s1 as int) * 255
            <= 0x1000_0000_0000) by (nonlinear_arith)
            requires 0 <= v <= 255, 1 <= s1 <= 0x1_0000_0000,
        ;
        lemma_sdiv_round_bound((v as int) * (s1 as int), 255, s1 as int);
    }
    let lev: i64 = div_round((v as i64) * s1, 255);
    proof {
        assert(0 <= (lev as int) * 255 <= (s1 as int) * 255 && 255 * (s1 as int) == (s1 as int)
            * 255) by (nonlinear_arith)
            requires 0 <= lev <= s1,
        ;
        lemma_sdiv_round_bound((lev as int) * 255, s1 as int, 255);
    }
    let out: i64 = div_round(lev * 255, s1);
    out as u8
}

/// One interpolated channel, matching `lerp_channel_spec`; the result stays
/// between the two endpoint values.
fn lerp_channel(c0: u8, c1: u8, ratio: i64) -> (r: u8)
    requires
        0 <= ratio <= ONE as int,
    ensures
        r as int == lerp_channel_spec(c0 as int, c1 as int, ratio as int),
{
    let d: i64 = (c1 as i64) - (c0 as i64);
    proof {
        if d >= 0 {
            assert(0 <= d * (ratio as int) <= d * (ONE as int)) by (nonlinear_arith)
                requires 0 <= ratio <= ONE as int, d >= 0,
            ;
            lemma_sdiv_round_bound(d * (ratio as int), ONE as int, d as int);
        } else {
            assert(d * (ONE as int) <= d * (ratio as int) <= 0) by (nonlinear_arith)
                requires 0 <= ratio <= ONE as int, d < 0,
            ;
            lemma_sdiv_round_bound(d * (ratio as int), ONE as int, -(d as int));
        }
    }
    let shift = div_round(d * ratio, ONE);
    ((c0 as i64) + shift) as u8
}

/// The ramp color of a normalized value, matching `grad_color_spec`.
fn grad_color(stops: &Vec<GradientStop>, t: i64) -> (p: Pixel)
    requires
        stops_wf(stops@),
        0 <= t <= ONE as int,
    ensures
        pix4(p) == grad_color_spec(stops@, t as int),
{
    let last = stops.len() - 1;
    if t < stops[0].threshold {
        stops[0].color
    } else if t >= stops[last].threshold {
        stops[last].color
    } else {
        let mut i: usize = 1;
        while t >= stops[i].threshold
            invariant
                stops_wf(stops@),
                stops@.len() <= usize::MAX,
                1 <= i < stops@.len(),
                stops@[i as int - 1].threshold <= t,
                t < stops@[stops@.len() - 1].threshold,
                grad_search_spec(stops@, t as int, 1) == grad_search_spec(
                    stops@,
                    t as int,
                    i as int,
                ),
            decreases stops@.len() - i,
        {
            proof {
                assert(i < stops@.len() - 1);
            }
            i = i + 1;
        }
        let t0 = stops[i - 1].threshold;
        let t1 = stops[i].threshold;
        proof {
            lemma_div_pos_is_pos((t as int - t0 as int) * (ONE as int), t1 as int - t0 as int);
            assert((t as int - t0 as int) * (ONE as int) <= (t1 as int - t0 as int) * (ONE as int))
                by (nonlinear_arith)
                requires t0 <= t < t1,
            ;
            lemma_div_is_ordered(
                (t as int - t0 as int) * (ONE as int),
                (t1 as int - t0 as int) * (ONE as int),
                t1 as int - t0 as int,
            );
            lemma_div_multiples_vanish(ONE as int, t1 as int - t0 as int);
            assert((t1 as int - t0 as int) * (ONE as int) == (ONE as int) * (t1 as int - t0 as int))
                by (nonlinear_arith);
        }
        let ratio = div_trunc((t - t0) * ONE, t1 - t0);
        let c0 = stops[i - 1].color;
        let c1 = stops[i].color;
        Pixel {
            r: lerp_channel(c0.r, c1.r, ratio),
            g: lerp_channel(c0.g, c1.g, ratio),
            b: lerp_channel(c0.b, c1.b, ratio),
            a: lerp_channel(c0.a, c1.a, ratio),
        }
    }
}

/// Whether a stop table is usable by `apply_gradient`: nonempty, strictly
/// ascending, thresholds within `[0, ONE]`. Callers holding a table of
/// unknown origin can test it and reject bad tables loudly instead of
/// mapping colors from them.
pub fn stops_ascending(stops: &Vec<GradientStop>) -> (r: bool)
    ensures
        r == stops_wf(stops@),
{
    if stops.len() == 0 {
        return false;
    }
    let mut i: usize = 0;
    while i < stops.len()
        invariant
            i <= stops@.len(),
            forall|j: int|
                0 <= j < i ==> 0 <= (#[trigger] stops@[j].threshold) <= ONE as int,
            forall|j: int|
                0 <= j < i && j + 1 < stops@.len() ==> (#[trigger] stops@[j].threshold)
                    < stops@[j + 1].threshold,
        decreases stops@.len() - i,
    {
        let s = stops[i];
        if s.threshold < 0 || s.threshold > ONE {
            return false;
        }
        if i + 1 < stops.len() && stops[i + 1].threshold <= s.threshold {
            return false;
        }
        i = i + 1;
    }
    true
}

/// A ready-made terrain color ramp: seven stops from deep blue through
/// greens to gray and pale cyan.
pub fn default_gradient() -> (v: Vec<GradientStop>)
    ensures
        stops_wf(v@),
        v@.len() == 7,
        v@[0] == (GradientStop { threshold: 6554, color: Pixel { r: 0, g: 0, b: 120, a: 255 } }),
        v@[1] == (GradientStop { threshold: 19661, color: Pixel { r: 0, g: 50, b: 200, a: 255 } }),
        v@[2] == (GradientStop { threshold: 26214, color: Pixel { r: 0, g: 200, b: 200, a: 255 } }),
        v@[3] == (GradientStop {
            threshold: 29491,
            color: Pixel { r: 150, g: 200, b: 50, a: 255 },
        }),
        v@[4] == (GradientStop { threshold: 32768, color: Pixel { r: 20, g: 200, b: 50, a: 255 } }),
        v@[5] == (GradientStop {
            threshold: 45875,
            color: Pixel { r: 100, g: 100, b: 100, a: 255 },
        }),
        v@[6] == (GradientStop {
            threshold: 58982,
            color: Pixel { r: 150, g: 200, b: 200, a: 255 },
        }),
{
    let mut v: Vec<GradientStop> = Vec::new();
    v.push(GradientStop { threshold: 6554, color: Pixel { r: 0, g: 0, b: 120, a: 255 } });
    v.push(GradientStop { threshold: 19661, color: Pixel { r: 0, g: 50, b: 200, a: 255 } });
    v.push(GradientStop { threshold: 26214, color: Pixel { r: 0, g: 200, b: 200, a: 255 } });
    v.push(GradientStop { threshold: 29491, color: Pixel { r: 150, g: 200, b: 50, a: 255 } });
    v.push(GradientStop { threshold: 32768, color: Pixel { r: 20, g: 200, b: 50, a: 255 } });
    v.push(GradientStop { threshold: 45875, color: Pixel { r: 100, g: 100, b: 100, a: 255 } });
    v.push(GradientStop { threshold: 58982, color: Pixel { r: 150, g: 200, b: 200, a: 255 } });
    v
}

} // verus!
