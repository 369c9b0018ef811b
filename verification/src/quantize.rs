//! Indexed-color frames for GIF encoding: palettes built from the colors a frame uses,
//! and delta frames that hold only what changed since the previous frame.
use vstd::prelude::*;
use std::collections::HashMap;
use crate::types::{DisposalMethod, RgbaImage};

verus! {

broadcast use vstd::std_specs::hash::group_hash_axioms;

/// A frame in indexed color, ready for the GIF codec.
#[derive(Debug, Clone)]
pub struct IndexedFrame {
    /// Frame width.
    pub width: u16,
    /// Frame height.
    pub height: u16,
    /// Left offset on the canvas.
    pub left: u16,
    /// Top offset on the canvas.
    pub top: u16,
    /// Delay in centiseconds.
    pub delay: u16,
    /// How the frame is disposed of.
    pub dispose: DisposalMethod,
    /// The palette index that stands for transparency, if any.
    pub transparent: Option<u8>,
    /// The palette, three bytes (red, green, blue) per color.
    pub palette: Vec<u8>,
    /// One palette index per pixel, row by row.
    pub indices: Vec<u8>,
}

/// An RGB color.
pub type Rgb = (u8, u8, u8);

/// The key of a color in the color index: `0xRRGGBB`.
pub open spec fn color_key(c: Rgb) -> u32 {
    (c.0 as int * 65536 + c.1 as int * 256 + c.2 as int) as u32
}

/// The palette being built: its colors, the index of each color added for an opaque
/// pixel, and the transparent index once one is reserved.
pub struct PaletteState {
    /// Colors of the palette so far.
    pub colors: Seq<Rgb>,
    /// Index of each color added for an opaque pixel, by [`color_key`].
    pub index: Map<u32, u8>,
    /// The reserved transparent index.
    pub transparent: Option<u8>,
}

/// Squared distance between two colors.
pub open spec fn color_distance(a: Rgb, b: Rgb) -> int {
    (a.0 - b.0) * (a.0 - b.0) + (a.1 - b.1) * (a.1 - b.1) + (a.2 - b.2) * (a.2 - b.2)
}

/// The first of the first `k` palette colors closest to `target`, with its distance; the
/// search starts from index 0 at distance `u32::MAX`.
pub open spec fn closest_upto(palette: Seq<Rgb>, target: Rgb, k: int) -> (int, int)
    decreases k,
{
    if k <= 0 {
        (0, u32::MAX as int)
    } else {
        let (best, best_dist) = closest_upto(palette, target, k - 1);
        let d = color_distance(palette[k - 1], target);
        if d < best_dist {
            (k - 1, d)
        } else {
            (best, best_dist)
        }
    }
}

/// The index of the palette color closest to `target`; the first such on ties.
pub open spec fn closest_color(palette: Seq<Rgb>, target: Rgb) -> u8 {
    closest_upto(palette, target, palette.len() as int).0 as u8
}

/// The index an opaque color gets: the index recorded for it, else a new palette entry
/// while the palette has fewer than 256 colors, else the closest color.
pub open spec fn color_index(st: PaletteState, c: Rgb) -> (PaletteState, u8) {
    if st.index.contains_key(color_key(c)) {
        (st, st.index[color_key(c)])
    } else if st.colors.len() < 256 {
        let i = st.colors.len() as u8;
        (PaletteState { colors: st.colors.push(c), index: st.index.insert(color_key(c), i), ..st }, i)
    } else {
        (st, closest_color(st.colors, c))
    }
}

/// The index a pixel of a full frame gets. A pixel with alpha below 128 is transparent:
/// the first one reserves a palette entry (if there is room), and all get that entry (or
/// 0 when none could be reserved).
pub open spec fn full_pixel(st: PaletteState, px: (u8, u8, u8, u8)) -> (PaletteState, u8) {
    if px.3 < 128 {
        if st.transparent.is_none() && st.colors.len() < 256 {
            let t = st.colors.len() as u8;
            (PaletteState { colors: st.colors.push((0u8, 0u8, 0u8)), transparent: Some(t), ..st }, t)
        } else {
            (st, if st.transparent.is_some() { st.transparent.unwrap() } else { 0 })
        }
    } else {
        color_index(st, (px.0, px.1, px.2))
    }
}

/// The index a pixel of a delta frame gets: 0 (transparent) if unchanged (`None`) or if
/// its alpha is below 128, else its color's index.
pub open spec fn delta_pixel(st: PaletteState, px: Option<(u8, u8, u8, u8)>) -> (PaletteState, u8) {
    match px {
        None => (st, 0),
        Some(p) => if p.3 < 128 {
            (st, 0)
        } else {
            color_index(st, (p.0, p.1, p.2))
        },
    }
}

/// The palette state and indices after the pixels of a full frame, in order.
pub open spec fn quantize_full(start: PaletteState, pixels: Seq<(u8, u8, u8, u8)>) -> (PaletteState, Seq<u8>)
    decreases pixels.len(),
{
    if pixels.len() == 0 {
        (start, Seq::empty())
    } else {
        let (st, idx) = quantize_full(start, pixels.drop_last());
        let (st2, i) = full_pixel(st, pixels.last());
        (st2, idx.push(i))
    }
}

/// The palette state and indices after the pixels of a delta region, in order.
pub open spec fn quantize_delta(start: PaletteState, pixels: Seq<Option<(u8, u8, u8, u8)>>) -> (PaletteState, Seq<u8>)
    decreases pixels.len(),
{
    if pixels.len() == 0 {
        (start, Seq::empty())
    } else {
        let (st, idx) = quantize_delta(start, pixels.drop_last());
        let (st2, i) = delta_pixel(st, pixels.last());
        (st2, idx.push(i))
    }
}

/// Palette length after padding: at least 2, rounded up to a power of two.
pub open spec fn padded_len(n: int) -> int {
    if n <= 2 {
        2
    } else if n <= 4 {
        4
    } else if n <= 8 {
        8
    } else if n <= 16 {
        16
    } else if n <= 32 {
        32
    } else if n <= 64 {
        64
    } else if n <= 128 {
        128
    } else {
        256
    }
}

/// The flat palette bytes of the colors, padded with black to [`padded_len`] colors.
pub open spec fn flat_palette(colors: Seq<Rgb>) -> Seq<u8> {
    Seq::new(
        (padded_len(colors.len() as int) * 3) as nat,
        |i: int|
            if i / 3 < colors.len() {
                let c = colors[i / 3];
                if i % 3 == 0 {
                    c.0
                } else if i % 3 == 1 {
                    c.1
                } else {
                    c.2
                }
            } else {
                0u8
            },
    )
}

/// The pixels of RGBA bytes, row by row.
pub open spec fn image_pixels(data: Seq<u8>) -> Seq<(u8, u8, u8, u8)> {
    Seq::new(
        (data.len() / 4) as nat,
        |p: int| (data[4 * p], data[4 * p + 1], data[4 * p + 2], data[4 * p + 3]),
    )
}

/// The palette state a full frame starts from.
pub open spec fn empty_palette() -> PaletteState {
    PaletteState { colors: Seq::empty(), index: Map::empty(), transparent: None }
}

/// The palette state a delta frame starts from: color 0 reserved for transparency.
pub open spec fn delta_palette() -> PaletteState {
    PaletteState { colors: seq![(0u8, 0u8, 0u8)], index: Map::empty(), transparent: Some(0) }
}

/// The palette invariant: at most 256 colors, recorded indices point at their colors,
/// and a reserved transparent index is a palette entry.
pub open spec fn palette_ok(st: PaletteState) -> bool {
    &&& 1 <= st.colors.len() + 1 <= 257
    &&& forall|k: u32| #[trigger] st.index.contains_key(k) ==> st.index[k] < st.colors.len()
    &&& st.transparent.is_some() ==> st.transparent.unwrap() < st.colors.len()
}

/// Index of the palette color closest to `target` (the first on ties).
pub fn find_closest_color(palette: &Vec<Rgb>, target: Rgb) -> (r: u8)
    requires
        palette@.len() <= 256,
    ensures
        r == closest_color(palette@, target),
{
    let mut best_idx: usize = 0;
    let mut best_dist: u32 = u32::MAX;
    let mut k: usize = 0;
    while k < palette.len()
        invariant
            k <= palette@.len(),
            palette@.len() <= 256,
            (best_idx as int, best_dist as int) == closest_upto(palette@, target, k as int),
            best_idx < 256,
        decreases palette@.len() - k,
    {
        let c = palette[k];
        let dr: i32 = c.0 as i32 - target.0 as i32;
        let dg: i32 = c.1 as i32 - target.1 as i32;
        let db: i32 = c.2 as i32 - target.2 as i32;
        assert(dr * dr <= 65025 && dg * dg <= 65025 && db * db <= 65025) by (nonlinear_arith)
            requires
                -255 <= dr <= 255,
                -255 <= dg <= 255,
                -255 <= db <= 255,
        ;
        assert(dr * dr >= 0 && dg * dg >= 0 && db * db >= 0) by (nonlinear_arith);
        let dist: u32 = (dr * dr) as u32 + (dg * dg) as u32 + (db * db) as u32;
        if dist < best_dist {
            best_dist = dist;
            best_idx = k;
        }
        k = k + 1;
    }
    best_idx as u8
}

/// Color index of an opaque color, updating the palette and the index.
fn index_color(colors: &mut Vec<Rgb>, index: &mut HashMap<u32, u8>, c: Rgb, transparent: Ghost<Option<u8>>) -> (r: u8)
    requires
        palette_ok(PaletteState { colors: old(colors)@, index: old(index)@, transparent: transparent@ }),
    ensures
        ({
            let (st, i) = color_index(
                PaletteState { colors: old(colors)@, index: old(index)@, transparent: transparent@ },
                c,
            );
            &&& st.colors == final(colors)@
            &&& st.index == final(index)@
            &&& i == r
        }),
        palette_ok(PaletteState { colors: final(colors)@, index: final(index)@, transparent: transparent@ }),
        r < final(colors)@.len(),
{
    let key: u32 = c.0 as u32 * 65536 + c.1 as u32 * 256 + c.2 as u32;
    assert(key == color_key(c));
    match index.get(&key) {
        Some(i) => *i,
        None => {
            if colors.len() < 256 {
                let i = colors.len() as u8;
                index.insert(key, i);
                colors.push(c);
                i
            } else {
                find_closest_color(colors, c)
            }
        },
    }
}


proof fn lemma_quantize_full_len(start: PaletteState, pixels: Seq<(u8, u8, u8, u8)>)
    ensures
        quantize_full(start, pixels).1.len() == pixels.len(),
    decreases pixels.len(),
{
    if pixels.len() > 0 {
        lemma_quantize_full_len(start, pixels.drop_last());
    }
}

proof fn lemma_quantize_delta_len(start: PaletteState, pixels: Seq<Option<(u8, u8, u8, u8)>>)
    ensures
        quantize_delta(start, pixels).1.len() == pixels.len(),
    decreases pixels.len(),
{
    if pixels.len() > 0 {
        lemma_quantize_delta_len(start, pixels.drop_last());
    }
}

/// Flatten colors into palette bytes, padded with black to [`padded_len`] colors.
fn flatten_palette(colors: &Vec<Rgb>) -> (r: Vec<u8>)
    requires
        colors@.len() <= 256,
    ensures
        r@ == flat_palette(colors@),
        r@.len() <= 768,
{
    let n = colors.len();
    let total: usize = if n <= 2 {
        2
    } else if n <= 4 {
        4
    } else if n <= 8 {
        8
    } else if n <= 16 {
        16
    } else if n <= 32 {
        32
    } else if n <= 64 {
        64
    } else if n <= 128 {
        128
    } else {
        256
    } * 3;
    let mut out: Vec<u8> = Vec::with_capacity(total);
    let mut i: usize = 0;
    while i < total
        invariant
            i <= total,
            total == padded_len(n as int) * 3,
            n == colors@.len(),
            out@.len() == i,
            forall|j: int| 0 <= j < i ==> out@[j] == flat_palette(colors@)[j],
        decreases total - i,
    {
        let byte = if i / 3 < n {
            let c = colors[i / 3];
            if i % 3 == 0 {
                c.0
            } else if i % 3 == 1 {
                c.1
            } else {
                c.2
            }
        } else {
            0u8
        };
        out.push(byte);
        i = i + 1;
    }
    assert(out@ =~= flat_palette(colors@));
    out
}

/// The indexed frame for a whole image: indices from [`quantize_full`] over its pixels,
/// the palette padded, kept after display.
pub open spec fn full_frame_ok(r: IndexedFrame, width: u32, height: u32, data: Seq<u8>, delay: u16) -> bool {
    let (st, idx) = quantize_full(empty_palette(), image_pixels(data));
    &&& r.width == width
    &&& r.height == height
    &&& r.left == 0
    &&& r.top == 0
    &&& r.delay == delay
    &&& r.dispose == DisposalMethod::Keep
    &&& r.transparent == st.transparent
    &&& r.palette@ == flat_palette(st.colors)
    &&& r.indices@ == idx
}

/// Convert a whole RGBA image into an indexed frame.
pub fn rgba_to_gif_frame(image: &RgbaImage, delay: u16) -> (r: IndexedFrame)
    requires
        image.wf(),
        image.width < 65536,
        image.height < 65536,
    ensures
        full_frame_ok(r, image.width, image.height, image.data@, delay),
        r.indices@.len() == image.width * image.height,
        r.palette@.len() <= 768,
{
    let n_pixels = image.data.len() / 4;
    let ghost pixels = image_pixels(image.data@);
    let mut colors: Vec<Rgb> = Vec::new();
    let mut index: HashMap<u32, u8> = HashMap::new();
    let mut transparent: Option<u8> = None;
    let mut indices: Vec<u8> = Vec::with_capacity(n_pixels);
    let mut p: usize = 0;
    proof {
        assert(colors@ =~= empty_palette().colors);
        assert(index@ =~= empty_palette().index);
    }
    while p < n_pixels
        invariant
            p <= n_pixels,
            n_pixels == image.data@.len() / 4,
            image.wf(),
            pixels == image_pixels(image.data@),
            ({
                let (st, idx) = quantize_full(empty_palette(), pixels.take(p as int));
                &&& st.colors == colors@
                &&& st.index == index@
                &&& st.transparent == transparent
                &&& idx == indices@
            }),
            palette_ok(PaletteState { colors: colors@, index: index@, transparent }),
        decreases n_pixels - p,
    {
        proof {
            assert(pixels.take(p + 1).drop_last() =~= pixels.take(p as int));
            assert(pixels.take(p + 1).last() == pixels[p as int]);
            assert(4 * p + 3 < image.data@.len());
            assert(image.data@.len() == image.data.len());
        }
        let base: usize = 4 * p;
        let a = image.data[base + 3];
        let i = if a < 128 {
            if transparent.is_none() && colors.len() < 256 {
                let t = colors.len() as u8;
                colors.push((0, 0, 0));
                transparent = Some(t);
                t
            } else {
                match transparent {
                    Some(t) => t,
                    None => 0,
                }
            }
        } else {
            let c: Rgb = (image.data[base], image.data[base + 1], image.data[base + 2]);
            index_color(&mut colors, &mut index, c, Ghost(transparent))
        };
        indices.push(i);
        p = p + 1;
    }
    proof {
        assert(pixels.take(p as int) =~= pixels);
        lemma_quantize_full_len(empty_palette(), pixels);
        assert(image.data@.len() / 4 == image.width * image.height) by (nonlinear_arith)
            requires
                image.data@.len() == image.width as int * image.height as int * 4,
        ;
    }
    let palette = flatten_palette(&colors);
    IndexedFrame {
        width: image.width as u16,
        height: image.height as u16,
        left: 0,
        top: 0,
        delay,
        dispose: DisposalMethod::Keep,
        transparent,
        palette,
        indices,
    }
}

/// Pixel `p` differs between the two images.
pub open spec fn pixel_changed(cur: Seq<u8>, prev: Seq<u8>, p: int) -> bool {
    !(cur[4 * p] == prev[4 * p] && cur[4 * p + 1] == prev[4 * p + 1] && cur[4 * p + 2] == prev[4
        * p + 2] && cur[4 * p + 3] == prev[4 * p + 3])
}

/// The bounding box `(min_x, min_y, max_x, max_y)` of the changed pixels among the first
/// `k`, starting from `(width, height, 0, 0)`.
pub open spec fn changed_box(cur: Seq<u8>, prev: Seq<u8>, width: int, height: int, k: int) -> (int, int, int, int)
    decreases k,
{
    if k <= 0 {
        (width, height, 0, 0)
    } else {
        let b = changed_box(cur, prev, width, height, k - 1);
        let p = k - 1;
        if pixel_changed(cur, prev, p) {
            let x = p % width;
            let y = p / width;
            (
                if x < b.0 { x } else { b.0 },
                if y < b.1 { y } else { b.1 },
                if x > b.2 { x } else { b.2 },
                if y > b.3 { y } else { b.3 },
            )
        } else {
            b
        }
    }
}

/// The pixels of the region `(x0, y0)` to `(x1, y1)` (inclusive), row by row: the current
/// pixel where it changed, `None` where it did not.
pub open spec fn region_pixels(cur: Seq<u8>, prev: Seq<u8>, width: int, x0: int, y0: int, x1: int, y1: int) -> Seq<Option<(u8, u8, u8, u8)>> {
    let dw = x1 - x0 + 1;
    Seq::new(
        (dw * (y1 - y0 + 1)) as nat,
        |k: int| {
            let p = (y0 + k / dw) * width + x0 + k % dw;
            if pixel_changed(cur, prev, p) {
                Some((cur[4 * p], cur[4 * p + 1], cur[4 * p + 2], cur[4 * p + 3]))
            } else {
                None
            }
        },
    )
}

/// What [`compute_delta_frame`] returns: nothing when no pixel changed, else the frame
/// covering the changed pixels' bounding box, unchanged pixels transparent.
pub open spec fn delta_frame_ok(r: Option<IndexedFrame>, width: u32, height: u32, cur: Seq<u8>, prev: Seq<u8>, delay: u16) -> bool {
    let w = width as int;
    let h = height as int;
    let b = changed_box(cur, prev, w, h, w * h);
    if w * h == 0 || b.2 < b.0 || b.3 < b.1 {
        r is None
    } else {
        let (st, idx) = quantize_delta(delta_palette(), region_pixels(cur, prev, w, b.0, b.1, b.2, b.3));
        &&& r is Some
        &&& r->Some_0.width == b.2 - b.0 + 1
        &&& r->Some_0.height == b.3 - b.1 + 1
        &&& r->Some_0.left == b.0
        &&& r->Some_0.top == b.1
        &&& r->Some_0.delay == delay
        &&& r->Some_0.dispose == DisposalMethod::Keep
        &&& r->Some_0.transparent == Some(0u8)
        &&& r->Some_0.palette@ == flat_palette(st.colors)
        &&& r->Some_0.indices@ == idx
    }
}

proof fn lemma_box_bounds(cur: Seq<u8>, prev: Seq<u8>, width: int, height: int, k: int)
    requires
        width > 0,
        height > 0,
        0 <= k <= width * height,
    ensures
        ({
            let b = changed_box(cur, prev, width, height, k);
            &&& 0 <= b.0 <= width
            &&& 0 <= b.1 <= height
            &&& 0 <= b.2 < width
            &&& 0 <= b.3 < height
            &&& (b.0 < width || b.1 < height || b.2 > 0 || b.3 > 0) ==> b.0 <= b.2 && b.1 <= b.3
            &&& b.0 <= b.2 ==> b.1 <= b.3 && b.0 < width && b.1 < height
        }),
    decreases k,
{
    if k > 0 {
        lemma_box_bounds(cur, prev, width, height, k - 1);
        let p = k - 1;
        assert(p / width < height) by (nonlinear_arith)
            requires
                0 <= p < width * height,
                width > 0,
        ;
    }
}

/// The frame holding only what changed from `prev` to `current`; `None` when nothing did.
pub fn compute_delta_frame(current: &RgbaImage, prev: &RgbaImage, delay: u16) -> (r: Option<IndexedFrame>)
    requires
        current.wf(),
        prev.wf(),
        current.width == prev.width,
        current.height == prev.height,
        current.width < 65536,
        current.height < 65536,
    ensures
        delta_frame_ok(r, current.width, current.height, current.data@, prev.data@, delay),
        r matches Some(f) ==> f.indices@.len() == f.width * f.height && f.palette@.len() <= 768,
{
    let width = current.width;
    let height = current.height;
    let ghost w = width as int;
    let ghost h = height as int;
    let n = current.data.len() / 4;
    proof {
        assert(n == w * h) by (nonlinear_arith)
            requires
                current.data@.len() == w * h * 4,
                n == current.data@.len() / 4,
        ;
    }
    if n == 0 {
        proof {
            assert(changed_box(current.data@, prev.data@, w, h, w * h) == (w, h, 0int, 0int));
            if w > 0 {
                assert(h == 0) by (nonlinear_arith)
                    requires
                        w * h == 0,
                        w > 0,
                        h >= 0,
                ;
            }
        }
        return None;
    }
    proof {
        assert(w > 0 && h > 0) by (nonlinear_arith)
            requires
                w * h > 0,
                w >= 0,
                h >= 0,
        ;
    }
    let mut min_x: usize = width as usize;
    let mut min_y: usize = height as usize;
    let mut max_x: usize = 0;
    let mut max_y: usize = 0;
    let mut p: usize = 0;
    while p < n
        invariant
            p <= n,
            n == w * h,
            w > 0,
            h > 0,
            w == width,
            h == height,
            current.data@.len() == n * 4,
            prev.data@.len() == n * 4,
            current.data@.len() == current.data.len(),
            (min_x as int, min_y as int, max_x as int, max_y as int) == changed_box(
                current.data@,
                prev.data@,
                w,
                h,
                p as int,
            ),
        decreases n - p,
    {
        let base: usize = 4 * p;
        let same = current.data[base] == prev.data[base] && current.data[base + 1] == prev.data[base + 1]
            && current.data[base + 2] == prev.data[base + 2] && current.data[base + 3] == prev.data[base + 3];
        if !same {
            let x = p % (width as usize);
            let y = p / (width as usize);
            if x < min_x {
                min_x = x;
            }
            if y < min_y {
                min_y = y;
            }
            if x > max_x {
                max_x = x;
            }
            if y > max_y {
                max_y = y;
            }
        }
        p = p + 1;
    }
    proof {
        lemma_box_bounds(current.data@, prev.data@, w, h, w * h);
    }
    if max_x < min_x || max_y < min_y {
        return None;
    }
    let dw: usize = max_x - min_x + 1;
    let dh: usize = max_y - min_y + 1;
    let ghost region = region_pixels(current.data@, prev.data@, w, min_x as int, min_y as int, max_x as int, max_y as int);
    proof {
        assert(dw * dh <= w * h) by (nonlinear_arith)
            requires
                1 <= dw <= w,
                1 <= dh <= h,
        ;
    }
    let total: usize = dw * dh;
    let mut colors: Vec<Rgb> = Vec::new();
    colors.push((0, 0, 0));
    let mut index: HashMap<u32, u8> = HashMap::new();
    let mut indices: Vec<u8> = Vec::with_capacity(total);
    let mut k: usize = 0;
    proof {
        assert(colors@ =~= delta_palette().colors);
        assert(index@ =~= delta_palette().index);
    }
    while k < total
        invariant
            k <= total,
            total == dw * dh,
            region.len() == total,
            region == region_pixels(current.data@, prev.data@, w, min_x as int, min_y as int, max_x as int, max_y as int),
            dw == max_x - min_x + 1,
            dh == max_y - min_y + 1,
            min_x <= max_x,
            min_y <= max_y,
            max_x < w,
            max_y < h,
            w == width,
            n == w * h,
            current.data@.len() == n * 4,
            prev.data@.len() == n * 4,
            current.data@.len() == current.data.len(),
            ({
                let (st, idx) = quantize_delta(delta_palette(), region.take(k as int));
                &&& st.colors == colors@
                &&& st.index == index@
                &&& st.transparent == Some(0u8)
                &&& idx == indices@
            }),
            palette_ok(PaletteState { colors: colors@, index: index@, transparent: Some(0u8) }),
        decreases total - k,
    {
        proof {
            assert(k / dw < dh) by (nonlinear_arith)
                requires
                    0 <= k < dw * dh,
                    dw > 0,
            ;
        }
        let x: usize = min_x + k % dw;
        let y: usize = min_y + k / dw;
        proof {
            assert(y * w + x < w * h) by (nonlinear_arith)
                requires
                    y < h,
                    x < w,
                    w > 0,
            ;
            assert(region.take(k + 1).drop_last() =~= region.take(k as int));
            assert(region.take(k + 1).last() == region[k as int]);
        }
        let p: usize = y * (width as usize) + x;
        let base: usize = 4 * p;
        let same = current.data[base] == prev.data[base] && current.data[base + 1] == prev.data[base + 1]
            && current.data[base + 2] == prev.data[base + 2] && current.data[base + 3] == prev.data[base + 3];
        let i = if same {
            0u8
        } else if current.data[base + 3] < 128 {
            0u8
        } else {
            let c: Rgb = (current.data[base], current.data[base + 1], current.data[base + 2]);
            index_color(&mut colors, &mut index, c, Ghost(Some(0u8)))
        };
        indices.push(i);
        k = k + 1;
    }
    proof {
        assert(region.take(k as int) =~= region);
        lemma_quantize_delta_len(delta_palette(), region);
    }
    let palette = flatten_palette(&colors);
    Some(IndexedFrame {
        width: dw as u16,
        height: dh as u16,
        left: min_x as u16,
        top: min_y as u16,
        delay,
        dispose: DisposalMethod::Keep,
        transparent: Some(0),
        palette,
        indices,
    })
}
} // verus!
