//! Frame compaction and the visual filters applied to captured BGRA frames.
//!
//! The lookup tables that realise brightness and the accent colour are built
//! by the caller; this module decides which table applies to which byte.
use vstd::prelude::*;
use crate::edges::{inner_edges, spec_inner_edges};
use crate::grid::lemma_index_of;
use crate::model::FilterStyle;
use vstd::arithmetic::div_mod::{
    lemma_fundamental_div_mod, lemma_fundamental_div_mod_converse, lemma_mod_pos_bound,
};

verus! {

/// Byte `i` of a frame copied at full size: row `i / (4 w)` of the source,
/// which starts `row_pitch` bytes after the previous one; a row that does not
/// fit in the source stays black.
pub open spec fn copied_byte(raw: Seq<u8>, w: int, row_pitch: int, i: int) -> u8 {
    let row_bytes = w * 4;
    let y = i / row_bytes;
    let c = i % row_bytes;
    if y * row_pitch + row_bytes <= raw.len() {
        raw[y * row_pitch + c]
    } else {
        0
    }
}

/// Byte `i` of a frame resampled to `tw` by `th` pixels: nearest source pixel,
/// rounding coordinates down; a pixel that does not fit in the source stays black.
pub open spec fn sampled_byte(raw: Seq<u8>, w: int, h: int, row_pitch: int, tw: int, th: int, i: int) -> u8 {
    let p = i / 4;
    let c = i % 4;
    let source_y = (p / tw) * h / th;
    let source_x = (p % tw) * w / tw;
    let source = source_y * row_pitch + source_x * 4;
    if source + 4 <= raw.len() {
        raw[source + c]
    } else {
        0
    }
}

/// The frame of `tw` by `th` BGRA pixels made from a `w` by `h` source.
pub open spec fn spec_compact_pixels(raw: Seq<u8>, w: int, h: int, row_pitch: int, tw: int, th: int) -> Seq<u8> {
    Seq::new(
        (tw * th * 4) as nat,
        |i: int|
            if tw == w && th == h && w > 0 && h > 0 {
                copied_byte(raw, w, row_pitch, i)
            } else {
                sampled_byte(raw, w, h, row_pitch, tw, th, i)
            },
    )
}

proof fn lemma_split(i: int, d: int)
    requires
        0 <= i,
        d > 0,
    ensures
        i == (i / d) * d + i % d,
        0 <= i % d < d,
        0 <= i / d,
{
    lemma_fundamental_div_mod(i, d);
    lemma_mod_pos_bound(i, d);
    assert(i == (i / d) * d + i % d) by (nonlinear_arith)
        requires i == d * (i / d) + (i % d);
    assert(0 <= i / d) by (nonlinear_arith)
        requires i == (i / d) * d + i % d, 0 <= i % d < d, 0 <= i, d > 0;
}

/// Copies the source rows of a full-size frame, skipping the padding at the
/// end of each source row.
fn copy_rows(raw: &[u8], width: u32, height: u32, row_pitch: u32, pixels: &mut Vec<u8>)
    requires
        width > 0,
        height > 0,
        width * height * 4 <= usize::MAX,
        old(pixels)@.len() == width * height * 4,
        forall|j: int| 0 <= j < old(pixels)@.len() ==> #[trigger] old(pixels)@[j] == 0,
    ensures
        final(pixels)@ == spec_compact_pixels(raw@, width as int, height as int, row_pitch as int, width as int, height as int),
{
    let ghost w = width as int;
    let ghost h = height as int;
    let ghost pitch = row_pitch as int;
    let ghost rb = w * 4;
    proof {
        assert(rb * h == w * h * 4) by (nonlinear_arith) requires rb == w * 4;
        assert(rb <= rb * h) by (nonlinear_arith) requires rb > 0, h > 0;
    }
    let raw_len = raw.len();
    let row_bytes = width as usize * 4;
    let packed_bytes = row_bytes * height as usize;
    if row_pitch as usize == row_bytes && raw.len() >= packed_bytes {
        let mut i: usize = 0;
        while i < packed_bytes
            invariant
                raw@.len() >= packed_bytes,
                packed_bytes == rb * h,
                row_bytes == rb,
                rb == w * 4,
                pitch == rb,
                w > 0,
                h > 0,
                pixels@.len() == packed_bytes,
                i <= packed_bytes,
                forall|j: int| 0 <= j < i ==> #[trigger] pixels@[j] == copied_byte(raw@, w, pitch, j),
            decreases packed_bytes - i,
        {
            proof {
                let y = i as int / rb;
                let c = i as int % rb;
                lemma_split(i as int, rb);
                assert(y < h) by (nonlinear_arith)
                    requires i == y * rb + c, 0 <= c < rb, i < rb * h, 0 <= y, rb > 0;
                assert(y * pitch + rb <= rb * h) by (nonlinear_arith)
                    requires y < h, pitch == rb, rb > 0;
                assert(y * pitch + c == i);
            }
            pixels[i] = raw[i];
            i = i + 1;
        }
    } else {
        let mut y: u32 = 0;
        while y < height
            invariant
                row_bytes == rb,
                rb == w * 4,
                w == width,
                h == height,
                pitch == row_pitch,
                w > 0,
                h > 0,
                rb * h <= usize::MAX,
                raw_len == raw@.len(),
                y <= height,
                pixels@.len() == rb * h,
                forall|j: int| 0 <= j < y * rb ==> #[trigger] pixels@[j] == copied_byte(raw@, w, pitch, j),
                forall|j: int| y * rb <= j < rb * h ==> #[trigger] pixels@[j] == 0,
            decreases height - y,
        {
            proof {
                lemma_index_of(0, y as int, rb, h);
                assert((y + 1) * rb == y * rb + rb) by (nonlinear_arith);
                assert(y * rb + rb <= rb * h) by (nonlinear_arith)
                    requires y < h, rb > 0;
            }
            let target_start = y as usize * row_bytes;
            let fits = match (y as usize).checked_mul(row_pitch as usize) {
                Some(source_start) => match source_start.checked_add(row_bytes) {
                    Some(end) => end <= raw_len,
                    None => false,
                },
                None => false,
            };
            proof {
                assert(fits == (y * pitch + rb <= raw@.len()));
            }
            if fits {
                let source_start = y as usize * row_pitch as usize;
                let mut c: usize = 0;
                while c < row_bytes
                    invariant
                        row_bytes == rb,
                        rb == w * 4,
                        pitch == row_pitch,
                        w > 0,
                        h > 0,
                        rb * h <= usize::MAX,
                        raw_len == raw@.len(),
                        y < h,
                        target_start == y * rb,
                        source_start == y * pitch,
                        y * pitch + rb <= raw@.len(),
                        y * rb + rb <= rb * h,
                        c <= row_bytes,
                        pixels@.len() == rb * h,
                        forall|j: int| 0 <= j < y * rb + c ==> #[trigger] pixels@[j] == copied_byte(raw@, w, pitch, j),
                        forall|j: int| y * rb + c <= j < rb * h ==> #[trigger] pixels@[j] == 0,
                    decreases row_bytes - c,
                {
                    proof {
                        lemma_index_of(c as int, y as int, rb, h);
                    }
                    pixels[target_start + c] = raw[source_start + c];
                    c = c + 1;
                }
            } else {
                proof {
                    assert forall|j: int| 0 <= j < (y + 1) * rb implies #[trigger] pixels@[j] == copied_byte(raw@, w, pitch, j) by {
                        if j >= y * rb {
                            lemma_index_of(j - y * rb, y as int, rb, h);
                        }
                    }
                }
            }
            y = y + 1;
        }
    }
    proof {
        assert forall|j: int| 0 <= j < pixels@.len() implies #[trigger] pixels@[j] == spec_compact_pixels(raw@, w, h, pitch, w, h)[j] by {
        }
    }
    assert(pixels@ =~= spec_compact_pixels(raw@, w, h, pitch, w, h));
}

/// Resamples a frame to `target_width` by `target_height` pixels by taking the
/// nearest source pixel, rounding coordinates down.
fn sample_pixels(
    raw: &[u8],
    width: u32,
    height: u32,
    row_pitch: u32,
    target_width: u32,
    target_height: u32,
    pixels: &mut Vec<u8>,
)
    requires
        !(target_width == width && target_height == height && width > 0 && height > 0),
        target_width * target_height * 4 <= usize::MAX,
        old(pixels)@.len() == target_width * target_height * 4,
        forall|j: int| 0 <= j < old(pixels)@.len() ==> #[trigger] old(pixels)@[j] == 0,
    ensures
        final(pixels)@ == spec_compact_pixels(raw@, width as int, height as int, row_pitch as int, target_width as int, target_height as int),
{
    let ghost w = width as int;
    let ghost h = height as int;
    let ghost pitch = row_pitch as int;
    let ghost tw = target_width as int;
    let ghost th = target_height as int;
    let ghost n = tw * th;
    let raw_len = raw.len();
    let mut target_y: u32 = 0;
    while target_y < target_height
        invariant
            w == width,
            h == height,
            pitch == row_pitch,
            tw == target_width,
            th == target_height,
            n == tw * th,
            n * 4 <= usize::MAX,
            raw_len == raw@.len(),
            target_y <= target_height,
            pixels@.len() == n * 4,
            forall|j: int| 0 <= j < target_y * tw * 4 ==> #[trigger] pixels@[j] == sampled_byte(raw@, w, h, pitch, tw, th, j),
            forall|j: int| target_y * tw * 4 <= j < n * 4 ==> #[trigger] pixels@[j] == 0,
        decreases target_height - target_y,
    {
        proof {
            assert(target_y * h <= 0xffff_ffffu64 * 0xffff_ffffu64) by (nonlinear_arith)
                requires 0 <= target_y <= 0xffff_ffffu64, 0 <= h <= 0xffff_ffffu64;
        }
        let source_y = target_y as u64 * height as u64 / target_height as u64;
        proof {
            assert(target_y * h <= th * h) by (nonlinear_arith)
                requires target_y < th, h >= 0;
            assert(source_y <= h) by (nonlinear_arith)
                requires source_y == (target_y * h) / th, target_y * h <= th * h, th > 0;
            assert((target_y + 1) * tw * 4 == target_y * tw * 4 + tw * 4) by (nonlinear_arith);
        }
        let mut target_x: u32 = 0;
        while target_x < target_width
            invariant
                w == width,
                h == height,
                pitch == row_pitch,
                tw == target_width,
                th == target_height,
                n == tw * th,
                n * 4 <= usize::MAX,
                raw_len == raw@.len(),
                target_y < target_height,
                target_x <= target_width,
                source_y == target_y * h / th,
                source_y <= h,
                pixels@.len() == n * 4,
                forall|j: int| 0 <= j < (target_y * tw + target_x) * 4 ==> #[trigger] pixels@[j] == sampled_byte(raw@, w, h, pitch, tw, th, j),
                forall|j: int| (target_y * tw + target_x) * 4 <= j < n * 4 ==> #[trigger] pixels@[j] == 0,
            decreases target_width - target_x,
        {
            proof {
                assert(target_x * w <= 0xffff_ffffu64 * 0xffff_ffffu64) by (nonlinear_arith)
                    requires 0 <= target_x <= 0xffff_ffffu64, 0 <= w <= 0xffff_ffffu64;
                lemma_index_of(target_x as int, target_y as int, tw, th);
                assert(target_y * tw <= target_y * tw + target_x);
            }
            let source_x = target_x as u64 * width as u64 / target_width as u64;
            proof {
                assert(target_x * w <= tw * w) by (nonlinear_arith)
                    requires target_x < tw, w >= 0;
                assert(source_x <= w) by (nonlinear_arith)
                    requires source_x == (target_x * w) / tw, target_x * w <= tw * w, tw > 0;
                lemma_index_of(target_x as int, target_y as int, tw, th);
            }
            let pixel = target_y as usize * target_width as usize + target_x as usize;
            let target_index = pixel * 4;
            let source = match (source_y as usize).checked_mul(row_pitch as usize) {
                Some(row) => match (source_x as usize).checked_mul(4) {
                    Some(column) => match row.checked_add(column) {
                        Some(start) => match start.checked_add(4) {
                            Some(end) => if end <= raw_len { Some(start) } else { None },
                            None => None,
                        },
                        None => None,
                    },
                    None => None,
                },
                None => None,
            };
            let ghost source_int = source_y * pitch + source_x * 4;
            proof {
                assert(source is Some <==> source_int + 4 <= raw@.len());
                assert(source is Some ==> source->0 == source_int);
            }
            if let Some(start) = source {
                pixels[target_index] = raw[start];
                pixels[target_index + 1] = raw[start + 1];
                pixels[target_index + 2] = raw[start + 2];
                pixels[target_index + 3] = raw[start + 3];
            }
            proof {
                assert forall|j: int| 0 <= j < (target_y * tw + target_x + 1) * 4 implies #[trigger] pixels@[j] == sampled_byte(raw@, w, h, pitch, tw, th, j) by {
                    if j >= pixel * 4 {
                        let c = j - pixel * 4;
                        lemma_index_of(c, pixel as int, 4, n);
                    }
                }
            }
            target_x = target_x + 1;
        }
        target_y = target_y + 1;
    }
    assert(pixels@ =~= spec_compact_pixels(raw@, w, h, pitch, tw, th));
}

/// Builds the `target_width` by `target_height` BGRA frame from a captured
/// source frame whose rows start `row_pitch` bytes apart. At full size the
/// rows are copied without their padding; otherwise the nearest source pixel
/// is taken. Whatever does not fit in `raw` stays black.
pub fn compact_pixels(
    raw: &[u8],
    width: u32,
    height: u32,
    row_pitch: u32,
    target_width: u32,
    target_height: u32,
) -> (pixels: Vec<u8>)
    requires
        target_width * target_height * 4 <= usize::MAX,
    ensures
        pixels@ == spec_compact_pixels(raw@, width as int, height as int, row_pitch as int, target_width as int, target_height as int),
{
    let size = target_width as usize * target_height as usize * 4;
    let mut pixels = vec![0u8; size];
    proof {
        assert forall|j: int| 0 <= j < size implies pixels@[j] == 0 by {
            assert(cloned::<u8>(0u8, pixels@[j]));
        }
    }
    if target_width == width && target_height == height && width > 0 && height > 0 {
        copy_rows(raw, width, height, row_pitch, &mut pixels);
    } else {
        sample_pixels(raw, width, height, row_pitch, target_width, target_height, &mut pixels);
    }
    pixels
}

/// At full size, a frame whose rows follow each other without padding is
/// kept byte for byte.
pub proof fn lemma_packed_frame_is_copied(raw: Seq<u8>, w: int, h: int)
    requires
        w > 0,
        h > 0,
        raw.len() >= w * h * 4,
    ensures
        spec_compact_pixels(raw, w, h, w * 4, w, h) == raw.take(w * h * 4),
{
    let rb = w * 4;
    assert(rb * h == w * h * 4) by (nonlinear_arith) requires rb == w * 4;
    assert forall|i: int| 0 <= i < w * h * 4 implies #[trigger] copied_byte(raw, w, rb, i) == raw[i] by {
        lemma_split(i, rb);
        let y = i / rb;
        let c = i % rb;
        assert(y < h) by (nonlinear_arith)
            requires i == y * rb + c, 0 <= c < rb, i < rb * h, 0 <= y, rb > 0;
        assert(y * rb + rb <= rb * h) by (nonlinear_arith)
            requires y < h, rb > 0;
    }
    assert(spec_compact_pixels(raw, w, h, rb, w, h) =~= raw.take(w * h * 4));
}

/// At full size every source row is copied without its padding: byte `c` of
/// pixel `(x, y)` is byte `c` of the source pixel `(x, y)`, whose row starts
/// `y * row_pitch` bytes in; a row that runs past the end of the source is
/// black and transparent.
pub proof fn lemma_full_size_copies_each_pixel(
    raw: Seq<u8>,
    w: int,
    h: int,
    row_pitch: int,
    x: int,
    y: int,
    c: int,
)
    requires
        w > 0,
        h > 0,
        row_pitch >= 0,
        0 <= x < w,
        0 <= y < h,
        0 <= c < 4,
    ensures
        y * row_pitch + w * 4 <= raw.len() ==> spec_compact_pixels(raw, w, h, row_pitch, w, h)[(y * w + x) * 4 + c]
            == raw[y * row_pitch + x * 4 + c],
        y * row_pitch + w * 4 > raw.len() ==> spec_compact_pixels(raw, w, h, row_pitch, w, h)[(y * w + x) * 4 + c] == 0,
{
    let rb = w * 4;
    let i = (y * w + x) * 4 + c;
    assert(i == y * rb + (x * 4 + c)) by (nonlinear_arith)
        requires i == (y * w + x) * 4 + c, rb == w * 4;
    lemma_fundamental_div_mod_converse(i, rb, y, x * 4 + c);
    assert(0 <= i < w * h * 4) by (nonlinear_arith)
        requires i == (y * w + x) * 4 + c, 0 <= x < w, 0 <= y < h, 0 <= c < 4;
}

/// Resampling copies whole pixels: target pixel `(x, y)` is the source pixel
/// at column `sx = floor(x * w / tw)` and row `sy = floor(y * h / th)`, its
/// four bytes (blue, green, red, alpha) kept in order; a source pixel that
/// lies past the end of the source gives a black, transparent pixel.
pub proof fn lemma_resampling_copies_whole_pixels(
    raw: Seq<u8>,
    w: int,
    h: int,
    row_pitch: int,
    tw: int,
    th: int,
    x: int,
    y: int,
    sx: int,
    sy: int,
    c: int,
)
    requires
        w >= 0,
        h >= 0,
        row_pitch >= 0,
        !(tw == w && th == h && w > 0 && h > 0),
        0 <= x < tw,
        0 <= y < th,
        sx * tw <= x * w < (sx + 1) * tw,
        sy * th <= y * h < (sy + 1) * th,
        0 <= c < 4,
    ensures
        sy * row_pitch + sx * 4 + 4 <= raw.len() ==> spec_compact_pixels(raw, w, h, row_pitch, tw, th)[(y * tw + x) * 4 + c]
            == raw[sy * row_pitch + sx * 4 + c],
        sy * row_pitch + sx * 4 + 4 > raw.len() ==> spec_compact_pixels(raw, w, h, row_pitch, tw, th)[(y * tw + x) * 4 + c] == 0,
{
    let p = y * tw + x;
    let i = p * 4 + c;
    lemma_index_of(x, y, tw, th);
    lemma_fundamental_div_mod_converse(i, 4, p, c);
    assert((sx + 1) * tw == sx * tw + tw) by (nonlinear_arith);
    assert((sy + 1) * th == sy * th + th) by (nonlinear_arith);
    lemma_fundamental_div_mod_converse(x * w, tw, sx, x * w - sx * tw);
    lemma_fundamental_div_mod_converse(y * h, th, sy, y * h - sy * th);
    assert(0 <= i < tw * th * 4) by (nonlinear_arith)
        requires i == p * 4 + c, 0 <= p < tw * th, 0 <= c < 4;
}

/// Whether a style draws the inner contour instead of the plain intensity.
pub open spec fn spec_uses_edges(style: FilterStyle) -> bool {
    style == FilterStyle::Edge || style == FilterStyle::EdgeCycle
}

/// Whether a style cycles its colour through the hue circle over time.
pub open spec fn spec_is_cycling(style: FilterStyle) -> bool {
    style == FilterStyle::MonoCycle || style == FilterStyle::EdgeCycle
}

pub fn uses_edges(style: FilterStyle) -> (edges: bool)
    ensures
        edges == spec_uses_edges(style),
{
    matches!(style, FilterStyle::Edge | FilterStyle::EdgeCycle)
}

pub fn is_cycling(style: FilterStyle) -> (cycling: bool)
    ensures
        cycling == spec_is_cycling(style),
{
    matches!(style, FilterStyle::MonoCycle | FilterStyle::EdgeCycle)
}

/// The blue, green and red bytes of a `0xRRGGBB` accent colour.
pub open spec fn spec_accent_channels(color: u32) -> [u8; 3] {
    [(color % 256) as u8, ((color / 256) % 256) as u8, ((color / 65536) % 256) as u8]
}

pub fn accent_channels(color: u32) -> (bgr: [u8; 3])
    ensures
        bgr == spec_accent_channels(color),
{
    proof {
        assert(color as u8 == (color % 256) as u8) by (bit_vector);
        assert((color >> 8u32) as u8 == ((color / 256) % 256) as u8) by (bit_vector);
        assert((color >> 16u32) as u8 == ((color / 65536) % 256) as u8) by (bit_vector);
    }
    [color as u8, (color >> 8) as u8, (color >> 16) as u8]
}

/// The `0xRRGGBB` accent colour picked in the colour dialog.
pub open spec fn spec_accent_from_rgb(red: u8, green: u8, blue: u8) -> u32 {
    (red * 65536 + green * 256 + blue) as u32
}

pub fn accent_from_rgb(red: u8, green: u8, blue: u8) -> (color: u32)
    ensures
        color == spec_accent_from_rgb(red, green, blue),
{
    let r = red as u32;
    let g = green as u32;
    let b = blue as u32;
    proof {
        assert((r << 16u32) | (g << 8u32) | b == r * 65536 + g * 256 + b) by (bit_vector)
            requires r < 256, g < 256, b < 256;
    }
    (r << 16) | (g << 8) | b
}

/// A picked colour is painted as picked: the filter's blue, green and red
/// channels are the dialog's blue, green and red.
pub proof fn lemma_accent_round_trip(red: u8, green: u8, blue: u8)
    ensures
        spec_accent_channels(spec_accent_from_rgb(red, green, blue)) == [blue, green, red],
{
    let c = spec_accent_from_rgb(red, green, blue) as int;
    assert(c == red * 65536 + green * 256 + blue);
    assert(c % 256 == blue) by (nonlinear_arith)
        requires c == red * 65536 + green * 256 + blue, 0 <= red < 256, 0 <= green < 256, 0 <= blue < 256;
    assert((c / 256) % 256 == green) by (nonlinear_arith)
        requires c == red * 65536 + green * 256 + blue, 0 <= red < 256, 0 <= green < 256, 0 <= blue < 256;
    assert((c / 65536) % 256 == red) by (nonlinear_arith)
        requires c == red * 65536 + green * 256 + blue, 0 <= red < 256, 0 <= green < 256, 0 <= blue < 256;
    assert(spec_accent_channels(spec_accent_from_rgb(red, green, blue)) =~= [blue, green, red]);
}

/// What a frame filter needs besides the frame: the style, a brightness table
/// for the original and grayscale styles, one table per output channel for
/// the accent-coloured styles, and the contour parameters.
pub struct FilterPlan {
    pub style: FilterStyle,
    pub brightness: [u8; 256],
    pub blue: [u8; 256],
    pub green: [u8; 256],
    pub red: [u8; 256],
    pub edge_threshold: u8,
    pub edge_thickness: u8,
}

/// Per-pixel intensity that the accent-coloured styles paint.
pub open spec fn spec_intensity(plan: FilterPlan, gray: Seq<u8>, w: int, h: int) -> Seq<u8> {
    if spec_uses_edges(plan.style) {
        spec_inner_edges(gray, w, h, plan.edge_threshold, plan.edge_thickness)
    } else {
        gray
    }
}

/// Byte `i` of the filtered frame; every alpha byte becomes opaque.
pub open spec fn filtered_byte(plan: FilterPlan, pixels: Seq<u8>, gray: Seq<u8>, intensity: Seq<u8>, i: int) -> u8 {
    let p = i / 4;
    let c = i % 4;
    if c == 3 {
        255
    } else if plan.style == FilterStyle::Original {
        plan.brightness@[pixels[i] as int]
    } else if plan.style == FilterStyle::Grayscale {
        plan.brightness@[gray[p] as int]
    } else if c == 0 {
        plan.blue@[intensity[p] as int]
    } else if c == 1 {
        plan.green@[intensity[p] as int]
    } else {
        plan.red@[intensity[p] as int]
    }
}

pub open spec fn spec_apply_filter(plan: FilterPlan, pixels: Seq<u8>, gray: Seq<u8>, w: int, h: int) -> Seq<u8> {
    let intensity = spec_intensity(plan, gray, w, h);
    Seq::new(pixels.len(), |i: int| filtered_byte(plan, pixels, gray, intensity, i))
}

/// Applies the filter of `plan` in place to a `width` by `height` BGRA frame.
/// `gray` holds the luminance of every pixel; the original style does not read it.
pub fn apply_filter(pixels: &mut Vec<u8>, width: usize, height: usize, gray: &[u8], plan: &FilterPlan)
    requires
        old(pixels)@.len() == width * height * 4,
        plan.style != FilterStyle::Original ==> gray@.len() == width * height,
    ensures
        final(pixels)@ == spec_apply_filter(*plan, old(pixels)@, gray@, width as int, height as int),
{
    let ghost original = pixels@;
    let ghost w = width as int;
    let ghost h = height as int;
    let count = pixels.len() / 4;
    proof {
        assert(count == w * h) by (nonlinear_arith)
            requires count == original.len() / 4, original.len() == w * h * 4;
    }
    let is_original = matches!(plan.style, FilterStyle::Original);
    let is_grayscale = matches!(plan.style, FilterStyle::Grayscale);
    let intensity: Vec<u8> = if !is_original && !is_grayscale && uses_edges(plan.style) {
        inner_edges(gray, width, height, plan.edge_threshold, plan.edge_thickness)
    } else {
        Vec::new()
    };
    let ghost expected = spec_intensity(*plan, gray@, w, h);
    proof {
        if !is_original && !is_grayscale {
            assert(spec_uses_edges(plan.style) ==> intensity@ == expected);
            if spec_uses_edges(plan.style) {
                assert(expected.len() == gray@.len());
            }
        }
    }
    let mut p: usize = 0;
    while p < count
        invariant
            count == w * h,
            count * 4 <= usize::MAX,
            original.len() == count * 4,
            pixels@.len() == count * 4,
            p <= count,
            is_original == (plan.style == FilterStyle::Original),
            is_grayscale == (plan.style == FilterStyle::Grayscale),
            plan.style != FilterStyle::Original ==> gray@.len() == count,
            !is_original && !is_grayscale && spec_uses_edges(plan.style) ==> intensity@ == expected,
            !is_original && !is_grayscale ==> expected.len() == count,
            expected == spec_intensity(*plan, gray@, w, h),
            forall|j: int| 0 <= j < p * 4 ==> #[trigger] pixels@[j] == filtered_byte(*plan, original, gray@, expected, j),
            forall|j: int| p * 4 <= j < count * 4 ==> #[trigger] pixels@[j] == original[j],
        decreases count - p,
    {
        proof {
            lemma_index_of(0, p as int, 4, count as int);
            lemma_index_of(1, p as int, 4, count as int);
            lemma_index_of(2, p as int, 4, count as int);
            lemma_index_of(3, p as int, 4, count as int);
        }
        let base = p * 4;
        if is_original {
            let b = plan.brightness[pixels[base] as usize];
            let g = plan.brightness[pixels[base + 1] as usize];
            let r = plan.brightness[pixels[base + 2] as usize];
            pixels[base] = b;
            pixels[base + 1] = g;
            pixels[base + 2] = r;
        } else if is_grayscale {
            let value = plan.brightness[gray[p] as usize];
            pixels[base] = value;
            pixels[base + 1] = value;
            pixels[base + 2] = value;
        } else {
            let value = if uses_edges(plan.style) { intensity[p] } else { gray[p] };
            pixels[base] = plan.blue[value as usize];
            pixels[base + 1] = plan.green[value as usize];
            pixels[base + 2] = plan.red[value as usize];
        }
        pixels[base + 3] = 255;
        proof {
            assert forall|j: int| 0 <= j < (p + 1) * 4 implies #[trigger] pixels@[j] == filtered_byte(*plan, original, gray@, expected, j) by {
                if j >= p * 4 {
                    lemma_index_of(j - p * 4, p as int, 4, count as int);
                }
            }
        }
        p = p + 1;
    }
    assert(pixels@ =~= spec_apply_filter(*plan, original, gray@, w, h));
}

/// The contour styles paint the inner contour: each pixel's blue, green and
/// red bytes are the accent tables applied to that pixel's inner-contour
/// intensity, and the pixel is opaque.
pub proof fn lemma_contour_styles_paint_the_inner_contour(
    plan: FilterPlan,
    pixels: Seq<u8>,
    gray: Seq<u8>,
    w: int,
    h: int,
    p: int,
)
    requires
        plan.style == FilterStyle::Edge || plan.style == FilterStyle::EdgeCycle,
        0 <= p,
        p * 4 + 3 < pixels.len(),
    ensures
        spec_apply_filter(plan, pixels, gray, w, h)[p * 4] == plan.blue@[spec_inner_edges(
            gray,
            w,
            h,
            plan.edge_threshold,
            plan.edge_thickness,
        )[p] as int],
        spec_apply_filter(plan, pixels, gray, w, h)[p * 4 + 1] == plan.green@[spec_inner_edges(
            gray,
            w,
            h,
            plan.edge_threshold,
            plan.edge_thickness,
        )[p] as int],
        spec_apply_filter(plan, pixels, gray, w, h)[p * 4 + 2] == plan.red@[spec_inner_edges(
            gray,
            w,
            h,
            plan.edge_threshold,
            plan.edge_thickness,
        )[p] as int],
        spec_apply_filter(plan, pixels, gray, w, h)[p * 4 + 3] == 255,
{
    lemma_fundamental_div_mod_converse(p * 4, 4, p, 0);
    lemma_fundamental_div_mod_converse(p * 4 + 1, 4, p, 1);
    lemma_fundamental_div_mod_converse(p * 4 + 2, 4, p, 2);
    lemma_fundamental_div_mod_converse(p * 4 + 3, 4, p, 3);
}

/// The monochrome styles paint the luminance: each pixel's blue, green and
/// red bytes are the accent tables applied to that pixel's gray value, and the
/// pixel is opaque.
pub proof fn lemma_mono_styles_paint_the_luminance(
    plan: FilterPlan,
    pixels: Seq<u8>,
    gray: Seq<u8>,
    w: int,
    h: int,
    p: int,
)
    requires
        plan.style == FilterStyle::Mono || plan.style == FilterStyle::MonoCycle,
        0 <= p,
        p * 4 + 3 < pixels.len(),
    ensures
        spec_apply_filter(plan, pixels, gray, w, h)[p * 4] == plan.blue@[gray[p] as int],
        spec_apply_filter(plan, pixels, gray, w, h)[p * 4 + 1] == plan.green@[gray[p] as int],
        spec_apply_filter(plan, pixels, gray, w, h)[p * 4 + 2] == plan.red@[gray[p] as int],
        spec_apply_filter(plan, pixels, gray, w, h)[p * 4 + 3] == 255,
{
    lemma_fundamental_div_mod_converse(p * 4, 4, p, 0);
    lemma_fundamental_div_mod_converse(p * 4 + 1, 4, p, 1);
    lemma_fundamental_div_mod_converse(p * 4 + 2, 4, p, 2);
    lemma_fundamental_div_mod_converse(p * 4 + 3, 4, p, 3);
}

/// The original style keeps each pixel's colour through the brightness table,
/// channel by channel, and the grayscale style paints the luminance through
/// it in all three channels; both make the pixel opaque.
pub proof fn lemma_original_and_grayscale_styles(
    plan: FilterPlan,
    pixels: Seq<u8>,
    gray: Seq<u8>,
    w: int,
    h: int,
    p: int,
    c: int,
)
    requires
        0 <= p,
        p * 4 + 3 < pixels.len(),
        0 <= c < 3,
    ensures
        plan.style == FilterStyle::Original ==> spec_apply_filter(plan, pixels, gray, w, h)[p * 4 + c]
            == plan.brightness@[pixels[p * 4 + c] as int],
        plan.style == FilterStyle::Grayscale ==> spec_apply_filter(plan, pixels, gray, w, h)[p * 4 + c]
            == plan.brightness@[gray[p] as int],
        spec_apply_filter(plan, pixels, gray, w, h)[p * 4 + 3] == 255,
{
    lemma_fundamental_div_mod_converse(p * 4 + c, 4, p, c);
    lemma_fundamental_div_mod_converse(p * 4 + 3, 4, p, 3);
}

/// Cycling changes only the colour tables: with the same tables and contour
/// parameters, the cycling styles paint exactly what their still counterparts
/// paint.
pub proof fn lemma_cycling_styles_paint_like_still_ones(
    still: FilterPlan,
    cycling: FilterPlan,
    pixels: Seq<u8>,
    gray: Seq<u8>,
    w: int,
    h: int,
)
    requires
        (still.style == FilterStyle::Edge && cycling.style == FilterStyle::EdgeCycle)
            || (still.style == FilterStyle::Mono && cycling.style == FilterStyle::MonoCycle),
        still.brightness == cycling.brightness,
        still.blue == cycling.blue,
        still.green == cycling.green,
        still.red == cycling.red,
        still.edge_threshold == cycling.edge_threshold,
        still.edge_thickness == cycling.edge_thickness,
    ensures
        spec_apply_filter(still, pixels, gray, w, h) == spec_apply_filter(cycling, pixels, gray, w, h),
{
    assert(spec_apply_filter(still, pixels, gray, w, h) =~= spec_apply_filter(cycling, pixels, gray, w, h));
}

} // verus!
