use vstd::prelude::*;
use crate::layout::{
    exceeds_capture_limit, lemma_width_prefix, max_height, plan_canvas, total_width,
    CaptureError, MAX_CAPTURE_HEIGHT, MAX_CAPTURE_WIDTH,
};

verus! {

/// A captured image: `width * height` pixels, row by row, four bytes (red,
/// green, blue, alpha) per pixel.
pub struct RgbaFrame {
    pub width: u32,
    pub height: u32,
    pub pixels: Vec<u8>,
}

impl RgbaFrame {
    /// The pixel buffer holds exactly `width * height` pixels.
    pub open spec fn well_formed(&self) -> bool {
        self.pixels@.len() == 4 * self.width * self.height
    }
}

/// Byte `c` (0 red, 1 green, 2 blue, 3 alpha) of pixel `(x, y)` of an image
/// `width` pixels wide.
pub open spec fn channel(pixels: Seq<u8>, width: int, x: int, y: int, c: int) -> u8 {
    pixels[4 * (y * width + x) + c]
}

/// Alpha of pixel `(x, y)`.
pub open spec fn alpha(pixels: Seq<u8>, width: int, x: int, y: int) -> u8 {
    channel(pixels, width, x, y, 3)
}

/// What `image::imageops::overlay` makes of the canvas when it draws `top`
/// with its left edge at column `x` of the top row.
pub uninterp spec fn overlay_result(
    canvas: Seq<u8>,
    canvas_width: u32,
    canvas_height: u32,
    top: Seq<u8>,
    top_width: u32,
    top_height: u32,
    x: u32,
) -> Seq<u8>;

/// Calls `image::RgbaImage::new`. Claimed: a buffer of `width * height`
/// pixels, every byte zero (transparent black). `new` panics when the
/// buffer length overflows `usize`, which `requires` leaves out.
#[verifier::external_body]
fn blank_canvas(width: u32, height: u32) -> (pixels: Vec<u8>)
    requires
        4 * width * height <= usize::MAX,
    ensures
        pixels@ == Seq::new((4 * width * height) as nat, |i: int| 0u8),
{
    image::RgbaImage::new(width, height).into_raw()
}

/// Calls `image::imageops::overlay` to draw `top` on the canvas with its
/// left edge at column `x` of the top row, the top image lying inside the
/// canvas. Claimed: the canvas becomes `overlay_result` of the arguments,
/// keeps its size, and changes nowhere outside the drawn rectangle; inside
/// it, a pixel of `top` with full alpha replaces the canvas pixel and one with
/// zero alpha leaves it as it was (`Rgba::blend`; other alphas are blended in
/// floating point, which is left unstated).
#[verifier::external_body]
fn overlay_at(
    canvas: &mut Vec<u8>,
    canvas_width: u32,
    canvas_height: u32,
    top: &Vec<u8>,
    top_width: u32,
    top_height: u32,
    x: u32,
)
    requires
        old(canvas)@.len() == 4 * canvas_width * canvas_height,
        top@.len() == 4 * top_width * top_height,
        x + top_width <= canvas_width,
        top_height <= canvas_height,
    ensures
        final(canvas)@ == overlay_result(
            old(canvas)@,
            canvas_width,
            canvas_height,
            top@,
            top_width,
            top_height,
            x,
        ),
        final(canvas)@.len() == old(canvas)@.len(),
        forall|px: int, py: int, c: int|
            0 <= px < canvas_width && 0 <= py < canvas_height && 0 <= c < 4 && !(x <= px < x
                + top_width && py < top_height) ==> #[trigger] channel(
                final(canvas)@,
                canvas_width as int,
                px,
                py,
                c,
            ) == channel(old(canvas)@, canvas_width as int, px, py, c),
        forall|px: int, py: int, c: int|
            0 <= px < top_width && 0 <= py < top_height && 0 <= c < 4 ==> {
                &&& alpha(top@, top_width as int, px, py) == 255 ==> #[trigger] channel(
                    final(canvas)@,
                    canvas_width as int,
                    x + px,
                    py,
                    c,
                ) == channel(top@, top_width as int, px, py, c)
                &&& alpha(top@, top_width as int, px, py) == 0 ==> channel(
                    final(canvas)@,
                    canvas_width as int,
                    x + px,
                    py,
                    c,
                ) == channel(old(canvas)@, canvas_width as int, x + px, py, c)
            },
{
    let raw = std::mem::take(canvas);
    if let Some(mut bottom) = image::RgbaImage::from_raw(canvas_width, canvas_height, raw) {
        if let Some(img) = image::RgbaImage::from_raw(top_width, top_height, top.clone()) {
            image::imageops::overlay(&mut bottom, &img, x as i64, 0);
        }
        *canvas = bottom.into_raw();
    }
}

proof fn lemma_pixel_index(width: int, height: int, x: int, y: int, c: int)
    requires
        0 <= x < width,
        0 <= y < height,
        0 <= c < 4,
    ensures
        0 <= 4 * (y * width + x) + c < 4 * width * height,
{
    assert(0 <= y * width) by (nonlinear_arith)
        requires
            0 <= y,
            0 <= width,
    ;
    assert(y * width + x < width * height) by (nonlinear_arith)
        requires
            0 <= x < width,
            0 <= y < height,
    ;
    assert(4 * (width * height) == 4 * width * height) by (nonlinear_arith);
}

/// Widths and heights of the frames.
pub open spec fn frame_sizes(frames: Seq<RgbaFrame>) -> Seq<(u32, u32)> {
    Seq::new(frames.len(), |i: int| (frames[i].width, frames[i].height))
}

/// Left edge of frame `j` on the combined canvas.
pub open spec fn frame_offset(frames: Seq<RgbaFrame>, j: int) -> nat {
    total_width(frame_sizes(frames).take(j))
}

/// The canvas after drawing the first `k` frames, each at its offset, with
/// `image::imageops::overlay` on a transparent canvas.
pub open spec fn composed(frames: Seq<RgbaFrame>, width: u32, height: u32, k: nat) -> Seq<u8>
    decreases k,
{
    if k == 0 {
        Seq::new((4 * width * height) as nat, |i: int| 0u8)
    } else {
        let j = (k - 1) as int;
        overlay_result(
            composed(frames, width, height, (k - 1) as nat),
            width,
            height,
            frames[j].pixels@,
            frames[j].width,
            frames[j].height,
            frame_offset(frames, j) as u32,
        )
    }
}

/// What the combined canvas shows of the frames: each frame's opaque pixels
/// at its place, and transparent black wherever a frame is transparent or no
/// frame reaches.
pub open spec fn shows_frames(frames: Seq<RgbaFrame>, canvas: Seq<u8>, width: int, upto: int) -> bool {
    &&& forall|j: int, px: int, py: int, c: int|
        0 <= j < upto && 0 <= px < frames[j].width && 0 <= py < frames[j].height && 0 <= c < 4
            ==> {
            &&& alpha(frames[j].pixels@, frames[j].width as int, px, py) == 255 ==> #[trigger] channel(
                canvas,
                width,
                frame_offset(frames, j) + px,
                py,
                c,
            ) == channel(frames[j].pixels@, frames[j].width as int, px, py, c)
            &&& alpha(frames[j].pixels@, frames[j].width as int, px, py) == 0 ==> channel(
                canvas,
                width,
                frame_offset(frames, j) + px,
                py,
                c,
            ) == 0
        }
    &&& forall|j: int, px: int, py: int, c: int|
        0 <= j < upto && 0 <= px < frames[j].width && frames[j].height <= py < max_height(
            frame_sizes(frames),
        ) && 0 <= c < 4 ==> #[trigger] channel(canvas, width, frame_offset(frames, j) + px, py, c)
            == 0
}

/// Combines the monitor captures into one frame. A single capture is kept as
/// it is; several are drawn side by side, in order and top-aligned, on a
/// transparent canvas as wide as all of them and as tall as the tallest.
pub fn compose_frames(frames: Vec<RgbaFrame>) -> (combined: Result<RgbaFrame, CaptureError>)
    requires
        forall|i: int| 0 <= i < frames@.len() ==> (#[trigger] frames@[i]).well_formed(),
        total_width(frame_sizes(frames@)) <= u32::MAX,
        4 * total_width(frame_sizes(frames@)) * max_height(frame_sizes(frames@)) <= usize::MAX,
    ensures
        combined is Err <==> frames@.len() == 0,
        frames@.len() == 1 ==> combined == Ok::<RgbaFrame, CaptureError>(frames@[0]),
        frames@.len() > 1 ==> (combined matches Ok(f) && {
            &&& f.well_formed()
            &&& f.width == total_width(frame_sizes(frames@))
            &&& f.height == max_height(frame_sizes(frames@))
            &&& f.pixels@ == composed(frames@, f.width, f.height, frames@.len())
            &&& shows_frames(frames@, f.pixels@, f.width as int, frames@.len() as int)
        }),
{
    let n = frames.len();
    let mut sizes: Vec<(u32, u32)> = Vec::new();
    for i in 0..n
        invariant
            n == frames@.len(),
            sizes@ =~= frame_sizes(frames@).take(i as int),
    {
        sizes.push((frames[i].width, frames[i].height));
    }
    assert(sizes@ =~= frame_sizes(frames@));
    let layout = match plan_canvas(&sizes) {
        Ok(layout) => layout,
        Err(e) => {
            return Err(e);
        },
    };
    if n == 1 {
        let mut frames = frames;
        let only = frames.pop().unwrap();
        return Ok(only);
    }
    let ghost all = frames@;
    let ghost sz = frame_sizes(all);
    let width = layout.width;
    let height = layout.height;
    let mut canvas = blank_canvas(width, height);
    assert forall|px: int, py: int, c: int|
        0 <= px < width && 0 <= py < height && 0 <= c < 4 implies #[trigger] channel(
        canvas@,
        width as int,
        px,
        py,
        c,
    ) == 0 by {
        lemma_pixel_index(width as int, height as int, px, py, c);
    }
    assert(frame_offset(all, 0) == 0) by {
        assert(sz.take(0) =~= Seq::<(u32, u32)>::empty());
    }
    for k in 0..n
        invariant
            n == all.len(),
            all == frames@,
            sz == frame_sizes(all),
            forall|i: int| 0 <= i < all.len() ==> (#[trigger] all[i]).well_formed(),
            width == total_width(sz),
            height == max_height(sz),
            layout.offsets@.len() == n,
            forall|i: int| 0 <= i < n ==> #[trigger] layout.offsets@[i] == total_width(sz.take(i)),
            forall|i: int|
                0 <= i < n ==> layout.offsets@[i] + sz[i].0 <= width && sz[i].1 <= height,
            canvas@.len() == 4 * width * height,
            canvas@ == composed(all, width, height, k as nat),
            shows_frames(all, canvas@, width as int, k as int),
            forall|px: int, py: int, c: int|
                frame_offset(all, k as int) <= px < width && 0 <= py < height && 0 <= c < 4
                    ==> #[trigger] channel(canvas@, width as int, px, py, c) == 0,
    {
        let ghost before = canvas@;
        let x = layout.offsets[k];
        proof {
            lemma_width_prefix(sz, k as int, k + 1);
            assert(sz.take(k + 1).drop_last() =~= sz.take(k as int));
            assert(frame_offset(all, k as int) == x);
            assert(frame_offset(all, k + 1) == x + all[k as int].width);
        }
        overlay_at(
            &mut canvas,
            width,
            height,
            &frames[k].pixels,
            frames[k].width,
            frames[k].height,
            x,
        );
        proof {
            assert forall|j: int, px: int, py: int, c: int|
                0 <= j < k && 0 <= px < all[j].width && 0 <= py < height && 0 <= c
                    < 4 implies #[trigger] channel(canvas@, width as int, frame_offset(all, j) + px, py, c)
                == channel(before, width as int, frame_offset(all, j) + px, py, c) by {
                lemma_width_prefix(sz, j, k as int);
                assert(sz[j].0 == all[j].width);
            }
            assert forall|px: int, py: int, c: int|
                frame_offset(all, k + 1) <= px < width && 0 <= py < height && 0 <= c
                    < 4 implies #[trigger] channel(canvas@, width as int, px, py, c) == 0 by {
                assert(channel(before, width as int, px, py, c) == 0);
            }
            assert(shows_frames(all, canvas@, width as int, k + 1)) by {
                assert forall|j: int, px: int, py: int, c: int|
                    0 <= j < k + 1 && 0 <= px < all[j].width && 0 <= py < all[j].height && 0 <= c
                        < 4 implies {
                        &&& alpha(all[j].pixels@, all[j].width as int, px, py) == 255 ==> #[trigger] channel(
                            canvas@,
                            width as int,
                            frame_offset(all, j) + px,
                            py,
                            c,
                        ) == channel(all[j].pixels@, all[j].width as int, px, py, c)
                        &&& alpha(all[j].pixels@, all[j].width as int, px, py) == 0 ==> channel(
                            canvas@,
                            width as int,
                            frame_offset(all, j) + px,
                            py,
                            c,
                        ) == 0
                    } by {
                    assert(sz[j].1 == all[j].height);
                    assert(sz[j].0 == all[j].width);
                    if j == k {
                        assert(frame_offset(all, j) == x);
                        assert(all[j].pixels@ == frames@[k as int].pixels@);
                        assert(all[j].width == frames@[k as int].width);
                        assert(channel(before, width as int, x + px, py, c) == 0);
                        if alpha(all[j].pixels@, all[j].width as int, px, py) == 255 {
                            assert(channel(canvas@, width as int, x + px, py, c) == channel(
                                all[j].pixels@,
                                all[j].width as int,
                                px,
                                py,
                                c,
                            ));
                        }
                        if alpha(all[j].pixels@, all[j].width as int, px, py) == 0 {
                            assert(channel(canvas@, width as int, x + px, py, c) == 0);
                        }
                    } else {
                        lemma_width_prefix(sz, j, k as int);
                        assert(layout.offsets@[j] + sz[j].0 <= width && sz[j].1 <= height);
                        assert(py < height);
                        assert(channel(canvas@, width as int, frame_offset(all, j) + px, py, c)
                            == channel(before, width as int, frame_offset(all, j) + px, py, c));
                    }
                }
                assert forall|j: int, px: int, py: int, c: int|
                    0 <= j < k + 1 && 0 <= px < all[j].width && all[j].height <= py < max_height(
                        frame_sizes(all),
                    ) && 0 <= c < 4 implies #[trigger] channel(
                    canvas@,
                    width as int,
                    frame_offset(all, j) + px,
                    py,
                    c,
                ) == 0 by {
                    assert(sz[j].0 == all[j].width);
                    if j == k {
                        assert(frame_offset(all, j) == x);
                        assert(channel(before, width as int, x + px, py, c) == 0);
                    } else {
                        lemma_width_prefix(sz, j, k as int);
                        let _ = channel(before, width as int, frame_offset(all, j) + px, py, c);
                    }
                }
            }
        }
    }
    assert(frames@.len() > 1);
    Ok(RgbaFrame { width, height, pixels: canvas })
}

/// `|a - b|` for integers.
pub open spec fn distance(a: int, b: int) -> int {
    if a < b {
        b - a
    } else {
        a - b
    }
}

/// The size `(new_width, new_height)` that a `width` by `height` image gets
/// when it is scaled to fit a `box_width` by `box_height` box with its aspect
/// ratio kept: at least one pixel each way, within the box (a box side of
/// zero counting as one), and along one side the box itself, the other side
/// being the exact proportional length to within one pixel.
pub open spec fn fits_box(
    width: int,
    height: int,
    box_width: int,
    box_height: int,
    new_width: int,
    new_height: int,
) -> bool {
    let bw = if box_width == 0 { 1 } else { box_width };
    let bh = if box_height == 0 { 1 } else { box_height };
    &&& 1 <= new_width <= bw
    &&& 1 <= new_height <= bh
    &&& {
        ||| new_width == bw && distance(new_height * width, height * box_width) <= width
        ||| new_height == bh && distance(new_width * height, width * box_height) <= height
    }
}

/// Calls `image::DynamicImage::resize` with `FilterType::Lanczos3` on the
/// frame. Claimed: the result is a well-formed frame; a request for the
/// frame's own size gives the frame back unchanged; otherwise the size is at
/// least one pixel each way and, unless both sides are zero, the size that
/// `fits_box` describes. `resize` takes the smaller of the two `f64` ratios
/// box side / image side and rounds each side times that ratio (at least
/// one); for `u32` sides the floating-point error stays far below half a
/// pixel, so the side whose ratio was taken comes out as the box side and the
/// other within one pixel of its exact proportion (an image side of zero gives
/// an infinite or NaN ratio, which `f64::min` passes over, and a side of one
/// pixel). The resampled pixel
/// values are left unstated: the Lanczos kernel calls `f32::sin`, whose
/// precision std leaves open.
#[verifier::external_body]
fn resize_lanczos3(frame: &RgbaFrame, new_width: u32, new_height: u32) -> (resized: RgbaFrame)
    requires
        frame.well_formed(),
    ensures
        resized.well_formed(),
        new_width == frame.width && new_height == frame.height ==> resized == *frame,
        !(new_width == frame.width && new_height == frame.height) ==> 1 <= resized.width && 1
            <= resized.height,
        !(new_width == frame.width && new_height == frame.height) && (frame.width > 0
            || frame.height > 0) ==> fits_box(
            frame.width as int,
            frame.height as int,
            new_width as int,
            new_height as int,
            resized.width as int,
            resized.height as int,
        ),
{
    let filter = image::imageops::FilterType::Lanczos3;
    match image::RgbaImage::from_raw(frame.width, frame.height, frame.pixels.clone()) {
        Some(img) => {
            let out = image::DynamicImage::ImageRgba8(img).resize(new_width, new_height, filter);
            let out = out.into_rgba8();
            RgbaFrame { width: out.width(), height: out.height(), pixels: out.into_raw() }
        },
        None => RgbaFrame { width: 0, height: 0, pixels: Vec::new() },
    }
}

/// Brings a combined capture within the capture limit. A capture within
/// `MAX_CAPTURE_WIDTH` by `MAX_CAPTURE_HEIGHT` is kept as it is; a larger one
/// is scaled down (Lanczos3 resampling) to fit the given target box, which
/// lies within the limit, with its aspect ratio kept. Either way the result
/// lies within the limit.
pub fn fit_capture_limit(frame: RgbaFrame, target_width: u32, target_height: u32) -> (fitted:
    RgbaFrame)
    requires
        frame.well_formed(),
        target_width <= MAX_CAPTURE_WIDTH,
        target_height <= MAX_CAPTURE_HEIGHT,
    ensures
        fitted.well_formed(),
        fitted.width <= MAX_CAPTURE_WIDTH,
        fitted.height <= MAX_CAPTURE_HEIGHT,
        !(frame.width > MAX_CAPTURE_WIDTH || frame.height > MAX_CAPTURE_HEIGHT) ==> fitted
            == frame,
        frame.width > MAX_CAPTURE_WIDTH || frame.height > MAX_CAPTURE_HEIGHT ==> fits_box(
            frame.width as int,
            frame.height as int,
            target_width as int,
            target_height as int,
            fitted.width as int,
            fitted.height as int,
        ),
{
    if !exceeds_capture_limit(frame.width, frame.height) {
        return frame;
    }
    resize_lanczos3(&frame, target_width, target_height)
}

/// Calls `image::DynamicImage::to_rgb8` on the frame. Claimed: each pixel's
/// red, green and blue bytes, in order, with its alpha byte dropped (an RGBA
/// to RGB cast of 8-bit channels copies the three colour channels).
#[verifier::external_body]
fn to_rgb8_bytes(frame: &RgbaFrame) -> (rgb: Vec<u8>)
    requires
        frame.well_formed(),
    ensures
        rgb@.len() == 3 * frame.width * frame.height,
        forall|i: int, c: int|
            0 <= i < frame.width * frame.height && 0 <= c < 3 ==> #[trigger] rgb@[3 * i + c]
                == frame.pixels@[4 * i + c],
{
    match image::RgbaImage::from_raw(frame.width, frame.height, frame.pixels.clone()) {
        Some(img) => image::DynamicImage::ImageRgba8(img).to_rgb8().into_raw(),
        None => Vec::new(),
    }
}

/// The frame as RGB bytes, three per pixel, for encoding: the alpha byte of
/// each pixel is dropped, so a transparent pixel shows its colour bytes.
pub fn frame_rgb_bytes(frame: &RgbaFrame) -> (rgb: Vec<u8>)
    requires
        frame.well_formed(),
    ensures
        rgb@.len() == 3 * frame.width * frame.height,
        forall|i: int, c: int|
            0 <= i < frame.width * frame.height && 0 <= c < 3 ==> #[trigger] rgb@[3 * i + c]
                == frame.pixels@[4 * i + c],
{
    to_rgb8_bytes(frame)
}

} // verus!
