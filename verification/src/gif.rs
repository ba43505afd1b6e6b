//! Decoded GIF frames, and the LED colors of a panel in them.
//!
//! Decoding itself is done by the `image` crate. Each frame it yields becomes a
//! [`DecodedFrame`] of plain values.

use std::io::Cursor;

use image::codecs::gif::GifDecoder;
use image::AnimationDecoder;
use vstd::prelude::*;

verus! {

/// An image: rows of pixels from the top, each pixel red, green, blue, alpha.
#[derive(Debug)]
pub struct RgbaImage {
    pub width: u32,
    pub height: u32,
    pub pixels: Vec<u8>,
}

/// An image as a value.
#[verifier::ext_equal]
pub ghost struct ImageView {
    pub width: u32,
    pub height: u32,
    pub pixels: Seq<u8>,
}

impl ImageView {
    /// The image has all its pixels.
    pub open spec fn wf(self) -> bool {
        self.pixels.len() == self.width * self.height * 4
    }

    /// A channel (0 to 3: red, green, blue, alpha) of the pixel in column `x` of
    /// row `y`.
    pub open spec fn channel(self, x: int, y: int, c: int) -> u8 {
        self.pixels[(y * self.width + x) * 4 + c]
    }
}

impl View for RgbaImage {
    type V = ImageView;

    open spec fn view(&self) -> ImageView {
        ImageView { width: self.width, height: self.height, pixels: self.pixels@ }
    }
}

proof fn lemma_pixel_in_image(x: int, y: int, width: int, height: int, c: int)
    by (nonlinear_arith)
    requires
        0 <= x < width,
        0 <= y < height,
        0 <= c < 4,
    ensures
        0 <= y * width + x < width * height,
        0 <= (y * width + x) * 4 + c < width * height * 4,
{
}

impl RgbaImage {
    /// A black, fully transparent image.
    pub fn new(width: u32, height: u32) -> (image: Self)
        requires
            width * height * 4 <= usize::MAX,
        ensures
            image@.wf(),
            image@.width == width,
            image@.height == height,
            image@.pixels == crate::protocol::zeros(width * height * 4),
    {
        proof {
            assert(0 <= width * height <= width * height * 4) by (nonlinear_arith);
        }
        let area: usize = (width as usize) * (height as usize);
        let pixels: Vec<u8> = vec![0u8; area * 4];
        assert(pixels@ =~= crate::protocol::zeros(width * height * 4));
        RgbaImage { width, height, pixels }
    }

    /// A channel of a pixel.
    pub fn get_channel(&self, x: u32, y: u32, c: usize) -> (v: u8)
        requires
            self@.wf(),
            x < self.width,
            y < self.height,
            c < 4,
        ensures
            v == self@.channel(x as int, y as int, c as int),
    {
        let len: usize = self.pixels.len();
        proof {
            lemma_pixel_in_image(
                x as int,
                y as int,
                self.width as int,
                self.height as int,
                c as int,
            );
            assert(0 <= y * self.width <= y * self.width + x);
            assert(0 <= y * self.width) by (nonlinear_arith);
        }
        let at: usize = ((y as usize) * (self.width as usize) + (x as usize)) * 4 + c;
        self.pixels[at]
    }

    /// Sets the four channels of a pixel.
    pub fn put_pixel(&mut self, x: u32, y: u32, rgba: [u8; 4])
        requires
            old(self)@.wf(),
            x < old(self).width,
            y < old(self).height,
        ensures
            final(self)@.wf(),
            final(self).width == old(self).width,
            final(self).height == old(self).height,
            forall|i: int|
                0 <= i < old(self)@.pixels.len() ==> #[trigger] final(self)@.pixels[i] == {
                    let at = (y * old(self).width + x) * 4;
                    if at <= i < at + 4 {
                        rgba@[i - at]
                    } else {
                        old(self)@.pixels[i]
                    }
                },
    {
        let len: usize = self.pixels.len();
        proof {
            lemma_pixel_in_image(
                x as int,
                y as int,
                self.width as int,
                self.height as int,
                3,
            );
            assert(0 <= y * self.width) by (nonlinear_arith);
        }
        let at: usize = ((y as usize) * (self.width as usize) + (x as usize)) * 4;
        self.pixels[at] = rgba[0];
        self.pixels[at + 1] = rgba[1];
        self.pixels[at + 2] = rgba[2];
        self.pixels[at + 3] = rgba[3];
    }
}

/// One frame of a GIF.
#[derive(Debug)]
pub struct DecodedFrame {
    pub rgba: RgbaImage,
    /// How long the frame is shown, in milliseconds.
    pub delay_ms: u32,
}

/// One frame of a GIF as a value.
#[verifier::ext_equal]
pub ghost struct FrameView {
    pub image: ImageView,
    pub delay_ms: u32,
}

impl View for DecodedFrame {
    type V = FrameView;

    open spec fn view(&self) -> FrameView {
        FrameView { image: self.rgba@, delay_ms: self.delay_ms }
    }
}

/// The values of decoded frames.
pub open spec fn frame_views(frames: Seq<DecodedFrame>) -> Seq<FrameView> {
    Seq::new(frames.len(), |i: int| frames[i]@)
}

/// The frames are whole images, all of one size.
pub open spec fn frames_wf(frames: Seq<FrameView>) -> bool {
    forall|i: int|
        0 <= i < frames.len() ==> {
            &&& (#[trigger] frames[i]).image.wf()
            &&& frames[i].image.width == frames[0].image.width
            &&& frames[i].image.height == frames[0].image.height
        }
}

// ─── Decoding ────────────────────────────────────────────────────────────────

/// What the GIF decoder of the `image` crate yields for a file: nothing if it
/// refuses the file, else the first `limit` items of its frame iterator, where a
/// frame is given by width, height, pixels and delay in milliseconds, and a frame
/// that could not be decoded is none.
pub uninterp spec fn gif_items(data: Seq<u8>, limit: nat) -> Option<
    Seq<Option<(u32, u32, Seq<u8>, u32)>>,
>;

/// The plain values of a frame.
pub open spec fn frame_values(f: FrameView) -> (u32, u32, Seq<u8>, u32) {
    (f.image.width, f.image.height, f.image.pixels, f.delay_ms)
}

/// The plain values of decoded items.
pub open spec fn item_values(items: Seq<Option<DecodedFrame>>) -> Seq<
    Option<(u32, u32, Seq<u8>, u32)>,
> {
    Seq::new(
        items.len(),
        |i: int|
            match items[i] {
                Some(frame) => Some(frame_values(frame@)),
                None => None,
            },
    )
}

/// The frames among decoded items are whole images, all of one size.
pub open spec fn items_wf(items: Seq<Option<DecodedFrame>>) -> bool {
    &&& forall|i: int|
        0 <= i < items.len() && items[i] is Some ==> (#[trigger] items[i])->0@.image.wf()
    &&& forall|i: int, j: int|
        0 <= i < items.len() && 0 <= j < items.len() && items[i] is Some && items[j] is Some ==> (
        #[trigger] items[i])->0@.image.width == (#[trigger] items[j])->0@.image.width
            && items[i]->0@.image.height == items[j]->0@.image.height
}

/// Runs `image::codecs::gif::GifDecoder::new` on the file and takes the first
/// `limit` items of `image::AnimationDecoder::into_frames`.
///
/// The contract gives what comes back a name, and says three things of it: there
/// are at most `limit` items; each frame is a whole image; all frames have one
/// size, that of the GIF's logical screen. A GIF delay is a whole number of
/// milliseconds, so the denominator that `Delay::numer_denom_ms` reports is always
/// one and only the numerator is kept.
#[verifier::external_body]
fn decode_items(data: &[u8], limit: usize) -> (r: Option<Vec<Option<DecodedFrame>>>)
    ensures
        r is Some <==> gif_items(data@, limit as nat) is Some,
        r matches Some(items) ==> gif_items(data@, limit as nat) == Some(item_values(items@))
            && items@.len() <= limit && items_wf(items@),
{
    let decoder = GifDecoder::new(Cursor::new(data)).ok()?;
    let items = decoder.into_frames().take(limit).map(|item| {
        item.ok().map(|frame| {
            let (delay_ms, _) = frame.delay().numer_denom_ms();
            let buffer = frame.into_buffer();
            let (width, height) = buffer.dimensions();
            let rgba = RgbaImage { width, height, pixels: buffer.into_raw() };
            DecodedFrame { rgba, delay_ms }
        })
    });
    Some(items.collect())
}

/// The frames among the first `n` items: what could not be decoded is left out.
pub open spec fn kept_frames(items: Seq<Option<(u32, u32, Seq<u8>, u32)>>, n: int) -> Seq<
    FrameView,
>
    decreases n,
{
    if n <= 0 {
        Seq::empty()
    } else {
        match items[n - 1] {
            Some((width, height, pixels, delay_ms)) => kept_frames(items, n - 1).push(
                FrameView { image: ImageView { width, height, pixels }, delay_ms },
            ),
            None => kept_frames(items, n - 1),
        }
    }
}

/// The frames that a decoder's items amount to, or why there are none.
pub open spec fn decoded_frames(items: Option<Seq<Option<(u32, u32, Seq<u8>, u32)>>>) -> Result<
    Seq<FrameView>,
    Seq<char>,
> {
    match items {
        None => Err("The GIF couldn't be read."@),
        Some(items) => if kept_frames(items, items.len() as int).len() == 0 {
            Err("The GIF has no frames."@)
        } else {
            Ok(kept_frames(items, items.len() as int))
        },
    }
}

/// Keeps the frames among a decoder's items, in order.
pub fn frames_from_items(items: Option<Vec<Option<DecodedFrame>>>) -> (r: Result<
    Vec<DecodedFrame>,
    &'static str,
>)
    requires
        items matches Some(v) ==> items_wf(v@),
    ensures
        match r {
            Ok(frames) => frames_wf(frame_views(frames@)) && decoded_frames(
                match items {
                    Some(v) => Some(item_values(v@)),
                    None => None,
                },
            ) == Ok::<Seq<FrameView>, Seq<char>>(frame_views(frames@)),
            Err(e) => decoded_frames(
                match items {
                    Some(v) => Some(item_values(v@)),
                    None => None,
                },
            ) == Err::<Seq<FrameView>, Seq<char>>(e@),
        },
{
    let Some(mut items) = items else {
        return Err("The GIF couldn't be read.");
    };
    let ghost all = items@;
    let ghost values = item_values(items@);
    let mut frames: Vec<DecodedFrame> = Vec::new();
    let total: usize = items.len();
    let mut rest: Vec<Option<DecodedFrame>> = Vec::new();
    let mut left: usize = total;
    // Turned round, so that the items can be moved out from the end.
    while left > 0
        invariant
            left == items@.len(),
            left <= total,
            total == all.len(),
            items@ == all.take(left as int),
            rest@ == all.skip(left as int).reverse(),
        decreases left,
    {
        left = left - 1;
        let ghost before = rest@;
        if let Some(item) = items.pop() {
            rest.push(item);
        }
        assert(items@ =~= all.take(left as int));
        assert(rest@ =~= all.skip(left as int).reverse());
    }
    let mut done: usize = 0;
    assert(rest@ =~= all.skip(0).reverse());
    assert(all.skip(0) =~= all);
    assert(frame_views(frames@) =~= kept_frames(values, 0));
    while done < total
        invariant
            done <= total,
            total == all.len(),
            items_wf(all),
            values == item_values(all),
            rest@ == all.skip(done as int).reverse(),
            frame_views(frames@) == kept_frames(values, done as int),
            forall|k: int|
                0 <= k < frames@.len() ==> exists|i: int|
                    0 <= i < done && all[i] == Some(#[trigger] frames@[k]),
        decreases total - done,
    {
        let ghost before = frames@;
        if let Some(item) = rest.pop() {
            assert(item == all[done as int]);
            if let Some(frame) = item {
                frames.push(frame);
                assert(frame_views(frames@) =~= frame_views(before).push(frame@));
            }
        }
        done = done + 1;
        assert(rest@ =~= all.skip(done as int).reverse());
        assert forall|k: int| 0 <= k < frames@.len() implies exists|i: int|
            0 <= i < done && all[i] == Some(#[trigger] frames@[k]) by {
            if k < before.len() {
                assert(frames@[k] == before[k]);
                let i = choose|i: int| 0 <= i < done - 1 && all[i] == Some(before[k]);
                assert(all[i] == Some(frames@[k]));
            } else {
                assert(all[done - 1] == Some(frames@[k]));
            }
        }
    }
    proof {
        let fv = frame_views(frames@);
        assert(frames_wf(fv)) by {
            assert forall|k: int| 0 <= k < fv.len() implies {
                &&& (#[trigger] fv[k]).image.wf()
                &&& fv[k].image.width == fv[0].image.width
                &&& fv[k].image.height == fv[0].image.height
            } by {
                assert(fv[k] == frames@[k]@);
                assert(fv[0] == frames@[0]@);
                let i = choose|i: int| 0 <= i < done && all[i] == Some(frames@[k]);
                let j = choose|j: int| 0 <= j < done && all[j] == Some(frames@[0]);
                assert(all[i] is Some && all[j] is Some);
            }
        }
    }
    if frames.len() == 0 {
        return Err("The GIF has no frames.");
    }
    Ok(frames)
}

/// Decodes the frames of a GIF. Frames that cannot be decoded are skipped.
///
/// A frame takes several bytes, so a file has fewer frames than bytes; the limit
/// only cuts off a damaged file on which the decoder reports errors for ever.
pub fn decode_gif(data: &[u8]) -> (r: Result<Vec<DecodedFrame>, &'static str>)
    ensures
        match r {
            Ok(frames) => frames_wf(frame_views(frames@)) && decoded_frames(
                gif_items(data@, data@.len()),
            ) == Ok::<Seq<FrameView>, Seq<char>>(frame_views(frames@)),
            Err(e) => decoded_frames(gif_items(data@, data@.len())) == Err::<
                Seq<FrameView>,
                Seq<char>,
            >(e@),
        },
{
    frames_from_items(decode_items(data, data.len()))
}

// ─── Panels ──────────────────────────────────────────────────────────────────

/// Whether an image has the size of a pad with 16-LED or with 25-LED panels.
pub open spec fn is_pad_size(width: u32, height: u32) -> bool {
    (width == 14 && height == 15) || (width == 23 && height == 24)
}

/// LEDs that a panel has in an image of that width.
pub open spec fn leds_of_width(width: u32) -> int {
    if width == 14 {
        16
    } else {
        25
    }
}

/// The column of a panel's LED. In the small image a panel is a 4x4 block; in the
/// large one its outer 4x4 LEDs lie in the even columns and rows of a block, its
/// inner 3x3 LEDs (from 16 on) in the odd ones.
pub open spec fn led_x(width: u32, panel: int, led: int) -> int {
    if width == 14 {
        (panel % 3) * 5 + led % 4
    } else if led < 16 {
        (panel % 3) * 8 + (led % 4) * 2
    } else {
        (panel % 3) * 8 + ((led - 16) % 3) * 2 + 1
    }
}

/// The row of a panel's LED, see [`led_x`].
pub open spec fn led_y(width: u32, panel: int, led: int) -> int {
    if width == 14 {
        (panel / 3) * 5 + led / 4
    } else if led < 16 {
        (panel / 3) * 8 + (led / 4) * 2
    } else {
        (panel / 3) * 8 + ((led - 16) / 3) * 2 + 1
    }
}

/// The red, green and blue values of a panel's LEDs in an image.
pub open spec fn panel_rgb(image: ImageView, panel: int) -> Seq<u8> {
    Seq::new(
        (leds_of_width(image.width) * 3) as nat,
        |i: int|
            image.channel(
                led_x(image.width, panel, i / 3),
                led_y(image.width, panel, i / 3),
                i % 3,
            ),
    )
}

/// The colors of a panel's LEDs in one frame.
#[derive(Debug)]
pub struct PanelFrame {
    pub rgb: Vec<u8>,
    pub num_leds: usize,
}

impl PanelFrame {
    /// There are three bytes for each LED.
    pub open spec fn wf(&self) -> bool {
        self.rgb@.len() == self.num_leds * 3
    }
}

/// Reads a panel's LED colors from an image of a pad.
pub fn extract_panel(image: &RgbaImage, panel: usize) -> (frame: PanelFrame)
    requires
        image@.wf(),
        is_pad_size(image.width, image.height),
        panel < 9,
    ensures
        frame.wf(),
        frame.num_leds == leds_of_width(image.width),
        frame.rgb@ == panel_rgb(image@, panel as int),
{
    let col: u32 = (panel % 3) as u32;
    let row: u32 = (panel / 3) as u32;
    let small = image.width == 14;
    let num_leds: usize = if small {
        16
    } else {
        25
    };
    let mut rgb: Vec<u8> = Vec::new();
    let mut led: u32 = 0;
    while led < num_leds as u32
        invariant
            led <= num_leds,
            num_leds == leds_of_width(image.width),
            small == (image.width == 14),
            image@.wf(),
            is_pad_size(image.width, image.height),
            panel < 9,
            col == panel % 3,
            row == panel / 3,
            rgb@.len() == led * 3,
            forall|i: int| 0 <= i < led * 3 ==> rgb@[i] == panel_rgb(image@, panel as int)[i],
        decreases num_leds - led,
    {
        let x: u32 = if small {
            col * 5 + led % 4
        } else if led < 16 {
            col * 8 + (led % 4) * 2
        } else {
            col * 8 + ((led - 16) % 3) * 2 + 1
        };
        let y: u32 = if small {
            row * 5 + led / 4
        } else if led < 16 {
            row * 8 + (led / 4) * 2
        } else {
            row * 8 + ((led - 16) / 3) * 2 + 1
        };
        assert(x == led_x(image.width, panel as int, led as int));
        assert(y == led_y(image.width, panel as int, led as int));
        rgb.push(image.get_channel(x, y, 0));
        rgb.push(image.get_channel(x, y, 1));
        rgb.push(image.get_channel(x, y, 2));
        led = led + 1;
    }
    assert(rgb@ =~= panel_rgb(image@, panel as int));
    PanelFrame { rgb, num_leds }
}

// ─── Laws ────────────────────────────────────────────────────────────────────

/// The pixel under an LED of a pad with 25-LED panels. The three panels of a row lie
/// side by side, 8 columns apart, and the three rows of panels 8 rows apart. The outer
/// LEDs of a panel are every other pixel of its block; the inner ones lie between
/// them. The pixels of a row stand side by side in the image, 4 bytes each.
pub proof fn law_large_picture(image: ImageView, row: int, column: int, y: int, x: int, c: int)
    requires
        image.width == 23,
        image.height == 24,
        0 <= row < 3,
        0 <= column < 3,
        0 <= c < 3,
    ensures
        ({
            let rgb = panel_rgb(image, 3 * row + column);
            &&& rgb.len() == 75
            &&& 0 <= y < 4 && 0 <= x < 4 ==> rgb[3 * (4 * y + x) + c] == image.pixels[92 * (8
                * row + 2 * y) + 4 * (8 * column + 2 * x) + c]
            &&& 0 <= y < 3 && 0 <= x < 3 ==> rgb[48 + 3 * (3 * y + x) + c] == image.pixels[92 * (
            8 * row + 2 * y + 1) + 4 * (8 * column + 2 * x + 1) + c]
        }),
{
    let panel = 3 * row + column;
    assert(panel / 3 == row && panel % 3 == column);
    if 0 <= y < 4 && 0 <= x < 4 {
        let i = 3 * (4 * y + x) + c;
        assert(i / 3 == 4 * y + x && i % 3 == c);
        assert((4 * y + x) / 4 == y && (4 * y + x) % 4 == x);
    }
    if 0 <= y < 3 && 0 <= x < 3 {
        let i = 48 + 3 * (3 * y + x) + c;
        assert(i / 3 == 16 + 3 * y + x && i % 3 == c);
        assert((3 * y + x) / 3 == y && (3 * y + x) % 3 == x);
    }
}

/// The pixel under an LED of a pad with 16-LED panels: blocks of 4x4 pixels, 5 apart.
pub proof fn law_small_picture(image: ImageView, row: int, column: int, y: int, x: int, c: int)
    requires
        image.width == 14,
        image.height == 15,
        0 <= row < 3,
        0 <= column < 3,
        0 <= y < 4,
        0 <= x < 4,
        0 <= c < 3,
    ensures
        panel_rgb(image, 3 * row + column).len() == 48,
        panel_rgb(image, 3 * row + column)[3 * (4 * y + x) + c] == image.pixels[56 * (5 * row + y)
            + 4 * (5 * column + x) + c],
{
    let panel = 3 * row + column;
    assert(panel / 3 == row && panel % 3 == column);
    let i = 3 * (4 * y + x) + c;
    assert(i / 3 == 4 * y + x && i % 3 == c);
    assert((4 * y + x) / 4 == y && (4 * y + x) % 4 == x);
}

/// Where the picture is moved, the panels follow: if what `b` shows at a pixel is what
/// `a` shows one block of panels to the right, a panel of `b` shows what the panel to
/// its right shows of `a`; likewise downwards, where the next panel is three further
/// on.
pub proof fn law_panels_follow_the_picture(a: ImageView, b: ImageView, panel: int, across: bool)
    requires
        is_pad_size(a.width, a.height),
        b.width == a.width,
        b.height == a.height,
        0 <= panel < 9,
        across ==> panel != 2 && panel != 5 && panel != 8,
        !across ==> panel < 6,
        forall|x: int, y: int, c: int|
            0 <= x < a.width && 0 <= y < a.height && 0 <= c < 3 ==> #[trigger] b.channel(x, y, c)
                == {
                let step = if a.width == 14 {
                    5int
                } else {
                    8int
                };
                if across {
                    a.channel(x + step, y, c)
                } else {
                    a.channel(x, y + step, c)
                }
            },
    ensures
        panel_rgb(b, panel) == panel_rgb(
            a,
            if across {
                panel + 1
            } else {
                panel + 3
            },
        ),
{
    let q = if across {
        panel + 1
    } else {
        panel + 3
    };
    assert(across ==> q / 3 == panel / 3 && q % 3 == panel % 3 + 1);
    assert(!across ==> q / 3 == panel / 3 + 1 && q % 3 == panel % 3);
    assert forall|i: int| 0 <= i < panel_rgb(b, panel).len() implies panel_rgb(b, panel)[i]
        == panel_rgb(a, q)[i] by {
        let led = i / 3;
        let x = led_x(a.width, panel, led);
        let y = led_y(a.width, panel, led);
        assert(0 <= x < a.width && 0 <= y < a.height);
        assert(b.channel(x, y, i % 3) == panel_rgb(b, panel)[i]);
    }
    assert(panel_rgb(b, panel) =~= panel_rgb(a, q));
}

/// Frames keep their order: what could be decoded comes out one after the other, and if
/// all could be decoded, the frames are the items one for one.
pub proof fn law_frames_keep_their_order(items: Seq<Option<(u32, u32, Seq<u8>, u32)>>, n: int)
    requires
        0 <= n <= items.len(),
    ensures
        kept_frames(items, n).len() <= n,
        (forall|i: int| 0 <= i < n ==> (#[trigger] items[i]) is Some) ==> kept_frames(
            items,
            n,
        ).len() == n && forall|i: int|
            0 <= i < n ==> frame_values(#[trigger] kept_frames(items, n)[i]) == items[i]->0,
        n > 0 && items[n - 1] is None ==> kept_frames(items, n) == kept_frames(items, n - 1),
    decreases n,
{
    if n > 0 {
        law_frames_keep_their_order(items, n - 1);
    }
}

} // verus!
