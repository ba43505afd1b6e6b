//! Preparing an animation for storage in a pad's firmware.
//!
//! A stored animation has at most 32 frames. Each panel has a palette of 15 colors
//! and each of its LEDs a 4-bit index into it, where 15 is transparent.

use vstd::prelude::*;

use crate::gif::{decode_gif, DecodedFrame, FrameView, PanelFrame};
use crate::lights::{
    find_loop_frame, panel_frames, scale_color, LightsType,
};
use crate::protocol::{copy_bytes, copy_range};
use crate::single::{display_frames, time_of_delay};

verus! {

/// Prepared upload data, ready to be sent to a device.
#[derive(Debug)]
pub struct UploadData {
    pub commands: Vec<UploadCommand>,
}

/// A single command in the upload sequence.
#[derive(Debug)]
pub enum UploadCommand {
    /// Data packet to send to the device.
    Packet(Vec<u8>),
    /// Delay in milliseconds before the next packet.
    Delay(u16),
}

/// An upload command as a value.
#[verifier::ext_equal]
pub ghost enum UploadCommandView {
    Packet(Seq<u8>),
    Delay(u16),
}

impl View for UploadCommand {
    type V = UploadCommandView;

    open spec fn view(&self) -> UploadCommandView {
        match *self {
            UploadCommand::Packet(p) => UploadCommandView::Packet(p@),
            UploadCommand::Delay(d) => UploadCommandView::Delay(d),
        }
    }
}

/// Upload commands as values.
pub open spec fn command_views(commands: Seq<UploadCommand>) -> Seq<UploadCommandView> {
    Seq::new(commands.len(), |i: int| commands[i]@)
}

// ─── Palettes ────────────────────────────────────────────────────────────────

/// LEDs of a panel frame given by its color bytes.
pub open spec fn led_count(rgb: Seq<u8>) -> int {
    rgb.len() as int / 3
}

/// The color of an LED.
pub open spec fn led_color(rgb: Seq<u8>, led: int) -> (u8, u8, u8) {
    (rgb[led * 3], rgb[led * 3 + 1], rgb[led * 3 + 2])
}

/// The color that means transparent.
pub open spec fn black() -> (u8, u8, u8) {
    (0u8, 0u8, 0u8)
}

/// The colors seen after one more: black and known colors add nothing.
pub open spec fn with_color(seen: Seq<(u8, u8, u8)>, c: (u8, u8, u8)) -> Seq<(u8, u8, u8)> {
    if c == black() || seen.contains(c) {
        seen
    } else {
        seen.push(c)
    }
}

/// The colors of the first `f` frames and of the first `i` LEDs of frame `f`, in
/// the order of their first appearance.
pub open spec fn colors_until(frames: Seq<Seq<u8>>, f: int, i: int) -> Seq<(u8, u8, u8)>
    decreases f, i,
{
    if i > 0 {
        with_color(colors_until(frames, f, i - 1), led_color(frames[f], i - 1))
    } else if f > 0 {
        colors_until(frames, f - 1, led_count(frames[f - 1]))
    } else {
        Seq::empty()
    }
}

/// The colors of a panel's frames, in the order of their first appearance.
pub open spec fn colors_of(frames: Seq<Seq<u8>>) -> Seq<(u8, u8, u8)> {
    colors_until(frames, frames.len() as int, 0)
}

/// A panel's palette: its colors, and black up to 15.
pub open spec fn palette_of(frames: Seq<Seq<u8>>) -> Seq<(u8, u8, u8)> {
    Seq::new(
        15,
        |k: int|
            if k < colors_of(frames).len() {
                colors_of(frames)[k]
            } else {
                black()
            },
    )
}

/// The colors in a palette table.
pub open spec fn table_colors(table: Seq<[u8; 3]>) -> Seq<(u8, u8, u8)> {
    Seq::new(table.len(), |k: int| (table[k]@[0], table[k]@[1], table[k]@[2]))
}

proof fn lemma_colors_grow(frames: Seq<Seq<u8>>, f: int, i: int, g: int, j: int)
    requires
        0 <= f <= g <= frames.len(),
        0 <= i,
        0 <= j,
        f == g ==> i <= j,
        f < frames.len() ==> i <= led_count(frames[f]),
        g < frames.len() ==> j <= led_count(frames[g]),
        f == frames.len() ==> i == 0,
        g == frames.len() ==> j == 0,
    ensures
        colors_until(frames, f, i).len() <= colors_until(frames, g, j).len(),
        forall|k: int|
            0 <= k < colors_until(frames, f, i).len() ==> #[trigger] colors_until(
                frames,
                g,
                j,
            )[k] == colors_until(frames, f, i)[k],
    decreases g, j,
{
    if f == g && i == j {
    } else if j > 0 {
        lemma_colors_grow(frames, f, i, g, j - 1);
    } else {
        lemma_colors_grow(frames, f, i, g - 1, led_count(frames[g - 1]));
    }
}

/// Whether a color is in a palette table, among its first `count` entries.
fn table_contains(table: &[[u8; 3]; 15], count: usize, r: u8, g: u8, b: u8) -> (found: bool)
    requires
        count <= 15,
    ensures
        found == table_colors(table@).take(count as int).contains((r, g, b)),
{
    let ghost colors = table_colors(table@).take(count as int);
    let mut k: usize = 0;
    while k < count
        invariant
            k <= count,
            count <= 15,
            colors == table_colors(table@).take(count as int),
            forall|j: int| 0 <= j < k ==> colors[j] != (r, g, b),
        decreases count - k,
    {
        if table[k][0] == r && table[k][1] == g && table[k][2] == b {
            assert(colors[k as int] == (r, g, b));
            return true;
        }
        assert(colors[k as int] != (r, g, b));
        k = k + 1;
    }
    false
}

/// Collects the colors of a panel's frames; black is transparent and needs no
/// entry.
pub fn build_palette(frames: &[PanelFrame]) -> (r: Result<[[u8; 3]; 15], &'static str>)
    requires
        forall|f: int| 0 <= f < frames@.len() ==> (#[trigger] frames@[f]).wf(),
    ensures
        match r {
            Ok(table) => colors_of(crate::lights::rgb_views(frames@)).len() <= 15 && table_colors(
                table@,
            ) == palette_of(crate::lights::rgb_views(frames@)),
            Err(e) => colors_of(crate::lights::rgb_views(frames@)).len() > 15 && e@
                == "A panel uses too many colors (max 15)."@,
        },
{
    let ghost rgb = crate::lights::rgb_views(frames@);
    let mut table: [[u8; 3]; 15] = [[0u8, 0u8, 0u8];15];
    let mut count: usize = 0;
    let mut f: usize = 0;
    assert(table_colors(table@).take(0) =~= colors_until(rgb, 0, 0));
    while f < frames.len()
        invariant
            f <= frames@.len(),
            rgb == crate::lights::rgb_views(frames@),
            forall|f: int| 0 <= f < frames@.len() ==> (#[trigger] frames@[f]).wf(),
            count <= 15,
            table_colors(table@).take(count as int) == colors_until(rgb, f as int, 0),
            forall|k: int| count <= k < 15 ==> table_colors(table@)[k] == black(),
        decreases frames@.len() - f,
    {
        let frame = &frames[f];
        assert(rgb[f as int] == frame.rgb@);
        assert(led_count(rgb[f as int]) == frame.num_leds);
        let mut i: usize = 0;
        while i < frame.num_leds
            invariant
                i <= frame.num_leds,
                f < frames@.len(),
                rgb == crate::lights::rgb_views(frames@),
                frame == frames@[f as int],
                frame.wf(),
                rgb[f as int] == frame.rgb@,
                led_count(rgb[f as int]) == frame.num_leds,
                count <= 15,
                table_colors(table@).take(count as int) == colors_until(rgb, f as int, i as int),
                forall|k: int| count <= k < 15 ==> table_colors(table@)[k] == black(),
            decreases frame.num_leds - i,
        {
            let ghost seen = colors_until(rgb, f as int, i as int);
            let total: usize = frame.rgb.len();
            assert(i * 3 + 2 < total);
            let r: u8 = frame.rgb[i * 3];
            let g: u8 = frame.rgb[i * 3 + 1];
            let b: u8 = frame.rgb[i * 3 + 2];
            assert(led_color(rgb[f as int], i as int) == (r, g, b));
            if !(r == 0 && g == 0 && b == 0) && !table_contains(&table, count, r, g, b) {
                if count >= 15 {
                    proof {
                        assert(colors_until(rgb, f as int, i + 1).len() == 16);
                        lemma_colors_grow(rgb, f as int, i + 1, rgb.len() as int, 0);
                    }
                    return Err("A panel uses too many colors (max 15).");
                }
                let ghost before = table@;
                table[count] = [r, g, b];
                count = count + 1;
                assert(table_colors(table@).take(count as int) =~= seen.push((r, g, b))) by {
                    assert forall|k: int| 0 <= k < count - 1 implies table_colors(table@)[k]
                        == seen[k] by {
                        assert(table@[k] == before[k]);
                        assert(table_colors(before).take(count - 1)[k] == seen[k]);
                    }
                }
                assert forall|k: int| count <= k < 15 implies table_colors(table@)[k] == black() by {
                    assert(table@[k] == before[k]);
                    assert(table_colors(before)[k] == black());
                }
            }
            assert(table_colors(table@).take(count as int) == colors_until(
                rgb,
                f as int,
                i + 1,
            ));
            i = i + 1;
        }
        f = f + 1;
    }
    assert(table_colors(table@) =~= palette_of(rgb)) by {
        assert forall|k: int| 0 <= k < 15 implies table_colors(table@)[k] == palette_of(rgb)[k] by {
            if k < count {
                assert(table_colors(table@).take(count as int)[k] == colors_of(rgb)[k]);
            }
        }
    }
    Ok(table)
}

/// The first place of a color in a palette from `from` on; 0xFF if there is none.
pub open spec fn index_of_color(palette: Seq<(u8, u8, u8)>, c: (u8, u8, u8), from: int) -> int
    decreases palette.len() - from,
{
    if from >= palette.len() {
        0xFF
    } else if palette[from] == c {
        from
    } else {
        index_of_color(palette, c, from + 1)
    }
}

proof fn lemma_index_of_color(palette: Seq<(u8, u8, u8)>, c: (u8, u8, u8), from: int)
    requires
        0 <= from <= palette.len(),
    ensures
        ({
            let k = index_of_color(palette, c, from);
            k == 0xFF || (from <= k < palette.len() && palette[k] == c)
        }),
        (exists|k: int| from <= k < palette.len() && palette[k] == c) && palette.len() <= 0xFF
            ==> index_of_color(palette, c, from) != 0xFF,
    decreases palette.len() - from,
{
    if from < palette.len() && palette[from] != c {
        lemma_index_of_color(palette, c, from + 1);
    }
}

/// Finds a color in a palette table; 0xFF if it is not there.
pub fn find_in_palette(palette: &[[u8; 3]; 15], r: u8, g: u8, b: u8) -> (k: u8)
    ensures
        k == index_of_color(table_colors(palette@), (r, g, b), 0),
        k < 15 || k == 0xFF,
{
    let ghost colors = table_colors(palette@);
    let mut k: usize = 0;
    while k < 15
        invariant
            k <= 15,
            colors == table_colors(palette@),
            index_of_color(colors, (r, g, b), 0) == index_of_color(colors, (r, g, b), k as int),
        decreases 15 - k,
    {
        assert(colors[k as int] == (palette@[k as int]@[0], palette@[k as int]@[1],
            palette@[k as int]@[2]));
        if palette[k][0] == r && palette[k][1] == g && palette[k][2] == b {
            return k as u8;
        }
        k = k + 1;
    }
    0xFF
}

// ─── Graphics ────────────────────────────────────────────────────────────────

/// The 4-bit code of an LED: its place in the palette, or 15 for a black one and
/// for one that the panel does not have.
pub open spec fn led_code(rgb: Seq<u8>, palette: Seq<(u8, u8, u8)>, led: int) -> int {
    if led >= led_count(rgb) || led_color(rgb, led) == black() {
        15
    } else {
        let k = index_of_color(palette, led_color(rgb, led), 0);
        if k == 0xFF {
            0
        } else {
            k
        }
    }
}

/// The codes of 25 LEDs in 13 bytes, the first of two in the high half.
pub open spec fn packed(rgb: Seq<u8>, palette: Seq<(u8, u8, u8)>) -> Seq<u8> {
    Seq::new(
        13,
        |b: int|
            (16 * led_code(rgb, palette, 2 * b) + if 2 * b + 1 < 25 {
                led_code(rgb, palette, 2 * b + 1)
            } else {
                0
            }) as u8,
    )
}

/// Computes an LED's code.
fn code_of_led(frame: &PanelFrame, palette: &[[u8; 3]; 15], led: usize) -> (code: u8)
    requires
        frame.wf(),
        led < 25,
    ensures
        code == led_code(frame.rgb@, table_colors(palette@), led as int),
        code <= 15,
{
    assert(led_count(frame.rgb@) == frame.num_leds);
    if led >= frame.num_leds {
        return 15;
    }
    let r: u8 = frame.rgb[led * 3];
    let g: u8 = frame.rgb[led * 3 + 1];
    let b: u8 = frame.rgb[led * 3 + 2];
    if r == 0 && g == 0 && b == 0 {
        15
    } else {
        let k: u8 = find_in_palette(palette, r, g, b);
        if k == 0xFF {
            0
        } else {
            k
        }
    }
}

/// Packs a panel frame into 13 bytes.
pub fn pack_graphic(frame: &PanelFrame, palette: &[[u8; 3]; 15]) -> (out: [u8; 13])
    requires
        frame.wf(),
    ensures
        out@ == packed(frame.rgb@, table_colors(palette@)),
{
    let mut out: [u8; 13] = [0u8; 13];
    let ghost want = packed(frame.rgb@, table_colors(palette@));
    let mut b: usize = 0;
    while b < 13
        invariant
            b <= 13,
            frame.wf(),
            want == packed(frame.rgb@, table_colors(palette@)),
            forall|j: int| 0 <= j < b ==> out@[j] == want[j],
        decreases 13 - b,
    {
        let high: u8 = code_of_led(frame, palette, 2 * b);
        let low: u8 = if 2 * b + 1 < 25 {
            code_of_led(frame, palette, 2 * b + 1)
        } else {
            0
        };
        out[b] = 16 * high + low;
        b = b + 1;
    }
    assert(out@ =~= want);
    out
}

/// A panel's 32 graphics: one for each frame, the others zero.
pub open spec fn graphics_of(frames: Seq<Seq<u8>>) -> Seq<u8> {
    Seq::new(
        416,
        |i: int|
            if i / 13 < frames.len() {
                packed(frames[i / 13], palette_of(frames))[i % 13]
            } else {
                0u8
            },
    )
}

/// A panel's palette as it is stored: scaled colors.
pub open spec fn palette_bytes_of(frames: Seq<Seq<u8>>) -> Seq<u8> {
    Seq::new(
        45,
        |i: int|
            {
                let c = palette_of(frames)[i / 3];
                crate::lights::scaled(
                    if i % 3 == 0 {
                        c.0
                    } else if i % 3 == 1 {
                        c.1
                    } else {
                        c.2
                    },
                )
            },
    )
}

fn build_graphics(frames: &Vec<PanelFrame>, palette: &[[u8; 3]; 15]) -> (out: Vec<u8>)
    requires
        frames@.len() <= 32,
        forall|f: int| 0 <= f < frames@.len() ==> (#[trigger] frames@[f]).wf(),
        table_colors(palette@) == palette_of(crate::lights::rgb_views(frames@)),
    ensures
        out@ == graphics_of(crate::lights::rgb_views(frames@)),
{
    let ghost rgb = crate::lights::rgb_views(frames@);
    let ghost want = graphics_of(rgb);
    let mut out: Vec<u8> = Vec::new();
    let mut f: usize = 0;
    while f < 32
        invariant
            f <= 32,
            frames@.len() <= 32,
            forall|f: int| 0 <= f < frames@.len() ==> (#[trigger] frames@[f]).wf(),
            rgb == crate::lights::rgb_views(frames@),
            want == graphics_of(rgb),
            table_colors(palette@) == palette_of(rgb),
            out@.len() == 13 * f,
            forall|j: int| 0 <= j < 13 * f ==> out@[j] == want[j],
        decreases 32 - f,
    {
        let graphic: [u8; 13] = if f < frames.len() {
            pack_graphic(&frames[f], palette)
        } else {
            [0u8; 13]
        };
        let ghost before = out@;
        out.extend_from_slice(graphic.as_slice());
        assert(out@ =~= before + graphic@);
        assert forall|j: int| 0 <= j < 13 * (f + 1) implies out@[j] == want[j] by {
            if j < 13 * f {
                assert(out@[j] == before[j]);
            } else {
                assert(j / 13 == f && j % 13 == j - 13 * f);
                assert(out@[j] == graphic@[j - 13 * f]);
            }
        }
        f = f + 1;
    }
    assert(out@ =~= want);
    out
}

fn build_palette_bytes(palette: &[[u8; 3]; 15], Ghost(rgb): Ghost<Seq<Seq<u8>>>) -> (out: Vec<u8>)
    requires
        table_colors(palette@) == palette_of(rgb),
    ensures
        out@ == palette_bytes_of(rgb),
{
    let ghost want = palette_bytes_of(rgb);
    let mut out: Vec<u8> = Vec::new();
    let mut k: usize = 0;
    while k < 15
        invariant
            k <= 15,
            table_colors(palette@) == palette_of(rgb),
            want == palette_bytes_of(rgb),
            out@.len() == 3 * k,
            forall|j: int| 0 <= j < 3 * k ==> out@[j] == want[j],
        decreases 15 - k,
    {
        assert(table_colors(palette@)[k as int] == palette_of(rgb)[k as int]);
        out.push(scale_color(palette[k][0]));
        out.push(scale_color(palette[k][1]));
        out.push(scale_color(palette[k][2]));
        k = k + 1;
    }
    assert(out@ =~= want);
    out
}

// ─── Packets ─────────────────────────────────────────────────────────────────

/// Data bytes that one upload packet carries at most.
pub const MAX_DATA_PER_PACKET: usize = 240;

/// The command byte of upload packets, `m`.
pub const UPLOAD_COMMAND: u8 = 0x6D;

/// The panel number that stands for the pad's master controller.
pub const MASTER_PANEL: u8 = 0xFF;

/// The part of the data that upload packet `k` carries.
pub open spec fn upload_chunk(data: Seq<u8>, k: int) -> Seq<u8> {
    let from = k * MAX_DATA_PER_PACKET;
    data.subrange(
        from,
        if from + MAX_DATA_PER_PACKET < data.len() {
            from + MAX_DATA_PER_PACKET
        } else {
            data.len() as int
        },
    )
}

/// An upload packet: command, panel, animation, whether it is the final one,
/// offset, size, data.
pub open spec fn upload_packet(
    panel: u8,
    animation: u8,
    is_final: u8,
    offset: u16,
    chunk: Seq<u8>,
) -> Seq<u8> {
    seq![UPLOAD_COMMAND, panel, animation, is_final] + crate::protocol::le16(offset) + seq![
        chunk.len() as u8,
    ] + chunk
}

/// The offset of upload packet `k` from where the data starts. It has 16 bits.
pub open spec fn packet_offset(k: int) -> int {
    (k * MAX_DATA_PER_PACKET) % 65536
}

/// The packets that write `data` from an offset on.
pub open spec fn upload_packets(data: Seq<u8>, start: u16, panel: u8, animation: u8) -> Seq<Seq<u8>> {
    Seq::new(
        ((data.len() + MAX_DATA_PER_PACKET - 1) / (MAX_DATA_PER_PACKET as int)) as nat,
        |k: int|
            upload_packet(
                panel,
                animation,
                0,
                (start + packet_offset(k)) as u16,
                upload_chunk(data, k),
            ),
    )
}

/// Appends the packets that write `data` from an offset on.
pub fn create_upload_packets(
    packets: &mut Vec<Vec<u8>>,
    data: &[u8],
    start_offset: u16,
    panel: u8,
    anim_idx: u8,
)
    requires
        forall|k: int|
            0 <= k * MAX_DATA_PER_PACKET < data@.len() ==> start_offset + #[trigger] packet_offset(k)
                <= u16::MAX,
    ensures
        crate::protocol::byte_views(final(packets)@) == crate::protocol::byte_views(old(packets)@)
            + upload_packets(data@, start_offset, panel, anim_idx),
{
    let ghost want = upload_packets(data@, start_offset, panel, anim_idx);
    let ghost before = crate::protocol::byte_views(packets@);
    let ghost mut k: int = 0;
    let mut offset: usize = 0;
    assert(before + want.take(0) =~= before);
    while offset < data.len()
        invariant
            0 <= k <= want.len(),
            offset == if k * MAX_DATA_PER_PACKET < data@.len() {
                k * MAX_DATA_PER_PACKET
            } else {
                data@.len() as int
            },
            k < want.len() <==> k * MAX_DATA_PER_PACKET < data@.len(),
            forall|k: int|
                0 <= k * MAX_DATA_PER_PACKET < data@.len() ==> start_offset
                    + #[trigger] packet_offset(k) <= u16::MAX,
            want == upload_packets(data@, start_offset, panel, anim_idx),
            crate::protocol::byte_views(packets@) == before + want.take(k),
        decreases data@.len() - offset,
    {
        let left: usize = data.len() - offset;
        let size: usize = if left < MAX_DATA_PER_PACKET {
            left
        } else {
            MAX_DATA_PER_PACKET
        };
        assert(start_offset + packet_offset(k) <= u16::MAX);
        let at: u16 = start_offset + (offset % 65536) as u16;
        let mut packet: Vec<u8> = Vec::new();
        packet.push(UPLOAD_COMMAND);
        packet.push(panel);
        packet.push(anim_idx);
        packet.push(0);
        packet.push((at % 256) as u8);
        packet.push((at / 256) as u8);
        packet.push(size as u8);
        let chunk = copy_range(data, offset, offset + size);
        packet.extend_from_slice(chunk.as_slice());
        assert(chunk@ == upload_chunk(data@, k));
        assert(packet@ =~= want[k]);
        let ghost held = packets@;
        packets.push(packet);
        proof {
            assert(crate::protocol::byte_views(packets@) =~= crate::protocol::byte_views(held).push(
                packet@,
            ));
            assert(before + want.take(k + 1) =~= (before + want.take(k)).push(want[k]));
            k = k + 1;
        }
        offset = offset + size;
    }
    assert(want.take(k) =~= want);
}

// ─── The upload ──────────────────────────────────────────────────────────────

/// The color bytes of a panel in all frames.
pub open spec fn panel_views(frames: Seq<FrameView>, panel: int) -> Seq<Seq<u8>> {
    Seq::new(frames.len(), |f: int| crate::gif::panel_rgb(frames[f].image, panel))
}

/// The number of the first of the 32 graphics of an animation.
pub open spec fn first_graphic(t: LightsType) -> int {
    32 * crate::lights::type_index(t)
}

/// The three packets of a panel: two with graphics, one with the palette.
pub open spec fn panel_packets(frames: Seq<FrameView>, t: LightsType, panel: int) -> Seq<Seq<u8>> {
    let views = panel_views(frames, panel);
    let animation = crate::lights::type_index(t) as u8;
    upload_packets(graphics_of(views), (first_graphic(t) * 13) as u16, panel as u8, animation)
        + upload_packets(
        palette_bytes_of(views),
        (832 + crate::lights::type_index(t) * 45) as u16,
        panel as u8,
        animation,
    )
}

/// Time that a panel takes to store `size` bytes, in milliseconds: 3.4 for each,
/// rounded.
pub open spec fn write_delay(size: int) -> u16 {
    ((size * 34 + 5) / 10) as u16
}

/// One pass over all panels: in each of three rounds the last packet left of every
/// panel, then time for the panels to store it.
pub open spec fn panel_pass(frames: Seq<FrameView>, t: LightsType) -> Seq<UploadCommandView> {
    Seq::new(
        30,
        |i: int|
            if i % 10 < 9 {
                UploadCommandView::Packet(panel_packets(frames, t, i % 10)[2 - i / 10])
            } else {
                UploadCommandView::Delay(
                    write_delay(panel_packets(frames, t, 0)[2 - i / 10][6] as int),
                )
            },
    )
}

/// What the master controller stores: the loop frame, the graphic of each of 64
/// frames (0xFF for none) and how long each is shown.
pub open spec fn timing_data(frames: Seq<FrameView>, t: LightsType) -> Seq<u8> {
    Seq::new(
        129,
        |i: int|
            if i == 0 {
                crate::lights::loop_frame_of(frames, frames.len() as int) as u8
            } else if i < 65 {
                if i - 1 < frames.len() {
                    (first_graphic(t) + i - 1) as u8
                } else {
                    0xFFu8
                }
            } else {
                if i - 65 < frames.len() {
                    crate::single::shown_frames(
                        crate::single::frame_time(frames[i - 65].delay_ms),
                    )
                } else {
                    0u8
                }
            },
    )
}

/// The packet for the master controller, which ends the upload.
pub open spec fn master_packet(frames: Seq<FrameView>, t: LightsType) -> Seq<u8> {
    upload_packet(
        MASTER_PANEL,
        crate::lights::type_index(t) as u8,
        1,
        0,
        timing_data(frames, t),
    )
}

/// The whole upload: the panels twice, for reliability, then the master.
pub open spec fn upload_commands(frames: Seq<FrameView>, t: LightsType) -> Seq<UploadCommandView> {
    (panel_pass(frames, t) + panel_pass(frames, t)).push(
        UploadCommandView::Packet(master_packet(frames, t)),
    )
}

/// Why frames cannot be uploaded; nothing if they can.
pub open spec fn upload_error(frames: Seq<FrameView>) -> Option<Seq<char>> {
    if frames[0].image.width != 23 || frames[0].image.height != 24 {
        Some("Upload GIFs must be 23x24."@)
    } else if frames.len() > 32 {
        Some("The animation has too many frames (max 32)."@)
    } else if exists|panel: int|
        0 <= panel < 9 && (#[trigger] colors_of(panel_views(frames, panel))).len() > 15 {
        Some("A panel uses too many colors (max 15)."@)
    } else {
        None
    }
}

/// Builds the packets of one panel.
fn build_panel_packets(frames: &Vec<DecodedFrame>, lights_type: LightsType, panel: usize) -> (r: Result<
    Vec<Vec<u8>>,
    &'static str,
>)
    requires
        0 < frames@.len() <= 32,
        crate::gif::frames_wf(crate::gif::frame_views(frames@)),
        frames@[0].rgba.width == 23,
        frames@[0].rgba.height == 24,
        panel < 9,
    ensures
        ({
            let v = crate::gif::frame_views(frames@);
            match r {
                Ok(packets) => colors_of(panel_views(v, panel as int)).len() <= 15
                    && crate::protocol::byte_views(packets@) == panel_packets(
                    v,
                    lights_type,
                    panel as int,
                ),
                Err(e) => colors_of(panel_views(v, panel as int)).len() > 15 && e@
                    == "A panel uses too many colors (max 15)."@,
            }
        }),
{
    let ghost v = crate::gif::frame_views(frames@);
    let cut = panel_frames(frames, panel);
    assert(crate::lights::rgb_views(cut@) =~= panel_views(v, panel as int));
    let table = match build_palette(cut.as_slice()) {
        Ok(table) => table,
        Err(e) => {
            return Err(e);
        },
    };
    let t: usize = lights_type.index();
    let mut packets: Vec<Vec<u8>> = Vec::new();
    let graphics = build_graphics(&cut, &table);
    assert(crate::protocol::byte_views(packets@) =~= Seq::empty());
    create_upload_packets(
        &mut packets,
        graphics.as_slice(),
        (32 * t * 13) as u16,
        panel as u8,
        t as u8,
    );
    let palette = build_palette_bytes(&table, Ghost(panel_views(v, panel as int)));
    create_upload_packets(
        &mut packets,
        palette.as_slice(),
        (832 + t * 45) as u16,
        panel as u8,
        t as u8,
    );
    assert(crate::protocol::byte_views(packets@) =~= panel_packets(v, lights_type, panel as int));
    Ok(packets)
}

proof fn lemma_panel_packet_sizes(frames: Seq<FrameView>, t: LightsType, panel: int)
    requires
        0 <= panel < 9,
    ensures
        panel_packets(frames, t, panel).len() == 3,
        panel_packets(frames, t, panel)[0].len() == 247,
        panel_packets(frames, t, panel)[1].len() == 183,
        panel_packets(frames, t, panel)[2].len() == 52,
        panel_packets(frames, t, panel)[0][6] == 240,
        panel_packets(frames, t, panel)[1][6] == 176,
        panel_packets(frames, t, panel)[2][6] == 45,
{
    let views = panel_views(frames, panel);
    assert(upload_chunk(graphics_of(views), 0).len() == 240);
    assert(upload_chunk(graphics_of(views), 1).len() == 176);
    assert(upload_chunk(palette_bytes_of(views), 0).len() == 45);
}

/// Appends one pass over all panels.
fn add_panel_pass(
    commands: &mut Vec<UploadCommand>,
    packets: &Vec<Vec<Vec<u8>>>,
    Ghost(frames): Ghost<Seq<FrameView>>,
    Ghost(t): Ghost<LightsType>,
)
    requires
        packets@.len() == 9,
        forall|p: int|
            0 <= p < 9 ==> crate::protocol::byte_views((#[trigger] packets@[p])@) == panel_packets(
                frames,
                t,
                p,
            ),
    ensures
        command_views(final(commands)@) == command_views(old(commands)@) + panel_pass(frames, t),
{
    let ghost start = command_views(commands@);
    let ghost want = panel_pass(frames, t);
    assert(start + want.take(0) =~= start);
    let mut round: usize = 0;
    while round < 3
        invariant
            round <= 3,
            packets@.len() == 9,
            want == panel_pass(frames, t),
            forall|p: int|
                0 <= p < 9 ==> crate::protocol::byte_views((#[trigger] packets@[p])@)
                    == panel_packets(frames, t, p),
            command_views(commands@) == start + want.take(10 * round as int),
        decreases 3 - round,
    {
        let mut max_size: u16 = 0;
        let mut panel: usize = 0;
        let ghost size = panel_packets(frames, t, 0)[2 - round][6];
        while panel < 9
            invariant
                panel <= 9,
                round < 3,
                packets@.len() == 9,
                want == panel_pass(frames, t),
                forall|p: int|
                    0 <= p < 9 ==> crate::protocol::byte_views((#[trigger] packets@[p])@)
                        == panel_packets(frames, t, p),
                size == panel_packets(frames, t, 0)[2 - round][6],
                max_size == if panel == 0 {
                    0
                } else {
                    size as int
                },
                command_views(commands@) == start + want.take(10 * round + panel),
            decreases 9 - panel,
        {
            proof {
                lemma_panel_packet_sizes(frames, t, panel as int);
                lemma_panel_packet_sizes(frames, t, 0);
                let views = crate::protocol::byte_views(packets@[panel as int]@);
                assert(views.len() == 3);
                assert(views[2 - round] == packets@[panel as int]@[2 - round]@);
            }
            let packet = copy_bytes(&packets[panel][2 - round]);
            let packet_size: u16 = packet[6] as u16;
            if packet_size > max_size {
                max_size = packet_size;
            }
            let ghost i = 10 * round + panel;
            let ghost before = commands@;
            commands.push(UploadCommand::Packet(packet));
            proof {
                assert(i % 10 == panel && i / 10 == round);
                assert(want[i as int] == UploadCommandView::Packet(packet@));
                assert(command_views(commands@) =~= command_views(before).push(want[i as int]));
                assert(start + want.take(i + 1) =~= (start + want.take(i as int)).push(
                    want[i as int],
                ));
            }
            panel = panel + 1;
        }
        let delay: u16 = ((max_size as u32 * 34 + 5) / 10) as u16;
        let ghost i = 10 * round + 9;
        let ghost before = commands@;
        commands.push(UploadCommand::Delay(delay));
        proof {
            assert(i % 10 == 9 && i / 10 == round);
            assert(want[i] == UploadCommandView::Delay(delay));
            assert(command_views(commands@) =~= command_views(before).push(want[i]));
            assert(start + want.take(i + 1) =~= (start + want.take(i)).push(want[i]));
        }
        round = round + 1;
    }
    assert(want.take(30) =~= want);
}

/// Builds what the master controller stores.
fn build_timing_data(frames: &Vec<DecodedFrame>, lights_type: LightsType) -> (out: Vec<u8>)
    requires
        0 < frames@.len() <= 32,
        crate::gif::frames_wf(crate::gif::frame_views(frames@)),
        frames@[0].rgba.width == 23,
        frames@[0].rgba.height == 24,
    ensures
        out@ == timing_data(crate::gif::frame_views(frames@), lights_type),
{
    let ghost v = crate::gif::frame_views(frames@);
    let ghost want = timing_data(v, lights_type);
    let first: usize = 32 * lights_type.index();
    let mut out: Vec<u8> = Vec::new();
    out.push(find_loop_frame(frames) as u8);
    let mut i: usize = 0;
    while i < 64
        invariant
            i <= 64,
            0 < frames@.len() <= 32,
            v == crate::gif::frame_views(frames@),
            want == timing_data(v, lights_type),
            first == first_graphic(lights_type),
            out@.len() == 1 + i,
            forall|j: int| 0 <= j < 1 + i ==> out@[j] == want[j],
        decreases 64 - i,
    {
        if i < frames.len() {
            out.push((first + i) as u8);
        } else {
            out.push(0xFF);
        }
        i = i + 1;
    }
    let mut i: usize = 0;
    while i < 64
        invariant
            i <= 64,
            0 < frames@.len() <= 32,
            v == crate::gif::frame_views(frames@),
            want == timing_data(v, lights_type),
            out@.len() == 65 + i,
            forall|j: int| 0 <= j < 65 + i ==> out@[j] == want[j],
        decreases 64 - i,
    {
        if i < frames.len() {
            assert(v[i as int].delay_ms == frames@[i as int].delay_ms);
            out.push(display_frames(time_of_delay(frames[i].delay_ms)));
        } else {
            out.push(0);
        }
        i = i + 1;
    }
    assert(out@ =~= want);
    out
}

/// Prepares the upload of decoded frames.
pub fn prepare_upload_frames(frames: &Vec<DecodedFrame>, lights_type: LightsType) -> (r: Result<
    UploadData,
    &'static str,
>)
    requires
        frames@.len() > 0,
        crate::gif::frames_wf(crate::gif::frame_views(frames@)),
    ensures
        match r {
            Ok(upload) => upload_error(crate::gif::frame_views(frames@)) is None && command_views(
                upload.commands@,
            ) == upload_commands(crate::gif::frame_views(frames@), lights_type),
            Err(e) => upload_error(crate::gif::frame_views(frames@)) == Some(e@),
        },
{
    let ghost v = crate::gif::frame_views(frames@);
    assert(v[0] == frames@[0]@);
    if frames[0].rgba.width != 23 || frames[0].rgba.height != 24 {
        return Err("Upload GIFs must be 23x24.");
    }
    if frames.len() > 32 {
        return Err("The animation has too many frames (max 32).");
    }
    let mut packets: Vec<Vec<Vec<u8>>> = Vec::new();
    let mut panel: usize = 0;
    while panel < 9
        invariant
            panel <= 9,
            0 < frames@.len() <= 32,
            v == crate::gif::frame_views(frames@),
            v.len() == frames@.len(),
            crate::gif::frames_wf(v),
            v[0] == frames@[0]@,
            frames@[0].rgba.width == 23,
            frames@[0].rgba.height == 24,
            packets@.len() == panel,
            forall|p: int|
                0 <= p < panel ==> crate::protocol::byte_views((#[trigger] packets@[p])@)
                    == panel_packets(v, lights_type, p),
            forall|p: int|
                0 <= p < panel ==> (#[trigger] colors_of(panel_views(v, p))).len() <= 15,
        decreases 9 - panel,
    {
        match build_panel_packets(frames, lights_type, panel) {
            Ok(p) => {
                packets.push(p);
            },
            Err(e) => {
                return Err(e);
            },
        }
        panel = panel + 1;
    }
    let mut commands: Vec<UploadCommand> = Vec::new();
    assert(command_views(commands@) =~= Seq::empty());
    add_panel_pass(&mut commands, &packets, Ghost(v), Ghost(lights_type));
    add_panel_pass(&mut commands, &packets, Ghost(v), Ghost(lights_type));
    assert(command_views(commands@) =~= panel_pass(v, lights_type) + panel_pass(v, lights_type));

    let timing = build_timing_data(frames, lights_type);
    let mut master: Vec<Vec<u8>> = Vec::new();
    assert(crate::protocol::byte_views(master@) =~= Seq::empty());
    create_upload_packets(
        &mut master,
        timing.as_slice(),
        0,
        MASTER_PANEL,
        lights_type.index() as u8,
    );
    assert(crate::protocol::byte_views(master@).len() == 1);
    let ghost sent = crate::protocol::byte_views(master@)[0];
    assert(sent == master@[0]@);
    assert(upload_chunk(timing@, 0) =~= timing@);
    if let Some(mut packet) = master.pop() {
        packet[3] = 1;
        assert(packet@ =~= master_packet(v, lights_type));
        let ghost before = commands@;
        commands.push(UploadCommand::Packet(packet));
        assert(command_views(commands@) =~= upload_commands(v, lights_type));
    }
    Ok(UploadData { commands })
}

/// Prepares a GIF for upload to a pad's firmware. Only 23x24 GIFs of at most 32
/// frames and 15 colors a panel can be uploaded.
pub fn prepare_upload(gif_data: &[u8], pad: usize, lights_type: LightsType) -> (r: Result<
    UploadData,
    &'static str,
>)
    ensures
        pad > 1 ==> r is Err && r->Err_0@ == "Invalid pad index."@,
        pad <= 1 ==> match crate::gif::decoded_frames(
            crate::gif::gif_items(gif_data@, gif_data@.len()),
        ) {
            Err(e) => r is Err && r->Err_0@ == e,
            Ok(frames) => match upload_error(frames) {
                Some(e) => r is Err && r->Err_0@ == e,
                None => r is Ok && command_views(r->Ok_0.commands@) == upload_commands(
                    frames,
                    lights_type,
                ),
            },
        },
{
    if pad > 1 {
        return Err("Invalid pad index.");
    }
    match decode_gif(gif_data) {
        Err(e) => Err(e),
        Ok(frames) => prepare_upload_frames(&frames, lights_type),
    }
}

// ─── Laws ────────────────────────────────────────────────────────────────────

proof fn lemma_colors(frames: Seq<Seq<u8>>, f: int, i: int)
    requires
        0 <= f <= frames.len(),
        0 <= i,
        f < frames.len() ==> i <= led_count(frames[f]),
        f == frames.len() ==> i == 0,
    ensures
        colors_until(frames, f, i).no_duplicates(),
        !colors_until(frames, f, i).contains(black()),
        forall|g: int, j: int|
            0 <= g < frames.len() && 0 <= j < led_count(frames[g]) && (g < f || (g == f && j < i))
                && #[trigger] led_color(frames[g], j) != black() ==> colors_until(
                frames,
                f,
                i,
            ).contains(led_color(frames[g], j)),
    decreases f, i,
{
    if i > 0 {
        lemma_colors(frames, f, i - 1);
        let before = colors_until(frames, f, i - 1);
        let c = led_color(frames[f], i - 1);
        let now = colors_until(frames, f, i);
        assert(forall|k: int| 0 <= k < before.len() ==> now[k] == before[k]);
        assert forall|g: int, j: int|
            0 <= g < frames.len() && 0 <= j < led_count(frames[g]) && (g < f || (g == f && j < i))
                && #[trigger] led_color(frames[g], j) != black() implies now.contains(
            led_color(frames[g], j),
        ) by {
            if g == f && j == i - 1 {
                if !before.contains(c) {
                    assert(now[before.len() as int] == c);
                }
            } else {
                assert(before.contains(led_color(frames[g], j)));
                let k = choose|k: int| 0 <= k < before.len() && before[k] == led_color(frames[g], j);
                assert(now[k] == led_color(frames[g], j));
            }
        }
    } else if f > 0 {
        lemma_colors(frames, f - 1, led_count(frames[f - 1]));
    }
}

/// A palette holds each color that a panel shows exactly once, and never black,
/// which is transparent.
pub proof fn law_palette_holds_each_color_once(frames: Seq<Seq<u8>>)
    ensures
        colors_of(frames).no_duplicates(),
        !colors_of(frames).contains(black()),
        forall|f: int, led: int|
            0 <= f < frames.len() && 0 <= led < led_count(frames[f]) && #[trigger] led_color(
                frames[f],
                led,
            ) != black() ==> colors_of(frames).contains(led_color(frames[f], led)),
{
    lemma_colors(frames, frames.len() as int, 0);
}

/// A packed graphic keeps the picture: in a panel that fits its palette, the code
/// of an LED that is not black names the LED's own color, and a black LED is
/// transparent.
pub proof fn law_packed_graphic_keeps_the_picture(frames: Seq<Seq<u8>>, f: int, led: int)
    requires
        colors_of(frames).len() <= 15,
        0 <= f < frames.len(),
        0 <= led < led_count(frames[f]),
    ensures
        led_color(frames[f], led) == black() ==> led_code(frames[f], palette_of(frames), led)
            == 15,
        led_color(frames[f], led) != black() ==> {
            let code = led_code(frames[f], palette_of(frames), led);
            0 <= code < 15 && palette_of(frames)[code] == led_color(frames[f], led)
        },
{
    law_palette_holds_each_color_once(frames);
    let c = led_color(frames[f], led);
    let palette = palette_of(frames);
    if c != black() {
        assert(colors_of(frames).contains(c));
        let k = choose|k: int| 0 <= k < colors_of(frames).len() && colors_of(frames)[k] == c;
        assert(palette[k] == c);
        lemma_index_of_color(palette, c, 0);
    }
}

/// The codes of two LEDs can be read back from their byte.
pub proof fn law_codes_can_be_unpacked(rgb: Seq<u8>, palette: Seq<(u8, u8, u8)>, b: int)
    requires
        palette.len() == 15,
        0 <= b < 13,
    ensures
        packed(rgb, palette)[b] / 16 == led_code(rgb, palette, 2 * b),
        b < 12 ==> packed(rgb, palette)[b] % 16 == led_code(rgb, palette, 2 * b + 1),
{
    lemma_index_of_color(palette, led_color(rgb, 2 * b), 0);
    lemma_index_of_color(palette, led_color(rgb, 2 * b + 1), 0);
}

/// The upload goes out in 61 commands. The panel data comes twice, and the one
/// packet marked as final is the last.
pub proof fn law_upload_shape(frames: Seq<FrameView>, t: LightsType)
    ensures
        upload_commands(frames, t).len() == 61,
        forall|i: int|
            0 <= i < 30 ==> #[trigger] upload_commands(frames, t)[i] == upload_commands(
                frames,
                t,
            )[i + 30],
        upload_commands(frames, t)[60] == UploadCommandView::Packet(master_packet(frames, t)),
        master_packet(frames, t)[3] == 1,
        forall|i: int|
            0 <= i < 60 && (#[trigger] upload_commands(frames, t)[i]) is Packet
                ==> upload_commands(frames, t)[i]->Packet_0[3] == 0,
{
    assert forall|i: int|
        0 <= i < 60 && (#[trigger] upload_commands(frames, t)[i]) is Packet implies upload_commands(
        frames,
        t,
    )[i]->Packet_0[3] == 0 by {
        let j = if i < 30 {
            i
        } else {
            i - 30
        };
        assert(upload_commands(frames, t)[i] == panel_pass(frames, t)[j]);
        lemma_panel_packet_sizes(frames, t, j % 10);
    }
}

/// Whether an upload packet writes the byte at a place of its panel's memory.
pub open spec fn writes_at(packet: Seq<u8>, place: int) -> bool {
    let offset = crate::protocol::from_le16(packet[4], packet[5]);
    offset <= place < offset + packet[6]
}

/// Where the packet `k` of a panel writes: the graphics of the released animation,
/// those of the pressed one, then their palettes.
proof fn lemma_panel_packet_places(frames: Seq<FrameView>, t: LightsType, panel: int, k: int)
    requires
        0 <= panel < 9,
        0 <= k < 3,
    ensures
        ({
            let i = crate::lights::type_index(t);
            let packet = panel_packets(frames, t, panel)[k];
            let (from, size) = if k == 0 {
                (416 * i, 240int)
            } else if k == 1 {
                (416 * i + 240, 176int)
            } else {
                (832 + 45 * i, 45int)
            };
            &&& packet[1] == panel
            &&& packet[2] == i
            &&& forall|place: int|
                #[trigger] writes_at(packet, place) <==> from <= place < from + size
        }),
{
    lemma_panel_packet_sizes(frames, t, panel);
    let i = crate::lights::type_index(t);
    crate::protocol::lemma_le16_round_trip((416 * i) as u16);
    crate::protocol::lemma_le16_round_trip((416 * i + 240) as u16);
    crate::protocol::lemma_le16_round_trip((832 + 45 * i) as u16);
    let packet = panel_packets(frames, t, panel)[k];
    let offset = if k == 0 {
        (416 * i) as u16
    } else if k == 1 {
        (416 * i + 240) as u16
    } else {
        (832 + 45 * i) as u16
    };
    assert(packet[4] == crate::protocol::le16(offset)[0]);
    assert(packet[5] == crate::protocol::le16(offset)[1]);
}

/// A pad's two animations are stored apart: whatever they show, no byte of a panel is
/// written by both uploads, and the packets that end them carry different numbers.
pub proof fn law_animations_are_stored_apart(
    released: Seq<FrameView>,
    pressed: Seq<FrameView>,
    i: int,
    j: int,
    place: int,
)
    requires
        0 <= i < 60,
        0 <= j < 60,
        upload_commands(released, LightsType::Released)[i] is Packet,
        upload_commands(pressed, LightsType::Pressed)[j] is Packet,
    ensures
        ({
            let a = upload_commands(released, LightsType::Released)[i]->Packet_0;
            let b = upload_commands(pressed, LightsType::Pressed)[j]->Packet_0;
            a[1] == b[1] ==> !(writes_at(a, place) && writes_at(b, place))
        }),
        master_packet(released, LightsType::Released)[2] == 0,
        master_packet(pressed, LightsType::Pressed)[2] == 1,
{
    let r = if i < 30 {
        i
    } else {
        i - 30
    };
    let p = if j < 30 {
        j
    } else {
        j - 30
    };
    assert(upload_commands(released, LightsType::Released)[i] == panel_pass(
        released,
        LightsType::Released,
    )[r]);
    assert(upload_commands(pressed, LightsType::Pressed)[j] == panel_pass(
        pressed,
        LightsType::Pressed,
    )[p]);
    lemma_panel_packet_places(released, LightsType::Released, r % 10, 2 - r / 10);
    lemma_panel_packet_places(pressed, LightsType::Pressed, p % 10, 2 - p / 10);
}

/// What stands at a place of a panel's memory after the first `n` commands of an upload:
/// what the last packet to that panel has written there, nothing if none has. A packet
/// says in byte 1 which panel it is for, in bytes 4 and 5 from which place on it writes,
/// in byte 6 how much, and what from byte 7 on.
pub open spec fn stored(
    commands: Seq<UploadCommandView>,
    n: int,
    panel: int,
    place: int,
) -> Option<u8>
    decreases n,
{
    if n <= 0 {
        None
    } else {
        match commands[n - 1] {
            UploadCommandView::Packet(p) => {
                let from = p[4] + 256 * p[5];
                if p[1] == panel && from <= place < from + p[6] {
                    Some(p[7 + place - from])
                } else {
                    stored(commands, n - 1, panel, place)
                }
            },
            UploadCommandView::Delay(_) => stored(commands, n - 1, panel, place),
        }
    }
}

/// A command writes `b` at a place of a panel's memory.
spec fn puts(command: UploadCommandView, panel: int, place: int, b: u8) -> bool {
    command matches UploadCommandView::Packet(p) && p[1] == panel && p[4] + 256 * p[5] <= place
        < p[4] + 256 * p[5] + p[6] && p[7 + place - (p[4] + 256 * p[5])] == b
}

/// A command leaves a place of a panel's memory alone, or writes `b` there.
spec fn keeps(command: UploadCommandView, panel: int, place: int, b: u8) -> bool {
    command matches UploadCommandView::Packet(p) ==> !(p[1] == panel && p[4] + 256 * p[5] <= place
        < p[4] + 256 * p[5] + p[6]) || p[7 + place - (p[4] + 256 * p[5])] == b
}

proof fn lemma_stored(
    commands: Seq<UploadCommandView>,
    n: int,
    panel: int,
    place: int,
    i: int,
    b: u8,
)
    requires
        0 <= i < n <= commands.len(),
        puts(commands[i], panel, place, b),
        forall|j: int| i < j < n ==> keeps(#[trigger] commands[j], panel, place, b),
    ensures
        stored(commands, n, panel, place) == Some(b),
    decreases n,
{
    if i < n - 1 {
        lemma_stored(commands, n - 1, panel, place, i, b);
        assert(keeps(commands[n - 1], panel, place, b));
    }
}

/// The byte that packet `k` of a panel writes at a place.
#[verifier::spinoff_prover]
#[verifier::rlimit(30)]
proof fn lemma_panel_packet_contents(
    frames: Seq<FrameView>,
    t: LightsType,
    panel: int,
    k: int,
    place: int,
)
    requires
        0 <= panel < 9,
        0 <= k < 3,
        writes_at(panel_packets(frames, t, panel)[k], place),
    ensures
        ({
            let i = crate::lights::type_index(t);
            let views = panel_views(frames, panel);
            let packet = panel_packets(frames, t, panel)[k];
            packet[7 + place - (packet[4] + 256 * packet[5])] == if k < 2 {
                graphics_of(views)[place - 416 * i]
            } else {
                palette_bytes_of(views)[place - 832 - 45 * i]
            }
        }),
{
    lemma_panel_packet_sizes(frames, t, panel);
    lemma_panel_packet_places(frames, t, panel, k);
    let i = crate::lights::type_index(t);
    let views = panel_views(frames, panel);
    let from = if k == 0 {
        416 * i
    } else if k == 1 {
        416 * i + 240
    } else {
        832 + 45 * i
    };
    let packet = panel_packets(frames, t, panel)[k];
    let chunk = if k < 2 {
        upload_chunk(graphics_of(views), k)
    } else {
        upload_chunk(palette_bytes_of(views), 0)
    };
    assert(packet[4] == crate::protocol::le16(from as u16)[0]);
    assert(packet[5] == crate::protocol::le16(from as u16)[1]);
    assert(packet[4] + 256 * packet[5] == from);
    assert(packet[7 + place - from] == chunk[place - from]);
}

/// No command of an upload writes anything else at a place that packet `k` of a panel
/// writes.
#[verifier::spinoff_prover]
#[verifier::rlimit(30)]
proof fn lemma_upload_keeps(
    frames: Seq<FrameView>,
    t: LightsType,
    panel: int,
    k: int,
    place: int,
    j: int,
)
    requires
        0 <= panel < 9,
        0 <= k < 3,
        0 <= j < 61,
        writes_at(panel_packets(frames, t, panel)[k], place),
    ensures
        ({
            let packet = panel_packets(frames, t, panel)[k];
            keeps(
                upload_commands(frames, t)[j],
                panel,
                place,
                packet[7 + place - (packet[4] + 256 * packet[5])],
            )
        }),
{
    let pass = panel_pass(frames, t);
    lemma_panel_packet_places(frames, t, panel, k);
    if j < 60 {
        let r = if j < 30 {
            j
        } else {
            j - 30
        };
        assert(upload_commands(frames, t)[j] == pass[r]);
        if r % 10 < 9 {
            lemma_panel_packet_places(frames, t, r % 10, 2 - r / 10);
            let other = panel_packets(frames, t, r % 10)[2 - r / 10];
            assert(pass[r] == UploadCommandView::Packet(other));
            if other[1] == panel && writes_at(other, place) {
                assert(r % 10 == panel);
                assert(2 - r / 10 == k);
            }
        }
    } else {
        let last = master_packet(frames, t);
        assert(upload_commands(frames, t)[60] == UploadCommandView::Packet(last));
        assert(last[1] == 255);
    }
}

#[verifier::spinoff_prover]
#[verifier::rlimit(30)]
proof fn lemma_upload_puts(
    frames: Seq<FrameView>,
    t: LightsType,
    panel: int,
    k: int,
    place: int,
)
    requires
        0 <= panel < 9,
        0 <= k < 3,
        writes_at(panel_packets(frames, t, panel)[k], place),
    ensures
        ({
            let packet = panel_packets(frames, t, panel)[k];
            puts(
                upload_commands(frames, t)[10 * (2 - k) + panel],
                panel,
                place,
                packet[7 + place - (packet[4] + 256 * packet[5])],
            )
        }),
{
    let pass = panel_pass(frames, t);
    lemma_panel_packet_places(frames, t, panel, k);
    let i = 10 * (2 - k) + panel;
    assert(i % 10 == panel && i / 10 == 2 - k);
    assert(upload_commands(frames, t)[i] == pass[i]);
    assert(pass[i] == UploadCommandView::Packet(panel_packets(frames, t, panel)[k]));
}

proof fn lemma_stored_by_upload(
    frames: Seq<FrameView>,
    t: LightsType,
    panel: int,
    k: int,
    place: int,
)
    requires
        0 <= panel < 9,
        0 <= k < 3,
        writes_at(panel_packets(frames, t, panel)[k], place),
    ensures
        ({
            let packet = panel_packets(frames, t, panel)[k];
            stored(upload_commands(frames, t), 61, panel, place) == Some(
                packet[7 + place - (packet[4] + 256 * packet[5])],
            )
        }),
{
    let packet = panel_packets(frames, t, panel)[k];
    let b = packet[7 + place - (packet[4] + 256 * packet[5])];
    let commands = upload_commands(frames, t);
    law_upload_shape(frames, t);
    lemma_upload_puts(frames, t, panel, k, place);
    assert forall|j: int| 10 * (2 - k) + panel < j < 61 implies keeps(
        #[trigger] commands[j],
        panel,
        place,
        b,
    ) by {
        lemma_upload_keeps(frames, t, panel, k, place, j);
    }
    lemma_stored(commands, 61, panel, place, 10 * (2 - k) + panel, b);
}

proof fn lemma_stored_graphic(
    frames: Seq<FrameView>,
    t: LightsType,
    panel: int,
    f: int,
    b: int,
)
    requires
        0 <= panel < 9,
        0 <= f < frames.len() <= 32,
        0 <= b < 13,
    ensures
        stored(
            upload_commands(frames, t),
            61,
            panel,
            416 * crate::lights::type_index(t) + 13 * f + b,
        ) == Some(
            packed(panel_views(frames, panel)[f], palette_of(panel_views(frames, panel)))[b],
        ),
{
    let n = 13 * f + b;
    let place = 416 * crate::lights::type_index(t) + n;
    let k = if n < 240 {
        0int
    } else {
        1int
    };
    lemma_panel_packet_places(frames, t, panel, k);
    assert(writes_at(panel_packets(frames, t, panel)[k], place));
    lemma_stored_by_upload(frames, t, panel, k, place);
    lemma_panel_packet_contents(frames, t, panel, k, place);
    assert(n / 13 == f && n % 13 == b);
}

proof fn lemma_stored_color(
    frames: Seq<FrameView>,
    t: LightsType,
    panel: int,
    code: int,
    q: int,
)
    requires
        0 <= panel < 9,
        0 <= code < 15,
        0 <= q < 3,
    ensures
        ({
            let c = palette_of(panel_views(frames, panel))[code];
            stored(
                upload_commands(frames, t),
                61,
                panel,
                832 + 45 * crate::lights::type_index(t) + 3 * code + q,
            ) == Some(
                crate::lights::scaled(
                    if q == 0 {
                        c.0
                    } else if q == 1 {
                        c.1
                    } else {
                        c.2
                    },
                ),
            )
        }),
{
    let n = 3 * code + q;
    let place = 832 + 45 * crate::lights::type_index(t) + n;
    lemma_panel_packet_places(frames, t, panel, 2);
    assert(writes_at(panel_packets(frames, t, panel)[2], place));
    lemma_stored_by_upload(frames, t, panel, 2, place);
    lemma_panel_packet_contents(frames, t, panel, 2, place);
    assert(n / 3 == code && n % 3 == q);
}

/// Where the pixel under an LED of a large picture stands in the image.
pub open spec fn pixel_place(row: int, column: int, led: int) -> int {
    if led < 16 {
        92 * (8 * row + 2 * (led / 4)) + 4 * (8 * column + 2 * (led % 4))
    } else {
        92 * (8 * row + 2 * ((led - 16) / 3) + 1) + 4 * (8 * column + 2 * ((led - 16) % 3) + 1)
    }
}

proof fn lemma_led_color(image: crate::gif::ImageView, row: int, column: int, led: int)
    requires
        image.width == 23,
        image.height == 24,
        0 <= row < 3,
        0 <= column < 3,
        0 <= led < 25,
    ensures
        ({
            let at = pixel_place(row, column, led);
            let rgb = crate::gif::panel_rgb(image, 3 * row + column);
            &&& led_count(rgb) == 25
            &&& led_color(rgb, led) == (
                image.pixels[at],
                image.pixels[at + 1],
                image.pixels[at + 2],
            )
        }),
{
    let (y, x) = if led < 16 {
        (led / 4, led % 4)
    } else {
        ((led - 16) / 3, (led - 16) % 3)
    };
    crate::gif::law_large_picture(image, row, column, y, x, 0);
    crate::gif::law_large_picture(image, row, column, y, x, 1);
    crate::gif::law_large_picture(image, row, column, y, x, 2);
}

/// Each panel stores its own picture: what an upload leaves in a panel's memory shows, in
/// every frame and at every LED, the color of the pixel that lies there. The LEDs stand
/// two to a byte, the first in the upper half, 13 bytes for each frame; 15 is a black
/// one, anything less a place in the panel's palette, where the color stands as it is
/// sent to the panels, red, green, blue. The released animation has its graphics from 0
/// and its palette from 832 on, the pressed one from 416 and 877 on.
#[verifier::spinoff_prover]
#[verifier::rlimit(30)]
pub proof fn law_panels_store_their_own_picture(
    frames: Seq<FrameView>,
    t: LightsType,
    row: int,
    column: int,
    f: int,
    led: int,
)
    requires
        0 <= f < frames.len(),
        crate::gif::frames_wf(frames),
        upload_error(frames) is None,
        0 <= row < 3,
        0 <= column < 3,
        0 <= led < 25,
    ensures
        ({
            let commands = upload_commands(frames, t);
            let panel = 3 * row + column;
            let pixels = frames[f].image.pixels;
            let at = pixel_place(row, column, led);
            let (graphics, palette) = match t {
                LightsType::Released => (0int, 832int),
                LightsType::Pressed => (416int, 877int),
            };
            let pair = stored(commands, commands.len() as int, panel, graphics + 13 * f + led / 2);
            let code = if led % 2 == 0 {
                pair->0 as int / 16
            } else {
                pair->0 as int % 16
            };
            let red = stored(commands, commands.len() as int, panel, palette + 3 * code);
            let green = stored(commands, commands.len() as int, panel, palette + 3 * code + 1);
            let blue = stored(commands, commands.len() as int, panel, palette + 3 * code + 2);
            let black = pixels[at] == 0 && pixels[at + 1] == 0 && pixels[at + 2] == 0;
            &&& pair is Some
            &&& black ==> code == 15
            &&& !black ==> {
                &&& code < 15
                &&& red is Some && green is Some && blue is Some
                &&& 10000 * red->0 <= 6666 * pixels[at] < 10000 * red->0 + 10000
                &&& 10000 * green->0 <= 6666 * pixels[at + 1] < 10000 * green->0 + 10000
                &&& 10000 * blue->0 <= 6666 * pixels[at + 2] < 10000 * blue->0 + 10000
            }
        }),
{
    let panel = 3 * row + column;
    let views = panel_views(frames, panel);
    let image = frames[f].image;
    assert(image.width == 23 && image.height == 24);
    assert(colors_of(views).len() <= 15);
    assert(views[f] == crate::gif::panel_rgb(image, panel));
    lemma_led_color(image, row, column, led);
    let c = led_color(views[f], led);
    lemma_stored_graphic(frames, t, panel, f, led / 2);
    law_codes_can_be_unpacked(views[f], palette_of(views), led / 2);
    law_packed_graphic_keeps_the_picture(views, f, led);
    let code = led_code(views[f], palette_of(views), led);
    if c != black() {
        lemma_stored_color(frames, t, panel, code, 0);
        lemma_stored_color(frames, t, panel, code, 1);
        lemma_stored_color(frames, t, panel, code, 2);
        crate::lights::law_colors_are_sent_at_two_thirds(c.0);
        crate::lights::law_colors_are_sent_at_two_thirds(c.1);
        crate::lights::law_colors_are_sent_at_two_thirds(c.2);
    }
}

proof fn lemma_round(frames: Seq<FrameView>, t: LightsType, pass: int, r: int, panel: int)
    requires
        0 <= pass < 2,
        0 <= r < 3,
        0 <= panel < 9,
    ensures
        upload_commands(frames, t)[30 * pass + 10 * r + panel] == UploadCommandView::Packet(
            panel_packets(frames, t, panel)[2 - r],
        ),
        upload_commands(frames, t)[30 * pass + 10 * r + 9] == UploadCommandView::Delay(
            if r == 0 {
                153
            } else if r == 1 {
                598
            } else {
                816
            },
        ),
{
    let one = panel_pass(frames, t);
    lemma_panel_packet_sizes(frames, t, 0);
    let j = 10 * r + panel;
    let k = 10 * r + 9;
    assert(j % 10 == panel && j / 10 == r && k % 10 == 9 && k / 10 == r);
    assert(upload_commands(frames, t)[30 * pass + j] == one[j]);
    assert(upload_commands(frames, t)[30 * pass + k] == one[k]);
}

proof fn lemma_panel_packet_head(frames: Seq<FrameView>, t: LightsType, panel: int, k: int)
    requires
        0 <= panel < 9,
        0 <= k < 3,
    ensures
        ({
            let p = panel_packets(frames, t, panel)[k];
            let i = crate::lights::type_index(t);
            &&& p.take(4) == seq!['m' as u8, panel as u8, i as u8, 0u8]
            &&& p[4] + 256 * p[5] == if k == 0 {
                416 * i
            } else if k == 1 {
                416 * i + 240
            } else {
                832 + 45 * i
            }
        }),
{
    lemma_panel_packet_sizes(frames, t, panel);
    let i = crate::lights::type_index(t);
    let p = panel_packets(frames, t, panel)[k];
    let from = if k == 0 {
        (416 * i) as u16
    } else if k == 1 {
        (416 * i + 240) as u16
    } else {
        (832 + 45 * i) as u16
    };
    assert(p.take(4) =~= seq!['m' as u8, panel as u8, i as u8, 0u8]);
    assert(p[4] == crate::protocol::le16(from)[0]);
    assert(p[5] == crate::protocol::le16(from)[1]);
}

/// The order of an upload: in each of two passes the palettes of all nine panels, then
/// the rest of their graphics, then the beginning of them, each time with a wait for the
/// panels to store it, of 3.4 ms for each of the 45, 176 and 240 bytes.
#[verifier::spinoff_prover]
#[verifier::rlimit(30)]
pub proof fn law_upload_order(frames: Seq<FrameView>, t: LightsType, pass: int, panel: int)
    requires
        0 <= pass < 2,
        0 <= panel < 9,
    ensures
        ({
            let commands = upload_commands(frames, t);
            let first = commands[30 * pass + panel]->Packet_0;
            let second = commands[30 * pass + 10 + panel]->Packet_0;
            let third = commands[30 * pass + 20 + panel]->Packet_0;
            let i = match t {
                LightsType::Released => 0int,
                LightsType::Pressed => 1int,
            };
            &&& commands[30 * pass + panel] is Packet
            &&& commands[30 * pass + 10 + panel] is Packet
            &&& commands[30 * pass + 20 + panel] is Packet
            &&& first.take(4) == seq!['m' as u8, panel as u8, i as u8, 0u8]
            &&& second.take(4) == first.take(4) && third.take(4) == first.take(4)
            &&& first[4] + 256 * first[5] == 832 + 45 * i && first[6] == 45 && first.len() == 52
            &&& second[4] + 256 * second[5] == 416 * i + 240 && second[6] == 176 && second.len()
                == 183
            &&& third[4] + 256 * third[5] == 416 * i && third[6] == 240 && third.len() == 247
            &&& commands[30 * pass + 9] == UploadCommandView::Delay(153)
            &&& commands[30 * pass + 19] == UploadCommandView::Delay(598)
            &&& commands[30 * pass + 29] == UploadCommandView::Delay(816)
        }),
{
    lemma_panel_packet_sizes(frames, t, panel);
    lemma_panel_packet_head(frames, t, panel, 0);
    lemma_panel_packet_head(frames, t, panel, 1);
    lemma_panel_packet_head(frames, t, panel, 2);
    lemma_round(frames, t, pass, 0, panel);
    lemma_round(frames, t, pass, 1, panel);
    lemma_round(frames, t, pass, 2, panel);
}

/// What the last packet of an upload tells the master controller, byte by byte: the frame
/// to go back to, which graphic each frame is, from 0 on for the released animation and
/// from 32 on for the pressed one, and for how many thirtieths of a second each is shown.
pub proof fn law_master_packet_by_number(frames: Seq<FrameView>, t: LightsType, f: int)
    requires
        0 < frames.len() <= 32,
        0 <= f < 64,
    ensures
        ({
            let p = upload_commands(frames, t)[60]->Packet_0;
            let i = match t {
                LightsType::Released => 0int,
                LightsType::Pressed => 1int,
            };
            &&& upload_commands(frames, t)[60] is Packet
            &&& p.len() == 136
            &&& p.take(7) == seq!['m' as u8, 255u8, i as u8, 1u8, 0u8, 0u8, 129u8]
            &&& p[7] == crate::lights::loop_frame_of(frames, frames.len() as int)
            &&& f < frames.len() ==> p[8 + f] == 32 * i + f
            &&& f >= frames.len() ==> p[8 + f] == 255
            &&& f < frames.len() ==> p[72 + f] == crate::single::shown_frames(
                crate::single::frame_time(frames[f].delay_ms),
            )
            &&& f >= frames.len() ==> p[72 + f] == 0
        }),
{
    let p = master_packet(frames, t);
    let i = crate::lights::type_index(t);
    let d = timing_data(frames, t);
    crate::lights::law_loop_frame_is_the_first_marked(frames);
    assert(p.take(7) =~= seq!['m' as u8, 255u8, i as u8, 1u8, 0u8, 0u8, 129u8]);
    assert(p[7] == d[0]);
    assert(p[8 + f] == d[1 + f]);
    assert(p[72 + f] == d[65 + f]);
}

/// What can be uploaded: pictures of 23x24 pixels, at most 32 of them, with at most 15
/// colors besides black on each panel.
pub proof fn law_upload_limits(frames: Seq<FrameView>, panel: int)
    requires
        0 <= panel < 9,
    ensures
        frames[0].image.width != 23 || frames[0].image.height != 24 ==> upload_error(frames) == Some(
            "Upload GIFs must be 23x24."@,
        ),
        frames[0].image.width == 23 && frames[0].image.height == 24 && frames.len() > 32
            ==> upload_error(frames) == Some("The animation has too many frames (max 32)."@),
        frames[0].image.width == 23 && frames[0].image.height == 24 && frames.len() <= 32
            && colors_of(panel_views(frames, panel)).len() > 15 ==> upload_error(frames) == Some(
            "A panel uses too many colors (max 15)."@,
        ),
        frames[0].image.width == 23 && frames[0].image.height == 24 && frames.len() <= 32 && (
        forall|p: int|
            0 <= p < 9 ==> (#[trigger] colors_of(panel_views(frames, p))).len() <= 15)
            ==> upload_error(frames) is None,
{
}

} // verus!
