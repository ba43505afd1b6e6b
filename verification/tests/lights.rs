//! Animations and uploads.

use std::io::Cursor;

use image::codecs::gif::GifEncoder;
use image::{Delay, Frame, Rgba};
use rustmaniax_sdk::gif::{
    decode_gif, extract_panel, frames_from_items, DecodedFrame, PanelFrame, RgbaImage,
};
use rustmaniax_sdk::lights::{has_marker, scale_color};
use rustmaniax_sdk::single::{
    add_display_frame, display_frames, ratio, round, subtract, time_of_delay, DISPLAY_FRAME,
    ONE_SECOND,
};
use rustmaniax_sdk::upload::{
    build_palette, create_upload_packets, find_in_palette, pack_graphic, prepare_upload_frames,
};
use rustmaniax_sdk::{prepare_upload, AnimationState, LightsType, UploadCommand};

const LED_COLOR_SCALE: f32 = 0.6666;

fn encode(frames: Vec<Frame>) -> Vec<u8> {
    let mut buf = Cursor::new(Vec::new());
    {
        let mut encoder = GifEncoder::new(&mut buf);
        encoder.encode_frames(frames).unwrap();
    }
    buf.into_inner()
}

fn create_test_gif(width: u32, height: u32) -> Vec<u8> {
    let mut img = image::RgbaImage::new(width, height);
    for y in 0..height {
        for x in 0..width {
            img.put_pixel(
                x,
                y,
                Rgba([((x * 10) % 256) as u8, ((y * 10) % 256) as u8, 0, 255]),
            );
        }
    }
    encode(vec![Frame::new(img)])
}

/// A GIF with very few colors, which fits an upload palette.
fn create_test_gif_simple(width: u32, height: u32) -> Vec<u8> {
    let mut img = image::RgbaImage::new(width, height);
    for y in 0..height {
        for x in 0..width {
            let color = if (x + y) % 3 == 0 {
                Rgba([255, 0, 0, 255])
            } else if (x + y) % 3 == 1 {
                Rgba([0, 255, 0, 255])
            } else {
                Rgba([0, 0, 0, 255])
            };
            img.put_pixel(x, y, color);
        }
    }
    encode(vec![Frame::new(img)])
}

fn plain_frame(width: u32, height: u32, rgba: [u8; 4], delay_ms: u32) -> DecodedFrame {
    let mut img = RgbaImage::new(width, height);
    for y in 0..height {
        for x in 0..width {
            img.put_pixel(x, y, rgba);
        }
    }
    DecodedFrame { rgba: img, delay_ms }
}

#[test]
fn panel_extraction_14x15() {
    let mut img = RgbaImage::new(14, 15);
    img.put_pixel(0, 0, [255, 0, 0, 255]);
    img.put_pixel(5, 5, [0, 255, 0, 255]);

    let pf0 = extract_panel(&img, 0);
    assert_eq!(pf0.num_leds, 16);
    assert_eq!(pf0.rgb[0], 255);
    assert_eq!(pf0.rgb[1], 0);
    assert_eq!(pf0.rgb[2], 0);

    let pf4 = extract_panel(&img, 4);
    assert_eq!(pf4.rgb[0], 0);
    assert_eq!(pf4.rgb[1], 255);
    assert_eq!(pf4.rgb[2], 0);
}

#[test]
fn panel_extraction_23x24() {
    let mut img = RgbaImage::new(23, 24);
    // Panel 0, outer grid LED 0 at (0,0).
    img.put_pixel(0, 0, [128, 64, 32, 255]);
    // Panel 0, inner grid LED 0 at (1,1).
    img.put_pixel(1, 1, [10, 20, 30, 255]);
    // Panel 8, last inner LED at (21,21).
    img.put_pixel(21, 21, [1, 2, 3, 255]);

    let pf = extract_panel(&img, 0);
    assert_eq!(pf.num_leds, 25);
    assert_eq!(pf.rgb[0], 128);
    assert_eq!(pf.rgb[1], 64);
    assert_eq!(pf.rgb[2], 32);
    // Inner LED 0 is at index 16 (after 4x4 outer).
    assert_eq!(pf.rgb[16 * 3], 10);
    assert_eq!(pf.rgb[16 * 3 + 1], 20);
    assert_eq!(pf.rgb[16 * 3 + 2], 30);

    let pf = extract_panel(&img, 8);
    assert_eq!(&pf.rgb[24 * 3..], &[1, 2, 3]);
}

#[test]
fn pack_graphic_roundtrip() {
    let palette: [[u8; 3]; 15] = {
        let mut p = [[0u8; 3]; 15];
        p[0] = [255, 0, 0];
        p[1] = [0, 255, 0];
        p
    };

    let mut rgb = vec![0u8; 25 * 3];
    rgb[0] = 255; // LED 0 R
    rgb[3] = 0;
    rgb[4] = 255;
    rgb[5] = 0; // LED 1 = green

    let frame = PanelFrame { rgb, num_leds: 25 };
    let packed = pack_graphic(&frame, &palette);

    // LED 0 -> index 0 in high nibble, LED 1 -> index 1 in low nibble.
    assert_eq!(packed[0], 0x01);
    // LED 2 onwards are black -> index 15 (0xF).
    assert_eq!(packed[1], 0xFF);
    // The last byte holds one LED only.
    assert_eq!(packed[12], 0xF0);
}

#[test]
fn missing_leds_and_colors_are_packed_too() {
    let palette = [[9u8, 9, 9]; 15];
    let frame = PanelFrame { rgb: vec![1; 48], num_leds: 16 };
    let packed = pack_graphic(&frame, &palette);
    // A color that is not in the palette is packed as the first one.
    assert_eq!(&packed[..8], &[0u8; 8]);
    // LEDs that the panel does not have are transparent.
    assert_eq!(&packed[8..12], &[0xFF; 4]);
    assert_eq!(find_in_palette(&palette, 9, 9, 9), 0);
    assert_eq!(find_in_palette(&palette, 9, 9, 8), 0xFF);
}

#[test]
fn load_rejects_wrong_dimensions() {
    let gif_data = create_test_gif(10, 10);
    let mut state = AnimationState::new();
    let result = state.load(&gif_data, 0, LightsType::Released);
    assert!(result.is_err());
    assert!(result.unwrap_err().contains("14x15 or 23x24"));
}

#[test]
fn load_rejects_corrupt_data() {
    let mut state = AnimationState::new();
    let result = state.load(b"not a gif", 0, LightsType::Released);
    assert!(result.is_err());
    assert!(result.unwrap_err().contains("couldn't be read"));
}

#[test]
fn load_rejects_empty_data() {
    let mut state = AnimationState::new();
    let result = state.load(&[], 0, LightsType::Released);
    assert!(result.is_err());
}

#[test]
fn load_rejects_invalid_pad() {
    let gif_data = create_test_gif(14, 15);
    let mut state = AnimationState::new();
    let result = state.load(&gif_data, 2, LightsType::Released);
    assert!(result.is_err());
    assert!(result.unwrap_err().contains("Invalid pad"));
}

#[test]
fn load_accepts_14x15() {
    let gif_data = create_test_gif(14, 15);
    let mut state = AnimationState::new();
    let result = state.load(&gif_data, 0, LightsType::Released);
    assert!(result.is_ok());
}

#[test]
fn load_accepts_23x24() {
    let gif_data = create_test_gif(23, 24);
    let mut state = AnimationState::new();
    let result = state.load(&gif_data, 0, LightsType::Released);
    assert!(result.is_ok());
}

#[test]
fn load_accepts_pressed_type() {
    let gif_data = create_test_gif(14, 15);
    let mut state = AnimationState::new();
    let result = state.load(&gif_data, 1, LightsType::Pressed);
    assert!(result.is_ok());
}

#[test]
fn damaged_gifs_end() {
    let whole = encode(vec![
        Frame::new(image::RgbaImage::from_pixel(23, 24, Rgba([9, 8, 7, 255]))),
        Frame::new(image::RgbaImage::from_pixel(23, 24, Rgba([1, 2, 3, 255]))),
    ]);
    assert_eq!(decode_gif(&whole).unwrap().len(), 2);
    // Cut off anywhere: decoding ends, with the frames that are whole.
    let mut seen = Vec::new();
    for cut in 0..whole.len() {
        let result = match decode_gif(&whole[..cut]) {
            Ok(frames) => {
                assert_eq!(frames[0].rgba.pixels[0], 9);
                format!("{} frames", frames.len())
            }
            Err(e) => e.to_string(),
        };
        if seen.last() != Some(&result) {
            seen.push(result);
        }
    }
    assert_eq!(
        seen,
        ["The GIF couldn't be read.", "The GIF has no frames.", "1 frames", "2 frames"]
    );
}

#[test]
fn decoded_frames_keep_pixels_and_delay() {
    let mut img = image::RgbaImage::from_pixel(14, 15, Rgba([10, 20, 30, 255]));
    img.put_pixel(3, 4, Rgba([200, 100, 50, 255]));
    let gif = encode(vec![
        Frame::from_parts(img, 0, 0, Delay::from_numer_denom_ms(100, 1)),
        Frame::from_parts(
            image::RgbaImage::from_pixel(14, 15, Rgba([1, 1, 1, 255])),
            0,
            0,
            Delay::from_numer_denom_ms(30, 1),
        ),
    ]);
    let frames = decode_gif(&gif).unwrap();
    assert_eq!(frames.len(), 2);
    assert_eq!((frames[0].rgba.width, frames[0].rgba.height), (14, 15));
    assert_eq!(frames[0].rgba.pixels.len(), 14 * 15 * 4);
    assert_eq!(frames[0].delay_ms, 100);
    assert_eq!(frames[1].delay_ms, 30);
    assert_eq!(frames[0].rgba.get_channel(3, 4, 0), 200);
    assert_eq!(frames[0].rgba.get_channel(0, 0, 2), 30);
}

#[test]
fn frames_that_failed_are_left_out() {
    let items = vec![
        None,
        Some(plain_frame(14, 15, [1, 2, 3, 255], 0)),
        None,
        Some(plain_frame(14, 15, [4, 5, 6, 255], 70)),
    ];
    let frames = frames_from_items(Some(items)).unwrap();
    assert_eq!(frames.len(), 2);
    assert_eq!(frames[0].rgba.pixels[0], 1);
    assert_eq!(frames[1].delay_ms, 70);
    assert_eq!(
        frames_from_items(Some(vec![None, None])).unwrap_err(),
        "The GIF has no frames."
    );
    assert_eq!(
        frames_from_items(None).unwrap_err(),
        "The GIF couldn't be read."
    );
}

#[test]
fn upload_rejects_14x15() {
    let gif_data = create_test_gif(14, 15);
    let result = prepare_upload(&gif_data, 0, LightsType::Released);
    assert!(result.is_err());
    assert!(result.unwrap_err().contains("23x24"));
}

#[test]
fn upload_accepts_23x24() {
    let gif_data = create_test_gif_simple(23, 24);
    let result = prepare_upload(&gif_data, 0, LightsType::Released);
    assert!(result.is_ok(), "upload failed: {:?}", result.err());
    let upload = result.unwrap();
    assert!(!upload.commands.is_empty());
}

#[test]
fn upload_rejects_invalid_pad() {
    let gif_data = create_test_gif(23, 24);
    let result = prepare_upload(&gif_data, 2, LightsType::Released);
    assert!(result.is_err());
    assert_eq!(result.unwrap_err(), "Invalid pad index.");
}

#[test]
fn build_frame_produces_correct_size() {
    let gif_data = create_test_gif(23, 24);
    let mut state = AnimationState::new();
    state.load(&gif_data, 0, LightsType::Released).unwrap();
    let frame = state.build_frame([0, 0]);
    // 2 pads x 9 panels x 25 LEDs x 3 RGB = 1350.
    assert_eq!(frame.len(), 1350);
}

#[test]
fn build_frame_shows_the_picture() {
    let gif_data = create_test_gif_simple(23, 24);
    let mut state = AnimationState::new();
    state.load(&gif_data, 0, LightsType::Released).unwrap();
    let frame = state.build_frame([0, 0]);
    // LED 1 of panel 0 lies at (2,0), LED 16 at (1,1), LED 24 of panel 8 at (21,21).
    assert_eq!(&frame[0..3], &[255, 0, 0]);
    assert_eq!(&frame[3..6], &[0, 0, 0]);
    assert_eq!(&frame[48..51], &[0, 0, 0]);
    assert_eq!(&frame[672..675], &[255, 0, 0]);
    // LED 2 of panel 0 lies at (4,0).
    assert_eq!(&frame[6..9], &[0, 255, 0]);
    assert!(frame[675..].iter().all(|&b| b == 0));
}

#[test]
fn color_scaling() {
    // 255 * 0.6666 = 169.98 -> 169
    let scaled = scale_color(255);
    assert!(scaled == 169 || scaled == 170);
    assert_eq!(scale_color(0), 0);
    assert_eq!(scale_color(128), (128.0 * LED_COLOR_SCALE) as u8);
    for c in 0..=255u8 {
        assert_eq!(scale_color(c), (c as f32 * LED_COLOR_SCALE) as u8);
    }
}

#[test]
fn palette_max_15_colors() {
    // Frames with 16 distinct non-black colors.
    let mut rgb = vec![0u8; 25 * 3];
    for i in 0..16 {
        rgb[i * 3] = (i + 1) as u8;
        rgb[i * 3 + 1] = 0;
        rgb[i * 3 + 2] = 0;
    }
    let frame = PanelFrame { rgb, num_leds: 25 };
    let result = build_palette(&[frame]);
    assert!(result.is_err());
    assert!(result.unwrap_err().contains("too many colors"));
}

#[test]
fn palette_lists_colors_in_order_of_appearance() {
    let mut first = vec![0u8; 48];
    first[3..6].copy_from_slice(&[5, 6, 7]);
    first[9..12].copy_from_slice(&[1, 1, 1]);
    let mut second = vec![0u8; 48];
    second[0..3].copy_from_slice(&[1, 1, 1]);
    second[3..6].copy_from_slice(&[8, 0, 0]);
    let table = build_palette(&[
        PanelFrame { rgb: first, num_leds: 16 },
        PanelFrame { rgb: second, num_leds: 16 },
    ])
    .unwrap();
    assert_eq!(&table[..4], &[[5, 6, 7], [1, 1, 1], [8, 0, 0], [0, 0, 0]]);
}

#[test]
fn animation_state_new_has_no_animations() {
    let mut state = AnimationState::new();
    let frame = state.build_frame([0, 0]);
    assert_eq!(frame.len(), 1350);
    assert!(frame.iter().all(|&b| b == 0));
}

#[test]
fn animation_double_load_replaces() {
    let gif1 = create_test_gif_simple(23, 24);
    let gif2 = create_test_gif(14, 15);
    let mut state = AnimationState::new();
    state.load(&gif1, 0, LightsType::Released).unwrap();
    state.load(&gif2, 0, LightsType::Released).unwrap();
    let frame = state.build_frame([0, 0]);
    assert_eq!(frame.len(), 1350);
    // The inner LEDs of the second, smaller animation are dark.
    assert!(frame[48..75].iter().all(|&b| b == 0));
}

#[test]
fn upload_rejects_empty_data() {
    let result = prepare_upload(&[], 0, LightsType::Released);
    assert!(result.is_err());
}

#[test]
fn upload_rejects_corrupt_data() {
    let result = prepare_upload(b"not a gif", 0, LightsType::Released);
    assert!(result.is_err());
    assert_eq!(result.unwrap_err(), "The GIF couldn't be read.");
}

#[test]
fn upload_rejects_too_many_frames_and_colors() {
    let frames: Vec<DecodedFrame> = (0..33)
        .map(|_| plain_frame(23, 24, [1, 1, 1, 255], 0))
        .collect();
    assert_eq!(
        prepare_upload_frames(&frames, LightsType::Released).unwrap_err(),
        "The animation has too many frames (max 32)."
    );
    let gif = create_test_gif(23, 24);
    assert_eq!(
        prepare_upload(&gif, 0, LightsType::Pressed).unwrap_err(),
        "A panel uses too many colors (max 15)."
    );
}

fn packet(c: &UploadCommand) -> &Vec<u8> {
    match c {
        UploadCommand::Packet(p) => p,
        UploadCommand::Delay(_) => panic!("a delay"),
    }
}

fn delay(c: &UploadCommand) -> u16 {
    match c {
        UploadCommand::Packet(_) => panic!("a packet"),
        UploadCommand::Delay(d) => *d,
    }
}

#[test]
fn upload_of_two_frames() {
    let mut second = plain_frame(23, 24, [0, 90, 0, 255], 200);
    second.rgba.put_pixel(0, 23, [255, 255, 255, 255]);
    let frames = vec![plain_frame(23, 24, [30, 60, 255, 255], 0), second];
    let upload = prepare_upload_frames(&frames, LightsType::Pressed).unwrap();
    assert_eq!(upload.commands.len(), 61);
    // First round: the palettes.
    let p = packet(&upload.commands[4]);
    assert_eq!(&p[..7], &[b'm', 4, 1, 0, 0x6D, 0x03, 45]); // offset 832 + 45 = 877
    assert_eq!(&p[7..13], &[19, 39, 169, 0, 59, 0]);
    assert!(p[13..].iter().all(|&b| b == 0));
    assert_eq!(delay(&upload.commands[9]), 153);
    // Second and third round: the graphics, last packet first.
    let p = packet(&upload.commands[10]);
    assert_eq!(&p[..7], &[b'm', 0, 1, 0, 0x90, 0x02, 176]); // offset 416 + 240 = 656
    assert_eq!(delay(&upload.commands[19]), 598);
    let p = packet(&upload.commands[28]);
    assert_eq!(&p[..7], &[b'm', 8, 1, 0, 0xA0, 0x01, 240]); // offset 416
    assert_eq!(&p[7..20], &[0u8; 13]);
    assert_eq!(p[20], 0x11);
    assert_eq!(p[32], 0x10);
    assert_eq!(delay(&upload.commands[29]), 816);
    // Everything twice.
    for i in 0..30 {
        match (&upload.commands[i], &upload.commands[i + 30]) {
            (UploadCommand::Packet(a), UploadCommand::Packet(b)) => assert_eq!(a, b),
            (UploadCommand::Delay(a), UploadCommand::Delay(b)) => assert_eq!(a, b),
            _ => panic!("different commands"),
        }
    }
    // The master packet, marked as final.
    let p = packet(&upload.commands[60]);
    assert_eq!(&p[..7], &[b'm', 0xFF, 1, 1, 0, 0, 129]);
    assert_eq!(p[7], 1); // loop frame
    assert_eq!(&p[8..11], &[32, 33, 0xFF]);
    assert_eq!(&p[72..75], &[1, 6, 0]);
}

#[test]
fn uploads_of_both_animations_do_not_meet() {
    let frames = vec![plain_frame(23, 24, [30, 60, 255, 255], 0)];
    let mut written = vec![0u8; 2 * 9 * 1024];
    for (n, t) in [LightsType::Released, LightsType::Pressed].into_iter().enumerate() {
        let upload = prepare_upload_frames(&frames, t).unwrap();
        for command in &upload.commands[..30] {
            if let UploadCommand::Packet(p) = command {
                let from = p[1] as usize * 1024 + p[4] as usize + 256 * p[5] as usize;
                for place in from..from + p[6] as usize {
                    written[place] += 1;
                }
            }
        }
        assert_eq!(packet(&upload.commands[60])[2] as usize, n);
    }
    // Each byte once: 2 * (416 + 45) for each panel.
    assert!(written.iter().all(|&n| n <= 1));
    assert_eq!(written.iter().filter(|&&n| n == 1).count(), 9 * 922);
}

#[test]
fn upload_packets_are_cut_at_240_bytes() {
    let data: Vec<u8> = (0..500u32).map(|i| i as u8).collect();
    let mut packets = vec![vec![1u8]];
    create_upload_packets(&mut packets, &data, 1000, 3, 1);
    assert_eq!(packets.len(), 4);
    assert_eq!(packets[0], vec![1u8]);
    assert_eq!(packets[1].len(), 247);
    assert_eq!(packets[3].len(), 27);
    assert_eq!(&packets[2][4..7], &[0xD8, 0x04, 240]); // 1240
    assert_eq!(packets[3][7], data[480]);
    create_upload_packets(&mut packets, &[], 0, 0, 0);
    assert_eq!(packets.len(), 4);
    // Offsets have 16 bits: 274 * 240 = 65536 + 224.
    let mut packets = Vec::new();
    create_upload_packets(&mut packets, &vec![5; 66000], 3, 0, 0);
    assert_eq!(packets.len(), 275);
    assert_eq!(&packets[274][4..7], &[227, 0, 240]);
}

/// A time as the number of seconds that it stands for.
fn seconds(t: u64) -> f32 {
    let s = t as f64 / ONE_SECOND as f64;
    assert_eq!(s as f32 as f64, s);
    s as f32
}

/// The seconds of a frame in floating point.
fn float_duration(delay_ms: u32) -> f32 {
    let ms = delay_ms as f32;
    if ms <= 0.0 || (28.0..=42.0).contains(&ms) {
        1.0 / 30.0
    } else {
        ms / 1000.0
    }
}

#[test]
fn frame_timing_matches_single_precision() {
    let large = (0..2000u32).map(|i| i.wrapping_mul(2_654_435_761).wrapping_add(u32::MAX - 1));
    for ms in (0..=655_350).chain(large) {
        let want = float_duration(ms);
        assert_eq!(seconds(time_of_delay(ms)), want, "{} ms", ms);
        let shown = (want * 30.0 + 0.5f32).clamp(1.0, 255.0) as u8;
        assert_eq!(display_frames(time_of_delay(ms)), shown, "{} ms", ms);
    }
}

#[test]
fn frame_times() {
    assert_eq!(time_of_delay(0), DISPLAY_FRAME);
    assert_eq!(time_of_delay(28), DISPLAY_FRAME);
    assert_eq!(time_of_delay(42), DISPLAY_FRAME);
    assert_eq!(time_of_delay(1), 8_589_935);
    assert_eq!(time_of_delay(27), 231_928_240);
    assert_eq!(time_of_delay(43), 369_367_200);
    assert_eq!(time_of_delay(500), ONE_SECOND / 2);
    assert_eq!(seconds(DISPLAY_FRAME), 1.0 / 30.0);
    // 1.05 s falls just short of 31 and a half frames.
    assert_eq!(display_frames(time_of_delay(1050)), 31);
    assert_eq!(display_frames(time_of_delay(10)), 1);
    assert_eq!(display_frames(time_of_delay(60_000)), 255);
}

#[test]
fn rounding_goes_to_the_nearest_even() {
    assert_eq!(round(0), 0);
    assert_eq!(round(0x100_0001), 0x100_0000); // half way, down to even
    assert_eq!(round(0x100_0003), 0x100_0004); // half way, up to even
    assert_eq!(round(0x200_0001), 0x200_0000);
    assert_eq!(round(0x200_0003), 0x200_0004);
    assert_eq!(round(0x1FF_FFFF), 0x200_0000);
    assert_eq!(ratio(ONE_SECOND as u128, 30), DISPLAY_FRAME);
    let mut n: u64 = 1;
    for _ in 0..5000 {
        n = n.wrapping_mul(6_364_136_223_846_793_005).wrapping_add(1_442_695_040_888_963_407);
        let v = (n >> 2) >> (n % 60);
        assert_eq!(round(v), v as f32 as u64, "{}", v);
    }
}

#[test]
fn times_add_up_as_floats_do() {
    let mut t: u64 = 0;
    let mut f: f32 = 0.0;
    let d = time_of_delay(7_000_000);
    for _ in 0..250_000 {
        t = add_display_frame(t);
        f += 1.0 / 30.0f32;
        assert_eq!(seconds(t), f);
        if t >= d {
            t = subtract(t, d);
            f -= float_duration(7_000_000);
            assert_eq!(seconds(t), f);
        }
    }
    // Far up, a thirtieth of a second no longer counts.
    let top: u64 = 1 << 53;
    assert_eq!(add_display_frame(top), top);
}

#[test]
fn loop_marker_is_opaque_and_bright() {
    let mut img = RgbaImage::new(14, 15);
    assert!(!has_marker(&img));
    img.put_pixel(0, 14, [128, 0, 0, 255]);
    assert!(has_marker(&img));
    img.put_pixel(0, 14, [127, 255, 255, 255]);
    assert!(!has_marker(&img));
    img.put_pixel(0, 14, [255, 255, 255, 254]);
    assert!(!has_marker(&img));
}

#[test]
fn playback_advances_and_loops() {
    let mut frames = vec![
        plain_frame(14, 15, [1, 1, 1, 255], 100),
        plain_frame(14, 15, [2, 2, 2, 255], 0),
        plain_frame(14, 15, [3, 3, 3, 255], 50),
    ];
    // Frame 1 is the one to go back to.
    frames[1].rgba.put_pixel(0, 14, [255, 0, 0, 255]);
    let mut state = AnimationState::new();
    state.load_frames(&frames, 1, LightsType::Released).unwrap();
    let mut shown = |n: usize| -> Vec<u8> { (0..n).map(|_| state.build_frame([0, 0])[675]).collect() };
    // Three thirtieths make 0.1 s; 50 ms are over after two, which leaves enough for
    // the next 50 ms to be over after one.
    assert_eq!(shown(10), vec![1, 1, 1, 2, 3, 3, 2, 3, 2, 3]);
}

#[test]
fn short_frame_is_over_after_one_call() {
    let frames = vec![
        plain_frame(14, 15, [1, 1, 1, 255], 10),
        plain_frame(14, 15, [2, 2, 2, 255], 10),
    ];
    let mut state = AnimationState::new();
    state.load_frames(&frames, 0, LightsType::Released).unwrap();
    assert_eq!(state.build_frame([0, 0])[0], 1);
    assert_eq!(state.playback[0].current_frame, 1);
    assert_eq!(seconds(state.playback[0].time_in_frame), 1.0 / 30.0 - 0.01f32);
    assert_eq!(state.build_frame([0, 0])[0], 2);
    assert_eq!(state.build_frame([0, 0])[0], 1);
    // Loading again starts from the first frame.
    state.build_frame([0, 0]);
    state.build_frame([0, 0]);
    state.load_frames(&frames, 0, LightsType::Released).unwrap();
    assert_eq!(state.playback[0].time_in_frame, 0);
    assert_eq!(state.build_frame([0, 0])[0], 1);
}

#[test]
fn playback_follows_floating_point() {
    let sets: [&[u32]; 6] = [
        &[10, 10],
        &[100, 70, 50, 0],
        &[33, 34, 20, 43],
        &[330, 1000, 40, 60],
        &[110, 7, 1, 5000],
        &[655_350, 10],
    ];
    for delays in sets {
        let frames: Vec<DecodedFrame> = delays
            .iter()
            .enumerate()
            .map(|(i, &d)| plain_frame(14, 15, [i as u8 + 1, 0, 0, 255], d))
            .collect();
        let mut state = AnimationState::new();
        state.load_frames(&frames, 0, LightsType::Pressed).unwrap();
        let mut current = 0;
        let mut time: f32 = 0.0;
        for step in 0..2500 {
            let down = step % 1200 != 1199;
            let drawn = state.build_frame([down as u16, 0])[0];
            if !down {
                assert_eq!(drawn, 0);
                current = 0;
                time = 0.0;
                continue;
            }
            assert_eq!(drawn as usize, current + 1, "{:?}, step {}", delays, step);
            time += 1.0 / 30.0f32;
            if time >= float_duration(delays[current]) {
                time -= float_duration(delays[current]);
                current = (current + 1) % delays.len();
            }
            assert_eq!(seconds(state.playback[9].time_in_frame), time);
        }
    }
}

#[test]
fn pressed_animation_lies_over_the_released_one() {
    let mut state = AnimationState::new();
    state
        .load_frames(&vec![plain_frame(23, 24, [10, 10, 10, 255], 0)], 0, LightsType::Released)
        .unwrap();
    let mut first = plain_frame(23, 24, [0, 0, 0, 255], 0);
    first.rgba.put_pixel(2, 0, [0, 77, 0, 255]); // LED 1 of panel 0
    let second = plain_frame(23, 24, [9, 9, 9, 255], 0);
    state
        .load_frames(&vec![first, second], 0, LightsType::Pressed)
        .unwrap();
    let frame = state.build_frame([0b1, 0]);
    assert_eq!(&frame[..9], &[10, 10, 10, 0, 77, 0, 10, 10, 10]);
    assert_eq!(&frame[75..78], &[10, 10, 10]);
    // It plays on while pressed and goes back to its start when let go.
    assert_eq!(&state.build_frame([0b1, 0])[..3], &[9, 9, 9]);
    assert_eq!(&state.build_frame([0, 0])[..3], &[10, 10, 10]);
    assert_eq!(&state.build_frame([0b1, 0])[3..6], &[0, 77, 0]);
}

#[test]
fn frame_can_be_built_into_a_buffer() {
    let mut state = AnimationState::new();
    state
        .load_frames(&vec![plain_frame(14, 15, [7, 8, 9, 255], 0)], 0, LightsType::Released)
        .unwrap();
    let mut out = vec![1, 2, 3];
    state.build_frame_into([0, 0], &mut out);
    assert_eq!(out.len(), 1350);
    assert_eq!(out, state.build_frame([0, 0]));
}
