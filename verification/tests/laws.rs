//! What holds across operations, on concrete values.

use rustmaniax_sdk::config::{config_from_bytes, config_to_bytes};
use rustmaniax_sdk::gif::{extract_panel, DecodedFrame, PanelFrame, RgbaImage};
use rustmaniax_sdk::lights::{find_loop_frame, scale_color};
use rustmaniax_sdk::pad_lights::build_lights_command;
use rustmaniax_sdk::protocol::{
    HID_PACKET_SIZE, LIGHTS_FRAME_INTERVAL, LIGHTS_LEGACY_COMMAND_DELAY,
};
use rustmaniax_sdk::test_helpers::FakeDevice;
use rustmaniax_sdk::upload::{build_palette, pack_graphic};
use rustmaniax_sdk::{
    AnimationState, HidDeviceInfo, LightsType, PanelTestMode, SensorTestMode, SmxEvent, SmxManager,
};

/// A manager with a fake device in each of its first slots.
struct Rig {
    mgr: SmxManager,
    fakes: Vec<(String, FakeDevice)>,
}

impl Rig {
    fn new(fakes: Vec<FakeDevice>) -> Rig {
        let mut mgr = SmxManager::new();
        let mut named = Vec::new();
        for (slot, fake) in fakes.into_iter().enumerate() {
            let path = format!("/dev/pad{slot}");
            let info = HidDeviceInfo {
                path: path.clone(),
                product: "StepManiaX".to_string(),
            };
            assert_eq!(mgr.open_finished(&info, true, true), Some(slot));
            named.push((path, fake));
        }
        let mut rig = Rig { mgr, fakes: named };
        for _ in 0..10 {
            rig.pass(0);
        }
        rig.mgr.take_events();
        rig
    }

    fn serve(&mut self, slot: usize) {
        let path = match self.mgr.devices[slot].connection() {
            Some(conn) => conn.path().to_string(),
            None => return,
        };
        let fake = &mut self.fakes.iter_mut().find(|f| f.0 == path).unwrap().1;
        while let Some(job) = self.mgr.take_write_job(slot) {
            let failed = job.iter().any(|p| fake.write(p).is_err());
            self.mgr.write_finished(slot, failed);
        }
        let mut reads = Vec::new();
        let mut failed = false;
        loop {
            match fake.read(HID_PACKET_SIZE) {
                Ok(p) if p.is_empty() => break,
                Ok(p) => reads.push(p),
                Err(_) => {
                    failed = true;
                    break;
                }
            }
        }
        self.mgr.poll(slot, &reads, failed);
    }

    fn pass(&mut self, now: u64) -> u64 {
        let wait = self.mgr.tick(now);
        self.serve(0);
        self.serve(1);
        wait
    }
}

fn times(mgr: &SmxManager) -> Vec<u64> {
    mgr.pending_lights.iter().map(|p| p.send_at).collect()
}

// ─── Slots and events ────────────────────────────────────────────────────────

#[test]
fn exchanged_pads_are_announced() {
    let mut rig = Rig::new(vec![FakeDevice::new_auto(false, 5), FakeDevice::new_auto(true, 5)]);
    let s0 = rig.mgr.get_info(0).serial;
    let s1 = rig.mgr.get_info(1).serial;
    rig.mgr.set_player_assignment(Some(s1.clone()), Some(s0.clone()));
    let events = rig.mgr.take_events();
    assert_eq!(events.len(), 4);
    assert!(matches!(&events[0], SmxEvent::Connected { pad: 0, info } if info.serial == s1));
    assert!(matches!(events[1], SmxEvent::ConfigUpdated { pad: 0 }));
    assert!(matches!(&events[2], SmxEvent::Connected { pad: 1, info } if info.serial == s0));
    assert!(matches!(events[3], SmxEvent::ConfigUpdated { pad: 1 }));
    rig.mgr.set_player_assignment(Some(s1), Some(s0));
    assert!(rig.mgr.take_events().is_empty());
    // Input is reported for the slot that the pad is in now.
    rig.fakes[0].1.queue_input_state(5);
    rig.pass(0);
    let events = rig.mgr.take_events();
    assert!(matches!(events[0], SmxEvent::InputState { pad: 1, state: 5 }));
}

#[test]
fn new_pads_are_put_in_order() {
    let rig = Rig::new(vec![FakeDevice::new_auto(true, 5), FakeDevice::new_auto(false, 5)]);
    assert!(!rig.mgr.get_info(0).is_player2);
    assert!(rig.mgr.get_info(1).is_player2);
    assert_eq!(rig.mgr.devices[0].pad_index, 0);
    assert_eq!(rig.mgr.devices[1].pad_index, 1);
}

#[test]
fn one_broken_pad_leaves_the_other_alone() {
    let mut rig = Rig::new(vec![FakeDevice::new_auto(false, 5), FakeDevice::new_auto(true, 5)]);
    rig.fakes[0].1.set_fail_reads(true);
    rig.pass(0);
    rig.pass(0);
    assert!(!rig.mgr.get_info(0).connected);
    assert!(rig.mgr.poll_handles[0].is_none());
    assert!(rig.mgr.get_info(1).connected);
    let events = rig.mgr.take_events();
    assert_eq!(events.len(), 1);
    assert!(matches!(events[0], SmxEvent::Disconnected { pad: 0 }));
}

#[test]
fn written_configuration_is_read_back() {
    let mut rig = Rig::new(vec![FakeDevice::new_auto(false, 5)]);
    let bytes: Vec<u8> = (0..250u32).map(|i| (i * 11 + 2) as u8).collect();
    let config = config_from_bytes(&bytes);
    rig.mgr.set_config(0, config);
    assert_eq!(config_to_bytes(&rig.mgr.get_config(0).unwrap()), bytes);
    rig.fakes[0].1.set_config_response(Vec::new());
    rig.pass(0);
    assert_eq!(config_to_bytes(&rig.mgr.get_config(0).unwrap()), bytes);
    // The pad sends it in fragments.
    let mut answer = vec![b'G', 250];
    answer.extend_from_slice(&bytes);
    let chunks: Vec<&[u8]> = answer.chunks(61).collect();
    for (i, chunk) in chunks.iter().enumerate() {
        let flags = match i {
            0 => 4,
            4 => 3,
            _ => 0,
        };
        rig.fakes[0].1.queue_report6(flags, chunk);
    }
    rig.mgr.take_events();
    for _ in 0..4 {
        rig.pass(0);
    }
    assert_eq!(config_to_bytes(&rig.mgr.get_config(0).unwrap()), bytes);
    assert!(rig
        .mgr
        .take_events()
        .iter()
        .any(|e| matches!(e, SmxEvent::ConfigUpdated { pad: 0 })));
}

// ─── Lights ──────────────────────────────────────────────────────────────────

#[test]
fn light_frames_are_paced() {
    let mut rig = Rig::new(vec![FakeDevice::new_auto(false, 5)]);
    rig.mgr.set_lights(&[1; 1350], 1000);
    assert_eq!(times(&rig.mgr), vec![1000; 3]);
    rig.pass(1000);
    assert!(rig.mgr.pending_lights.is_empty());
    rig.mgr.set_lights(&[2; 1350], 2000);
    assert_eq!(times(&rig.mgr), vec![1000 + LIGHTS_FRAME_INTERVAL; 3]);
    // Not before its time.
    rig.pass(999 + LIGHTS_FRAME_INTERVAL);
    assert_eq!(rig.mgr.pending_lights.len(), 3);
}

#[test]
fn old_firmware_gets_the_lower_half_later() {
    let mut rig = Rig::new(vec![FakeDevice::new_auto(false, 3)]);
    rig.mgr.set_lights(&[1; 864], 1000);
    assert_eq!(
        times(&rig.mgr),
        vec![1000, 1000, 1000 + LIGHTS_LEGACY_COMMAND_DELAY]
    );
    rig.pass(1000);
    assert_eq!(rig.mgr.pending_lights.len(), 1);
    // Fewer than a whole frame waits, so another one is added.
    rig.mgr.set_lights(&[2; 864], 2000);
    assert_eq!(rig.mgr.pending_lights.len(), 4);
    rig.mgr.set_lights(&[3; 864], 3000);
    assert_eq!(rig.mgr.pending_lights.len(), 4);
    assert_eq!(rig.mgr.pending_lights[0].pad_command[0][1], scale_color(1));
    assert_eq!(rig.mgr.pending_lights[3].pad_command[0][1], scale_color(3));
}

#[test]
fn selection_does_not_change_timing() {
    let mut seen = Vec::new();
    for pads in [[true, true], [true, false], [false, true], [false, false]] {
        let mut rig =
            Rig::new(vec![FakeDevice::new_auto(false, 5), FakeDevice::new_auto(true, 5)]);
        rig.mgr.set_lights_for_pads(&[1; 1350], pads, 7000);
        seen.push((times(&rig.mgr), rig.mgr.delay_lights_until));
    }
    assert!(seen.iter().all(|s| *s == seen[0]));
    assert_eq!(seen[0].1, Some(7000 + LIGHTS_FRAME_INTERVAL));
}

#[test]
fn unsent_lights_hold_newer_ones_back() {
    let mut rig = Rig::new(vec![FakeDevice::new_auto(false, 5)]);
    rig.mgr.set_lights(&[1; 1350], 0);
    rig.mgr.send_pending_lights(0);
    rig.mgr.set_lights(&[2; 1350], 0);
    rig.mgr.send_pending_lights(u64::MAX);
    assert_eq!(rig.mgr.pending_lights.len(), 3);
    let queue = &rig.mgr.devices[0].connection().unwrap().pending_commands;
    assert_eq!(queue.iter().filter(|c| c.is_lights).count(), 3);
}

#[test]
fn light_commands_carry_every_color() {
    let data: Vec<u8> = (0..1350u32).map(|i| (i % 256) as u8).collect();
    for pad in 0..2 {
        let inner = build_lights_command(&data, pad, 0);
        let top = build_lights_command(&data, pad, 1);
        let bottom = build_lights_command(&data, pad, 2);
        for panel in 0..9 {
            for k in 0..75 {
                let sent = if k < 24 {
                    top[1 + 24 * panel + k]
                } else if k < 48 {
                    bottom[1 + 24 * panel + k - 24]
                } else {
                    inner[1 + 27 * panel + k - 48]
                };
                assert_eq!(sent, scale_color(data[675 * pad + 75 * panel + k]));
            }
        }
    }
}

#[test]
fn panel_test_refuses_lights() {
    let mut rig = Rig::new(vec![FakeDevice::new_auto(false, 5)]);
    rig.mgr.set_panel_test_mode(PanelTestMode::PressureTest);
    rig.mgr.set_lights(&[1; 1350], 0);
    assert!(rig.mgr.pending_lights.is_empty());
    rig.mgr.set_panel_test_mode(PanelTestMode::Off);
    rig.mgr.set_lights(&[1; 1349], 0);
    assert!(rig.mgr.pending_lights.is_empty());
    rig.mgr.set_lights(&[1; 1350], 0);
    assert_eq!(rig.mgr.pending_lights.len(), 3);
}

// ─── Main loop ───────────────────────────────────────────────────────────────

#[test]
fn main_loop_is_back_in_time() {
    let mut rig = Rig::new(vec![FakeDevice::new_auto(false, 5)]);
    assert_eq!(rig.mgr.wait_ms(0), 50);
    rig.mgr.set_lights(&[1; 1350], 0);
    rig.pass(0);
    rig.mgr.set_lights(&[2; 1350], 0);
    // 33.3 ms from now.
    assert_eq!(rig.mgr.wait_ms(0), 34);
    assert_eq!(rig.mgr.wait_ms(30_000_000), 4);
    assert_eq!(rig.mgr.wait_ms(90_000_000), 1);
    rig.mgr.set_test_mode(0, SensorTestMode::Noise);
    assert_eq!(rig.mgr.wait_ms(0), 20);
    rig.mgr.set_main_thread_sleep_ms(-3);
    assert_eq!(rig.mgr.wait_ms(0), 1);
}

// ─── Animations ──────────────────────────────────────────────────────────────

fn plain(value: u8, marked: bool) -> DecodedFrame {
    let mut img = RgbaImage::new(14, 15);
    for y in 0..15 {
        for x in 0..14 {
            img.put_pixel(x, y, [value, value, value, 255]);
        }
    }
    if marked {
        img.put_pixel(0, 14, [255, 255, 255, 255]);
    }
    DecodedFrame { rgba: img, delay_ms: 0 }
}

#[test]
fn loop_frame_is_the_first_marked() {
    let frames = |marks: &[bool]| -> Vec<DecodedFrame> {
        marks.iter().map(|&m| plain(1, m)).collect()
    };
    assert_eq!(find_loop_frame(&frames(&[false, false])), 0);
    assert_eq!(find_loop_frame(&frames(&[false, true, true])), 1);
    assert_eq!(find_loop_frame(&frames(&[false, false, true])), 2);
    // A mark on the first frame does not count.
    assert_eq!(find_loop_frame(&frames(&[true, false, true])), 2);
}

#[test]
fn loading_replaces_only_its_own_animation() {
    let mut state = AnimationState::new();
    state.load_frames(&vec![plain(1, false)], 0, LightsType::Released).unwrap();
    state.load_frames(&vec![plain(2, false)], 1, LightsType::Released).unwrap();
    state.load_frames(&vec![plain(3, false)], 1, LightsType::Pressed).unwrap();
    let frame = state.build_frame([1, 1]);
    assert_eq!((frame[0], frame[675], frame[675 + 75]), (1, 3, 2));
    state.load_frames(&vec![plain(4, false)], 0, LightsType::Released).unwrap();
    let frame = state.build_frame([1, 1]);
    assert_eq!((frame[0], frame[675], frame[675 + 75]), (4, 3, 2));
    // The first pad's input does not change what the second shows.
    let other = state.build_frame([0x1FF, 1]);
    assert_eq!(frame[675..], other[675..]);
}

#[test]
fn packed_graphic_keeps_the_picture() {
    let mut img = RgbaImage::new(23, 24);
    let colors = [[9u8, 0, 0], [0, 9, 0], [0, 0, 9], [0, 0, 0], [1, 2, 3]];
    for y in 0..24u32 {
        for x in 0..23u32 {
            let c = colors[((x * 7 + y * 3) % 5) as usize];
            img.put_pixel(x, y, [c[0], c[1], c[2], 255]);
        }
    }
    for panel in 0..9 {
        let frame: PanelFrame = extract_panel(&img, panel);
        let palette = build_palette(&[extract_panel(&img, panel)]).unwrap();
        let packed = pack_graphic(&frame, &palette);
        for led in 0..25 {
            let byte = packed[led / 2];
            let code = if led % 2 == 0 { byte >> 4 } else { byte & 15 } as usize;
            let shown = if code == 15 { [0, 0, 0] } else { palette[code] };
            assert_eq!(shown[..], frame.rgb[3 * led..3 * led + 3]);
        }
    }
}
