//! Recorded traffic played back to the manager.

use std::io::Cursor;

use image::codecs::gif::GifEncoder;
use image::{Frame, Rgba, RgbaImage};
use rustmaniax_sdk::manager::OpenDecision;
use rustmaniax_sdk::protocol::{HID_PACKET_SIZE, PACKET_FLAG_DEVICE_INFO};
use rustmaniax_sdk::recorder::{capture_header, encode_transfer, RECORD_READ, RECORD_WRITE};
use rustmaniax_sdk::test_helpers::{
    build_report6, make_config_response_packets, make_device_info_packet, ReplayDevice,
    ReplayEnumerator, SINGLE_RESPONSE_FLAGS,
};
use rustmaniax_sdk::{
    prepare_upload, LightsType, PanelTestMode, SensorTestMode, SmxEvent, SmxManager,
    UploadCommand, HID_REPORT_COMMAND,
};

const MS: u64 = 1_000_000;

/// A recording: the pad names itself, gives its configuration, and then confirms
/// every packet that it is sent.
fn recording(is_p2: bool, confirmations: usize) -> Vec<u8> {
    let mut capture = capture_header();
    let mut time = 0;
    let mut put = |kind: u8, data: &[u8]| {
        time += 250;
        capture.extend(encode_transfer(kind, time, data).unwrap());
    };
    put(RECORD_WRITE, &[5, PACKET_FLAG_DEVICE_INFO, 0]);
    let serial = [if is_p2 { 0xB2 } else { 0xA1 }; 16];
    put(
        RECORD_READ,
        &build_report6(PACKET_FLAG_DEVICE_INFO, &make_device_info_packet(is_p2, 5, &serial)),
    );
    put(RECORD_WRITE, &[5, 5, 1, b'G']);
    for packet in make_config_response_packets(5) {
        put(RECORD_READ, &packet);
    }
    for _ in 0..confirmations {
        put(RECORD_WRITE, &[5, 5, 1, b'?']);
        put(RECORD_READ, &build_report6(SINGLE_RESPONSE_FLAGS, &[]));
    }
    capture
}

struct Rig {
    mgr: SmxManager,
    enumerator: ReplayEnumerator,
    now: u64,
    events: Vec<SmxEvent>,
}

impl Rig {
    fn new(enumerator: ReplayEnumerator) -> Rig {
        Rig {
            mgr: SmxManager::new(),
            enumerator,
            now: 0,
            events: Vec::new(),
        }
    }

    /// One pad, which confirms some hundred packets.
    fn one() -> Rig {
        Rig::new(ReplayEnumerator::from_capture_dir(Some(recording(false, 2000)), None))
    }

    fn step(&mut self) {
        if self.mgr.wants_enumeration(self.now) {
            let found = self.enumerator.enumerate(0x2341, 0x8037);
            self.mgr.begin_discovery(&found, self.now);
            for info in &found {
                if let OpenDecision::Open(slot) = self.mgr.open_decision(info) {
                    let read_opened = self.enumerator.open(&info.path).is_ok();
                    let write_opened = self.enumerator.open(&info.path).is_ok();
                    let got = self.mgr.open_finished(info, read_opened, write_opened);
                    assert_eq!(got, Some(slot));
                }
            }
        }
        self.mgr.tick(self.now);
        for slot in 0..2 {
            let path = match self.mgr.devices[slot].connection() {
                Some(conn) => conn.path().to_string(),
                None => continue,
            };
            let i = self.enumerator.open(&path).unwrap();
            let dev = &mut self.enumerator.devices[i].1;
            while let Some(job) = self.mgr.take_write_job(slot) {
                for packet in &job {
                    assert_eq!(dev.write(packet), packet.len());
                }
                self.mgr.write_finished(slot, false);
            }
            let mut reads = Vec::new();
            loop {
                let packet = dev.read(HID_PACKET_SIZE);
                if packet.is_empty() {
                    break;
                }
                reads.push(packet);
            }
            self.mgr.poll(slot, &reads, false);
        }
        let mut events = self.mgr.take_events();
        self.events.append(&mut events);
        self.now += MS;
    }

    fn run(&mut self, ms: u64) {
        for _ in 0..ms {
            self.step();
        }
    }

    fn connect(&mut self) {
        for _ in 0..2000 {
            if self.mgr.get_info(0).connected || self.mgr.get_info(1).connected {
                break;
            }
            self.step();
        }
        assert!(self.mgr.get_info(0).connected || self.mgr.get_info(1).connected);
    }

    fn writes(&self) -> Vec<Vec<u8>> {
        self.enumerator
            .devices
            .iter()
            .flat_map(|d| d.1.get_actual_writes())
            .collect()
    }
}

fn has_command(writes: &[Vec<u8>], cmd: u8) -> bool {
    writes
        .iter()
        .any(|w| w.len() > 3 && w[0] == HID_REPORT_COMMAND && w[3] == cmd)
}

fn has_command_str(writes: &[Vec<u8>], cmd: &[u8]) -> bool {
    writes.iter().any(|w| {
        w.len() >= 3 + cmd.len() && w[0] == HID_REPORT_COMMAND && &w[3..3 + cmd.len()] == cmd
    })
}

fn count_command(writes: &[Vec<u8>], cmd: u8) -> usize {
    writes
        .iter()
        .filter(|w| w.len() > 3 && w[0] == HID_REPORT_COMMAND && w[3] == cmd)
        .count()
}

#[test]
fn replay_connection() {
    let mut rig = Rig::new(ReplayEnumerator::from_capture_dir(
        Some(recording(false, 5)),
        Some(recording(true, 5)),
    ));
    rig.connect();
    rig.run(5);
    assert!(
        rig.events.iter().any(|e| matches!(e, SmxEvent::Connected { .. })),
        "No Connected callback"
    );
    assert!(has_command(&rig.writes(), b'G'), "Expected 'G' command in writes");
    assert!(rig.mgr.get_info(1).is_player2);
}

#[test]
fn replay_force_recalibration() {
    let mut rig = Rig::one();
    rig.connect();
    for i in 0..2 {
        if rig.mgr.get_info(i).connected {
            rig.mgr.force_recalibration(i);
        }
    }
    rig.run(500);
    assert!(has_command_str(&rig.writes(), b"C\n"), "Expected 'C\\n' command");
}

#[test]
fn replay_reenable_auto_lights() {
    let mut rig = Rig::one();
    rig.connect();
    rig.mgr.reenable_auto_lights();
    rig.run(200);
    assert!(has_command_str(&rig.writes(), b"S 1\n"), "Expected 'S 1\\n' command");
}

#[test]
fn replay_config_get_set() {
    let mut rig = Rig::one();
    rig.connect();
    let config = rig.mgr.get_config(0);
    assert!(config.is_some(), "Config not available");
    assert!(has_command(&rig.writes(), b'G'), "Expected 'G' command");
}

#[test]
fn replay_factory_reset() {
    let mut rig = Rig::one();
    rig.connect();
    let pad = if rig.mgr.get_info(0).connected { 0 } else { 1 };
    rig.mgr.factory_reset(pad);
    rig.run(200);
    assert!(has_command_str(&rig.writes(), b"f\n"), "Expected 'f\\n' command");
    assert!(has_command(&rig.writes(), b'G'), "Expected 'G' command after reset");
}

#[test]
fn replay_sensor_test_mode() {
    let mut rig = Rig::one();
    rig.connect();
    for i in 0..2 {
        if rig.mgr.get_info(i).connected {
            rig.mgr.set_test_mode(i, SensorTestMode::CalibratedValues);
        }
    }
    rig.run(500);
    assert!(has_command(&rig.writes(), b'y'), "Expected 'y' command");
}

#[test]
fn replay_panel_test_mode() {
    let mut rig = Rig::one();
    rig.connect();
    rig.mgr.set_panel_test_mode(PanelTestMode::PressureTest);
    rig.run(200);
    assert!(has_command_str(&rig.writes(), b"t "), "Expected 't ' command");
}

#[test]
fn replay_platform_lights() {
    let mut rig = Rig::one();
    rig.connect();
    rig.mgr.set_platform_lights(&vec![128u8; 264]);
    rig.run(200);
    assert!(has_command(&rig.writes(), b'L'), "Expected 'L' command");
}

#[test]
fn replay_panel_lights() {
    let mut rig = Rig::one();
    rig.connect();
    let now = rig.now;
    rig.mgr.set_lights(&vec![128u8; 1350], now);
    rig.run(200);
    let writes = rig.writes();
    let lights_count = count_command(&writes, b'2') + count_command(&writes, b'3');
    assert!(lights_count >= 2, "Expected lights commands ('2' and '3'), got {lights_count}");
    // No color is brighter than the scale allows.
    for w in &writes {
        if w.len() > 4 && w[0] == HID_REPORT_COMMAND && (w[3] == b'2' || w[3] == b'3') {
            for &byte in &w[4..] {
                if byte > 0 {
                    assert!(byte <= 170, "Color byte {byte} exceeds scaled max 170");
                }
            }
        }
    }
}

#[test]
fn replay_panel_animation() {
    let mut rig = Rig::one();
    rig.connect();
    for _ in 0..30 {
        let now = rig.now;
        rig.mgr.set_lights(&vec![128u8; 1350], now);
        rig.run(33);
    }
    rig.mgr.reenable_auto_lights();
    rig.run(200);
    let writes = rig.writes();
    let lights_count = count_command(&writes, b'2') + count_command(&writes, b'3');
    assert!(lights_count >= 30, "Expected >= 30 lights commands, got {lights_count}");
    assert!(has_command_str(&writes, b"S 1\n"), "Expected 'S 1\\n' at end");
}

#[test]
fn replay_animation_upload() {
    let mut rig = Rig::one();
    rig.connect();
    let pad = if rig.mgr.get_info(0).connected { 0 } else { 1 };
    let gif = generate_test_animation_gif();
    let upload = prepare_upload(&gif, pad, LightsType::Released).unwrap();
    for cmd in &upload.commands {
        match cmd {
            UploadCommand::Packet(data) => rig.mgr.send_command(pad, data, None),
            UploadCommand::Delay(ms) => rig.run(*ms as u64),
        }
    }
    rig.run(500);
    let upload_count = count_command(&rig.writes(), b'm');
    assert!(upload_count > 0, "Expected 'm' upload commands, got 0");
}

fn generate_test_animation_gif() -> Vec<u8> {
    let colors: [(u8, u8, u8); 3] = [(255, 0, 0), (0, 255, 0), (0, 0, 255)];
    let mut buf = Cursor::new(Vec::new());
    {
        let mut encoder = GifEncoder::new(&mut buf);
        let frames: Vec<Frame> = colors
            .iter()
            .map(|&(r, g, b)| {
                let mut img = RgbaImage::new(23, 24);
                for y in 0..24 {
                    for x in 0..23 {
                        img.put_pixel(x, y, Rgba([r, g, b, 255]));
                    }
                }
                Frame::new(img)
            })
            .collect();
        encoder.encode_frames(frames.into_iter()).unwrap();
    }
    buf.into_inner()
}

#[test]
fn replayed_reads_wait_for_their_write() {
    let mut capture = capture_header();
    for (kind, data) in [
        (RECORD_READ, vec![3, 9, 9]),
        (RECORD_WRITE, vec![5, 1]),
        (RECORD_READ, vec![6, 1]),
        (RECORD_READ, vec![6, 2]),
        (RECORD_WRITE, vec![5, 2]),
        (RECORD_READ, vec![6, 3]),
    ] {
        capture.extend(encode_transfer(kind, 1, &data).unwrap());
    }
    let mut dev = ReplayDevice::from_file(&capture);
    assert_eq!(dev.get_expected_writes(), vec![vec![5, 1], vec![5, 2]]);
    assert_eq!(dev.read(64), vec![3, 9, 9]);
    assert!(dev.read(64).is_empty());
    assert_eq!(dev.write(&[7, 7, 7]), 3);
    assert_eq!(dev.read(64), vec![6, 1]);
    assert_eq!(dev.read(1), vec![6]);
    assert!(dev.read(64).is_empty());
    dev.write(&[8]);
    assert_eq!(dev.read(64), vec![6, 3]);
    dev.write(&[9]);
    assert!(dev.read(64).is_empty());
    assert_eq!(dev.get_actual_writes(), vec![vec![7, 7, 7], vec![8], vec![9]]);
}

#[test]
fn replay_enumerator_names_its_devices() {
    let e = ReplayEnumerator::from_capture_dir(None, Some(recording(true, 0)));
    let found = e.enumerate(0, 0);
    assert_eq!(found.len(), 1);
    assert_eq!(found[0].path, "/dev/smx_replay_1");
    assert_eq!(found[0].product, "StepManiaX");
    assert!(e.open(&"/dev/smx_replay_0".to_string()).is_err());
    assert_eq!(e.open(&"/dev/smx_replay_1".to_string()).unwrap(), 0);
}
