//! One pad: configuration, sensor test and the old configuration format.

use rustmaniax_sdk::config::{config_from_bytes, config_to_bytes, overwrite_config, CONFIG_SIZE};
use rustmaniax_sdk::connection::{open_connection, PollHandle};
use rustmaniax_sdk::device::{serial_is_assigned, SmxDevice};
use rustmaniax_sdk::legacy_config::{convert_to_new_config, convert_to_old_config};
use rustmaniax_sdk::protocol::{
    CONFIG_WRITE_RATE_LIMIT, HID_PACKET_SIZE, NUM_PANELS, SENSOR_TEST_INTERVAL,
    SENSOR_TEST_TIMEOUT,
};
use rustmaniax_sdk::sensor::parse_sensor_test_data;
use rustmaniax_sdk::test_helpers::FakeDevice;
use rustmaniax_sdk::{SensorTestMode, SmxConfig, SmxError, SmxEvent, UpdateReason};

/// Size of the old configuration record with its padding.
const OLD_RECORD: usize = 250;

#[test]
fn sensor_test_signature_check() {
    // All zeros: the second signature bit should be 1 for valid data.
    let data = vec![0u16; 80];
    let result = parse_sensor_test_data(&data, 5);
    for panel in 0..NUM_PANELS {
        assert!(!result.have_data_from_panel[panel]);
    }
}

/// Writes bit `i` of a panel's record.
fn set_bit(data: &mut [u16], panel: usize, i: usize) {
    data[i] |= 1 << panel;
}

#[test]
fn sensor_test_data_of_one_panel() {
    let mut data = vec![0u16; 80];
    set_bit(&mut data, 3, 1);
    // Bad sensor bits 1 and 3.
    set_bit(&mut data, 3, 4);
    set_bit(&mut data, 3, 6);
    // Sensor 0 = 0x1234, sensor 2 = -2.
    for b in 0..16 {
        if (0x1234 >> b) & 1 == 1 {
            set_bit(&mut data, 3, 8 + b);
        }
        if (0xFFFEu32 >> b) & 1 == 1 {
            set_bit(&mut data, 3, 8 + 32 + b);
        }
    }
    // DIP switch 0b1010, bad jumper 2.
    set_bit(&mut data, 3, 73);
    set_bit(&mut data, 3, 75);
    set_bit(&mut data, 3, 78);
    let r = parse_sensor_test_data(&data, 4);
    for panel in 0..NUM_PANELS {
        assert_eq!(r.have_data_from_panel[panel], panel == 3);
    }
    assert_eq!(r.sensor_level[3], [0x1234, 0, -2, 0]);
    assert_eq!(r.bad_sensor_input[3], [false, true, false, true]);
    assert_eq!(r.dip_switch_per_panel[3], 10);
    assert_eq!(r.bad_jumper[3], [false, false, true, false]);
    assert_eq!(r.sensor_level[2], [0; 4]);
    // From firmware 5 on the bad sensor bits do not count.
    let r = parse_sensor_test_data(&data, 5);
    assert_eq!(r.bad_sensor_input[3], [false; 4]);
    assert_eq!(r.sensor_level[3], [0x1234, 0, -2, 0]);
}

#[test]
fn short_sensor_test_data_reads_as_zero() {
    let data = vec![0u16, 0x1FF, 0];
    let r = parse_sensor_test_data(&data, 4);
    for panel in 0..NUM_PANELS {
        assert!(r.have_data_from_panel[panel]);
        assert_eq!(r.sensor_level[panel], [0; 4]);
        assert_eq!(r.dip_switch_per_panel[panel], 0);
    }
}

#[test]
fn old_config_roundtrip() {
    let mut config = SmxConfig::zeroed();
    config.config_version = 3;
    config.master_version = 4;
    config.debounce_nodelay_ms = 100;
    config.panel_settings[7].load_cell_low_threshold = 42;
    config.panel_settings[0].load_cell_high_threshold = 99;
    config.debounce_delay_ms = 200;

    let mut old_data = Vec::new();
    convert_to_old_config(&config, &mut old_data);

    let mut result = SmxConfig::zeroed();
    convert_to_new_config(&old_data, &mut result);

    assert_eq!(result.debounce_nodelay_ms, 100);
    assert_eq!(result.panel_settings[7].load_cell_low_threshold, 42);
    assert_eq!(result.panel_settings[0].load_cell_high_threshold, 99);
    assert_eq!(result.debounce_delay_ms, 200);
    assert_eq!(result.config_version, 3);
}

#[test]
fn convert_version_0xff_copies_base_only() {
    let mut old = vec![0u8; OLD_RECORD];
    old[63] = 0xFF;
    old[6] = (500u16 % 256) as u8;
    old[7] = (500u16 / 256) as u8;
    old[8] = 77;
    old[74] = 99; // version 2 field, must not be copied

    let mut config = SmxConfig::zeroed();
    convert_to_new_config(&old, &mut config);

    assert_eq!(config.debounce_nodelay_ms, 500);
    assert_eq!(config.panel_settings[7].load_cell_low_threshold, 77);
    assert_eq!(config.panel_settings[0].load_cell_low_threshold, 0);
    assert_eq!(config.master_version, 0);
}

#[test]
fn convert_version_1_skips_v2_panels() {
    let mut old = vec![0u8; OLD_RECORD];
    old[63] = 1;
    old[62] = 2;
    old[8] = 50;
    old[74] = 88; // version 2 field

    let mut config = SmxConfig::zeroed();
    convert_to_new_config(&old, &mut config);

    assert_eq!(config.panel_settings[7].load_cell_low_threshold, 50);
    assert_eq!(config.panel_settings[0].load_cell_low_threshold, 0);
    assert_eq!(config.config_version, 1);
    assert_eq!(config.master_version, 2);
}

#[test]
fn convert_version_2_copies_all_panels_but_not_debounce_delay() {
    let mut old = vec![0u8; OLD_RECORD];
    old[63] = 2;
    old[62] = 3;
    old[74] = 10;
    old[76] = 30;
    old[78] = 50;
    old[80] = 60;
    old[82] = 80;
    old[84] = (999u16 % 256) as u8; // version 3 field
    old[85] = (999u16 / 256) as u8;

    let mut config = SmxConfig::zeroed();
    convert_to_new_config(&old, &mut config);

    assert_eq!(config.panel_settings[0].load_cell_low_threshold, 10);
    assert_eq!(config.panel_settings[3].load_cell_low_threshold, 30);
    assert_eq!(config.panel_settings[5].load_cell_low_threshold, 50);
    assert_eq!(config.panel_settings[6].load_cell_low_threshold, 60);
    assert_eq!(config.panel_settings[8].load_cell_low_threshold, 80);
    assert_eq!(config.debounce_delay_ms, 0);
}

#[test]
fn convert_version_3_copies_debounce_delay() {
    let mut old = vec![0u8; OLD_RECORD];
    old[63] = 3;
    old[62] = 4;
    old[84] = 250;
    old[74] = 11;

    let mut config = SmxConfig::zeroed();
    convert_to_new_config(&old, &mut config);

    assert_eq!(config.debounce_delay_ms, 250);
    assert_eq!(config.panel_settings[0].load_cell_low_threshold, 11);
}

#[test]
fn convert_enabled_sensors_and_step_color() {
    let mut old = vec![0u8; OLD_RECORD];
    old[63] = 1;
    old[62] = 1;
    old[26..31].copy_from_slice(&[0x1F, 0x0A, 0x00, 0xFF, 0x55]);
    old[32] = 100;
    old[58] = 200;

    let mut config = SmxConfig::zeroed();
    convert_to_new_config(&old, &mut config);

    assert_eq!(config.enabled_sensors, [0x1F, 0x0A, 0x00, 0xFF, 0x55]);
    assert_eq!(config.step_color[0], 100);
    assert_eq!(config.step_color[26], 200);
}

#[test]
fn convert_to_old_extends_small_buffer() {
    let config = SmxConfig::zeroed();
    let mut old_data = vec![0u8; 10];
    convert_to_old_config(&config, &mut old_data);
    assert!(old_data.len() >= 128);
    assert_eq!(old_data.len(), 128);
    assert_eq!(old_data[0], 0);
    // Bytes that no field covers are filled with 0xFF.
    assert_eq!(old_data[22], 0xFF);
    assert_eq!(old_data[127], 0xFF);
}

#[test]
fn old_config_is_written_back_unchanged() {
    let mut old: Vec<u8> = (0..128u32).map(|i| (i * 7 + 3) as u8).collect();
    old[63] = 4;
    let before = old.clone();
    let mut config = SmxConfig::zeroed();
    convert_to_new_config(&old, &mut config);
    convert_to_old_config(&config, &mut old);
    assert_eq!(old, before);
}

#[test]
fn config_bytes_round_trip() {
    let bytes: Vec<u8> = (0..CONFIG_SIZE as u32).map(|i| (i * 13 + 5) as u8).collect();
    let config = config_from_bytes(&bytes);
    assert_eq!(config_to_bytes(&config), bytes);
    assert_eq!(config.master_version, bytes[0]);
    assert_eq!(
        config.debounce_nodelay_ms,
        bytes[3] as u16 + 256 * bytes[4] as u16
    );
    assert_eq!(config.panel_settings[8].load_cell_low_threshold, bytes[56 + 128]);
    assert_eq!(config.panel_settings[1].fsr_high_threshold[2], bytes[56 + 16 + 8]);
    assert_eq!(config.padding2[16], bytes[249]);
    assert_eq!(config_to_bytes(&SmxConfig::zeroed()), vec![0u8; CONFIG_SIZE]);
}

#[test]
fn config_is_overwritten_from_the_front() {
    let bytes: Vec<u8> = (0..CONFIG_SIZE as u32).map(|i| i as u8).collect();
    let config = config_from_bytes(&bytes);
    let changed = overwrite_config(&config, &[0xAA; 3]);
    let mut want = bytes.clone();
    want[..3].copy_from_slice(&[0xAA; 3]);
    assert_eq!(config_to_bytes(&changed), want);
    let changed = overwrite_config(&config, &[0xBB; 255]);
    assert_eq!(config_to_bytes(&changed), vec![0xBB; CONFIG_SIZE]);
}

#[test]
fn get_config_returns_none_when_not_connected() {
    let device = SmxDevice::new(0);
    assert!(device.get_config().is_none());
}

#[test]
fn set_config_does_nothing_when_not_connected() {
    let mut device = SmxDevice::new(0);
    device.set_config(SmxConfig::zeroed());
    assert!(device.get_config().is_none());
}

/// A pad with a fake device behind it.
struct Rig {
    device: SmxDevice,
    poll: PollHandle,
    fake: FakeDevice,
}

impl Rig {
    fn new(fake: FakeDevice) -> Rig {
        let (poll, cmd) = open_connection("/dev/test".to_string(), false);
        let mut device = SmxDevice::new(0);
        device.set_update_callback();
        device.set_connection(cmd);
        Rig { device, poll, fake }
    }

    fn step(&mut self, now: u64) -> Result<(), SmxError> {
        self.device.update(now)?;
        let conn = self.device.connection_mut().unwrap();
        while let Some(job) = conn.take_write_job() {
            let failed = job.iter().any(|p| self.fake.write(p).is_err());
            conn.write_finished(failed);
        }
        let mut reads = Vec::new();
        let mut failed = false;
        loop {
            match self.fake.read(HID_PACKET_SIZE) {
                Ok(p) if p.is_empty() => break,
                Ok(p) => reads.push(p),
                Err(_) => {
                    failed = true;
                    break;
                }
            }
        }
        self.poll.poll(&mut conn.shared, &reads, failed);
        Ok(())
    }

    fn connect(&mut self) {
        for _ in 0..20 {
            self.step(0).unwrap();
            if self.device.is_connected() {
                break;
            }
        }
        assert!(self.device.is_connected());
    }

    fn commands(&self) -> Vec<u8> {
        self.fake
            .get_writes()
            .iter()
            .filter(|w| w[1] & 4 != 0)
            .map(|w| w[3])
            .collect()
    }
}

#[test]
fn get_config_returns_pending_after_set() {
    let mut rig = Rig::new(FakeDevice::new_auto(false, 5));
    rig.connect();
    let mut cfg = rig.device.get_config().unwrap();
    cfg.auto_lights_timeout = 99;
    rig.device.set_config(cfg);
    // get_config returns the pending value.
    let readback = rig.device.get_config().unwrap();
    assert_eq!(readback.auto_lights_timeout, 99);
}

#[test]
fn factory_reset_does_nothing_when_not_connected() {
    let mut device = SmxDevice::new(0);
    device.factory_reset();
    assert!(!device.has_connection());
}

#[test]
fn force_recalibration_does_nothing_when_not_connected() {
    let mut device = SmxDevice::new(0);
    device.force_recalibration();
    assert!(!device.has_connection());
}

#[test]
fn device_connects_with_auto_fake() {
    let mut rig = Rig::new(FakeDevice::new_auto(false, 5));
    rig.connect();
    let info = rig.device.get_info();
    assert_eq!(info.firmware_version, 5);
    assert!(!info.is_player2);
    assert!(info.has_serial_number);
    assert_eq!(info.serial, "a0a1a2a3a4a5a6a7a8a9aaabacadaeaf");
    assert_eq!(rig.device.get_config().unwrap().master_version, 5);
    let events = rig.device.take_events();
    assert!(events.iter().any(|e| matches!(e, SmxEvent::ConfigUpdated { pad: 0 })));
}

#[test]
fn config_write_is_rate_limited_and_read_back() {
    let mut rig = Rig::new(FakeDevice::new_auto(false, 5));
    rig.connect();
    rig.fake.clear_writes();
    let mut cfg = rig.device.get_config().unwrap();
    cfg.flags = 3;
    rig.device.set_config(cfg);
    for _ in 0..6 {
        rig.step(1000).unwrap();
    }
    assert_eq!(rig.commands(), b"WG");
    rig.device.set_config(cfg);
    for _ in 0..6 {
        rig.step(999 + CONFIG_WRITE_RATE_LIMIT).unwrap();
    }
    assert_eq!(rig.commands(), b"WG");
    for _ in 0..6 {
        rig.step(1000 + CONFIG_WRITE_RATE_LIMIT).unwrap();
    }
    assert_eq!(rig.commands(), b"WGWG");
}

/// An answer to a sensor test request with one word.
fn sensor_answer(mode: u8, words: &[u16]) -> Vec<u8> {
    let mut a = vec![b'y', mode, words.len() as u8];
    for w in words {
        a.extend_from_slice(&w.to_le_bytes());
    }
    a
}

#[test]
fn sensor_requests_are_paced_and_answered() {
    let mut rig = Rig::new(FakeDevice::new_auto(false, 4));
    rig.connect();
    rig.fake.clear_writes();
    rig.device.set_sensor_test_mode(SensorTestMode::CalibratedValues);
    assert!(rig.device.is_sensor_test_active());
    assert!(rig.device.get_test_data().is_none());
    assert_eq!(rig.device.next_sensor_request(), Some(0));
    for _ in 0..4 {
        rig.step(1000).unwrap();
    }
    assert_eq!(rig.commands(), b"y");
    assert_eq!(
        rig.device.next_sensor_request(),
        Some(1000 + SENSOR_TEST_TIMEOUT)
    );
    // An answer of another mode is not waited for.
    rig.fake.queue_command_response(&sensor_answer(b'2', &[0, 1, 0]));
    for _ in 0..4 {
        rig.step(2000).unwrap();
    }
    assert!(rig.device.get_test_data().is_none());
    rig.device.take_events();
    rig.fake.queue_command_response(&sensor_answer(b'1', &[0, 1, 0]));
    for _ in 0..4 {
        rig.step(2000).unwrap();
    }
    let data = rig.device.get_test_data().unwrap();
    assert!(data.have_data_from_panel[0]);
    assert!(!data.have_data_from_panel[1]);
    let events = rig.device.take_events();
    assert!(matches!(events[0], SmxEvent::SensorTestData { pad: 0, .. }));
    // The next request waits for its time.
    assert_eq!(
        rig.device.next_sensor_request(),
        Some(1000 + SENSOR_TEST_INTERVAL)
    );
    for _ in 0..4 {
        rig.step(999 + SENSOR_TEST_INTERVAL).unwrap();
    }
    assert_eq!(rig.commands(), b"y");
    for _ in 0..4 {
        rig.step(1000 + SENSOR_TEST_INTERVAL).unwrap();
    }
    assert_eq!(rig.commands(), b"yy");
}

#[test]
fn sensor_answer_of_a_mode_that_was_left_only_ends_the_wait() {
    let mut rig = Rig::new(FakeDevice::new_auto(false, 4));
    rig.connect();
    rig.device.set_sensor_test_mode(SensorTestMode::Noise);
    for _ in 0..3 {
        rig.step(5).unwrap();
    }
    rig.device.set_sensor_test_mode(SensorTestMode::Tare);
    rig.fake.queue_command_response(&sensor_answer(b'2', &[0, 1, 0]));
    for _ in 0..3 {
        rig.step(6).unwrap();
    }
    assert!(rig.device.get_test_data().is_none());
    assert_eq!(rig.device.waiting_for_sensor_response, SensorTestMode::Off);
}

#[test]
fn broken_config_packets_are_ignored() {
    let mut rig = Rig::new(FakeDevice::new_auto(false, 5));
    rig.connect();
    let before = config_to_bytes(&rig.device.config);
    rig.fake.queue_command_response(b"G");
    rig.fake.queue_command_response(&[b'G', 5, 1, 2]);
    rig.fake.queue_command_response(b"?");
    for _ in 0..3 {
        rig.step(7).unwrap();
    }
    assert_eq!(config_to_bytes(&rig.device.config), before);
}

#[test]
fn closing_answers_and_reports() {
    let mut rig = Rig::new(FakeDevice::new_auto(false, 5));
    rig.connect();
    rig.device.take_events();
    rig.device.send_command(b"Q", Some(4));
    rig.device.close();
    assert!(!rig.device.has_connection());
    assert!(!rig.device.is_connected());
    assert_eq!(rig.device.input_state(), 0);
    let events = rig.device.take_events();
    assert_eq!(events.len(), 1);
    assert!(matches!(events[0], SmxEvent::Disconnected { pad: 0 }));
    let answers = rig.device.take_completions();
    assert_eq!(answers.len(), 1);
    assert_eq!(answers[0].callback, 4);
}

#[test]
fn events_need_a_listener() {
    let mut device = SmxDevice::new(1);
    device.call_update(UpdateReason::Disconnected);
    assert!(device.take_events().is_empty());
    device.set_update_callback();
    device.call_update(UpdateReason::Updated);
    assert!(device.take_events().is_empty());
    device.call_update(UpdateReason::InputState);
    device.call_update(UpdateReason::Connected);
    let events = device.take_events();
    assert!(matches!(events[0], SmxEvent::InputState { pad: 1, state: 0 }));
    assert!(matches!(&events[1], SmxEvent::Connected { pad: 1, info } if !info.connected));
}

#[test]
fn unassigned_serials_are_recognised() {
    assert!(!serial_is_assigned("00000000"));
    assert!(!serial_is_assigned("ffff0000"));
    assert!(!serial_is_assigned(""));
    assert!(serial_is_assigned("00000001"));
    assert!(serial_is_assigned("fffffffe"));
}

#[test]
fn errors_in_words() {
    assert_eq!(SmxError::Hid("gone".to_string()).message(), "HID error: gone");
    assert_eq!(SmxError::NotConnected.message(), "device not connected");
    assert_eq!(SmxError::InvalidPacket.message(), "invalid packet");
    assert_eq!(SmxError::Timeout.message(), "command timeout");
}

#[test]
fn sensor_mode_bytes() {
    for (mode, byte) in [
        (SensorTestMode::UncalibratedValues, b'0'),
        (SensorTestMode::CalibratedValues, b'1'),
        (SensorTestMode::Noise, b'2'),
        (SensorTestMode::Tare, b'3'),
    ] {
        assert_eq!(mode.byte(), byte);
        assert_eq!(SensorTestMode::from_byte(byte), mode);
    }
    assert_eq!(SensorTestMode::from_byte(b'4'), SensorTestMode::Off);
}
