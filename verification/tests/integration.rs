//! Both pads, driven on a clock of the test against fake devices.

use std::io::Cursor;

use image::codecs::gif::GifEncoder;
use image::{Frame, Rgba, RgbaImage};
use rustmaniax_sdk::manager::{generate_serial, OpenDecision};
use rustmaniax_sdk::protocol::{
    HID_PACKET_SIZE, HID_REPORT_COMMAND, HID_REPORT_DATA, PACKET_FLAG_END_OF_COMMAND,
    PACKET_FLAG_HOST_CMD_FINISHED, PACKET_FLAG_START_OF_COMMAND, SMX_USB_PRODUCT_ID,
    SMX_USB_VENDOR_ID,
};
use rustmaniax_sdk::test_helpers::{FakeDevice, FakeEnumerator};
use rustmaniax_sdk::{
    HidDeviceInfo, LightsType, PanelTestMode, SensorTestMode, SmxConfig, SmxEvent, SmxInfo,
    SmxManager,
};

const MS: u64 = 1_000_000;

/// A manager, its fake devices, and a clock that the test moves.
struct Rig {
    mgr: SmxManager,
    enumerator: FakeEnumerator,
    now: u64,
    events: Vec<SmxEvent>,
    /// Time of the next animation frame.
    next_frame: u64,
    /// Number of open calls so far, and those that fail.
    opens: usize,
    fail_on: Vec<usize>,
    /// Whether the devices can be found.
    plugged: bool,
}

impl Rig {
    fn with(devices: Vec<FakeDevice>) -> Rig {
        let named = devices
            .into_iter()
            .enumerate()
            .map(|(i, d)| (format!("/dev/smx{i}"), d))
            .collect();
        Rig {
            mgr: SmxManager::new(),
            enumerator: FakeEnumerator::new(named),
            now: 0,
            events: Vec::new(),
            next_frame: 0,
            opens: 0,
            fail_on: Vec::new(),
            plugged: true,
        }
    }

    fn one(is_p2: bool, firmware: u16) -> Rig {
        Rig::with(vec![FakeDevice::new_auto(is_p2, firmware)])
    }

    fn two() -> Rig {
        Rig::with(vec![
            FakeDevice::new_auto(false, 5),
            FakeDevice::new_auto(true, 5),
        ])
    }

    fn dev(&mut self, i: usize) -> &mut FakeDevice {
        &mut self.enumerator.devices[i].1
    }

    fn open(&mut self, path: &String) -> bool {
        self.opens += 1;
        !self.fail_on.contains(&self.opens) && self.enumerator.open(path).is_ok()
    }

    fn discover(&mut self) {
        let mut found = Vec::new();
        if self.plugged {
            found = self
                .enumerator
                .enumerate(SMX_USB_VENDOR_ID, SMX_USB_PRODUCT_ID);
        }
        self.mgr.begin_discovery(&found, self.now);
        for info in &found {
            match self.mgr.open_decision(info) {
                OpenDecision::Skip => {}
                OpenDecision::Stop => break,
                OpenDecision::Open(slot) => {
                    let read_opened = self.open(&info.path);
                    let write_opened = read_opened && self.open(&info.path);
                    let got = self.mgr.open_finished(info, read_opened, write_opened);
                    assert_eq!(got, write_opened.then_some(slot));
                }
            }
        }
    }

    fn serve(&mut self, slot: usize) {
        let path = match self.mgr.devices[slot].connection() {
            Some(conn) => conn.path().to_string(),
            None => return,
        };
        let i = self
            .enumerator
            .devices
            .iter()
            .position(|d| d.0 == path)
            .unwrap();
        while let Some(job) = self.mgr.take_write_job(slot) {
            let mut failed = false;
            for packet in &job {
                if self.enumerator.devices[i].1.write(packet).is_err() {
                    failed = true;
                    break;
                }
            }
            self.mgr.write_finished(slot, failed);
        }
        let mut reads = Vec::new();
        let mut failed = false;
        loop {
            match self.enumerator.devices[i].1.read(HID_PACKET_SIZE) {
                Ok(packet) => {
                    if packet.is_empty() {
                        break;
                    }
                    reads.push(packet);
                }
                Err(_) => {
                    failed = true;
                    break;
                }
            }
        }
        self.mgr.poll(slot, &reads, failed);
    }

    fn step(&mut self) {
        if self.mgr.wants_enumeration(self.now) {
            self.discover();
        }
        if self.mgr.anim_running && self.now >= self.next_frame {
            self.mgr.animate(self.now);
            self.next_frame = self.now + 33 * MS;
        }
        self.mgr.tick(self.now);
        self.serve(0);
        self.serve(1);
        let mut events = self.mgr.take_events();
        self.events.append(&mut events);
        self.now += MS;
    }

    fn run(&mut self, ms: u64) {
        for _ in 0..ms {
            self.step();
        }
    }

    fn wait_for(&mut self, done: fn(&Rig) -> bool, ms: u64) -> bool {
        for _ in 0..ms {
            if done(self) {
                return true;
            }
            self.step();
        }
        done(self)
    }

    fn connect(&mut self) {
        assert!(self.wait_for(|r| r.mgr.get_info(0).connected, 2000));
    }

    fn connect_both(&mut self) {
        assert!(self.wait_for(
            |r| r.mgr.get_info(0).connected && r.mgr.get_info(1).connected,
            2000
        ));
    }

    fn connects(&self) -> usize {
        self.events
            .iter()
            .filter(|e| matches!(e, SmxEvent::Connected { .. }))
            .count()
    }
}

fn has_command(writes: &[Vec<u8>], cmd: u8) -> bool {
    writes
        .iter()
        .any(|w| w.len() > 3 && w[0] == HID_REPORT_COMMAND && w[3] == cmd)
}

// ─── Discovery & Connection ──────────────────────────────────────────────────

#[test]
fn single_p1_device_discovered_and_connected() {
    let mut rig = Rig::one(false, 5);
    let connected = rig.wait_for(|r| r.mgr.get_info(0).connected, 2000);
    assert!(connected, "Device did not connect within timeout");
    let info: SmxInfo = rig.mgr.get_info(0);
    assert!(!info.is_player2);
    assert_eq!(info.firmware_version, 5);
    rig.step();
    assert!(rig
        .events
        .iter()
        .any(|e| matches!(e, SmxEvent::Connected { pad: 0, .. })));
}

#[test]
fn single_p2_device_placed_in_slot_1() {
    let mut rig = Rig::one(true, 5);
    let connected = rig.wait_for(|r| r.mgr.get_info(1).connected, 2000);
    assert!(connected, "P2 device did not connect in slot 1");
    assert!(!rig.mgr.get_info(0).connected);
    assert!(rig.mgr.get_info(1).is_player2);
}

#[test]
fn two_devices_ordered_p1_slot0_p2_slot1() {
    let mut rig = Rig::two();
    rig.connect_both();
    assert!(!rig.mgr.get_info(0).is_player2);
    assert!(rig.mgr.get_info(1).is_player2);
}

#[test]
fn devices_found_in_reverse_are_ordered_too() {
    let mut rig = Rig::with(vec![
        FakeDevice::new_auto(true, 5),
        FakeDevice::new_auto(false, 5),
    ]);
    rig.connect_both();
    rig.run(10);
    assert!(!rig.mgr.get_info(0).is_player2);
    assert!(rig.mgr.get_info(1).is_player2);
}

#[test]
fn set_player_assignment_overrides_jumper_order() {
    let mut rig = Rig::two();
    rig.connect_both();

    let s0 = rig.mgr.get_info(0).serial;
    let s1 = rig.mgr.get_info(1).serial;
    assert_ne!(s0, s1);
    assert!(!rig.mgr.get_info(0).is_player2);
    assert!(rig.mgr.get_info(1).is_player2);

    // Pinned the other way round: the slots swap at once.
    rig.mgr.set_player_assignment(Some(s1.clone()), Some(s0.clone()));
    assert_eq!(rig.mgr.get_info(0).serial, s1, "P2-jumpered pad should now be slot 0");
    assert_eq!(rig.mgr.get_info(1).serial, s0, "P1-jumpered pad should now be slot 1");

    // Setting the same assignment again changes nothing.
    rig.mgr.set_player_assignment(Some(s1.clone()), Some(s0.clone()));
    assert_eq!(rig.mgr.get_info(0).serial, s1);
    assert_eq!(rig.mgr.get_info(1).serial, s0);

    // Clearing it restores the jumper order.
    rig.mgr.set_player_assignment(None, None);
    assert_eq!(rig.mgr.get_info(0).serial, s0, "jumper order restored after clear");
    assert_eq!(rig.mgr.get_info(1).serial, s1);
}

#[test]
fn get_input_state_through_full_stack() {
    let mut rig = Rig::one(false, 5);
    rig.connect();
    rig.dev(0).queue_input_state(0x0155);
    rig.run(100);
    assert_eq!(rig.mgr.get_input_state(0), 0x0155);
    assert!(rig
        .events
        .iter()
        .any(|e| matches!(e, SmxEvent::InputState { pad: 0, state: 0x0155 })));
}

#[test]
fn get_info_disconnected_pad() {
    let rig = Rig::one(false, 5);
    let info = rig.mgr.get_info(1);
    assert!(!info.connected);
    assert_eq!(info.firmware_version, 0);
}

#[test]
fn all_handles_of_a_path_are_one_device() {
    let mut e = FakeEnumerator::new(vec![
        ("/a".to_string(), FakeDevice::new()),
        ("/b".to_string(), FakeDevice::new_auto(false, 5)),
        ("/b".to_string(), FakeDevice::new()),
    ]);
    let first = e.open(&"/b".to_string()).unwrap();
    let second = e.open(&"/b".to_string()).unwrap();
    assert_eq!((first, second), (1, 1));
    assert!(e.open(&"/c".to_string()).is_err());
    e.devices[first].1.queue_read(vec![9]);
    e.devices[first].1.write(&[5, 0, 1, b'x']).unwrap();
    e.devices[first].1.set_fail_reads(true);
    assert_eq!(e.devices[second].1.get_writes().len(), 1);
    // Clearing forgets the writes and nothing else.
    e.devices[second].1.clear_writes();
    assert!(e.devices[first].1.get_writes().is_empty());
    assert!(e.devices[first].1.read(64).is_err());
    e.devices[first].1.set_fail_reads(false);
    assert_eq!(e.devices[first].1.read(64).unwrap(), vec![9]);
    assert!(!e.devices[first].1.read(64).unwrap().is_empty());
    e.devices[first].1.write(&[7]).unwrap();
    assert_eq!(e.devices[second].1.get_writes(), vec![vec![7]]);
}

#[test]
fn wrong_products_and_third_devices_are_left_alone() {
    let mut mgr = SmxManager::new();
    let info = |path: &str, product: &str| HidDeviceInfo {
        path: path.to_string(),
        product: product.to_string(),
    };
    assert_eq!(mgr.open_decision(&info("", "StepManiaX")), OpenDecision::Skip);
    assert_eq!(mgr.open_decision(&info("/a", "Arduino")), OpenDecision::Skip);
    assert_eq!(mgr.open_decision(&info("/a", "StepManiaX")), OpenDecision::Open(0));
    assert_eq!(mgr.open_finished(&info("/a", "StepManiaX"), true, true), Some(0));
    assert_eq!(mgr.open_decision(&info("/a", "StepManiaX")), OpenDecision::Skip);
    assert_eq!(mgr.open_decision(&info("/b", "StepManiaX")), OpenDecision::Open(1));
    assert_eq!(mgr.open_finished(&info("/c", "StepManiaX"), false, false), None);
    assert_eq!(mgr.open_decision(&info("/c", "StepManiaX")), OpenDecision::Skip);
    // Without the second handle nothing changes, and the device may be tried again.
    assert_eq!(mgr.open_finished(&info("/b", "StepManiaX"), true, false), None);
    assert_eq!(mgr.failed_paths, vec!["/c".to_string()]);
    assert_eq!(mgr.open_decision(&info("/b", "StepManiaX")), OpenDecision::Open(1));
    assert_eq!(mgr.open_finished(&info("/b", "StepManiaX"), true, true), Some(1));
    assert_eq!(mgr.open_finished(&info("/d", "StepManiaX"), true, true), None);
    assert_eq!(mgr.open_decision(&info("/d", "StepManiaX")), OpenDecision::Stop);
    assert_eq!(mgr.slot_for_path(&"/b".to_string()), Some(1));
    assert_eq!(mgr.slot_for_path(&"/d".to_string()), None);
    // A failed device that is gone may be tried again.
    mgr.begin_discovery(&vec![info("/c", "StepManiaX")], 0);
    assert_eq!(mgr.failed_paths.len(), 1);
    mgr.begin_discovery(&vec![info("/d", "StepManiaX")], 0);
    assert!(mgr.failed_paths.is_empty());
}

// ─── Commands ────────────────────────────────────────────────────────────────

#[test]
fn factory_reset_sends_f_and_g_commands() {
    let mut rig = Rig::one(false, 5);
    rig.connect();
    rig.dev(0).clear_writes();
    rig.mgr.factory_reset(0);
    rig.run(200);
    let writes = rig.dev(0).get_writes();
    assert!(has_command(&writes, b'f'), "Expected 'f' command");
    assert!(has_command(&writes, b'G'), "Expected 'G' command");
}

#[test]
fn force_recalibration_sends_c_command() {
    let mut rig = Rig::one(false, 5);
    rig.connect();
    rig.dev(0).clear_writes();
    rig.mgr.force_recalibration(0);
    rig.run(200);
    let writes = rig.dev(0).get_writes();
    assert!(has_command(&writes, b'C'), "Expected 'C' command");
}

#[test]
fn reenable_auto_lights_sends_command() {
    let mut rig = Rig::one(false, 5);
    rig.connect();
    rig.dev(0).clear_writes();
    rig.mgr.reenable_auto_lights();
    rig.run(200);
    let writes = rig.dev(0).get_writes();
    let has_s = writes.iter().any(|w| {
        w.len() > 6 && w[0] == HID_REPORT_COMMAND && w[3] == b'S' && w[4] == b' ' && w[5] == b'1'
    });
    assert!(has_s, "Expected 'S 1' command");
}

#[test]
fn panel_test_mode_sends_t_command() {
    let mut rig = Rig::one(false, 5);
    rig.connect();
    rig.dev(0).clear_writes();
    rig.mgr.set_panel_test_mode(PanelTestMode::PressureTest);
    rig.run(200);
    let writes = rig.dev(0).get_writes();
    let has_t = writes
        .iter()
        .any(|w| w.len() > 5 && w[0] == HID_REPORT_COMMAND && w[3] == b't' && w[5] == b'1');
    assert!(has_t, "Expected 't 1' command");
}

#[test]
fn set_serial_numbers_sends_s_command() {
    let mut rig = Rig::one(false, 5);
    rig.connect();
    rig.dev(0).clear_writes();
    rig.mgr.set_serial_numbers([1, 2]);
    rig.run(200);
    let writes = rig.dev(0).get_writes();
    let has_s = writes
        .iter()
        .any(|w| w.len() > 3 && w[0] == HID_REPORT_COMMAND && w[3] == b's' && w[2] >= 18);
    assert!(has_s, "Expected 's' command with serial data");
    let sent = writes.iter().find(|w| w[3] == b's').unwrap();
    assert_eq!(&sent[4..20], &generate_serial(1));
    assert_eq!(sent[20], b'\n');
}

#[test]
fn serial_numbers_follow_the_generator() {
    let mut state: u64 = 0x1234_5678_9ABC_DEF0;
    let serial = generate_serial(state);
    for byte in serial {
        state ^= state << 13;
        state ^= state >> 7;
        state ^= state << 17;
        assert_eq!(byte, state as u8);
    }
    // 1 -> 0x40822041: worked out by hand.
    assert_eq!(generate_serial(1)[0], 0x41);
    assert_eq!(generate_serial(0), [0; 16]);
}

#[test]
fn sent_commands_are_answered_once() {
    let mut rig = Rig::one(false, 5);
    rig.connect();
    rig.mgr.send_command(0, b"i\n", Some(77));
    rig.run(5);
    rig.dev(0).queue_command_response(b"done");
    rig.run(10);
    let answers = rig.mgr.take_completions(0);
    assert_eq!(answers.len(), 1);
    assert_eq!(answers[0].callback, 77);
    assert!(rig.mgr.take_completions(0).is_empty());
    assert!(rig.mgr.take_completions(1).is_empty());
}

#[test]
fn platform_lights_are_split_over_the_pads() {
    let mut rig = Rig::two();
    rig.connect_both();
    rig.dev(0).clear_writes();
    rig.dev(1).clear_writes();
    let mut data = vec![11u8; 264];
    data[132..].fill(22);
    rig.mgr.set_platform_lights(&data);
    rig.mgr.set_platform_lights(&data[1..]);
    rig.run(50);
    for (i, color) in [(0, 11), (1, 22)] {
        let writes = rig.dev(i).get_writes();
        assert_eq!(writes.len(), 3);
        assert_eq!(&writes[0][3..7], &[b'L', 0, 44, color]);
        assert_eq!(writes[2][2], 13); // 135 = 61 + 61 + 13
    }
}

#[test]
fn sensor_data_reaches_the_manager() {
    let mut rig = Rig::one(false, 5);
    rig.connect();
    rig.mgr.set_test_mode(0, SensorTestMode::UncalibratedValues);
    rig.mgr.set_test_mode(7, SensorTestMode::Noise);
    rig.run(3);
    rig.dev(0).queue_command_response(&[b'y', b'0', 3, 0, 0, 2, 0, 0, 0]);
    rig.run(10);
    let data = rig.mgr.get_test_data(0).unwrap();
    assert!(data.have_data_from_panel[1]);
    assert!(rig.mgr.get_test_data(1).is_none());
    assert!(rig.mgr.get_test_data(2).is_none());
    assert!(rig
        .events
        .iter()
        .any(|e| matches!(e, SmxEvent::SensorTestData { pad: 0, .. })));
    // While a sensor test runs the loop looks in more often.
    assert!(rig.mgr.wait_ms(rig.now) <= 20);
}

#[test]
fn polling_rates_are_bounded() {
    let mut mgr = SmxManager::new();
    assert_eq!(mgr.wait_ms(0), 50);
    assert_eq!(mgr.usb_sleep_us(), 1000);
    mgr.set_polling_rate(7, 250);
    assert_eq!(mgr.wait_ms(0), 7);
    assert_eq!(mgr.usb_sleep_us(), 250);
    mgr.set_main_thread_sleep_ms(9);
    assert_eq!(mgr.wait_ms(0), 9);
    assert_eq!(mgr.usb_sleep_us(), 250);
}

// ─── Edge Cases ──────────────────────────────────────────────────────────────

#[test]
fn factory_reset_on_disconnected_pad_does_not_crash() {
    let mut rig = Rig::one(false, 5);
    rig.mgr.factory_reset(1);
}

#[test]
fn force_recalibration_on_disconnected_pad_does_not_crash() {
    let mut rig = Rig::one(false, 5);
    rig.mgr.force_recalibration(1);
}

#[test]
fn reenable_auto_lights_with_no_devices_does_not_crash() {
    let mut rig = Rig::with(vec![]);
    rig.mgr.reenable_auto_lights();
}

#[test]
fn panel_test_mode_with_no_devices_does_not_crash() {
    let mut rig = Rig::with(vec![]);
    rig.mgr.set_panel_test_mode(PanelTestMode::PressureTest);
    rig.run(100);
}

#[test]
fn pad_swap_input_state_routes_correctly() {
    let mut rig = Rig::two();
    rig.connect_both();

    rig.dev(0).queue_input_state(0x0001);
    rig.run(100);
    assert_eq!(rig.mgr.get_input_state(0), 0x0001);
    assert_eq!(rig.mgr.get_input_state(1), 0x0000);

    rig.dev(1).queue_input_state(0x0100);
    rig.run(100);
    assert_eq!(rig.mgr.get_input_state(0), 0x0001);
    assert_eq!(rig.mgr.get_input_state(1), 0x0100);
}

#[test]
fn config_available_after_connection() {
    let mut rig = Rig::one(false, 5);
    rig.connect();
    let config = rig.mgr.get_config(0);
    assert!(config.is_some(), "Config should be available after connection");
}

#[test]
fn get_config_returns_none_for_invalid_pad() {
    let rig = Rig::one(false, 5);
    assert!(rig.mgr.get_config(2).is_none());
}

// ─── Disconnect / Reconnect ──────────────────────────────────────────────────

#[test]
fn device_disconnect_fires_callback_and_clears_slot() {
    let mut rig = Rig::one(false, 5);
    rig.connect();
    rig.dev(0).set_fail_reads(true);
    let disconnected = rig.wait_for(
        |r| r.events.iter().any(|e| matches!(e, SmxEvent::Disconnected { .. })),
        2000,
    );
    assert!(disconnected, "Disconnect event not received");
    assert!(!rig.mgr.get_info(0).connected);
}

#[test]
fn device_reconnects_after_disconnect() {
    let mut rig = Rig::one(false, 5);
    rig.connect();
    rig.dev(0).set_fail_reads(true);
    assert!(rig.wait_for(|r| !r.mgr.get_info(0).connected, 2000));
    rig.dev(0).set_fail_reads(false);
    let reconnected = rig.wait_for(|r| r.mgr.get_info(0).connected, 3000);
    assert!(reconnected, "Device did not reconnect");
    rig.step();
    let connect_count = rig.connects();
    assert!(connect_count >= 2, "Expected >= 2 Connected events, got {connect_count}");
}

#[test]
fn write_errors_drop_the_device_too() {
    let mut rig = Rig::one(false, 5);
    rig.connect();
    rig.dev(0).set_fail_writes(true);
    rig.mgr.force_recalibration(0);
    assert!(rig.wait_for(|r| !r.mgr.get_info(0).connected, 100));
}

#[test]
fn unplugged_device_is_closed() {
    let mut rig = Rig::one(false, 5);
    rig.connect();
    rig.run(10);
    rig.plugged = false;
    rig.dev(0).set_fail_reads(true);
    rig.run(1500);
    assert!(!rig.mgr.get_info(0).connected);
    assert!(rig
        .events
        .iter()
        .any(|e| matches!(e, SmxEvent::Disconnected { pad: 0 })));
}

// ─── Config Write ────────────────────────────────────────────────────────────

#[test]
fn set_config_sends_w_command_fw5() {
    let mut rig = Rig::one(false, 5);
    rig.connect();
    rig.dev(0).clear_writes();
    let config = rig.mgr.get_config(0).unwrap();
    rig.mgr.set_config(0, config);
    rig.run(500);
    let writes = rig.dev(0).get_writes();
    assert!(has_command(&writes, b'W'), "Expected 'W' command for fw>=5");
}

#[test]
fn set_config_sends_w_command_fw4() {
    let mut rig = Rig::one(false, 4);
    rig.connect();
    rig.dev(0).clear_writes();
    let config = rig.mgr.get_config(0).unwrap();
    rig.mgr.set_config(0, config);
    rig.run(500);
    let writes = rig.dev(0).get_writes();
    assert!(has_command(&writes, b'w'), "Expected 'w' command for fw<5");
}

#[test]
fn set_config_rate_limits() {
    let mut rig = Rig::one(false, 5);
    rig.connect();
    rig.dev(0).clear_writes();
    let config = rig.mgr.get_config(0).unwrap();
    rig.mgr.set_config(0, config);
    rig.mgr.set_config(0, config);
    rig.run(500);
    let writes = rig.dev(0).get_writes();
    let w_count = writes
        .iter()
        .filter(|w| w.len() > 3 && w[0] == HID_REPORT_COMMAND && w[3] == b'W')
        .count();
    assert_eq!(w_count, 1, "Expected 1 'W' command (rate limited), got {w_count}");
}

// ─── Lights Behavior ─────────────────────────────────────────────────────────

#[test]
fn set_lights_rejects_invalid_size() {
    let mut rig = Rig::one(false, 5);
    rig.connect();
    rig.dev(0).clear_writes();
    let now = rig.now;
    rig.mgr.set_lights(&[0u8; 100], now); // invalid size
    rig.run(200);
    let writes = rig.dev(0).get_writes();
    let lights_cmds = writes
        .iter()
        .filter(|w| {
            w.len() > 3
                && w[0] == HID_REPORT_COMMAND
                && (w[3] == b'2' || w[3] == b'3' || w[3] == b'4')
        })
        .count();
    assert_eq!(lights_cmds, 0, "No lights commands should be sent for invalid size");
}

#[test]
fn set_lights_blocked_during_panel_test_mode() {
    let mut rig = Rig::one(false, 5);
    rig.connect();
    rig.mgr.set_panel_test_mode(PanelTestMode::PressureTest);
    rig.run(200);
    rig.dev(0).clear_writes();
    let now = rig.now;
    rig.mgr.set_lights(&[128u8; 1350], now);
    rig.run(200);
    let writes = rig.dev(0).get_writes();
    let lights_cmds = writes
        .iter()
        .filter(|w| w.len() > 3 && w[0] == HID_REPORT_COMMAND && (w[3] == b'2' || w[3] == b'3'))
        .count();
    assert_eq!(lights_cmds, 0, "Lights should be blocked during panel test mode");
    rig.mgr.set_panel_test_mode(PanelTestMode::Off);
}

#[test]
fn set_lights_fw4_sends_4_command() {
    let mut rig = Rig::one(false, 5);
    rig.connect();
    rig.dev(0).clear_writes();
    let now = rig.now;
    rig.mgr.set_lights(&[128u8; 1350], now);
    rig.run(200);
    let writes = rig.dev(0).get_writes();
    assert!(
        has_command(&writes, b'4'),
        "Expected '4' command for fw>=4 (25-LED inner grid)"
    );
}

#[test]
fn set_lights_fw3_no_4_command() {
    let mut rig = Rig::one(false, 3);
    rig.connect();
    rig.dev(0).clear_writes();
    let now = rig.now;
    rig.mgr.set_lights(&[128u8; 1350], now);
    rig.run(200);
    let writes = rig.dev(0).get_writes();
    assert!(!has_command(&writes, b'4'), "Should NOT send '4' command for fw<4");
    assert!(
        has_command(&writes, b'2') && has_command(&writes, b'3'),
        "Should still send '2' and '3' commands"
    );
}

#[test]
fn lights_carry_the_scaled_colors_in_order() {
    let mut rig = Rig::one(false, 5);
    rig.connect();
    rig.dev(0).clear_writes();
    let mut data = vec![0u8; 864];
    data[0] = 255;
    data[24] = 60; // LED 8 of panel 0, in the lower half
    let now = rig.now;
    rig.mgr.set_lights(&data, now);
    rig.run(100);
    let writes = rig.dev(0).get_writes();
    let order: Vec<u8> = writes
        .iter()
        .filter(|w| w[1] & PACKET_FLAG_START_OF_COMMAND != 0)
        .map(|w| w[3])
        .collect();
    assert_eq!(order, b"423");
    let top = writes.iter().find(|w| w[3] == b'2' && w[1] & 4 != 0).unwrap();
    assert_eq!(top[4], 169);
    let bottom = writes.iter().find(|w| w[3] == b'3' && w[1] & 4 != 0).unwrap();
    assert_eq!(bottom[4], 39);
}

// ─── Panel Test Mode ─────────────────────────────────────────────────────────

#[test]
fn panel_test_mode_off_sends_t_0() {
    let mut rig = Rig::one(false, 5);
    rig.connect();
    rig.mgr.set_panel_test_mode(PanelTestMode::PressureTest);
    rig.run(200);
    rig.dev(0).clear_writes();
    rig.mgr.set_panel_test_mode(PanelTestMode::Off);
    rig.run(200);
    let writes = rig.dev(0).get_writes();
    let has_t0 = writes
        .iter()
        .any(|w| w.len() > 5 && w[0] == HID_REPORT_COMMAND && w[3] == b't' && w[5] == b'0');
    assert!(has_t0, "Expected 't 0' command when disabling test mode");
}

#[test]
fn panel_test_mode_is_refreshed() {
    let mut rig = Rig::one(false, 5);
    rig.connect();
    rig.dev(0).clear_writes();
    rig.mgr.set_panel_test_mode(PanelTestMode::PressureTest);
    rig.run(2500);
    let writes = rig.dev(0).get_writes();
    let t_count = writes.iter().filter(|w| w[3] == b't').count();
    assert_eq!(t_count, 3);
    // The lights go off once, before the first.
    assert_eq!(writes.iter().filter(|w| w[3] == b'l').count(), 1);
}

#[test]
fn duplicate_player_jumpers_both_connected() {
    // Both devices report as P1: both connect.
    let mut rig = Rig::with(vec![
        FakeDevice::new_auto(false, 5),
        FakeDevice::new_auto(false, 5),
    ]);
    let both = rig.wait_for(
        |r| r.mgr.get_info(0).connected && r.mgr.get_info(1).connected,
        2000,
    );
    assert!(both, "Both devices should connect even with duplicate jumpers");
}

// ─── Auto Animation ──────────────────────────────────────────────────────────

fn make_test_gif() -> Vec<u8> {
    let mut buf = Cursor::new(Vec::new());
    {
        let mut encoder = GifEncoder::new(&mut buf);
        let mut img = RgbaImage::new(23, 24);
        for y in 0..24 {
            for x in 0..23 {
                img.put_pixel(x, y, Rgba([255, 0, 0, 255]));
            }
        }
        encoder.encode_frames(vec![Frame::new(img)]).unwrap();
    }
    buf.into_inner()
}

#[test]
fn animation_auto_enable_disable() {
    let mut rig = Rig::one(false, 5);
    rig.connect();
    let gif = make_test_gif();
    rig.mgr.load_animation(&gif, 0, LightsType::Released).unwrap();
    assert!(rig.mgr.set_animation_auto(true));
    rig.run(200);
    assert!(rig.mgr.set_animation_auto(false));
}

#[test]
fn animation_auto_double_enable_is_safe() {
    let mut rig = Rig::one(false, 5);
    rig.connect();
    let gif = make_test_gif();
    rig.mgr.load_animation(&gif, 0, LightsType::Released).unwrap();
    assert!(rig.mgr.set_animation_auto(true));
    assert!(!rig.mgr.set_animation_auto(true));
    rig.run(100);
    assert!(rig.mgr.set_animation_auto(false));
}

#[test]
fn animation_auto_double_disable_is_safe() {
    let mut rig = Rig::one(false, 5);
    assert!(!rig.mgr.set_animation_auto(false));
    assert!(!rig.mgr.set_animation_auto(false));
}

#[test]
fn animation_auto_pauses_on_direct_set_lights() {
    let mut rig = Rig::one(false, 5);
    rig.connect();
    let gif = make_test_gif();
    rig.mgr.load_animation(&gif, 0, LightsType::Released).unwrap();
    rig.mgr.set_animation_auto(true);
    rig.run(200);

    let count_light_cmds = |writes: &[Vec<u8>]| {
        writes
            .iter()
            .filter(|w| w.len() > 3 && w[0] == HID_REPORT_COMMAND && (w[3] == b'2' || w[3] == b'3'))
            .count()
    };

    rig.dev(0).clear_writes();
    rig.run(150);
    let cmds_free = count_light_cmds(&rig.dev(0).get_writes());
    assert!(cmds_free > 0, "Animation should be sending lights");

    let now = rig.now;
    rig.mgr.set_lights(&[0u8; 1350], now);
    rig.run(20);
    rig.dev(0).clear_writes();
    rig.run(50);
    let cmds_paused = count_light_cmds(&rig.dev(0).get_writes());
    assert!(
        cmds_paused < cmds_free,
        "Animation should be paused by direct set_lights: paused={cmds_paused} free={cmds_free}"
    );
    rig.mgr.set_animation_auto(false);
}

// ─── Old Firmware Config Write ───────────────────────────────────────────────

#[test]
fn set_config_on_old_firmware_sends_128_byte_old_format() {
    const HID_MAX_PAYLOAD: usize = 61;

    let mut old_config_bytes = vec![0xFFu8; 128];
    old_config_bytes[6] = 15;
    old_config_bytes[7] = 0;
    old_config_bytes[8] = 33;
    old_config_bytes[9] = 42;
    old_config_bytes[10] = 35;
    old_config_bytes[11] = 60;
    old_config_bytes[63] = 3;
    old_config_bytes[62] = 2;

    let mut payload = Vec::with_capacity(2 + 128);
    payload.push(b'g');
    payload.push(128);
    payload.extend_from_slice(&old_config_bytes);

    let mut packets = Vec::new();
    let mut offset = 0;
    while offset < payload.len() {
        let chunk_size = HID_MAX_PAYLOAD.min(payload.len() - offset);
        let mut flags = 0u8;
        if offset == 0 {
            flags |= PACKET_FLAG_START_OF_COMMAND;
        }
        if offset + chunk_size == payload.len() {
            flags |= PACKET_FLAG_END_OF_COMMAND | PACKET_FLAG_HOST_CMD_FINISHED;
        }
        let mut pkt = vec![0u8; 3 + chunk_size];
        pkt[0] = HID_REPORT_DATA;
        pkt[1] = flags;
        pkt[2] = chunk_size as u8;
        pkt[3..].copy_from_slice(&payload[offset..offset + chunk_size]);
        packets.push(pkt);
        offset += chunk_size;
    }

    let mut rig = Rig::one(false, 2);
    rig.dev(0).set_config_response(packets);
    rig.connect();
    rig.dev(0).clear_writes();

    let mut config: SmxConfig = rig.mgr.get_config(0).unwrap();
    config.panel_settings[7].load_cell_low_threshold = 70;
    config.panel_settings[7].load_cell_high_threshold = 71;
    rig.mgr.set_config(0, config);

    assert!(rig.wait_for(|r| !r.enumerator.devices[0].1.get_writes().is_empty(), 2000));

    let writes = rig.dev(0).get_writes();
    let mut cmd_payload: Vec<u8> = Vec::new();
    let mut in_cmd = false;
    for w in &writes {
        if w.len() < 4 || w[0] != HID_REPORT_COMMAND {
            continue;
        }
        let flags = w[1];
        let size = w[2] as usize;
        if (flags & PACKET_FLAG_START_OF_COMMAND != 0) && size >= 1 && w[3] == b'w' {
            in_cmd = true;
            cmd_payload.extend_from_slice(&w[3..3 + size]);
        } else if in_cmd && (flags & PACKET_FLAG_START_OF_COMMAND == 0) {
            cmd_payload.extend_from_slice(&w[3..3 + size]);
            if flags & PACKET_FLAG_END_OF_COMMAND != 0 {
                break;
            }
        }
    }

    assert!(!cmd_payload.is_empty(), "No 'w' command found in writes");
    assert_eq!(cmd_payload[0], b'w');
    let config_size = cmd_payload[1];
    assert_eq!(config_size, 128, "Old firmware config must be 128 bytes, got {config_size}");

    let config_data = &cmd_payload[2..];
    assert_eq!(config_data[8], 70, "panel_threshold_7_low");
    assert_eq!(config_data[9], 71, "panel_threshold_7_high");
    assert_eq!(config_data[10], 35, "panel_threshold_4_low preserved");
    assert_eq!(config_data[11], 60, "panel_threshold_4_high preserved");
    assert_eq!(config_data[0], 0xFF, "unused1");
    assert_eq!(config_data[1], 0xFF, "unused2");
}

// ─── Two-handle open (read + write) ──────────────────────────────────────────

#[test]
fn transient_write_handle_open_failure_retries_and_connects() {
    // The second open (the write handle) fails once. The path must not be marked
    // as failed: the device connects on a later pass.
    let mut rig = Rig::one(false, 5);
    rig.fail_on = vec![2];
    let connected = rig.wait_for(|r| r.mgr.get_info(0).connected, 4000);
    assert!(
        connected,
        "device should reconnect after a transient write-handle open failure (path must not be permanently failed)"
    );
    assert_eq!(rig.opens, 4);
}

#[test]
fn read_handle_open_failure_is_remembered() {
    let mut rig = Rig::one(false, 5);
    rig.fail_on = vec![1];
    rig.run(4000);
    assert_eq!(rig.opens, 1);
    assert!(!rig.mgr.get_info(0).connected);
    // Unplugged and plugged in again, it is tried again.
    rig.plugged = false;
    rig.run(1500);
    rig.plugged = true;
    rig.run(1500);
    assert!(rig.mgr.get_info(0).connected);
}

// ─── Per-pad lights ownership ────────────────────────────────────────────────

/// Counts the lights commands ('4', '2', '3') that a fake device received.
fn lights_command_count(dev: &FakeDevice) -> usize {
    dev.get_writes()
        .iter()
        .filter(|w| w.len() > 3 && w[0] == HID_REPORT_COMMAND && matches!(w[3], b'4' | b'2' | b'3'))
        .count()
}

#[test]
fn set_lights_for_pads_skips_the_deselected_pad() {
    let mut rig = Rig::two();
    rig.connect_both();
    rig.dev(0).clear_writes();
    rig.dev(1).clear_writes();
    let now = rig.now;
    rig.mgr.set_lights_for_pads(&[128u8; 1350], [true, false], now);
    rig.run(200);
    assert!(
        lights_command_count(rig.dev(0)) > 0,
        "selected pad should still receive its lights commands"
    );
    assert_eq!(
        lights_command_count(rig.dev(1)),
        0,
        "deselected pad must receive no lights command at all, so its firmware auto-lighting resumes"
    );
}

#[test]
fn set_lights_still_drives_both_pads() {
    let mut rig = Rig::two();
    rig.connect_both();
    rig.dev(0).clear_writes();
    rig.dev(1).clear_writes();
    let now = rig.now;
    rig.mgr.set_lights(&[128u8; 1350], now);
    rig.run(200);
    assert!(lights_command_count(rig.dev(0)) > 0 && lights_command_count(rig.dev(1)) > 0);
}

#[test]
fn reenable_auto_lights_for_pad_leaves_the_other_pad_lit() {
    let mut rig = Rig::two();
    rig.connect_both();
    rig.dev(0).clear_writes();
    rig.dev(1).clear_writes();
    rig.mgr.reenable_auto_lights_for_pad(1);
    rig.run(200);
    let is_auto_lights = |w: &Vec<u8>| w.len() > 3 && w[0] == HID_REPORT_COMMAND && w[3] == b'S';
    assert!(
        rig.dev(1).get_writes().iter().any(is_auto_lights),
        "the named pad should be handed back to its firmware"
    );
    assert!(
        !rig.dev(0).get_writes().iter().any(is_auto_lights),
        "the other pad must not be released"
    );
}

#[test]
fn reenable_auto_lights_for_pad_drops_only_that_pads_queued_frame() {
    let mut rig = Rig::two();
    rig.connect_both();
    rig.dev(0).clear_writes();
    rig.dev(1).clear_writes();
    let now = rig.now;
    rig.mgr.set_lights(&[128u8; 1350], now);
    rig.mgr.reenable_auto_lights_for_pad(1);
    rig.run(300);
    assert_eq!(
        lights_command_count(rig.dev(1)),
        0,
        "the released pad's queued lights must be dropped, or they re-disable auto-lighting"
    );
    assert!(
        lights_command_count(rig.dev(0)) > 0,
        "the other pad's share of the same queued frame must still be sent"
    );
}

#[test]
fn lights_wait_in_bounded_number_and_the_newest_wins() {
    let mut rig = Rig::one(false, 5);
    rig.connect();
    let now = rig.now;
    for k in 0..10u8 {
        rig.mgr.set_lights(&[10 * k; 1350], now);
        assert!(rig.mgr.pending_lights.len() <= 3);
    }
    rig.dev(0).clear_writes();
    rig.run(300);
    // Every lights command that is sent after the first frame is of the last one.
    let writes = rig.dev(0).get_writes();
    let last = writes
        .iter()
        .filter(|w| w[1] & PACKET_FLAG_START_OF_COMMAND != 0 && w[3] == b'3')
        .last()
        .unwrap();
    assert_eq!(last[4], 59); // 90 * 0.6666
}
