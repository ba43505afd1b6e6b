//! One connection, driven step by step against a fake device.

use rustmaniax_sdk::connection::{open_connection, CommandHandle, PollHandle, PollResult};
use rustmaniax_sdk::protocol::{
    COMMAND_TIMEOUT, HID_PACKET_SIZE, HID_REPORT_COMMAND, PACKET_FLAG_DEVICE_INFO,
    PACKET_FLAG_END_OF_COMMAND, PACKET_FLAG_HOST_CMD_FINISHED, PACKET_FLAG_START_OF_COMMAND,
    SERIAL_SIZE,
};
use rustmaniax_sdk::test_helpers::FakeDevice;
use rustmaniax_sdk::SmxError;

fn open_fake() -> (PollHandle, CommandHandle) {
    open_connection("/dev/fake".to_string(), false)
}

fn open_fake_with_callback() -> (PollHandle, CommandHandle) {
    open_connection("/dev/fake".to_string(), true)
}

/// Reads until there is nothing more or a read fails, and hands the packets over.
fn poll(poll: &PollHandle, cmd: &mut CommandHandle, dev: &mut FakeDevice) -> PollResult {
    let mut reads: Vec<Vec<u8>> = Vec::new();
    let mut failed = false;
    loop {
        match dev.read(HID_PACKET_SIZE) {
            Ok(packet) => {
                if packet.is_empty() {
                    break;
                }
                reads.push(packet);
            }
            Err(_) => {
                failed = true;
                break;
            }
        }
    }
    poll.poll(&mut cmd.shared, &reads, failed)
}

/// Writes what the connection hands out.
fn write_all(cmd: &mut CommandHandle, dev: &mut FakeDevice) {
    while let Some(job) = cmd.take_write_job() {
        let mut failed = false;
        for packet in &job {
            if dev.write(packet).is_err() {
                failed = true;
                break;
            }
        }
        cmd.write_finished(failed);
    }
}

/// One pass, after which everything is on the wire.
fn settle(cmd: &mut CommandHandle, dev: &mut FakeDevice) {
    cmd.update(0).unwrap();
    write_all(cmd, dev);
    assert!(cmd.writes_idle());
}

#[test]
fn input_state_updated_from_report3() {
    let mut dev = FakeDevice::new();
    dev.queue_input_state(0x0010);
    let (p, mut cmd) = open_fake();
    poll(&p, &mut cmd, &mut dev);
    assert_eq!(cmd.input_state(), 0x0010);
    assert_eq!(p.input_state(&cmd.shared), 0x0010);
}

#[test]
fn input_state_multiple_panels() {
    let mut dev = FakeDevice::new();
    dev.queue_input_state(0x0111);
    let (p, mut cmd) = open_fake();
    poll(&p, &mut cmd, &mut dev);
    assert_eq!(cmd.input_state(), 0x0111);
}

#[test]
fn input_callback_fires_on_change() {
    let mut dev = FakeDevice::new();
    dev.queue_input_state(0x0001);
    dev.queue_input_state(0x0001);
    let (p, mut cmd) = open_fake_with_callback();
    let r = poll(&p, &mut cmd, &mut dev);
    // Only fires once for the change from 0 to 0x0001, not for the duplicate.
    assert_eq!(r.fired.len(), 1);
}

#[test]
fn input_callback_always_fire_mode() {
    let mut dev = FakeDevice::new();
    dev.queue_input_state(0x0001);
    dev.queue_input_state(0x0001);
    let (p, mut cmd) = open_fake_with_callback();
    cmd.set_always_fire_input(true);
    let r = poll(&p, &mut cmd, &mut dev);
    assert_eq!(r.fired.len(), 2);
}

#[test]
fn nobody_listens_nothing_fires() {
    let mut dev = FakeDevice::new();
    dev.queue_input_state(0x0001);
    let (p, mut cmd) = open_fake();
    let r = poll(&p, &mut cmd, &mut dev);
    assert!(r.fired.is_empty());
    assert_eq!(cmd.input_state(), 1);
}

#[test]
fn poll_returns_false_when_no_data() {
    let mut dev = FakeDevice::new();
    let (p, mut cmd) = open_fake();
    assert!(!poll(&p, &mut cmd, &mut dev).buffered);
    assert!(dev.read(64).is_ok());
}

#[test]
fn poll_ignores_short_and_unknown_packets() {
    let (p, mut cmd) = open_fake_with_callback();
    let reads: Vec<Vec<u8>> = vec![
        vec![3, 1],
        vec![6, 5],
        vec![6, 5, 4, 1, 2],
        vec![9, 1, 1, 1],
        vec![3, 0x34, 0x12, 99],
    ];
    let r = p.poll(&mut cmd.shared, &reads, false);
    assert!(!r.buffered);
    assert_eq!(r.fired, vec![0x1234]);
    assert!(cmd.shared.report6_buffer.is_empty());
}

#[test]
fn read_error_propagates() {
    let mut dev = FakeDevice::new();
    let (p, mut cmd) = open_fake();
    dev.set_fail_reads(true);
    poll(&p, &mut cmd, &mut dev);
    assert!(cmd.has_read_error());
    assert!(p.has_read_error(&cmd.shared));
}

#[test]
fn read_error_keeps_input_and_drops_responses() {
    let (p, mut cmd) = open_fake_with_callback();
    let reads: Vec<Vec<u8>> = vec![vec![3, 2, 0], vec![6, 5, 1, 65]];
    let r = p.poll(&mut cmd.shared, &reads, true);
    assert!(!r.buffered);
    assert_eq!(r.fired, vec![2]);
    assert_eq!(cmd.input_state(), 2);
    assert!(cmd.shared.report6_buffer.is_empty());
    // After the error nothing is taken in any more.
    let r = p.poll(&mut cmd.shared, &vec![vec![3, 4, 0]], false);
    assert!(r.fired.is_empty());
    assert_eq!(cmd.input_state(), 2);
    assert!(matches!(cmd.update(0), Err(SmxError::NotConnected)));
}

#[test]
fn close_resets_state() {
    let mut dev = FakeDevice::new();
    dev.queue_input_state(0x00FF);
    let (p, mut cmd) = open_fake();
    poll(&p, &mut cmd, &mut dev);
    assert_eq!(cmd.input_state(), 0x00FF);
    cmd.close();
    assert!(!cmd.is_connected_with_info());
    assert!(!cmd.is_active());
    assert!(cmd.pending_commands.is_empty());
}

#[test]
fn report6_single_packet_queued() {
    let mut dev = FakeDevice::new();
    dev.queue_report6(PACKET_FLAG_START_OF_COMMAND | PACKET_FLAG_END_OF_COMMAND, b"AB");
    let (p, mut cmd) = open_fake();
    cmd.set_active(true);
    poll(&p, &mut cmd, &mut dev);
    settle(&mut cmd, &mut dev);
    let pkt = cmd.read_packet().unwrap();
    assert_eq!(pkt, b"AB");
}

#[test]
fn report6_multi_fragment_reassembly() {
    let mut dev = FakeDevice::new();
    dev.queue_report6(PACKET_FLAG_START_OF_COMMAND, b"Hello");
    dev.queue_report6(PACKET_FLAG_END_OF_COMMAND, b" W");
    let (p, mut cmd) = open_fake();
    cmd.set_active(true);
    poll(&p, &mut cmd, &mut dev);
    settle(&mut cmd, &mut dev);
    let pkt = cmd.read_packet().unwrap();
    assert_eq!(pkt, b"Hello W");
}

#[test]
fn report6_start_clears_partial() {
    let mut dev = FakeDevice::new();
    dev.queue_report6(PACKET_FLAG_START_OF_COMMAND, b"old");
    dev.queue_report6(PACKET_FLAG_START_OF_COMMAND, b"new");
    dev.queue_report6(PACKET_FLAG_END_OF_COMMAND, b"!");
    let (p, mut cmd) = open_fake();
    cmd.set_active(true);
    poll(&p, &mut cmd, &mut dev);
    settle(&mut cmd, &mut dev);
    let pkt = cmd.read_packet().unwrap();
    assert_eq!(pkt, b"new!");
    assert!(cmd.read_packet().is_none());
}

#[test]
fn report6_not_queued_when_inactive() {
    let mut dev = FakeDevice::new();
    dev.queue_report6(PACKET_FLAG_START_OF_COMMAND | PACKET_FLAG_END_OF_COMMAND, b"data");
    let (p, mut cmd) = open_fake();
    poll(&p, &mut cmd, &mut dev);
    settle(&mut cmd, &mut dev);
    assert!(cmd.read_packet().is_none());
}

#[test]
fn half_a_packet_waits_for_its_rest() {
    let (_p, mut cmd) = open_fake();
    cmd.set_active(true);
    cmd.shared.report6_buffer = vec![6, 5, 2, b'A'];
    cmd.update(0).unwrap();
    assert!(cmd.read_packet().is_none());
    assert_eq!(cmd.shared.report6_buffer, vec![6, 5, 2, b'A']);
    cmd.shared.report6_buffer.push(b'B');
    cmd.update(0).unwrap();
    assert_eq!(cmd.read_packet().unwrap(), b"AB");
    assert!(cmd.shared.report6_buffer.is_empty());
}

#[test]
fn device_info_handshake() {
    let mut dev = FakeDevice::new();
    let serial = [1, 2, 3, 4, 5, 6, 7, 8, 9, 10, 11, 12, 13, 14, 15, 16];
    let (p, mut cmd) = open_fake();
    assert!(!cmd.is_connected_with_info());
    // First update sends the device info request.
    settle(&mut cmd, &mut dev);
    assert_eq!(dev.get_writes()[0][1], PACKET_FLAG_DEVICE_INFO);
    dev.queue_device_info_response(false, 7, &serial);
    poll(&p, &mut cmd, &mut dev);
    settle(&mut cmd, &mut dev);
    assert!(cmd.is_connected_with_info());
    let info = cmd.device_info();
    assert!(!info.is_player2);
    assert_eq!(info.firmware_version, 7);
    assert_eq!(info.serial, "0102030405060708090a0b0c0d0e0f10");
}

#[test]
fn device_info_player2() {
    let mut dev = FakeDevice::new();
    let serial = [0u8; SERIAL_SIZE];
    let (p, mut cmd) = open_fake();
    settle(&mut cmd, &mut dev);
    dev.queue_device_info_response(true, 3, &serial);
    poll(&p, &mut cmd, &mut dev);
    settle(&mut cmd, &mut dev);
    let info = cmd.device_info();
    assert!(info.is_player2);
    assert_eq!(info.firmware_version, 3);
}

#[test]
fn short_device_info_says_nothing() {
    let mut dev = FakeDevice::new();
    let (p, mut cmd) = open_fake();
    settle(&mut cmd, &mut dev);
    dev.queue_report6(PACKET_FLAG_DEVICE_INFO, &[0, 22, 0x31]);
    poll(&p, &mut cmd, &mut dev);
    settle(&mut cmd, &mut dev);
    assert!(cmd.is_connected_with_info());
    assert!(!cmd.device_info().is_player2);
    assert_eq!(cmd.device_info().serial, "");
    assert_eq!(cmd.device_info().firmware_version, 0);
}

#[test]
fn unasked_device_info_is_ignored() {
    let mut dev = FakeDevice::new();
    dev.queue_device_info_response(true, 3, &[7u8; SERIAL_SIZE]);
    let (p, mut cmd) = open_fake();
    poll(&p, &mut cmd, &mut dev);
    // The answer is consumed before the request goes out.
    settle(&mut cmd, &mut dev);
    assert!(!cmd.is_connected_with_info());
}

fn open_with_handshake(dev: &mut FakeDevice) -> (PollHandle, CommandHandle) {
    let serial = [0u8; SERIAL_SIZE];
    dev.queue_device_info_response(false, 5, &serial);
    let (p, mut cmd) = open_fake();
    settle(&mut cmd, dev);
    poll(&p, &mut cmd, dev);
    settle(&mut cmd, dev);
    (p, cmd)
}

#[test]
fn send_command_writes_packets() {
    let mut dev = FakeDevice::new();
    let (_p, mut cmd) = open_with_handshake(&mut dev);
    cmd.send_command(b"hello", None);
    settle(&mut cmd, &mut dev);
    let writes = dev.get_writes();
    // First write is the device info request, second is our command.
    assert!(writes.len() >= 2);
    let cmd_pkt = &writes[1];
    assert_eq!(cmd_pkt[0], HID_REPORT_COMMAND);
    assert_eq!(
        cmd_pkt[1],
        PACKET_FLAG_START_OF_COMMAND | PACKET_FLAG_END_OF_COMMAND
    );
    assert_eq!(cmd_pkt[2], 5);
    assert_eq!(&cmd_pkt[3..8], b"hello");
}

#[test]
fn command_callback_fires_on_response() {
    let mut dev = FakeDevice::new();
    let (p, mut cmd) = open_with_handshake(&mut dev);
    cmd.set_active(true);
    cmd.send_command(b"G", Some(17));
    settle(&mut cmd, &mut dev);
    dev.queue_report6(
        PACKET_FLAG_START_OF_COMMAND | PACKET_FLAG_END_OF_COMMAND | PACKET_FLAG_HOST_CMD_FINISHED,
        b"Gcfg",
    );
    poll(&p, &mut cmd, &mut dev);
    settle(&mut cmd, &mut dev);
    let answers = cmd.take_completions();
    assert_eq!(answers.len(), 1);
    assert_eq!(answers[0].callback, 17);
    assert_eq!(answers[0].response, b"Gcfg");
    assert!(cmd.take_completions().is_empty());
}

#[test]
fn commands_serialized() {
    let mut dev = FakeDevice::new();
    let (_p, mut cmd) = open_with_handshake(&mut dev);
    cmd.send_command(b"A", None);
    cmd.send_command(b"B", None);
    settle(&mut cmd, &mut dev);
    let writes = dev.get_writes();
    // Should only have device info + first command so far.
    let cmd_writes: Vec<_> = writes.iter().skip(1).collect();
    assert_eq!(cmd_writes.len(), 1);
    assert_eq!(cmd_writes[0][3], b'A');
    settle(&mut cmd, &mut dev);
    settle(&mut cmd, &mut dev);
    assert_eq!(dev.get_writes().len(), 2);
}

#[test]
fn close_invokes_pending_callbacks() {
    let mut dev = FakeDevice::new();
    let (_p, mut cmd) = open_with_handshake(&mut dev);
    cmd.send_command(b"X", Some(1));
    settle(&mut cmd, &mut dev);
    cmd.send_command(b"Y", Some(2));
    cmd.send_command(b"Z", None);
    cmd.send_command(b"W", Some(3));
    cmd.close();
    let answers = cmd.take_completions();
    let tokens: Vec<u64> = answers.iter().map(|a| a.callback).collect();
    assert_eq!(tokens, vec![1, 2, 3]);
    assert!(answers.iter().all(|a| a.response.is_empty()));
    cmd.close();
    assert!(cmd.take_completions().is_empty());
}

#[test]
fn write_error_returns_error() {
    let mut dev = FakeDevice::new();
    let (_p, mut cmd) = open_with_handshake(&mut dev);
    dev.set_fail_writes(true);
    cmd.send_command(b"X", None);
    // The hand-off itself succeeds; the write fails, and the next pass reports it.
    cmd.update(0).unwrap();
    write_all(&mut cmd, &mut dev);
    assert!(cmd.writes_idle());
    let result = cmd.update(0);
    assert!(matches!(result, Err(SmxError::NotConnected)));
}

#[test]
fn closed_writer_cancels_the_next_command() {
    let mut dev = FakeDevice::new();
    let (_p, mut cmd) = open_with_handshake(&mut dev);
    cmd.writer_closed();
    assert!(cmd.update(0).is_ok());
    cmd.send_command(b"X", Some(9));
    cmd.send_command(b"Y", Some(10));
    assert!(matches!(cmd.update(0), Err(SmxError::NotConnected)));
    let answers = cmd.take_completions();
    assert_eq!(answers.len(), 1);
    assert_eq!(answers[0].callback, 9);
    assert!(answers[0].response.is_empty());
    assert!(cmd.writes_idle());
    assert_eq!(cmd.pending_commands.len(), 1);
}

#[test]
fn overdue_command_is_sent_again_first() {
    let mut dev = FakeDevice::new();
    let (_p, mut cmd) = open_with_handshake(&mut dev);
    cmd.send_command(b"A", Some(5));
    cmd.send_command(b"B", None);
    settle(&mut cmd, &mut dev);
    // The response timeout starts once the packets are on the wire.
    cmd.update(1000).unwrap();
    cmd.update(1000 + COMMAND_TIMEOUT).unwrap();
    write_all(&mut cmd, &mut dev);
    assert_eq!(dev.get_writes().len(), 2);
    cmd.update(1001 + COMMAND_TIMEOUT).unwrap();
    write_all(&mut cmd, &mut dev);
    let writes = dev.get_writes();
    assert_eq!(writes.len(), 3);
    assert_eq!(writes[2][3], b'A');
    assert!(cmd.take_completions().is_empty());
}

#[test]
fn lights_command_is_tagged_others_are_not() {
    let (_poll, mut cmd) = open_fake();
    cmd.pending_commands.clear();
    assert!(!cmd.has_unsent_lights());
    cmd.send_command_lights(b"4aaa\n");
    assert!(cmd.has_unsent_lights());
    cmd.pending_commands.clear();
    cmd.send_command(b"y1\n", None);
    cmd.send_command_priority(b"y1\n", None);
    assert!(
        !cmd.has_unsent_lights(),
        "sensor/config commands must not be tagged as lights"
    );
}

#[test]
fn priority_command_jumps_ahead_of_queued_lights() {
    let (_poll, mut cmd) = open_fake();
    cmd.pending_commands.clear();
    cmd.send_command_lights(b"4aaa\n");
    cmd.send_command_priority(b"y1\n", None);
    // Sensor request at the front, the light frame behind it.
    assert!(!cmd.pending_commands.front().unwrap().is_lights);
    assert!(cmd.pending_commands.back().unwrap().is_lights);
}

#[test]
fn dropping_lights_keeps_other_commands_in_order() {
    let (_poll, mut cmd) = open_fake();
    cmd.pending_commands.clear();
    cmd.send_command(b"A", None);
    cmd.send_command_lights(b"4\n");
    cmd.send_command(b"B", None);
    cmd.send_command_lights(b"2\n");
    cmd.drop_queued_lights();
    let left: Vec<u8> = cmd.pending_commands.iter().map(|c| c.packets[0][3]).collect();
    assert_eq!(left, b"AB");
    assert!(!cmd.has_unsent_lights());
}

#[test]
fn auto_device_connects() {
    let mut dev = FakeDevice::new_auto(false, 5);
    let (p, mut cmd) = open_connection("/dev/test".to_string(), false);
    settle(&mut cmd, &mut dev);
    poll(&p, &mut cmd, &mut dev);
    settle(&mut cmd, &mut dev);
    assert!(cmd.is_connected_with_info(), "device info not received");
    assert_eq!(cmd.device_info().firmware_version, 5);
    assert_eq!(cmd.path(), "/dev/test");
}

#[test]
fn only_changes_are_reported_unless_asked() {
    let reads: Vec<Vec<u8>> = [1u8, 1, 2, 2, 1, 0, 0]
        .iter()
        .map(|&s| vec![3, s, 0])
        .collect();
    let (p, mut cmd) = open_fake_with_callback();
    assert_eq!(p.poll(&mut cmd.shared, &reads, false).fired, vec![1, 2, 1, 0]);
    assert_eq!(cmd.input_state(), 0);
    cmd.set_always_fire_input(true);
    let r = p.poll(&mut cmd.shared, &reads, false);
    assert_eq!(r.fired, vec![1, 1, 2, 2, 1, 0, 0]);
    assert_eq!(cmd.input_state(), 0);
}
