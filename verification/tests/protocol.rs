//! Packets, recordings, light commands and the counters of the measuring tools.

use rustmaniax_sdk::connection::{hex_encode, parse_device_info};
use rustmaniax_sdk::pad_lights::{
    build_frame_command, build_lights_command, build_share, replace_shares,
};
use rustmaniax_sdk::probe::{bar_length, moving_frame, PadStats, ReadTally, WriteTally};
use rustmaniax_sdk::profile::{
    hold, is_enabled, maybe_report, site_name, Bucket, LockProfile, Site, SITE_COUNT,
};
use rustmaniax_sdk::protocol::{
    add_time, build_command_packets, build_device_info_request, parse_report6, read_le16,
    time_since, PacketReassembler, ParsedPacket, HID_REPORT_COMMAND, PACKET_FLAG_DEVICE_INFO,
    PACKET_FLAG_END_OF_COMMAND, PACKET_FLAG_START_OF_COMMAND,
};
use rustmaniax_sdk::recorder::{
    capture_header, encode_record, encode_transfer, parse_hid_capture, SinkTable, RECORD_READ,
    RECORD_WRITE,
};
use rustmaniax_sdk::test_helpers::{build_report6, make_device_info_packet};

// ─── Packets ─────────────────────────────────────────────────────────────────

#[test]
fn commands_are_cut_into_packets() {
    let cmd: Vec<u8> = (0..150u32).map(|i| i as u8).collect();
    let packets = build_command_packets(&cmd);
    assert_eq!(packets.len(), 3);
    assert_eq!(&packets[0][..3], &[HID_REPORT_COMMAND, PACKET_FLAG_START_OF_COMMAND, 61]);
    assert_eq!(&packets[1][..3], &[HID_REPORT_COMMAND, 0, 61]);
    assert_eq!(&packets[2][..3], &[HID_REPORT_COMMAND, PACKET_FLAG_END_OF_COMMAND, 28]);
    let mut carried = Vec::new();
    for p in &packets {
        carried.extend_from_slice(&p[3..3 + p[2] as usize]);
    }
    assert_eq!(carried, cmd);
    assert!(packets[2][31..].iter().all(|&b| b == 0));
}

#[test]
fn whole_and_empty_commands_are_one_packet() {
    let packets = build_command_packets(&[9; 61]);
    assert_eq!(packets.len(), 1);
    assert_eq!(packets[0][1], PACKET_FLAG_START_OF_COMMAND | PACKET_FLAG_END_OF_COMMAND);
    assert_eq!(build_command_packets(&[9; 62]).len(), 2);
    let packets = build_command_packets(&[]);
    assert_eq!(packets.len(), 1);
    assert_eq!(&packets[0][..3], &[5, 5, 0]);
}

#[test]
fn device_info_request_has_its_flag() {
    let p = build_device_info_request();
    assert_eq!(p[0], HID_REPORT_COMMAND);
    assert_eq!(p[1], PACKET_FLAG_DEVICE_INFO);
    assert!(p[2..].iter().all(|&b| b == 0));
}

#[test]
fn report6_is_parsed() {
    match parse_report6(&build_report6(6, b"abc")).unwrap() {
        ParsedPacket::Fragment { payload, start, end, host_cmd_finished } => {
            assert_eq!(payload, b"abc");
            assert_eq!((start, end, host_cmd_finished), (true, false, true));
        }
        ParsedPacket::DeviceInfo(_) => panic!("device info"),
    }
    let info = make_device_info_packet(true, 0x0102, &[7; 16]);
    match parse_report6(&build_report6(PACKET_FLAG_DEVICE_INFO, &info)).unwrap() {
        ParsedPacket::DeviceInfo(payload) => assert_eq!(payload, info),
        ParsedPacket::Fragment { .. } => panic!("a fragment"),
    }
    assert!(parse_report6(&[6, 4]).is_none());
    assert!(parse_report6(&[5, 4, 0]).is_none());
    assert!(parse_report6(&[6, 4, 3, 1, 2]).is_none());
    // What follows the payload does not belong to it.
    match parse_report6(&[6, 1, 1, 8, 9]).unwrap() {
        ParsedPacket::Fragment { payload, end, .. } => {
            assert_eq!(payload, [8]);
            assert!(end);
        }
        ParsedPacket::DeviceInfo(_) => panic!("device info"),
    }
}

#[test]
fn messages_are_reassembled() {
    let message: Vec<u8> = (0..200u32).map(|i| (i * 3) as u8).collect();
    let mut r = PacketReassembler::new();
    for (i, chunk) in message.chunks(61).enumerate() {
        let mut flags = 0;
        if i == 0 {
            flags |= PACKET_FLAG_START_OF_COMMAND;
        }
        if i == 3 {
            flags |= PACKET_FLAG_END_OF_COMMAND | 2;
        }
        let finished = r.push(&parse_report6(&build_report6(flags, chunk)).unwrap());
        assert_eq!(finished, i == 3);
    }
    assert_eq!(r.take_completed(), vec![message]);
    assert!(r.take_completed().is_empty());
}

#[test]
fn device_info_fields() {
    let info = parse_device_info(&make_device_info_packet(true, 0x0102, &[0xAB; 16]));
    assert!(info.is_player2);
    assert_eq!(info.firmware_version, 0x0102);
    assert_eq!(info.serial, "abababababababababababababababab");
    assert_eq!(hex_encode(&[0x00, 0x9f, 0xf0]), "009ff0");
    assert_eq!(hex_encode(&[]), "");
}

#[test]
fn time_stays_in_range() {
    assert_eq!(add_time(5, 6), 11);
    assert_eq!(add_time(u64::MAX, 6), u64::MAX);
    assert_eq!(time_since(9, 4), 5);
    assert_eq!(time_since(4, 9), 0);
    assert_eq!(read_le16(0x34, 0x12), 0x1234);
}

// ─── Recordings ──────────────────────────────────────────────────────────────

#[test]
fn recording_round_trip() {
    let mut capture = capture_header();
    assert_eq!(capture, b"SMXHID\x01");
    capture.extend(encode_record(RECORD_WRITE, 0x0102030405060708, &[1, 2, 3]));
    assert_eq!(&capture[7..21], &[b'W', 8, 7, 6, 5, 4, 3, 2, 1, 3, 0, 1, 2, 3]);
    capture.extend(encode_record(RECORD_READ, 9, &[7; 300]));
    let records = parse_hid_capture(&capture);
    assert_eq!(records.len(), 2);
    assert_eq!(records[0].record_type, b'W');
    assert_eq!(records[0].timestamp_us, 0x0102030405060708);
    assert_eq!(records[0].data, [1, 2, 3]);
    assert_eq!(records[1].record_type, b'R');
    assert_eq!(records[1].data, vec![7; 300]);
    // A cut record is left out.
    assert_eq!(parse_hid_capture(&capture[..capture.len() - 1]).len(), 1);
    assert!(parse_hid_capture(b"SMXHID\x02").is_empty());
    assert!(parse_hid_capture(b"SMX").is_empty());
    assert!(encode_transfer(RECORD_READ, 1, &[]).is_none());
}

#[test]
fn recorded_devices_keep_their_file() {
    let mut t = SinkTable::new();
    let a = "/a".to_string();
    let b = "/b".to_string();
    assert_eq!(t.next(), 0);
    assert_eq!(t.find(&a), None);
    t.add(a.clone());
    t.add(b.clone());
    assert_eq!(t.find(&a), Some(0));
    assert_eq!(t.find(&b), Some(1));
    assert_eq!(t.next(), 2);
}

// ─── Light commands ──────────────────────────────────────────────────────────

#[test]
fn light_commands_have_their_sizes() {
    let data: Vec<u8> = (0..1350u32).map(|i| (i % 251) as u8).collect();
    let scaled = |i: usize| (data[i] as f32 * 0.6666) as u8;
    let inner = build_lights_command(&data, 1, 0);
    assert_eq!(inner.len(), 245);
    assert_eq!((inner[0], inner[244]), (b'4', b'\n'));
    assert_eq!(inner[1], scaled(675 + 48));
    assert_eq!(inner[243], scaled(1349));
    let top = build_lights_command(&data, 0, 1);
    assert_eq!((top.len(), top[0], top[217]), (218, b'2', b'\n'));
    assert_eq!(top[25], scaled(75));
    let bottom = build_lights_command(&data, 0, 2);
    assert_eq!((bottom.len(), bottom[0], bottom[217]), (218, b'3', b'\n'));
    assert_eq!(bottom[1], scaled(24));
    // Without inner LEDs they are dark.
    let inner = build_lights_command(&vec![255; 864], 0, 0);
    assert!(inner[1..244].iter().all(|&b| b == 0));
}

#[test]
fn shares_follow_selection_and_version() {
    let data = vec![100u8; 1350];
    assert!(build_share(&data, 0, 1, false, Some(5)).is_empty());
    assert!(build_share(&data, 0, 1, true, None).is_empty());
    assert!(build_share(&data, 0, 0, true, Some(3)).is_empty());
    assert!(!build_share(&data, 0, 0, true, Some(4)).is_empty());
    assert!(!build_share(&data, 0, 2, true, Some(1)).is_empty());

    let waiting = build_frame_command(&data, 1, [true, true], [Some(5), Some(5)], 42);
    assert_eq!(waiting.send_at, 42);
    let newer = vec![0u8; 1350];
    let replaced = replace_shares(&waiting, &newer, 1, [true, false], [None, Some(5)]);
    assert_eq!(replaced.send_at, 42);
    // Selected but unknown: kept. Not selected: cleared.
    assert_eq!(replaced.pad_command[0], waiting.pad_command[0]);
    assert!(replaced.pad_command[1].is_empty());
    let replaced = replace_shares(&waiting, &newer, 1, [true, true], [Some(5), Some(5)]);
    assert_eq!(replaced.pad_command[1][1], 0);
}

// ─── Lock profile ────────────────────────────────────────────────────────────

#[test]
fn profile_reports_once_a_second() {
    let mut p = LockProfile::new(true);
    assert!(maybe_report(&mut p, 100).is_none());
    let g = hold(Site::AnimLights, true, 200).unwrap();
    p.release(g, 700);
    let g = hold(Site::AnimLights, true, 1000).unwrap();
    p.release(g, 1100);
    assert!(maybe_report(&mut p, 1_000_000_099).is_none());
    let lines = maybe_report(&mut p, 1_000_000_100).unwrap();
    assert_eq!(lines.len(), 1);
    assert_eq!(site_name(lines[0].site), "anim_lights");
    assert_eq!(lines[0].holds, Bucket { sum_ns: 600, max_ns: 500, count: 2 });
    assert!(maybe_report(&mut p, 2_000_000_100).unwrap().is_empty());
}

#[test]
fn profile_that_is_off_is_silent() {
    assert!(hold(Site::UsbPoll, false, 5).is_none());
    let mut p = LockProfile::new(false);
    assert!(maybe_report(&mut p, 5).is_none());
    assert!(maybe_report(&mut p, u64::MAX).is_none());
    assert!(!is_enabled(""));
    assert!(!is_enabled("0"));
    assert!(is_enabled("1"));
    assert!(is_enabled("00"));
    let names: Vec<&str> = (0..SITE_COUNT).map(site_name).collect();
    assert_eq!(
        names,
        ["usb_poll", "main_update", "anim_inputs", "anim_lights", "connect_check", "connect_setup"]
    );
}

// ─── Measuring tools ─────────────────────────────────────────────────────────

#[test]
fn gaps_between_reports() {
    let mut s = PadStats::new(0);
    assert!(s.on_report(1_000_000).is_none());
    assert!(s.on_report(2_250_000).is_none()); // 1250 us
    assert!(s.on_report(2_300_000).is_none()); // 50 us
    assert!(s.on_report(30_000_000).is_none()); // 27700 us
    assert_eq!((s.min_us, s.max_us, s.sum_us, s.interval_count), (50, 27_700, 29_000, 3));
    assert_eq!((s.buckets[12], s.buckets[0], s.overflow), (1, 1, 1));
    assert_eq!(s.on_report(530_000_000), Some((5, 530_000_000)));
    assert_eq!(s.window_reports, 0);
    assert_eq!(s.tui_show_buckets(), 20);
    assert_eq!(s.summary_show_buckets(), 14);
    assert_eq!(s.tallest_bucket(20), 1);
    assert_eq!(s.hidden_gaps(12), 3);
    s.connected = true;
    s.reset(7);
    assert_eq!((s.reports, s.window_start, s.min_us), (0, 7, u64::MAX));
    assert!(s.connected);
}

#[test]
fn bars_are_scaled_to_the_tallest() {
    assert_eq!(bar_length(0, 1), 0);
    assert_eq!(bar_length(5, 10), 14);
    assert_eq!(bar_length(u64::MAX, u64::MAX), 28);
}

#[test]
fn calls_are_tallied() {
    let mut r = ReadTally::new();
    r.note(&[3, 1, 0], 40);
    r.note(&[6, 1, 0], 20);
    r.note(&[], 10);
    assert_eq!((r.attempts, r.with_data, r.input_reports, r.max_us), (3, 2, 1, 40));
    let mut w = WriteTally::new();
    w.note(false, 5);
    w.note(true, 9);
    assert_eq!((w.writes, w.errors, w.max_us), (2, 1, 9));
}

#[test]
fn moving_light_visits_the_panels() {
    for tick in 0..20 {
        let frame = moving_frame(tick);
        assert_eq!(frame.len(), 1350);
        for (i, &b) in frame.iter().enumerate() {
            let lit = (i / 75) % 9 == tick % 9;
            assert_eq!(b, if lit { 96 } else { 0 });
        }
    }
}
