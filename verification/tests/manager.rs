//! Which pad stands in which slot, and the capture directory.

use rustmaniax_sdk::slots::{override_should_swap, should_swap};
use rustmaniax_sdk::text::{capture_dir_from_value, contains, white_space};
use rustmaniax_sdk::SmxInfo;

#[test]
fn capture_dir_trims_and_rejects_empty() {
    // A trailing space is stripped so that the capture path stays resolvable.
    assert_eq!(
        capture_dir_from_value("C:\\tmp\\smx-capture "),
        Some("C:\\tmp\\smx-capture")
    );
    assert_eq!(capture_dir_from_value("  /tmp/cap  "), Some("/tmp/cap"));
    assert_eq!(capture_dir_from_value("/tmp/cap"), Some("/tmp/cap"));
    // Empty or white space alone means "not set".
    assert_eq!(capture_dir_from_value(""), None);
    assert_eq!(capture_dir_from_value("   "), None);
}

#[test]
fn trimming_matches_the_standard_library() {
    for s in [
        "\u{3000}x y\t\r\n",
        "\u{85}a\u{a0}",
        "a\u{200b}",
        "\u{2028}\u{feff} ",
        " \u{1680}é ",
    ] {
        let want = s.trim();
        assert_eq!(
            capture_dir_from_value(s),
            if want.is_empty() { None } else { Some(want) }
        );
    }
}

#[test]
fn white_space_matches_the_standard_library() {
    for c in '\0'..=char::MAX {
        assert_eq!(white_space(c), c.is_whitespace(), "{:?}", c);
    }
}

#[test]
fn part_of_a_text() {
    assert!(contains("StepManiaX", "StepManiaX"));
    assert!(contains("A StepManiaX pad", "StepManiaX"));
    assert!(!contains("StepMania", "StepManiaX"));
    assert!(contains("", ""));
    assert!(!contains("", "a"));
}

fn info(connected: bool, is_player2: bool, serial: &str) -> SmxInfo {
    SmxInfo {
        connected,
        is_player2,
        has_serial_number: true,
        serial: serial.to_string(),
        firmware_version: 5,
    }
}

fn assignment(p1: &str, p2: &str) -> [Option<String>; 2] {
    [Some(p1.to_string()), Some(p2.to_string())]
}

#[test]
fn no_override_defers_to_jumper() {
    let none: [Option<String>; 2] = [None, None];
    let a = info(true, false, "aaaa");
    let b = info(true, true, "bbbb");
    assert_eq!(override_should_swap(&none, &a, &b), None);
}

#[test]
fn override_already_in_order_no_swap() {
    let asn = assignment("aaaa", "bbbb");
    let a = info(true, false, "aaaa");
    let b = info(true, true, "bbbb");
    assert_eq!(override_should_swap(&asn, &a, &b), Some(false));
}

#[test]
fn override_reversed_requests_swap() {
    let asn = assignment("aaaa", "bbbb");
    let a = info(true, true, "bbbb");
    let b = info(true, false, "aaaa");
    assert_eq!(override_should_swap(&asn, &a, &b), Some(true));
}

#[test]
fn override_orders_two_same_jumper_pads() {
    let asn = assignment("aaaa", "bbbb");
    let reversed_a = info(true, false, "bbbb");
    let reversed_b = info(true, false, "aaaa");
    assert_eq!(override_should_swap(&asn, &reversed_a, &reversed_b), Some(true));

    let ordered_a = info(true, false, "aaaa");
    let ordered_b = info(true, false, "bbbb");
    assert_eq!(override_should_swap(&asn, &ordered_a, &ordered_b), Some(false));
}

#[test]
fn lone_pad_unassigned_serial_defers_to_jumper() {
    let asn = assignment("aaaa", "bbbb");
    let other = info(true, false, "cccc");
    let empty = info(false, false, "");
    assert_eq!(override_should_swap(&asn, &other, &empty), None);
    assert_eq!(override_should_swap(&asn, &empty, &other), None);
}

#[test]
fn lone_pad_pinned_to_p2_relocates_to_slot1() {
    let p2_only: [Option<String>; 2] = [None, Some("aaaa".to_string())];
    let a = info(true, false, "aaaa");
    let empty = info(false, false, "");
    assert_eq!(override_should_swap(&p2_only, &a, &empty), Some(true));
    assert_eq!(override_should_swap(&p2_only, &empty, &a), Some(false));
}

#[test]
fn lone_pad_pinned_to_p1_stays_at_slot0() {
    let p1_only: [Option<String>; 2] = [Some("aaaa".to_string()), None];
    let a = info(true, true, "aaaa");
    let empty = info(false, false, "");
    assert_eq!(override_should_swap(&p1_only, &a, &empty), Some(false));
    assert_eq!(override_should_swap(&p1_only, &empty, &a), Some(true));
}

#[test]
fn unknown_serial_defers_to_jumper() {
    let asn = assignment("aaaa", "bbbb");
    let a = info(true, false, "aaaa");
    let other = info(true, true, "cccc");
    assert_eq!(override_should_swap(&asn, &a, &other), None);
}

#[test]
fn partial_assignment_defers_to_jumper() {
    let half: [Option<String>; 2] = [Some("aaaa".to_string()), None];
    let a = info(true, false, "aaaa");
    let b = info(true, true, "bbbb");
    assert_eq!(override_should_swap(&half, &a, &b), None);
}

#[test]
fn jumpers_decide_without_assignment() {
    let none: [Option<String>; 2] = [None, None];
    let p1 = info(true, false, "aaaa");
    let p2 = info(true, true, "bbbb");
    let empty = info(false, false, "");
    assert!(!should_swap(&none, &p1, &p2));
    assert!(should_swap(&none, &p2, &p1));
    assert!(should_swap(&none, &p2, &empty));
    assert!(!should_swap(&none, &empty, &p2));
    assert!(should_swap(&none, &empty, &p1));
    assert!(!should_swap(&none, &p1, &empty));
    assert!(!should_swap(&none, &empty, &empty));
}
