//! The GATT table.

use luma_core::gatt::{CONTROL_NOTIFY, NOTIFY_ALL, WRITE_WITH_RESPONSE, is_drivable};

#[test]
fn the_write_characteristic_takes_a_request_not_a_command() {
    let captured_att_opcode_is_write_request = true;
    assert_eq!(WRITE_WITH_RESPONSE, captured_att_opcode_is_write_request);
}

#[test]
fn a_peripheral_needs_the_write_char_and_one_notify() {
    assert!(is_drivable(&["AA13", "AA14"]));
    assert!(is_drivable(&["AA13", "AA15"]));
    assert!(!is_drivable(&["AA14", "AA15"]), "no write characteristic");
    assert!(!is_drivable(&["AA13"]), "no notify characteristic");
}

#[test]
fn full_128_bit_uuids_from_android_match_the_16_bit_table() {
    assert!(is_drivable(&[
        "0000aa13-0000-1000-8000-00805f9b34fb",
        "0000aa14-0000-1000-8000-00805f9b34fb",
    ]));
}

#[test]
fn the_control_channel_is_subscribed_first() {
    assert_eq!(NOTIFY_ALL[0], CONTROL_NOTIFY);
}

#[test]
fn case_does_not_matter_and_an_empty_table_is_not_drivable() {
    assert!(is_drivable(&["aa13", "aA15"]));
    assert!(!is_drivable(&[]));
}
