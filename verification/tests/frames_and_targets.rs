use radar_pipeline::arith::isqrt;
use radar_pipeline::command::{ack_push, Frame};
use radar_pipeline::target::{parse_custom_i16, Target, TargetParseError, TargetsList,
    TargetsListParseError};

#[test]
fn command_frames_have_header_length_data_footer() {
    let f = Frame::new(&[0x80, 0x00]);
    assert_eq!(
        f.as_bytes(),
        &[0xFD, 0xFC, 0xFB, 0xFA, 0x02, 0x00, 0x80, 0x00, 0x04, 0x03, 0x02, 0x01]
    );
    assert_eq!(
        Frame::open_command_mode().as_bytes(),
        &[0xFD, 0xFC, 0xFB, 0xFA, 0x04, 0x00, 0xFF, 0x00, 0x01, 0x00, 0x04, 0x03, 0x02, 0x01]
    );
    assert_eq!(
        Frame::close_command_mode().as_bytes(),
        &[0xFD, 0xFC, 0xFB, 0xFA, 0x02, 0x00, 0xFE, 0x00, 0x04, 0x03, 0x02, 0x01]
    );
    assert_eq!(Frame::set_single_target().as_bytes()[6], 0x80);
    assert_eq!(Frame::set_multi_target().as_bytes()[6], 0x90);
}

#[test]
fn ack_scan_completes_on_header_and_footer() {
    let mut buf = Vec::new();
    let frame = Frame::set_single_target();
    let bytes = frame.as_bytes();
    let mut done = false;
    for &b in bytes {
        assert!(!done);
        done = ack_push(&mut buf, 64, b);
    }
    assert!(done);

    // Junk never completes, and the buffer restarts at capacity.
    let mut buf = Vec::new();
    for i in 0..200u16 {
        assert!(!ack_push(&mut buf, 64, (i % 251) as u8));
    }
}

#[test]
fn custom_encoding_maps_both_halves() {
    // MSB set: 0x8000..0xFFFF maps to 0..32767.
    assert_eq!(parse_custom_i16(&[0x00, 0x80]), 0);
    assert_eq!(parse_custom_i16(&[0x01, 0x80]), 1);
    assert_eq!(parse_custom_i16(&[0xFF, 0xFF]), 32767);
    // MSB clear: 0x0000..0x7FFF maps to 0..-32767.
    assert_eq!(parse_custom_i16(&[0x00, 0x00]), 0);
    assert_eq!(parse_custom_i16(&[0x01, 0x00]), -1);
    assert_eq!(parse_custom_i16(&[0xFF, 0x7F]), -32767);
}

#[test]
fn target_slot_parsing() {
    assert!(matches!(
        Target::parse(&[0; 7]),
        Err(TargetParseError::InvalidDataLength)
    ));
    assert!(matches!(Target::parse(&[0; 8]), Err(TargetParseError::Empty)));

    let t = Target::parse(&[0x02, 0x80, 0x05, 0x00, 0x0A, 0x80, 0x40, 0x00]).unwrap();
    assert_eq!(t.x, 2);
    assert_eq!(t.y, -5);
    assert_eq!(t.speed, 10);
    assert_eq!(t.distance_resolution, 0x40);
}

#[test]
fn report_frame_parsing() {
    assert!(matches!(
        TargetsList::parse(&[0xAA]),
        Err(TargetsListParseError::DataTooShort(1))
    ));

    let mut bad_header = vec![0x00, 0xFF, 0x03, 0x00];
    bad_header.extend_from_slice(&[0; 8]);
    bad_header.extend_from_slice(&[0x55, 0xCC]);
    assert!(matches!(
        TargetsList::parse(&bad_header),
        Err(TargetsListParseError::InvalidHeader(_))
    ));

    let mut bad_footer = vec![0xAA, 0xFF, 0x03, 0x00];
    bad_footer.extend_from_slice(&[0; 8]);
    bad_footer.extend_from_slice(&[0x55, 0x00]);
    assert!(matches!(
        TargetsList::parse(&bad_footer),
        Err(TargetsListParseError::InvalidFooter(_))
    ));

    // One slot with an approaching target at 10 km/h (encoded as -10),
    // three slots cut short by the footer.
    let mut frame = vec![0xAA, 0xFF, 0x03, 0x00];
    frame.extend_from_slice(&[0x02, 0x80, 0x00, 0x80, 0x0A, 0x00, 0x40, 0x00]);
    frame.extend_from_slice(&[0x55, 0xCC]);
    let list = TargetsList::parse(&frame).unwrap();
    let slots = list.targets();
    assert!(slots[0].is_some());
    assert!(slots[1].is_none() && slots[2].is_none() && slots[3].is_none());
    assert_eq!(slots[0].as_ref().unwrap().speed, -10);
    assert_eq!(list.max_speed(), 10);
}

#[test]
fn max_speed_over_full_report() {
    // Four slots: speeds encoded so that -speed is 5, 12, 0 (empty), 3.
    let mut frame = vec![0xAA, 0xFF, 0x03, 0x00];
    frame.extend_from_slice(&[0x01, 0x80, 0x01, 0x80, 0x05, 0x00, 0x01, 0x00]);
    frame.extend_from_slice(&[0x01, 0x80, 0x01, 0x80, 0x0C, 0x00, 0x01, 0x00]);
    frame.extend_from_slice(&[0x00; 8]);
    frame.extend_from_slice(&[0x01, 0x80, 0x01, 0x80, 0x03, 0x00, 0x01, 0x00]);
    frame.extend_from_slice(&[0x55, 0xCC]);
    let list = TargetsList::parse(&frame).unwrap();
    assert_eq!(list.max_speed(), 12);
}

#[test]
fn integer_square_root_brackets_its_input() {
    assert_eq!(isqrt(0), 0);
    assert_eq!(isqrt(1), 1);
    assert_eq!(isqrt(3), 1);
    assert_eq!(isqrt(4), 2);
    assert_eq!(isqrt(999_999), 999);
    assert_eq!(isqrt(1_000_000), 1000);
    assert_eq!(isqrt(u64::from(u32::MAX)), 65535);
    assert_eq!(isqrt(u64::MAX), 4294967295);
}
