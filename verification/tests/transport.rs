//! Frames and their echoes.

use winctrl_config::protocol::{self, WriteGuardError};
use winctrl_config::transport::{
    accepts_echo, cfg_reply, finish_calibration_frame, guarded_frame, is_request_opcode, led_frame,
    read_frame, reply_payload, request_frame, restart_frame, start_calibration_frame,
};

#[test]
fn echoes_are_told_by_report_and_opcode() {
    assert!(accepts_echo(&[2, 0, 0, 0, 0, 1, 5], 5));
    assert!(!accepts_echo(&[1, 0, 0, 0, 0, 1, 5], 5));
    assert!(!accepts_echo(&[2, 0, 0, 0, 0, 1, 6], 5));
    assert!(!accepts_echo(&[2, 0, 0, 0, 0, 1], 5));
}

#[test]
fn a_word_is_read_from_its_echo() {
    let f = read_frame(0x0A, 0xBF, 0xD8);
    assert_eq!(protocol::hx(&f), "02 0a bf 00 00 04 05 d8 00 00 00 00 00 00");
    let echo = [2, 0x0A, 0xBF, 0, 0, 8, 5, 0xD8, 0, 0, 1, 2, 3, 4];
    assert_eq!(cfg_reply(&echo, 0xD8), Some([1, 2, 3, 4]));
    assert_eq!(cfg_reply(&echo, 0xDC), None);
    assert_eq!(cfg_reply(&echo[..13], 0xD8), None);
}

#[test]
fn only_requests_are_asked() {
    assert!(request_frame(1, 2, protocol::OP_REQUEST_DEVICE_HW).is_some());
    assert!(request_frame(1, 2, protocol::OP_WRITE_CFG_DATA).is_none());
    assert!(!is_request_opcode(protocol::OP_ENTER_UPDATA_MODE));
    assert_eq!(reply_payload(&[2, 0, 0, 0, 0, 3, 1, 8, 9, 7]), vec![8, 9]);
    assert_eq!(reply_payload(&[2, 0, 0, 0, 0, 9, 1, 8]), vec![8]);
    assert!(reply_payload(&[2, 0, 0, 0, 0, 0, 1]).is_empty());
}

#[test]
fn writes_pass_the_guard() {
    let f = guarded_frame(0x20, 0xBB, 0xC8, [1, 0, 0, 0], false).unwrap();
    assert_eq!(protocol::hx(&f), "02 20 bb 00 00 08 06 c8 00 00 01 00 00 00");
    assert_eq!(guarded_frame(0x20, 0xBB, 0x5C, [0; 4], false), Err(WriteGuardError::Identity(0x5C)));
    assert_eq!(guarded_frame(0x20, 0xBB, 0xF0, [0; 4], true), Err(WriteGuardError::Forbidden(0xF0)));
    // The guard answers for the offset that the three bytes carry.
    let f = guarded_frame(0x20, 0xBB, 0x0100_00D8, [1, 2, 3, 4], false).unwrap();
    assert_eq!(protocol::hx(&f), "02 20 bb 00 00 08 06 d8 00 00 01 02 03 04");
    assert_eq!(
        guarded_frame(0x20, 0xBB, 0x0100_009C, [0; 4], false),
        Err(WriteGuardError::Identity(0x9C))
    );
    assert!(guarded_frame(0x20, 0xBB, 0x0100_009C, [0; 4], true).is_ok());
    assert_eq!(
        guarded_frame(0x20, 0xBB, 0xFF00_0100, [0; 4], true),
        Err(WriteGuardError::Forbidden(0x100))
    );
    let f = guarded_frame(0x20, 0xBB, u32::MAX, [0; 4], false).unwrap();
    assert_eq!(f[7..10], [0xFF, 0xFF, 0xFF]);
    assert!(guarded_frame(0x20, 0xBB, 0xFF_FFFC, [0; 4], false).is_ok());
}

#[test]
fn orders_without_a_word() {
    assert_eq!(led_frame(0x20, 0xBB, 0, 200)[6..9], [0x49, 0, 200]);
    assert_eq!(restart_frame(0x20, 0xBB)[5..7], [1, protocol::OP_DEVICE_RESTART]);
    assert_eq!(start_calibration_frame(0x0A, 0xBF, 2)[5..8], [2, 0x47, 2]);
    assert_eq!(finish_calibration_frame(0x0A, 0xBF, 2)[5..8], [2, 0x48, 2]);
}
