//! The structures that drive the motor.

use winctrl_config::native;
use winctrl_config::rumble::{
    build_rumble_effect, effect_id, encode_rumble_effect, play_event, EV_FF, FF_RUMBLE,
};

#[test]
fn effect_buffer_layout() {
    let b = build_rumble_effect(0x1234, 0x5678, 700, -1);
    assert_eq!(b.len(), 48);
    assert_eq!(u16::from_ne_bytes([b[0], b[1]]), FF_RUMBLE);
    assert_eq!(i16::from_ne_bytes([b[2], b[3]]), -1);
    assert_eq!(u16::from_ne_bytes([b[10], b[11]]), 700);
    assert_eq!(u16::from_ne_bytes([b[16], b[17]]), 0x1234);
    assert_eq!(u16::from_ne_bytes([b[18], b[19]]), 0x5678);
}

#[test]
fn the_number_of_an_effect_is_read_back() {
    for little in [true, false] {
        let b = encode_rumble_effect(1, 2, 3, -1, little);
        assert_eq!(effect_id(&b, little), -1);
        let b = encode_rumble_effect(1, 2, 3, 258, little);
        assert_eq!(effect_id(&b, little), 258);
    }
    let b = encode_rumble_effect(0x0102, 0, 0, 0, true);
    assert_eq!((b[0], b[1], b[16], b[17]), (0x50, 0, 2, 1));
    let b = encode_rumble_effect(0x0102, 0, 0, 0, false);
    assert_eq!((b[0], b[1], b[16], b[17]), (0, 0x50, 1, 2));
}

#[test]
fn events_that_start_and_stop() {
    let e = play_event(3, true, true);
    assert_eq!(e.len(), 24);
    assert_eq!(&e[16..], &[0x15, 0, 3, 0, 1, 0, 0, 0]);
    assert_eq!(&play_event(3, false, true)[20..], &[0, 0, 0, 0]);
    assert_eq!(EV_FF, 0x15);
    assert_eq!(native::is_little(), 1u16.to_ne_bytes()[0] == 1);
}
