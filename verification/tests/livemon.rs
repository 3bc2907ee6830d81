//! Events of the kernel and the live state.

use std::collections::HashSet;
use winctrl_config::livemon::{
    abs_label, axis_codes, button_codes, decode_axis, decode_events, encode_event, eviocgabs,
    eviocgbit, eviocgname, ioc, parse_events, AxisState, LiveState, ABS_THROTTLE, ABS_X, EV_ABS,
    EV_KEY, EV_SIZE, EV_SYN,
};
use winctrl_config::native;

#[test]
fn parse_roundtrip() {
    let mut buf = Vec::new();
    let mut push = |etype: u16, code: u16, value: i32| {
        buf.extend_from_slice(&0i64.to_ne_bytes());
        buf.extend_from_slice(&0i64.to_ne_bytes());
        buf.extend_from_slice(&etype.to_ne_bytes());
        buf.extend_from_slice(&code.to_ne_bytes());
        buf.extend_from_slice(&value.to_ne_bytes());
    };
    push(EV_ABS, ABS_X, 1234);
    push(EV_SYN, 0, 0);
    let evs = parse_events(&buf);
    assert_eq!(evs, vec![(EV_ABS, ABS_X, 1234), (EV_SYN, 0, 0)]);
}

#[test]
fn parse_ignores_partial_tail() {
    let mut buf = vec![0u8; EV_SIZE + 5];
    buf[16] = EV_KEY as u8;
    let evs = parse_events(&buf);
    assert_eq!(evs.len(), 1);
}

#[test]
fn button_index_1based() {
    let st = LiveState {
        buttons: vec![0x120, 0x121, 0x122],
        ..Default::default()
    };
    assert_eq!(st.button_index(0x121), 2);
    assert_eq!(st.button_index(0x999), -1);
}

#[test]
fn axes_as_text() {
    let ax = AxisState {
        code: ABS_X,
        name: "X".into(),
        desc: "roll",
        minimum: 0,
        maximum: 100,
        value: 150,
        centered: true,
    };
    assert_eq!(ax.display(), "150 / 100");
    assert_eq!(ax.span(), 100);
}

#[test]
fn events_are_read_back_in_both_orders() {
    for little in [true, false] {
        let mut b = encode_event(EV_ABS, 0x1234, -2, little);
        b.extend_from_slice(&encode_event(EV_SYN, 0, 0, little));
        assert_eq!(decode_events(&b, little), vec![(EV_ABS, 0x1234, -2), (EV_SYN, 0, 0)]);
    }
    let b = encode_event(EV_KEY, 0x120, 1, native::is_little());
    assert_eq!(parse_events(&b), vec![(EV_KEY, 0x120, 1)]);
}

#[test]
fn requests_to_the_kernel() {
    assert_eq!(ioc(2, 0x45, 0x20, 96), 0x8060_4520);
    assert_eq!(eviocgbit(3, 8), 0x8008_4523);
    assert_eq!(eviocgabs(6), 0x8018_4546);
    assert_eq!(eviocgname(128), 0x8080_4506);
}

#[test]
fn axes_and_buttons_that_a_node_declares() {
    let mut abs = [0u8; 8];
    abs[0] = 0b0100_0101;
    abs[2] = 0b11;
    assert_eq!(axis_codes(&abs), vec![0, 2, 6, 16, 17]);
    let mut keys = [0u8; 96];
    keys[0x120 / 8] = 0xFF;
    keys[0x2C0 / 8] = 1;
    assert_eq!(button_codes(&keys), vec![0x120, 0x121, 0x122, 0x123, 0x124, 0x125, 0x126, 0x127, 0x2C0]);
    assert_eq!(button_codes(&[0xFFu8; 96]).len(), 51);
}

#[test]
fn labels_and_ranges_of_axes() {
    assert_eq!(abs_label(ABS_THROTTLE), ("Slider".to_string(), "throttle", false));
    assert_eq!(abs_label(0x28), ("ABS_28".to_string(), "", false));
    let mut info = [0u8; 24];
    info[0] = 5;
    info[4..8].copy_from_slice(&[0x9C, 0xFF, 0xFF, 0xFF]);
    info[8] = 100;
    let ax = decode_axis(ABS_X, Some(info), true);
    assert_eq!((ax.value, ax.minimum, ax.maximum, ax.centered), (5, -100, 100, true));
    let ax = decode_axis(ABS_X, None, true);
    assert_eq!((ax.value, ax.minimum, ax.maximum), (0, 0, 65535));
}

#[test]
fn the_state_follows_the_events() {
    let mut st = LiveState {
        axes: vec![decode_axis(ABS_X, None, true)],
        buttons: vec![0x120, 0x121, 0x122],
        ..Default::default()
    };
    assert!(!st.apply_event(EV_SYN, 0, 0));
    assert!(!st.apply_event(EV_ABS, ABS_THROTTLE, 9));
    assert!(st.apply_event(EV_ABS, ABS_X, 77));
    assert_eq!(st.axes[0].value, 77);
    assert!(st.apply_events(&vec![(EV_KEY, 0x122, 1), (EV_KEY, 0x121, 1), (EV_KEY, 0x999, 1)]));
    assert!(st.apply_events(&vec![(EV_SYN, 0, 0)]));
    assert!(st.apply_events(&vec![(EV_ABS, ABS_THROTTLE, 9)]));
    assert!(!st.apply_events(&vec![]));
    let none: HashSet<u16> = HashSet::new();
    assert_eq!(st.first_new_press(&none), Some((2, 0x121)));
    let held: HashSet<u16> = [0x121].into_iter().collect();
    assert_eq!(st.first_new_press(&held), Some((3, 0x122)));
    assert!(st.apply_event(EV_KEY, 0x122, 0));
    assert_eq!(st.first_new_press(&held), None);
}
