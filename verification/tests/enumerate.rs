//! Discovery of devices from the texts of `/sys`.

use winctrl_config::enumerate::{
    controllers_for, discover, find_event_node, format_list, format_list_with,
    parse_hid_id, read_hex, uevent_value, usb_serial, Controller, EventNode,
    HidrawNode, ListTexts, UsbNode, WinwingDevice,
};
use winctrl_config::protocol as p;

#[test]
fn controllers_for_grip_r() {
    let ctrls = controllers_for(0xBC2A);
    assert_eq!(ctrls.len(), 2);
    assert_eq!(ctrls[0], Controller::new(0x0A, p::FAMILY_GRIP));
    assert_eq!(ctrls[0].model(), "JGRIP_F1_R");
    assert_eq!(ctrls[1], Controller::new(p::DEVICE_BASE, p::FAMILY_BASE));
    assert_eq!(ctrls[1].model(), "J5_BASE");
}

#[test]
fn controllers_for_unknown_grip_falls_back_to_base_only() {
    let ctrls = controllers_for(0x0000);
    assert_eq!(ctrls.len(), 1);
    assert_eq!(ctrls[0].family, p::FAMILY_BASE);
}

#[test]
fn controller_display_and_pid_api() {
    let c = Controller::new(0x0A, p::FAMILY_GRIP);
    assert_eq!(c.to_string(), "JGRIP_F1_R (dev 0x0a/fam 0xbf)");
    assert_eq!(c.pid_api(), 0xBF0A);
}

#[test]
fn format_list_empty() {
    assert_eq!(format_list(&[], &[]), "No WinWing device detected.");
}

fn node(name: &str, uevent: &str) -> HidrawNode {
    HidrawNode { name: name.to_string(), uevent: uevent.to_string() }
}

fn some(s: &str) -> Option<String> {
    Some(s.to_string())
}

fn usb_node(name: &str, vendor: &str, product: &str, serial: Option<String>) -> UsbNode {
    UsbNode { name: name.to_string(), vendor: some(vendor), product: some(product), serial }
}

fn event_node(name: &str, abs: &str) -> EventNode {
    EventNode {
        name: name.to_string(),
        vendor: some("4098"),
        product: some("bc2a"),
        abs: some(abs),
    }
}

const UEVENT: &str = "DRIVER=hid-generic\nHID_ID=0003:00004098:0000BC2A\nHID_NAME=WINWING URSA MINOR\nHID_UNIQ=U1\n";

#[test]
fn devices_are_found_in_sys() {
    let nodes = vec![
        node("hidraw3", UEVENT),
        node("hidraw4", "HID_ID=0003:0000046D:0000C52B\nHID_NAME=Mouse\n"),
        node("hidraw5", "HID_NAME=nothing\n"),
    ];
    let usb = vec![
        usb_node("1-1", "046d\n", "c52b\n", some("M\n")),
        usb_node("1-2", "4098\n", "bc2a\n", some("SN42\n")),
    ];
    let events = vec![
        event_node("event7", "0\n"),
        event_node("event8", "3f\n"),
    ];
    let found = discover(&nodes, &usb, &events);
    assert_eq!(found.len(), 1);
    let d = &found[0];
    assert_eq!(d.hidraw, "/dev/hidraw3");
    assert_eq!((d.vid, d.pid), (0x4098, 0xBC2A));
    assert_eq!(d.product, "WINWING URSA MINOR");
    assert_eq!(d.serial, "SN42");
    assert_eq!(d.evdev, "/dev/input/event8");
    assert_eq!(d.controllers, controllers_for(0xBC2A));
    assert!(d.live_readable(true) && !d.live_readable(false));
    assert_eq!(d.controller_of_family(p::FAMILY_GRIP), Some(Controller::new(0x0A, p::FAMILY_GRIP)));
}

#[test]
fn devices_stand_by_path() {
    let nodes = vec![
        node("hidraw3", UEVENT),
        node("xhidraw1", UEVENT),
        node("hidraw2", UEVENT),
        node("hidra", UEVENT),
        node("hidraw10", UEVENT),
    ];
    let found = discover(&nodes, &vec![], &vec![]);
    let paths: Vec<&str> = found.iter().map(|d| d.hidraw.as_str()).collect();
    assert_eq!(paths, ["/dev/hidraw10", "/dev/hidraw2", "/dev/hidraw3"]);
    assert!(discover(&vec![node("js0", UEVENT)], &vec![], &vec![]).is_empty());
}

#[test]
fn first_nodes_by_name_count() {
    let usb = vec![
        usb_node("3-2", "4098", "bc2a", some("late")),
        usb_node("1-9", "4098", "bc2a", None),
        usb_node("2-1", "4098", "bc2a", some(" early\n")),
    ];
    assert_eq!(usb_serial(&usb, 0x4098, 0xBC2A), "early");
    assert_eq!(usb_serial(&usb, 0x4098, 0xBC2B), "");
    let mut events =
        vec![event_node("event7", "0"), event_node("event12", "0"), event_node("input1", "3f")];
    assert_eq!(find_event_node(&events, 0x4098, 0xBC2A), "/dev/input/event12");
    events.push(event_node("event9", "3f"));
    events.push(event_node("event8", "3f"));
    assert_eq!(find_event_node(&events, 0x4098, 0xBC2A), "/dev/input/event8");
}

#[test]
fn texts_of_sys() {
    assert_eq!(uevent_value("A=1\nA=2\nB\n", "A").as_deref(), Some("2"));
    assert_eq!(uevent_value("A=1=2", "A").as_deref(), Some("1=2"));
    assert_eq!(uevent_value("A=1", "B"), None);
    assert_eq!(parse_hid_id("0003:00004098:0000BC2A"), Some((0x4098, 0xBC2A)));
    assert_eq!(parse_hid_id("0003:4098"), None);
    assert_eq!(parse_hid_id("0003:zz:0000BC2A"), None);
    assert_eq!(read_hex(&some(" 4098 \n")), Some(0x4098));
    assert_eq!(read_hex(&some("")), None);
    assert_eq!(read_hex(&None), None);
    assert_eq!(usb_serial(&vec![], 1, 2), "");
    assert_eq!(find_event_node(&vec![], 1, 2), "");
}

#[test]
fn lists_of_devices() {
    let d = WinwingDevice {
        hidraw: "/dev/hidraw3".into(),
        vid: 0x4098,
        pid: 0xBC2A,
        product: "URSA".into(),
        serial: "S".into(),
        controllers: vec![Controller::new(0x0A, p::FAMILY_GRIP)],
        evdev: String::new(),
    };
    let t = ListTexts {
        none: "none".to_string(),
        not_accessible: "closed".to_string(),
        usb_serial: "usb {}!".to_string(),
    };
    let text = format_list_with(&[d.clone()], &[false], &t);
    assert!(text.contains("/dev/hidraw3") && text.contains("closed") && text.contains("usb S!"));
    assert!(text.contains("    • JGRIP_F1_R (dev 0x0a/fam 0xbf)"));
    assert!(!format_list_with(&[d], &[true], &t).contains("closed"));
    assert_eq!(format_list_with(&[], &[], &t), "none");
}
