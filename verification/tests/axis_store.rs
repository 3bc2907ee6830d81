//! Storing of the settings of axes.

use serde_json::Value;
use winctrl_config::axis_curve::{CurveData, CurveType};
use winctrl_config::axis_store::{
    axis_dir, curves_path, load_curves, save_curves, AxisCurves, AXIS_FORMAT,
};
use winctrl_config::enumerate::{Controller, WinwingDevice};
use winctrl_config::livemon::{ABS_THROTTLE, ABS_X};
use winctrl_config::remap_store::SaveAction;

fn dev(pid: u16, serial: &str) -> WinwingDevice {
    WinwingDevice {
        hidraw: "/dev/hidraw4".into(),
        vid: 0x4098,
        pid,
        product: "URSA MINOR R".into(),
        serial: serial.into(),
        controllers: vec![Controller::new(0x0A, 0xBF)],
        evdev: "/dev/input/event20".into(),
    }
}

fn reversed() -> CurveData {
    CurveData {
        is_reversed: true,
        ..Default::default()
    }
}

#[test]
fn axis_store_identity_curve_is_not_stored() {
    let mut c = AxisCurves::new();
    c.set(ABS_THROTTLE, CurveData::default());
    assert!(c.is_empty());
}

#[test]
fn set_get_roundtrip() {
    let mut c = AxisCurves::new();
    c.set(ABS_THROTTLE, reversed());
    assert_eq!(c.len(), 1);
    assert!(c.get(ABS_THROTTLE).is_reversed);
    assert!(!c.get(ABS_X).is_reversed);
}

#[test]
fn json_roundtrip_preserves_all_fields() {
    let mut c = AxisCurves::new();
    let full = CurveData {
        curve_type: CurveType::J,
        is_reversed: true,
        lower: 5,
        upper: 7,
        center_lower: 3,
        center_upper: 4,
        curve: -11,
        zoom: 6,
        x_pos: 40,
        y_pos: 60,
        rotate: -12,
        rotate_group: 42,
    };
    c.set(ABS_THROTTLE, full);
    let v = c.to_json(serde_json::from_str::<Value>("{}").unwrap());
    let back = AxisCurves::from_json(&v).unwrap();
    assert_eq!(back.get(ABS_THROTTLE), full);
}

#[test]
fn from_json_is_tolerant_to_missing_fields() {
    let v: Value = serde_json::from_str(&format!(
        r#"{{"format":"{AXIS_FORMAT}","version":1,"axes":{{"6":{{"is_reversed":true}}}}}}"#
    ))
    .unwrap();
    let c = AxisCurves::from_json(&v).unwrap();
    let got = c.get(ABS_THROTTLE);
    assert!(got.is_reversed);
    assert_eq!(got.curve_type, CurveType::S);
    assert_eq!(got.x_pos, 50);
}

#[test]
fn rejects_wrong_format() {
    let v: Value = serde_json::from_str(r#"{ "format": "nope", "axes": {} }"#).unwrap();
    assert!(AxisCurves::from_json(&v).is_err());
}

#[test]
fn save_load_via_disk() {
    let d = dev(0xBC29, "SN1");
    let mut c = AxisCurves::new();
    c.set(ABS_THROTTLE, reversed());
    let text = match save_curves(&d, &c) {
        SaveAction::Write(t) => t,
        other => panic!("{other:?}"),
    };
    let loaded = load_curves(Some(&text));
    assert_eq!(loaded, c);
    let empty = AxisCurves::new();
    assert_eq!(save_curves(&d, &empty), SaveAction::Remove);
}

#[test]
fn distinct_devices_distinct_files() {
    assert_ne!(
        curves_path(&dev(0xBC29, "A"), "/tmp"),
        curves_path(&dev(0xBC29, "B"), "/tmp")
    );
}

#[test]
fn settings_of_axes_are_listed_and_removed() {
    let mut c = AxisCurves::new();
    c.set(ABS_THROTTLE, reversed());
    c.set(ABS_X, CurveData { rotate: 3, rotate_group: 1, ..Default::default() });
    assert_eq!(c.entries()[0].0, ABS_X);
    assert_eq!(c.to_curves().len(), 2);
    c.set(ABS_X, CurveData::default());
    assert_eq!(c.len(), 1);
    c.clear(ABS_THROTTLE);
    assert!(c.is_empty());
    assert_eq!(axis_dir("/home/u"), "/home/u/.local/share/winctrl/axis");
}

#[test]
fn settings_that_cannot_be_read_are_none() {
    assert!(load_curves(None).is_empty());
    assert!(load_curves(Some("{")).is_empty());
    let late = format!(r#"{{"format":"{AXIS_FORMAT}","version":2,"axes":{{}}}}"#);
    let v: Value = serde_json::from_str(&late).unwrap();
    assert!(AxisCurves::from_json(&v).is_err());
    let bad = format!(r#"{{"format":"{AXIS_FORMAT}","version":1,"axes":{{"x":{{}}}}}}"#);
    let v: Value = serde_json::from_str(&bad).unwrap();
    assert!(AxisCurves::from_json(&v).is_err());
}
