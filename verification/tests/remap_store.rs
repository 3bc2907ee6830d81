//! Storing of remappings.

use serde_json::Value;
use winctrl_config::enumerate::{Controller, WinwingDevice};
use winctrl_config::remap_store::{
    device_key, device_meta, file_owner, load_mapping, mapping_path, remap_dir, save_mapping, slug,
    user_home, RemapMapping, SaveAction, REMAP_FORMAT,
};

fn dev(pid: u16, serial: &str) -> WinwingDevice {
    WinwingDevice {
        hidraw: "/dev/hidraw4".into(),
        vid: 0x4098,
        pid,
        product: "URSA MINOR R".into(),
        serial: serial.into(),
        controllers: vec![Controller::new(0x0A, 0xBF)],
        evdev: "/dev/input/event20".into(),
    }
}

#[test]
fn set_identity_removes_override() {
    let mut m = RemapMapping::new();
    m.set(3, 5).unwrap();
    assert_eq!(m.output_for(3), 5);
    m.set(3, 3).unwrap();
    assert!(m.is_empty());
}

#[test]
fn rejects_zero_ordinals() {
    let mut m = RemapMapping::new();
    assert!(m.set(0, 5).is_err());
    assert!(m.set(2, 0).is_err());
}

#[test]
fn device_key_uses_serial_when_present() {
    assert_eq!(device_key(&dev(0xBC2A, "SN123")), "bc2a-SN123");
    assert_eq!(device_key(&dev(0xBC2A, "")), "bc2a");
}

#[test]
fn slug_sanitizes() {
    assert_eq!(slug("bc2a-SN 12/3"), "bc2a-SN-12-3");
    assert_eq!(slug("///"), "remap");
}

#[test]
fn json_roundtrip() {
    let mut m = RemapMapping::new();
    m.set(1, 5).unwrap();
    m.set(2, 6).unwrap();
    let v = m.to_json(device_meta(&dev(0xBC2A, "SN")));
    let back = RemapMapping::from_json(&v).unwrap();
    assert_eq!(back, m);
    assert_eq!(v["format"], REMAP_FORMAT);
    assert_eq!(v["overrides"]["1"], 5);
}

/// The text of the file that is to be written.
fn written(a: SaveAction) -> String {
    match a {
        SaveAction::Write(t) => t,
        other => panic!("{other:?}"),
    }
}

#[test]
fn save_then_load_roundtrip_via_tmp() {
    let d = dev(0xBC2A, "SNROUND");
    let mut m = RemapMapping::new();
    m.set(4, 9).unwrap();
    let text = written(save_mapping(&d, &m));
    let back = load_mapping(Some(&text));
    assert_eq!(back, m);
    let empty = RemapMapping::new();
    assert_eq!(save_mapping(&d, &empty), SaveAction::Remove);
    assert!(load_mapping(None).is_empty());
}

#[test]
fn the_file_of_a_remapping() {
    let mut m = RemapMapping::new();
    m.set(10, 2).unwrap();
    m.set(9, 3).unwrap();
    let text = written(save_mapping(&dev(0xBC2A, "S\"1"), &m));
    let v: Value = serde_json::from_str(&text).unwrap();
    assert_eq!(v["format"], REMAP_FORMAT);
    assert_eq!(v["version"], 1);
    assert_eq!(v["app_version"], "0.1.0");
    assert_eq!(v["device"]["pid"], "bc2a");
    assert_eq!(v["device"]["serial"], "S\"1");
    assert_eq!(v["device"]["product_name"], "URSA MINOR R");
    assert_eq!(v["overrides"]["10"], 2);
    assert!(text.starts_with("{\n"));
}

#[test]
fn what_is_not_a_remapping_is_refused() {
    let parse = |t: &str| RemapMapping::from_json(&serde_json::from_str::<Value>(t).unwrap());
    assert_eq!(parse("{}").unwrap_err(), "format de remap inattendu");
    assert!(parse(r#"{"format":"winwing-remap","version":9,"overrides":{}}"#)
        .unwrap_err()
        .starts_with("version de remap trop récente"));
    assert!(parse(r#"{"format":"winwing-remap","version":1,"overrides":{"a":2}}"#).is_err());
    assert!(parse(r#"{"format":"winwing-remap","version":1,"overrides":{"1":"x"}}"#).is_err());
    assert!(load_mapping(Some("not json")).is_empty());
    assert!(load_mapping(Some("[1]")).is_empty());
}

#[test]
fn entries_are_listed_in_order() {
    let mut m = RemapMapping::new();
    m.set(30, 1).unwrap();
    m.set(4, 2).unwrap();
    m.set(7, 3).unwrap();
    assert_eq!(m.entries(), vec![(4, 2), (7, 3), (30, 1)]);
    m.clear(7);
    assert_eq!(m.len(), 2);
    assert_eq!(m.output_for(7), 7);
    let ov = m.to_overrides();
    assert_eq!((ov[&4], ov[&30], ov.len()), (2, 1, 2));
    m.clear_all();
    assert!(m.is_empty());
}

#[test]
fn files_and_homes() {
    assert_eq!(remap_dir("/home/u"), "/home/u/.local/share/winctrl/remap");
    assert_eq!(mapping_path(&dev(0xBC2A, "A/1"), "/d/"), "/d/bc2a-A-1.json");
    let home = || Some("/root".to_string());
    let sudo = || Some("/home/u".to_string());
    assert_eq!(user_home(Some("u"), true, sudo(), home()), "/home/u");
    assert_eq!(user_home(Some("u"), false, sudo(), home()), "/root");
    assert_eq!(user_home(Some(""), true, sudo(), home()), "/root");
    assert_eq!(user_home(Some("u"), true, None, None), ".");
    assert_eq!(file_owner(Some("u"), true, Some((1000, 1001))), Some((1000, 1001)));
    assert_eq!(file_owner(Some("u"), true, Some((u32::MAX, 1))), None);
    assert_eq!(file_owner(Some("u"), false, Some((1, 1))), None);
    assert_eq!(file_owner(None, true, Some((1, 1))), None);
}

#[test]
fn names_that_differ_only_in_other_characters_meet() {
    let path = |serial: &str| mapping_path(&dev(0xBC2A, serial), "/d");
    assert_eq!(path("a b"), path("a-b"));
    assert_ne!(path("a b"), path("a c"));
    assert_ne!(path("AB"), path("A"));
}
