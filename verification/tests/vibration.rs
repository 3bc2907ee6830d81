//! Effects of the motor.

use winctrl_config::enumerate::WinwingDevice;
use winctrl_config::vibration::{config_path, device_key, settle, Cv, Points, VibEffect, VibFile};

fn points(x: &[i32], levels: &[&[i32]]) -> Points<i32> {
    Points { x: x.to_vec(), cv: levels.iter().map(|v| Cv { c: 0, v: v.to_vec() }).collect() }
}

#[test]
fn levels_get_one_value_for_each_point() {
    let mut p = points(&[1, 2, 3], &[&[5], &[1, 2, 3, 4]]);
    p.sanitize(0);
    assert_eq!(p, points(&[1, 2, 3], &[&[5, 0, 0], &[1, 2, 3]]));
    let mut p = points(&[1, 2], &[]);
    p.sanitize(0);
    assert_eq!(p, points(&[1, 2], &[&[0, 0]]));
}

#[test]
fn points_are_set_and_read() {
    let mut p = points(&[0, 10], &[&[1, 2], &[3]]);
    p.set_point(1, 20, 9);
    assert_eq!(p, points(&[0, 20], &[&[1, 9], &[3]]));
    assert_eq!(p.point_at(1, 0), Some((20, 9)));
    assert_eq!(p.point_at(2, 0), None);
    p.set_point(7, 1, 1);
    assert_eq!(p.npoints(), 2);
    assert_eq!(points(&[4], &[]).point_at(0, -1), Some((4, -1)));
}

#[test]
fn an_intensity_makes_its_level() {
    let mut p = points(&[0, 10], &[]);
    p.set_intensity(1, 8, 0);
    assert_eq!(p, points(&[0, 10], &[&[0, 8]]));
    p.set_intensity(5, 8, 0);
    assert_eq!(p, points(&[0, 10], &[&[0, 8]]));
}

#[test]
fn points_are_added_and_removed() {
    let mut p = points(&[0, 10], &[&[1, 2]]);
    p.add_point(11, 0);
    assert_eq!(p, points(&[0, 10, 11], &[&[1, 2, 0]]));
    p.remove_point(2);
    assert_eq!(p, points(&[0, 10], &[&[1, 2]]));
    p.remove_point(0);
    p.remove_point(0);
    assert_eq!(p, points(&[10], &[&[2]]));
    p.remove_point(3);
    assert_eq!(p.npoints(), 1);
    let mut p = points(&[], &[]);
    p.add_point(1, 0);
    assert_eq!(p, points(&[1], &[&[0]]));
}

fn file(name: &str, effects: Vec<VibEffect<i32>>) -> VibFile<i32> {
    VibFile { format: name.to_string(), version: 1, intensity: 50, effects }
}

fn effect(p: Points<i32>) -> VibEffect<i32> {
    VibEffect {
        name: "Bell".to_string(),
        enable: true,
        x_axis: None,
        x_min: 0,
        x_max: 100,
        v_min: 0,
        v_max: 100,
        points: p,
    }
}

#[test]
fn a_file_without_effects_is_replaced() {
    let default = || file("default", vec![effect(points(&[1, 2], &[&[3, 4]]))]);
    assert_eq!(settle(None, default(), 0), default());
    assert_eq!(settle(Some(file("stored", vec![])), default(), 0), default());
    let stored = file("stored", vec![effect(points(&[1, 2], &[&[3]]))]);
    let got = settle(Some(stored), default(), 0);
    assert_eq!(got, file("stored", vec![effect(points(&[1, 2], &[&[3, 0]]))]));
}

#[test]
fn names_of_effect_files() {
    let dev = |serial: &str| WinwingDevice {
        hidraw: "/dev/hidraw0".into(),
        vid: 0x4098,
        pid: 0xBC2A,
        product: "URSA".into(),
        serial: serial.into(),
        controllers: vec![],
        evdev: String::new(),
    };
    assert_eq!(device_key(&dev("S/N 4é2")), "bc2a-SN42");
    assert_eq!(device_key(&dev("--")), "bc2a");
    assert_eq!(
        config_path("/home/u", "bc2a"),
        "/home/u/.local/share/winctrl/vibration/bc2a.json"
    );
}
