//! Capture and listing of profiles.

use std::collections::HashMap;
use winctrl_config::enumerate::{Controller, WinwingDevice};
use winctrl_config::model::{Transport, TransportError};
use winctrl_config::profiles::{
    capture_controller, capture_device, chosen_name, describe, describe_with, is_profile_file,
    list_profiles, page_key, profile_path, slug, DeviceMeta, Profile, ProfileController,
};
use winctrl_config::protocol as p;

/// A flash of which every word answers with its offset.
struct Counting {
    reads: Vec<u32>,
    missing: HashMap<u32, ()>,
}

impl Transport for Counting {
    fn open(path: &str) -> Result<Self, TransportError> {
        if path.is_empty() {
            return Err(TransportError::Io("empty".to_string()));
        }
        Ok(Counting { reads: Vec::new(), missing: HashMap::new() })
    }
    fn close(self) {}
    fn read_cfg(&mut self, _d: u8, _f: u8, o: u32) -> Option<[u8; 4]> {
        self.reads.push(o);
        if self.missing.contains_key(&o) {
            None
        } else {
            Some([o as u8, (o >> 8) as u8, 0, 255])
        }
    }
    fn request(&mut self, _d: u8, _f: u8, _op: u8) -> Option<Vec<u8>> {
        None
    }
    fn write_cfg(
        &mut self,
        _device: u8,
        _family: u8,
        _offset: u32,
        _data: [u8; 4],
        _allow_identity: bool,
    ) -> Result<(p::Frame, Option<Vec<u8>>), TransportError> {
        panic!("a capture only reads")
    }
    fn restart(&mut self, _device: u8, _family: u8) -> (p::Frame, Option<Vec<u8>>) {
        panic!("a capture only reads")
    }
}

fn dev() -> WinwingDevice {
    WinwingDevice {
        hidraw: "/dev/hidraw4".into(),
        vid: 0x4098,
        pid: 0xBC2A,
        product: "URSA MINOR R".into(),
        serial: "SN1".into(),
        controllers: vec![Controller::new(0x0A, 0xBF)],
        evdev: String::new(),
    }
}

#[test]
fn a_capture_leaves_the_identity_out() {
    let mut t = Counting::open("x").unwrap();
    t.missing.insert(0xC8, ());
    let c = capture_controller(&mut t, 0x0A, 0xBF);
    assert_eq!(c.model, "JGRIP_F1_R");
    assert!(t.reads.iter().all(|&o| p::is_profile_writable(o) && o % 4 == 0 && o <= 0x1DC));
    assert!(!t.reads.contains(&0x5C) && t.reads.contains(&0xD8) && t.reads.contains(&0x1DC));
    assert!(!c.entries.iter().any(|e| e.0 == "0x00c8"));
    assert!(c.entries.contains(&("0x00d8".to_string(), "d8 00 00 ff".to_string())));
    assert!(c.entries.windows(2).all(|w| w[0].0 < w[1].0));
    assert_eq!(c.entries.len(), t.reads.len() - 1);
}

#[test]
fn a_profile_of_a_joystick() {
    let ctrls = [Controller::new(0x0A, 0xBF), Controller::new(0x01, 0x02)];
    let prof = capture_device::<Counting>("x", &ctrls, "Mine", &dev(), "2026-01-01 10:00").unwrap();
    assert!(prof.is_valid());
    assert_eq!((prof.name.as_str(), prof.version), ("Mine", 1));
    assert_eq!(prof.app_version, "0.1.0");
    assert_eq!(prof.device.pid, "bc2a");
    assert_eq!(prof.controllers[1].model, "");
    assert_eq!(prof.entry_count(), 2 * prof.controllers[0].entries.len());
    assert!(capture_device::<Counting>("", &ctrls, "Mine", &dev(), "").is_err());
}

fn profile(name: &str, format: &str, version: u32, controllers: usize) -> Profile {
    let c = ProfileController { device: 1, family: 2, model: String::new(), entries: vec![] };
    Profile {
        format: format.to_string(),
        version,
        name: name.to_string(),
        created: String::new(),
        app_version: String::new(),
        device: DeviceMeta {
            hidraw: String::new(),
            pid: String::new(),
            product_name: String::new(),
            serial: String::new(),
        },
        controllers: vec![c; controllers],
    }
}

#[test]
fn profiles_are_checked() {
    assert!(profile("a", "winwing-profile", 1, 1).is_valid());
    assert!(profile("a", "winwing-profile", 0, 1).is_valid());
    assert!(!profile("a", "winwing-profile", 2, 1).is_valid());
    assert!(!profile("a", "other", 1, 1).is_valid());
    assert!(!profile("a", "winwing-profile", 1, 0).is_valid());
}

#[test]
fn profiles_are_listed_by_name() {
    let found: Vec<(String, Profile)> = vec![
        ("1".to_string(), profile("bÉta", "winwing-profile", 1, 1)),
        ("2".to_string(), profile("Alpha", "winwing-profile", 1, 1)),
        ("3".to_string(), profile("aaa", "bad", 1, 1)),
        ("4".to_string(), profile("Béta", "winwing-profile", 1, 1)),
        ("5".to_string(), profile("ALPHA", "winwing-profile", 1, 1)),
        ("6".to_string(), profile("Zed", "winwing-profile", 1, 1)),
    ];
    let paths: Vec<String> = list_profiles(found).into_iter().map(|f| f.0).collect();
    assert_eq!(paths, vec!["2", "5", "1", "4", "6"]);
}

#[test]
fn files_of_profiles() {
    assert_eq!(slug(" My profile! "), "My-profile");
    assert_eq!(slug("***"), "profil");
    assert_eq!(profile_path("/h", "a b"), "/h/.local/share/winctrl/profiles/a-b.json");
    assert_eq!(page_key(&dev()), "bc2a:/dev/hidraw4");
    assert_eq!(chosen_name(" \t", "profile".to_string()), "profile");
    assert_eq!(chosen_name(" a ", "profile".to_string()), " a ");
    assert!(is_profile_file("a.json") && is_profile_file("..json"));
    assert!(!is_profile_file(".json") && !is_profile_file("a.txt") && !is_profile_file("json"));
}

#[test]
fn profiles_are_described() {
    let mut prof = profile("a", "winwing-profile", 1, 2);
    assert_eq!(describe_with("{}|{}|{}".to_string(), &prof), "—|?|0");
    prof.created = "today".to_string();
    prof.device.product_name = "URSA".to_string();
    prof.controllers[1].entries.push(("0x0000".to_string(), "00".to_string()));
    assert_eq!(describe(&prof), "today · URSA · 1 settings");
}
