//! The command line.

use std::collections::HashMap;
use winctrl_config::cli::{backlight_dryrun, find_device, parse_command, print_device, twist_dryrun, Command};
use winctrl_config::enumerate::{Controller, WinwingDevice};
use winctrl_config::model::{read_device, Transport, TransportError};
use winctrl_config::protocol as p;

fn args(a: &[&str]) -> Vec<String> {
    a.iter().map(|s| s.to_string()).collect()
}

fn refusal(a: &[&str]) -> Vec<String> {
    match parse_command(&args(a)) {
        Command::Refuse(m) => m.iter().map(|x| x.text()).collect(),
        other => panic!("{other:?}"),
    }
}

#[test]
fn commands() {
    assert_eq!(parse_command(&args(&["wwctrl"])), Command::List);
    assert_eq!(parse_command(&args(&["wwctrl", "--list", "x"])), Command::List);
    assert_eq!(parse_command(&args(&["wwctrl", "--read", "/dev/x"])), Command::Read("/dev/x".to_string()));
    assert_eq!(
        parse_command(&args(&["wwctrl", "--twist-dryrun", "p"])),
        Command::TwistDryRun("p".to_string())
    );
    assert_eq!(
        parse_command(&args(&["wwctrl", "--backlight-dryrun", "p"])),
        Command::BacklightDryRun("p".to_string())
    );
    assert_eq!(refusal(&["wwctrl", "--read"]), vec!["usage: wwctrl --read /dev/hidrawN"]);
    assert_eq!(refusal(&["wwctrl", "--twist-dryrun"]), vec!["usage: wwctrl --twist-dryrun /dev/hidrawN"]);
    assert_eq!(
        refusal(&["wwctrl", "--backlight-dryrun"]),
        vec!["usage: wwctrl --backlight-dryrun /dev/hidrawN"]
    );
    assert_eq!(
        refusal(&["wwctrl", "--flash"]),
        vec![
            "unknown argument: --flash",
            "usage: wwctrl [--list | --read | --twist-dryrun | --backlight-dryrun /dev/hidrawN]",
        ]
    );
}

struct Flash {
    words: HashMap<u32, [u8; 4]>,
}

impl Transport for Flash {
    fn open(_path: &str) -> Result<Self, TransportError> {
        Ok(Flash { words: [(0x04, [1, 0, 0, 0]), (0x5C, [85, 82, 0, 0])].into_iter().collect() })
    }
    fn close(self) {}
    fn read_cfg(&mut self, _d: u8, _f: u8, o: u32) -> Option<[u8; 4]> {
        self.words.get(&o).copied()
    }
    fn request(&mut self, _d: u8, _f: u8, _op: u8) -> Option<Vec<u8>> {
        None
    }
    fn write_cfg(
        &mut self,
        _device: u8,
        _family: u8,
        _offset: u32,
        _data: [u8; 4],
        _allow_identity: bool,
    ) -> Result<(p::Frame, Option<Vec<u8>>), TransportError> {
        panic!("a dry run does not write")
    }
    fn restart(&mut self, _device: u8, _family: u8) -> (p::Frame, Option<Vec<u8>>) {
        panic!("a dry run does not restart")
    }
}

#[test]
fn dry_runs_show_frames() {
    let mut t = Flash::open("x").unwrap();
    t.words.insert(0xD8, [0xFF, 1, 2, 3]);
    let lines = twist_dryrun(&mut t, &Controller::new(0x0A, 0xBF));
    assert_eq!(lines[0], "DRY-RUN twist 0xD8 — JGRIP_F1_R (dev 0x0a / fam 0xbf) — NO write emitted");
    assert_eq!(
        lines[1],
        "  buttons       (mode 0x00) : old=[ff 01 02 03]  new=[00 01 02 03]  FRAME = 02 0a bf 00 00 08 06 d8 00 00 00 01 02 03"
    );
    assert_eq!(lines.len(), 4);
    t.words.clear();
    let lines = twist_dryrun(&mut t, &Controller::new(0x0A, 0xBF));
    assert_eq!(
        lines[3],
        "  axis          : error — erreur d'I/O : lecture de 0xd8 impossible (pas d'écho)"
    );
    t.words.insert(0xF8, [9, 0, 0, 0]);
    let lines = backlight_dryrun(&mut t, &Controller::new(0x20, 0xBB));
    assert_eq!(
        lines,
        vec![
            "DRY-RUN backlight — J5_BASE (dev 0x20 / fam 0xbb) — NO write emitted",
            "  live 0x49 (val 128)   : FRAME = 02 20 bb 00 00 03 49 00 80 00 00 00 00 00",
            "  mode breathing   0xF8  : new=[00 00 00 00]  TRAME = 02 20 bb 00 00 08 06 f8 00 00 00 00 00 00",
            "  mode static      0xF8  : new=[01 00 00 00]  TRAME = 02 20 bb 00 00 08 06 f8 00 00 01 00 00 00",
        ]
    );
    t.words.insert(0xEC, [0, 7, 0, 0]);
    assert_eq!(
        backlight_dryrun(&mut t, &Controller::new(0x20, 0xBB))[2],
        "  persist 0xEC (val 128) : new=[80 07 00 00]  FRAME = 02 20 bb 00 00 08 06 ec 00 00 80 07 00 00"
    );
}

#[test]
fn an_endpoint_is_printed() {
    let cfg = read_device::<Flash>("/dev/hidraw1", &[Controller::new(0x20, 0xBB)]).unwrap();
    let lines = print_device(&cfg);
    assert_eq!(lines[0], "Endpoint /dev/hidraw1");
    assert_eq!(lines[1], "\n== J5_BASE (dev 0x20 / fam 0xbb) ==");
    assert_eq!(lines[2], "  product : UR");
    assert!(lines.contains(&"  0x0004  firmware_complete   01 00 00 00   Firmware complete".to_string()));
    assert!(lines.iter().any(|l| l.ends_with(" [protected identity]")));
    assert!(!lines.iter().any(|l| l.contains("twist   :")));
}

#[test]
fn joysticks_are_found_by_path() {
    let dev = |h: &str| WinwingDevice {
        hidraw: h.into(),
        vid: 0x4098,
        pid: 1,
        product: String::new(),
        serial: String::new(),
        controllers: vec![],
        evdev: String::new(),
    };
    let all = vec![dev("a"), dev("b"), dev("b")];
    assert_eq!(find_device(&all, "b"), Some(1));
    assert_eq!(find_device(&all, "c"), None);
}
