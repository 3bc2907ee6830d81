//! What the pages show and decide.

use std::collections::HashMap;
use winctrl_config::axis_curve::CurveData;
use winctrl_config::enumerate::{Controller, WinwingDevice};
use winctrl_config::livemon::{AxisState, ABS_RX, ABS_RY, ABS_THROTTLE, ABS_X, ABS_Y};
use winctrl_config::message::Message;
use winctrl_config::model::{
    finish_write, BaseLedState, ControllerCalib, ControllerConfig, DecodedField, DeviceConfig,
    DeviceSnapshot, Transport, TransportError, WriteOutcome,
};
use winctrl_config::pages::axes;
use winctrl_config::pages::buttons;
use winctrl_config::pages::calibration;
use winctrl_config::pages::general;
use winctrl_config::pages::remapping::{self, Session, SessionMode};
use winctrl_config::pages::writes::{self, LightMode, Verdict, WriteAction};
use winctrl_config::pages::{
    after_reading, all_pages, must_reload, page_named, placeholder, PageKind, PageState, Selection,
};
use winctrl_config::protocol as p;
use winctrl_config::remap::{plan_remap, AxisSpec};
use winctrl_config::remap_store::RemapMapping;

fn dev(hidraw: &str) -> WinwingDevice {
    WinwingDevice {
        hidraw: hidraw.into(),
        vid: 0x4098,
        pid: 0xBC2A,
        product: "URSA MINOR R".into(),
        serial: "SN1".into(),
        controllers: vec![Controller::new(0x20, 0xBB), Controller::new(0x0A, 0xBF)],
        evdev: "/dev/input/event3".into(),
    }
}

fn texts(m: &[Message]) -> Vec<String> {
    m.iter().map(|x| x.text()).collect()
}

#[test]
fn pages_have_names() {
    let pages = all_pages();
    assert_eq!(pages.len(), 8);
    for k in pages {
        assert_eq!(page_named(k.stack_id()), Some(k));
        assert!(!k.title().is_empty() && k.icon_name().ends_with("-symbolic"));
    }
    assert_eq!(page_named("nothing"), None);
    assert_eq!(PageKind::General.stack_id(), "main");
}

#[test]
fn a_choice_starts_one_reading() {
    let devices = [dev("/dev/hidraw1"), dev("/dev/hidraw2")];
    let mut s = Selection::default();
    assert_eq!(s.select(&devices, 0), Some(1));
    assert_eq!(s.select(&devices, 0), None);
    assert_eq!(s.select(&devices, 9), None);
    assert!(s.accepts(1));
    assert_eq!(s.select(&devices, 1), Some(2));
    assert!(!s.accepts(1) && s.accepts(2));
    s.generation = u64::MAX;
    assert_eq!(s.select(&devices, 0), Some(0));
}

#[test]
fn states_and_what_stands_for_a_page() {
    let d = dev("/dev/hidraw1");
    assert!(PageState::NoDevice.device().is_none());
    let failed = after_reading(d.clone(), Err(TransportError::Io("denied".to_string())));
    assert_eq!(failed.device().unwrap().hidraw, "/dev/hidraw1");
    assert!(matches!(&failed, PageState::Error(_, m) if m == "/dev/hidraw1 : denied"));
    assert_eq!(
        placeholder(PageKind::Axes, &failed).unwrap().text(),
        "Read failed: /dev/hidraw1 : denied"
    );
    assert_eq!(
        placeholder(PageKind::General, &failed).unwrap().text(),
        "Read failed: /dev/hidraw1 : denied\n(is the access rule installed?)"
    );
    assert_eq!(
        placeholder(PageKind::Buttons, &PageState::Loading(d.clone())).unwrap().text(),
        "Opening /dev/hidraw1 …"
    );
    assert!(placeholder(PageKind::Remap, &PageState::Loading(d.clone())).is_none());
    let ready = after_reading(d, Ok(DeviceSnapshot::default()));
    assert!(placeholder(PageKind::General, &ready).is_none());
    assert_eq!(
        placeholder(PageKind::Profiles, &PageState::NoDevice).unwrap().text(),
        "Select a joystick from the list."
    );
    assert!(must_reload(&None, "a") && must_reload(&Some("b".to_string()), "a"));
    assert!(!must_reload(&Some("a".to_string()), "a"));
}

struct Flash {
    words: HashMap<u32, [u8; 4]>,
    restarts: usize,
}

impl Transport for Flash {
    fn open(_path: &str) -> Result<Self, TransportError> {
        Ok(Flash { words: HashMap::new(), restarts: 0 })
    }
    fn close(self) {}
    fn read_cfg(&mut self, _d: u8, _f: u8, o: u32) -> Option<[u8; 4]> {
        Some(self.words.get(&o).copied().unwrap_or([0xFF; 4]))
    }
    fn request(&mut self, _d: u8, _f: u8, _op: u8) -> Option<Vec<u8>> {
        None
    }
    fn write_cfg(
        &mut self,
        device: u8,
        family: u8,
        offset: u32,
        data: [u8; 4],
        allow_identity: bool,
    ) -> Result<(p::Frame, Option<Vec<u8>>), TransportError> {
        p::guard_write(offset, allow_identity)?;
        self.words.insert(offset, data);
        Ok((p::build_frame(device, family, p::OP_WRITE_CFG_DATA, &[]), None))
    }
    fn restart(&mut self, device: u8, family: u8) -> (p::Frame, Option<Vec<u8>>) {
        self.restarts += 1;
        (p::build_frame(device, family, p::OP_DEVICE_RESTART, &[]), None)
    }
}

fn run(t: &mut Flash, a: WriteAction) -> WriteOutcome {
    let out = a.run(t, 0x20, p::FAMILY_BASE, "ts").unwrap();
    if out.pending.is_some() {
        finish_write(t, out, "/tmp/backup".to_string()).unwrap()
    } else {
        out
    }
}

#[test]
fn actions_write_their_words() {
    let mut t = Flash::open("x").unwrap();
    let out = run(&mut t, WriteAction::DeadzoneBase { y_axis: true, value: 0x0102 });
    assert!(out.verified);
    assert_eq!(t.words[&0xE8], [2, 1, 0, 0]);
    run(&mut t, WriteAction::DeadzoneBase { y_axis: false, value: 7 });
    assert_eq!(t.words[&0xD8], [7, 0, 0, 0]);
    run(&mut t, WriteAction::DeadzoneTwist(200));
    assert_eq!(t.words[&0x104], [0xFF, 0xFF, 30, 0xFF]);
    run(&mut t, WriteAction::FourX32(true));
    assert_eq!((t.words[&0xC8][0], t.restarts), (1, 1));
    run(&mut t, WriteAction::RestoreDefault);
    assert_eq!((t.words[&0xB4], t.restarts), ([1, 0, 0, 0], 2));
    run(&mut t, WriteAction::Brightness(9));
    assert_eq!(t.words[&0xEC][0], 9);
    run(&mut t, WriteAction::Breathing(true));
    assert_eq!(t.words[&0xF8][0], p::BREATHING_VALUE);
    run(&mut t, WriteAction::Twist(1));
    assert_eq!(t.words[&0xD8], [1, 0, 0, 0]);
    let again = run(&mut t, WriteAction::Twist(1));
    assert!(again.skipped && writes::takes_effect(&again));
    assert_eq!(writes::verdict(&again), Verdict::Unchanged);
    assert_eq!(writes::write_result_msg(&again).text(), "Already at this value — nothing to write");
    assert_eq!(writes::twist_result_msg(&again, "Axis").text(), "Already \"Axis\" — nothing to write");
    assert_eq!(writes::light_result_msg(&out).text(), "Setting written");
    let mut lost = out;
    lost.verified = false;
    assert_eq!(writes::write_result_msg(&lost).id(), "Written but not confirmed");
    assert!(!writes::takes_effect(&lost));
    lost.emitted = false;
    assert_eq!(writes::light_result_msg(&lost).id(), "Nothing written");
}

#[test]
fn settings_as_they_are_shown() {
    let d = dev("/dev/hidraw1");
    assert_eq!(writes::base_ctrl(&d), (0x20, 0xBB));
    assert_eq!(writes::grip_ctrl(&d), Some((0x0A, 0xBF)));
    let bare = WinwingDevice { controllers: vec![], ..d };
    assert_eq!(writes::base_ctrl(&bare), (p::DEVICE_BASE, p::FAMILY_BASE));
    assert_eq!(writes::grip_ctrl(&bare), None);
    assert_eq!(writes::deadzone_subtitle(Some(12)).text(), "Deadzone active: 12");
    assert_eq!(writes::deadzone_subtitle(None).text(), "Disabled (no deadzone)");
    let led = |b, r| writes::light_mode(&BaseLedState { brightness: b, breathing: r });
    assert_eq!(led(Some(0), Some(true)), LightMode::Off);
    assert_eq!(led(None, None), LightMode::Off);
    assert_eq!(led(Some(5), Some(true)), LightMode::Breathing);
    assert_eq!(led(Some(5), None), LightMode::Static);
    assert_eq!(LightMode::Off.action(), WriteAction::Brightness(0));
    assert_eq!(LightMode::Static.label(), "Static");
    assert_eq!(writes::twist_choices()[2], ("Axis only", 0xFF));
}

#[test]
fn joysticks_in_the_list() {
    let d = dev("/dev/hidraw1");
    assert_eq!(general::device_title(&d), "URSA MINOR Joystick (right)");
    assert_eq!(general::device_subtitle(&d), "/dev/hidraw1  (4098:bc2a)");
    assert_eq!(general::title_from(Some(String::new()), &d), "URSA MINOR R");
    let bare = WinwingDevice { controllers: vec![], ..d };
    assert_eq!(general::device_title(&bare), "URSA MINOR R");
    assert_eq!(general::connection_status(&[false, true]), ("Connected", "success"));
    assert_eq!(general::connection_status(&[]), ("Disconnected", "neutral"));
}

fn field(name: &'static str, human: &str) -> DecodedField {
    DecodedField { offset: 0xC8, name, raw: Some([1, 2, 3, 4]), human: human.to_string(), identity: false }
}

#[test]
fn the_banner_of_a_joystick() {
    let base = ControllerConfig::new(0x20, 0xBB);
    let mut grip = ControllerConfig::new(0x09, 0xBF);
    grip.serial = "0123456789ab".to_string();
    grip.twist_mode = Some(0xFF);
    grip.fields = vec![
        field("hardware_version", "HW 51.00"),
        field("firmware_complete", "Firmware complete"),
        field("hardware_version", "other"),
    ];
    let cfg = DeviceConfig { hidraw: "x".to_string(), controllers: vec![base, grip] };
    assert_eq!(general::identity_config(&cfg.controllers), Some(1));
    assert_eq!(general::twist_to_change(&cfg.controllers), Some((0x09, 0xBF, 0xFF)));
    let b = general::banner_card(&cfg.controllers[1], &cfg);
    assert!(b.is_left && b.full_firmware);
    assert_eq!(b.name, "URSA MINOR Joystick (left)");
    assert_eq!(b.hardware.as_deref(), Some("HW 51.00"));
    assert_eq!(b.yaw.as_deref(), Some("Axis only"));
    let parts = general::parts_text(&cfg.controllers, "Grip", "Base");
    assert_eq!(general::banner_line(&parts, &b).text(), "Base + Grip · serial no. 01234567…");
    assert_eq!(general::details_title(&cfg.controllers[1]), "JGRIP_F1_L (dev 0x09 / fam 0xbf)");
    assert_eq!(
        general::details_row(&cfg.controllers[1].fields[0]),
        ("0x00c8".to_string(), "01 02 03 04   HW 51.00".to_string())
    );
    assert_eq!(general::identity_config(&vec![]), None);
    assert_eq!(general::twist_to_change(&vec![ControllerConfig::new(0x20, 0xBB)]), None);
}

#[test]
fn calibrations_as_they_are_shown() {
    let c = ControllerCalib {
        device: 0x0A,
        family: 0xBF,
        model: "JGRIP_F1_R",
        axes: vec!["Z", "??", "Slider"],
        region: vec![(0xC8, Some([1, 2, 3, 4])), (0xCC, None)],
    };
    assert_eq!(calibration::axis_rows(&c), vec![("Z", 2), ("Slider", 6)]);
    assert_eq!(
        calibration::region_rows(&c),
        vec![
            ("0x00c8".to_string(), "01 02 03 04".to_string()),
            ("0x00cc".to_string(), "-- -- -- --".to_string()),
        ]
    );
    assert_eq!(calibration::finished_msg(2, "Z").text(), "Calibration of the Z axis complete");
    assert_eq!(calibration::finished_msg(0, "Z").text(), "Z axis: no change recorded");
}

#[test]
fn the_monitor_opens_when_it_can() {
    let mut d = dev("/dev/hidraw1");
    assert!(buttons::monitor_refusal(&d, true).is_none());
    assert_eq!(
        buttons::monitor_refusal(&d, false).unwrap().text(),
        "Input device not readable: /dev/input/event3\n(install the access rule)"
    );
    d.evdev.clear();
    assert_eq!(
        buttons::monitor_refusal(&d, true).unwrap().text(),
        "No input device associated with this joystick."
    );
    let mut ax = AxisState {
        code: ABS_X,
        name: "X".into(),
        desc: "roll",
        minimum: 0,
        maximum: 1,
        value: 0,
        centered: true,
    };
    assert_eq!(buttons::axis_title(&ax, "roulis", " · "), "X · roulis");
    ax.desc = "";
    assert_eq!(buttons::axis_title(&ax, "", " · "), "X");
}

#[test]
fn sessions_of_remapping() {
    let d = dev("/dev/hidraw1");
    let other = dev("/dev/hidraw2");
    let idle = Session::default();
    assert!(!idle.survives(&d) && !idle.daemon_here(&d, SessionMode::Split));
    assert_eq!(idle.split_subtitle(0).text(), "inactive");
    assert_eq!(idle.remap_subtitle(0).text(), "inactive — no remapping");
    assert_eq!(idle.remap_subtitle(1).text(), "inactive — 1 saved remapping");
    let s = Session::started(&d, SessionMode::Split);
    assert!(s.survives(&d) && !s.survives(&other));
    assert!(s.daemon_here(&d, SessionMode::Split) && !s.daemon_here(&d, SessionMode::Remap));
    assert_eq!(s.split_subtitle(2).text(), "active — 2 32-button controllers");
    let r = Session::started(&d, SessionMode::Remap);
    assert_eq!(r.remap_subtitle(3).text(), "active — 3 remappings");
    assert_eq!(SessionMode::Remap.plan_mode(), "remap");

    let mut m = RemapMapping::new();
    assert!(remapping::start_refusal(&d, SessionMode::Split, &m).is_none());
    assert_eq!(
        remapping::start_refusal(&d, SessionMode::Remap, &m).unwrap().text(),
        "No remapping — add some before enabling it"
    );
    m.set(1, 2).unwrap();
    assert!(remapping::start_refusal(&d, SessionMode::Remap, &m).is_none());
    let blind = WinwingDevice { evdev: String::new(), ..d };
    assert_eq!(
        remapping::start_refusal(&blind, SessionMode::Split, &m).unwrap().text(),
        "Input device not found for this joystick"
    );
    assert_eq!(
        remapping::started_msg(SessionMode::Split, 2).text(),
        "Splitting active — 2 virtual controllers"
    );
    assert_eq!(
        remapping::started_msg(SessionMode::Remap, 1).text(),
        "Remapping active — virtual controller"
    );
}

#[test]
fn capturing_a_button() {
    let d = dev("/dev/hidraw1");
    assert!(remapping::capture_refusal(false, &d, Some(3)).is_none());
    let text = |r, b| remapping::capture_refusal(r, &d, b).unwrap().text();
    assert_eq!(text(true, Some(3)), "Stop splitting or remapping before assigning a button");
    assert_eq!(text(false, None), "Monitor unavailable — use \"Enter…\"");
    assert_eq!(text(false, Some(0)), "No button detected — use \"Enter…\"");
    assert_eq!(remapping::entry_limit(Some(0)), 1);
    assert_eq!(remapping::entry_limit(Some(40)), 40);
    assert_eq!(remapping::entry_limit(None), 80);
    assert_eq!(
        texts(&remapping::set_msgs(1, 5, Some(SessionMode::Remap))),
        vec!["Button #1 → #5 saved", "Restart remapping to apply it"]
    );
    assert_eq!(texts(&remapping::set_msgs(1, 5, Some(SessionMode::Split))), vec!["Button #1 → #5 saved"]);
    assert_eq!(
        texts(&remapping::set_msgs(4, 4, Some(SessionMode::Remap))),
        vec!["Remapping of button #4 removed (identity)"]
    );
    assert_eq!(
        texts(&remapping::removed_msgs(4, Some(SessionMode::Remap))),
        vec!["Remapping of button #4 removed", "Restart remapping to apply it"]
    );
}

fn cells() -> Vec<(u16, CurveData)> {
    [ABS_X, ABS_Y, ABS_RX, ABS_THROTTLE].iter().map(|&c| (c, CurveData::default())).collect()
}

#[test]
fn the_angle_of_a_pair() {
    let mut c = cells();
    assert_eq!(axes::rotation_control(&c, ABS_X), Some((ABS_Y, 1)));
    assert_eq!(axes::rotation_control(&c, ABS_Y), None);
    assert_eq!(axes::rotation_control(&c, ABS_RX), None);
    assert_eq!(axes::rotation_partner(ABS_RX), Some((ABS_RY, 2)));
    axes::set_rotation(&mut c, ABS_X, ABS_Y, 1, 30);
    assert_eq!((c[0].1.rotate, c[1].1.rotate_group, c[2].1.rotate), (30, 1, 0));
    let specs: Vec<AxisSpec> = c.iter().map(|x| AxisSpec::new(x.0, 0, 100)).collect();
    let curves = axes::effective_curves(&c);
    let plan = plan_remap(&[], &specs, &curves, &HashMap::new(), "r").unwrap();
    assert_eq!(plan.rotations.len(), 2);
    assert_eq!(plan.rotations[&ABS_Y].angle_deg, 25);
    axes::set_rotation(&mut c, ABS_X, ABS_Y, 1, 0);
    assert!(axes::effective_curves(&c).is_empty());
}

#[test]
fn settings_of_axes_are_collected_and_reset() {
    let mut c = cells();
    c[3].1.is_reversed = true;
    axes::set_rotation(&mut c, ABS_X, ABS_Y, 1, 5);
    c[1].1.zoom = 2;
    let kept = axes::collect(&c);
    assert_eq!(kept.len(), 3);
    assert_eq!(kept.to_curves(), axes::effective_curves(&c));
    axes::reset_axis(&mut c, ABS_X);
    assert!(c[0].1.is_identity() && !c[0].1.has_rotation());
    assert!(!c[1].1.has_rotation() && c[1].1.zoom == 2);
    assert!(c[3].1.is_reversed);
    let curves = axes::effective_curves(&c);
    assert!(axes::start_refusal("/dev/input/event1", &curves).is_none());
    assert_eq!(
        axes::start_refusal("", &curves).unwrap().text(),
        "Input device not found for this joystick"
    );
    assert_eq!(
        axes::start_refusal("/dev/input/event1", &HashMap::new()).unwrap().text(),
        "No axis inverted, curved or rotated — set an axis first"
    );
}

#[test]
fn settings_are_summed_up() {
    assert_eq!(texts(&axes::curve_summary(&CurveData::default())), vec!["Linear (no setting)"]);
    let c = CurveData {
        is_reversed: true,
        curve: -3,
        zoom: 4,
        lower: 1,
        upper: 2,
        center_upper: 6,
        x_pos: 40,
        rotate: -7,
        ..Default::default()
    };
    assert_eq!(
        texts(&axes::curve_summary(&c)),
        vec![
            "inverted",
            "curve S -3",
            "gain +4",
            "bounds 1/2",
            "center 0/6",
            "point 40/50",
            "rotation -7°",
        ]
    );
    let alone = CurveData { rotate: 5, ..Default::default() };
    assert_eq!(texts(&axes::curve_summary(&alone)), vec!["Linear (no setting)"]);
}

#[test]
fn settings_are_shown_when_they_can_be() {
    let mut d = dev("/dev/hidraw1");
    assert!(axes::content_refusal(&d, &Ok(3)).is_none());
    assert_eq!(
        axes::content_refusal(&d, &Ok(0)).unwrap().text(),
        "No axis detected on this joystick."
    );
    assert_eq!(
        axes::content_refusal(&d, &Err("busy".to_string())).unwrap().text(),
        "Cannot open the input device: busy"
    );
    d.evdev.clear();
    assert_eq!(
        axes::content_refusal(&d, &Ok(3)).unwrap().text(),
        "Input device not found for this joystick."
    );
}
