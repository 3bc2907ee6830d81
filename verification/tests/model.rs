//! Decoding of the flash and guarded writes, on a flash held in memory.

use winctrl_config::enumerate::Controller;
use winctrl_config::model::{
    backup_controller, backup_file_name, backups_dir, base_deadzone_display, calibrated_axis_names,
    count_changed_words, decode_field, finish_write, format_dump, humanize, migrate_legacy_data_dir,
    read_base_led, read_calib_region, read_controller, read_device, read_snapshot, restore_default,
    set_4x32, set_backlight_persist, set_breathing, set_deadzone_base, set_deadzone_twist,
    set_twist_mode, twist_deadzone_display, twist_mode_from_name, twist_mode_name, write_flash_byte,
    ControllerConfig, Transport, TransportError,
};
use winctrl_config::protocol as p;

#[test]
fn format_dump_matches_reference_style() {
    let rows = [
        (0x00u32, Some([0, 0, 0, 0])),
        (0x04, Some([1, 0, 0, 0])),
        (0x08, None),
    ];
    let out = format_dump(&rows);
    assert_eq!(
        out,
        "0x0000: 00 00 00 00\n0x0004: 01 00 00 00\n0x0008: -- -- -- --\n"
    );
}

fn field(name: &str) -> p::FlashField {
    p::flash_fields().into_iter().find(|f| f.name == name).unwrap()
}

#[test]
fn humanize_none_is_out_of_region() {
    assert_eq!(
        humanize(&field("z_axis_mode"), None),
        "(out of range / no response)"
    );
}

#[test]
fn humanize_twist_modes() {
    assert_eq!(
        humanize(&field("z_axis_mode"), Some(&[0x00, 0xff, 0, 0])),
        "yaw = Buttons only"
    );
    assert_eq!(
        humanize(&field("z_axis_mode"), Some(&[0xff, 0xff, 0, 0])),
        "yaw = Axis only"
    );
    assert_eq!(
        humanize(&field("z_axis_mode"), Some(&[0x02, 0, 0, 0])),
        "yaw = ?(0x02)"
    );
}

#[test]
fn humanize_firmware_and_restore_and_hw() {
    assert_eq!(humanize(&field("firmware_complete"), Some(&[1, 0, 0, 0])), "Firmware complete");
    assert_eq!(humanize(&field("firmware_complete"), Some(&[0, 0, 0, 0])), "Incomplete");
    assert_eq!(humanize(&field("restore_default"), Some(&[0xff, 0, 0, 0])), "Inactive");
    assert_eq!(
        humanize(&field("restore_default"), Some(&[1, 0, 0, 0])),
        "Armed (reset on next restart)"
    );
    assert_eq!(humanize(&field("hardware_version"), Some(&[0x01, 0x02, 0, 0])), "HW 02.01");
}

#[test]
fn decoded_field_hex_and_identity() {
    let f = decode_field(&field("type_id"), Some([0xde, 0xad, 0xbe, 0xef]));
    assert_eq!(f.hex(), "de ad be ef");
    assert!(f.identity);
    assert_eq!(f.offset, 0x08);
    let g = decode_field(&field("firmware_complete"), None);
    assert_eq!(g.hex(), "-- -- -- --");
    assert!(!g.identity);
}

#[test]
fn controller_config_twist_label() {
    let mut cfg = ControllerConfig::new(0x0A, p::FAMILY_GRIP);
    assert_eq!(cfg.model, "JGRIP_F1_R");
    assert_eq!(cfg.twist_label(), "unknown");
    cfg.twist_mode = Some(p::Z_MODE_AXIS_AND_BUTTONS);
    assert_eq!(cfg.twist_label(), "Axis and buttons");
    cfg.twist_mode = Some(0x07);
    assert_eq!(cfg.twist_label(), "?(0x07)");
}

#[test]
fn twist_mode_name_roundtrip() {
    assert_eq!(twist_mode_from_name("axis"), Some(0xFF));
    assert_eq!(twist_mode_from_name("buttons"), Some(0x00));
    assert_eq!(twist_mode_name(p::Z_MODE_AXIS_AND_BUTTONS), Some("axis+buttons"));
    assert_eq!(twist_mode_from_name("nope"), None);
}

#[test]
fn transport_error_wraps_guard() {
    let e = p::guard_write(0x08, false).unwrap_err();
    let te: TransportError = e.into();
    assert!(matches!(te, TransportError::Guard(p::WriteGuardError::Identity(0x08))));
    assert_eq!(te.to_string(), e.to_string());
}

struct DummyTransport;
impl Transport for DummyTransport {
    fn open(_path: &str) -> Result<Self, TransportError> {
        Ok(DummyTransport)
    }
    fn close(self) {}
    fn read_cfg(&mut self, _d: u8, _f: u8, _o: u32) -> Option<[u8; 4]> {
        None
    }
    fn request(&mut self, _d: u8, _f: u8, _op: u8) -> Option<Vec<u8>> {
        None
    }
    fn write_cfg(
        &mut self,
        device: u8,
        family: u8,
        offset: u32,
        data: [u8; 4],
        allow_identity: bool,
    ) -> Result<(p::Frame, Option<Vec<u8>>), TransportError> {
        p::guard_write(offset, allow_identity)?;
        let mut args = p::offset_bytes(offset).to_vec();
        args.extend_from_slice(&data);
        Ok((p::build_frame(device, family, p::OP_WRITE_CFG_DATA, &args), None))
    }
    fn restart(&mut self, device: u8, family: u8) -> (p::Frame, Option<Vec<u8>>) {
        (p::build_frame(device, family, p::OP_DEVICE_RESTART, &[]), None)
    }
}

#[test]
fn dummy_transport_honours_guard() {
    let mut t = DummyTransport::open("/dev/null").unwrap();
    let (frame, echo) = t.write_cfg(0x20, p::FAMILY_BASE, 0xC8, [1, 0, 0, 0], false).unwrap();
    assert_eq!(p::hx(&frame), "02 20 bb 00 00 08 06 c8 00 00 01 00 00 00");
    assert!(echo.is_none());
    assert!(matches!(
        t.write_cfg(0x20, p::FAMILY_BASE, 0x5C, [0; 4], false),
        Err(TransportError::Guard(p::WriteGuardError::Identity(0x5C)))
    ));
    t.close();
}

struct FakeTransport {
    flash: std::collections::HashMap<(u8, u8, u32), [u8; 4]>,
}
impl Transport for FakeTransport {
    fn open(_path: &str) -> Result<Self, TransportError> {
        Ok(FakeTransport { flash: std::collections::HashMap::new() })
    }
    fn close(self) {}
    fn read_cfg(&mut self, d: u8, f: u8, o: u32) -> Option<[u8; 4]> {
        self.flash.get(&(d, f, o)).copied()
    }
    fn request(&mut self, _d: u8, _f: u8, _op: u8) -> Option<Vec<u8>> {
        None
    }
    fn write_cfg(
        &mut self,
        device: u8,
        family: u8,
        offset: u32,
        data: [u8; 4],
        allow_identity: bool,
    ) -> Result<(p::Frame, Option<Vec<u8>>), TransportError> {
        p::guard_write(offset, allow_identity)?;
        self.flash.insert((device, family, offset), data);
        let mut args = p::offset_bytes(offset).to_vec();
        args.extend_from_slice(&data);
        let frame = p::build_frame(device, family, p::OP_WRITE_CFG_DATA, &args);
        Ok((frame, Some(vec![p::OP_WRITE_CFG_DATA])))
    }
    fn restart(&mut self, device: u8, family: u8) -> (p::Frame, Option<Vec<u8>>) {
        (p::build_frame(device, family, p::OP_DEVICE_RESTART, &[]), None)
    }
}

#[test]
fn twist_dry_run_emits_nothing_and_diff_only() {
    let mut t = FakeTransport::open("x").unwrap();
    t.flash.insert((0x0A, p::FAMILY_GRIP, 0xD8), [0xFF, 0xAA, 0xBB, 0xCC]);
    let out = set_twist_mode(&mut t, 0x0A, p::FAMILY_GRIP, 0x00, true, None).unwrap();
    assert!(out.dry_run && !out.emitted);
    assert!(out.changes);
    assert_eq!(out.new, [0x00, 0xAA, 0xBB, 0xCC]);
    assert_eq!(p::hx(&out.frame), "02 0a bf 00 00 08 06 d8 00 00 00 aa bb cc");
    assert_eq!(t.flash.get(&(0x0A, p::FAMILY_GRIP, 0xD8)), Some(&[0xFF, 0xAA, 0xBB, 0xCC]));
}

#[test]
fn twist_apply_diff_only_verified() {
    let mut t = FakeTransport::open("x").unwrap();
    t.flash.insert((0x0A, p::FAMILY_GRIP, 0xD8), [0xFF, 0x11, 0x22, 0x33]);
    let out = set_twist_mode(&mut t, 0x0A, p::FAMILY_GRIP, 0x01, false, None).unwrap();
    assert!(out.emitted && out.echo_ok && out.verified && !out.skipped);
    assert_eq!(t.flash.get(&(0x0A, p::FAMILY_GRIP, 0xD8)), Some(&[0x01, 0x11, 0x22, 0x33]));
}

#[test]
fn twist_skips_when_already_at_value() {
    let mut t = FakeTransport::open("x").unwrap();
    t.flash.insert((0x0A, p::FAMILY_GRIP, 0xD8), [0x01, 0, 0, 0]);
    let out = set_twist_mode(&mut t, 0x0A, p::FAMILY_GRIP, 0x01, false, None).unwrap();
    assert!(out.skipped && !out.emitted && out.verified);
}

#[test]
fn backlight_persist_diff_only_frame() {
    let mut t = FakeTransport::open("x").unwrap();
    t.flash.insert((0x20, p::FAMILY_BASE, 0xEC), [0x00, 0xAA, 0xBB, 0xCC]);
    let out = set_backlight_persist(&mut t, 0x20, p::FAMILY_BASE, 200, true, None).unwrap();
    assert!(out.dry_run && !out.emitted);
    assert_eq!(out.new, [200, 0xAA, 0xBB, 0xCC]);
    assert_eq!(p::hx(&out.frame), "02 20 bb 00 00 08 06 ec 00 00 c8 aa bb cc");
}

#[test]
fn breathing_writes_0_static_writes_1() {
    let mut t = FakeTransport::open("x").unwrap();
    t.flash.insert((0x20, p::FAMILY_BASE, 0xF8), [0xFF, 0, 0, 0]);
    let on = set_breathing(&mut t, 0x20, p::FAMILY_BASE, true, false, None).unwrap();
    assert_eq!(t.flash[&(0x20, p::FAMILY_BASE, 0xF8)][0], p::BREATHING_VALUE);
    let off = set_breathing(&mut t, 0x20, p::FAMILY_BASE, false, false, None).unwrap();
    assert_eq!(t.flash[&(0x20, p::FAMILY_BASE, 0xF8)][0], p::STATIC_VALUE);
    assert!(on.verified && off.verified);
}

#[test]
fn backlight_live_frame_matches_known_good() {
    let f = p::build_frame(0x20, p::FAMILY_BASE, p::OP_SET_LEDX, &[p::LED_INDEX_BACKLIGHT, 200]);
    assert_eq!(&p::hx(&f)[..26], "02 20 bb 00 00 03 49 00 c8");
}

#[test]
fn deadzone_display_hides_sentinel() {
    assert_eq!(base_deadzone_display(Some(0xFFFF_FFFF)), None);
    assert_eq!(base_deadzone_display(Some(0)), None);
    assert_eq!(base_deadzone_display(None), None);
    assert_eq!(base_deadzone_display(Some(1200)), Some(1200));
    assert_eq!(base_deadzone_display(Some(65535)), Some(65535));
    assert_eq!(twist_deadzone_display(Some(0xFF)), None);
    assert_eq!(twist_deadzone_display(Some(0)), None);
    assert_eq!(twist_deadzone_display(Some(12)), Some(12));
}

#[test]
fn deadzone_base_word_le_frame() {
    let mut t = FakeTransport::open("x").unwrap();
    t.flash.insert((0x20, p::FAMILY_BASE, 0xD8), [0, 0, 0, 0]);
    let out = set_deadzone_base(&mut t, 0x20, p::FAMILY_BASE, false, 0x1234, true, None).unwrap();
    assert_eq!(out.new, [0x34, 0x12, 0x00, 0x00]);
    assert_eq!(p::hx(&out.frame), "02 20 bb 00 00 08 06 d8 00 00 34 12 00 00");
    assert!(out.dry_run && !out.emitted);
}

#[test]
fn deadzone_twist_byte2_clamped_and_preserved() {
    let mut t = FakeTransport::open("x").unwrap();
    t.flash.insert((0x0A, p::FAMILY_GRIP, 0x104), [0xAA, 0xBB, 0xFF, 0xDD]);
    let out = set_deadzone_twist(&mut t, 0x0A, p::FAMILY_GRIP, 99, false, None).unwrap();
    let v = t.flash[&(0x0A, p::FAMILY_GRIP, 0x104)];
    assert_eq!(v[2], p::DEADZONE_TWIST_MAX);
    assert_eq!(&v[..2], &[0xAA, 0xBB]);
    assert_eq!(v[3], 0xDD);
    assert!(out.verified);
}

#[test]
fn fourx32_frame_and_diff() {
    let mut t = FakeTransport::open("x").unwrap();
    t.flash.insert((0x20, p::FAMILY_BASE, 0xC8), [0, 0, 0, 0]);
    let out = set_4x32(&mut t, 0x20, p::FAMILY_BASE, true, false, true, None).unwrap();
    assert_eq!(out.new, [1, 0, 0, 0]);
    assert_eq!(p::hx(&out.frame), "02 20 bb 00 00 08 06 c8 00 00 01 00 00 00");
}

#[test]
fn restore_default_frame() {
    let mut t = FakeTransport::open("x").unwrap();
    t.flash.insert((0x0A, p::FAMILY_GRIP, 0xB4), [0xFF, 0xFF, 0xFF, 0xFF]);
    let out = restore_default(&mut t, 0x0A, p::FAMILY_GRIP, true, None).unwrap();
    assert_eq!(out.new, [1, 0, 0, 0]);
    assert_eq!(p::hx(&out.frame), "02 0a bf 00 00 08 06 b4 00 00 01 00 00 00");
    assert!(out.dry_run && !out.emitted);
}

#[test]
fn calibration_frames_47_48() {
    let start = p::build_frame(0x0A, p::FAMILY_GRIP, p::OP_CALIBRATION_START, &[2]);
    let finish = p::build_frame(0x0A, p::FAMILY_GRIP, p::OP_CALIBRATION_FINISH, &[2]);
    assert_eq!(&p::hx(&start)[..23], "02 0a bf 00 00 02 47 02");
    assert_eq!(&p::hx(&finish)[..23], "02 0a bf 00 00 02 48 02");
}

#[test]
fn read_controller_decodes_grip_fields() {
    let gdev = 0x0A;
    let gfam = p::FAMILY_GRIP;
    let mut t = FakeTransport::open("x").unwrap();
    t.flash.insert((gdev, gfam, 0x04), [1, 0, 0, 0]);
    t.flash.insert((gdev, gfam, 0xD8), [0xFF, 0xFF, 0, 0]);
    t.flash.insert((gdev, gfam, 0x5C), [b'U', b'R', 0, 0]);
    t.flash.insert((gdev, gfam, 0x9C), [0xde, 0xad, 0xbe, 0xef]);

    let cfg = read_controller(&mut t, gdev, gfam);
    assert_eq!(cfg.model, "JGRIP_F1_R");
    assert_eq!(cfg.twist_mode, Some(0xFF));
    assert_eq!(cfg.twist_label(), "Axis only");
    assert_eq!(cfg.product_name, "UR");
    assert_eq!(cfg.serial, "deadbeef");
    let fw = cfg.fields.iter().find(|f| f.name == "firmware_complete").unwrap();
    assert_eq!(fw.human, "Firmware complete");
    assert!(cfg.fields.iter().any(|f| f.name == "z_axis_mode"));
}

#[test]
fn read_controller_skips_grip_only_on_base() {
    let mut t = FakeTransport::open("x").unwrap();
    let cfg = read_controller(&mut t, p::DEVICE_BASE, p::FAMILY_BASE);
    assert_eq!(cfg.model, "J5_BASE");
    assert!(!cfg.fields.iter().any(|f| f.name == "z_axis_mode"));
    assert!(cfg.fields.iter().any(|f| f.name == "firmware_complete"));
    assert_eq!(cfg.twist_mode, None);
}

#[test]
fn read_device_reads_each_controller() {
    let ctrls = [
        Controller::new(0x0A, p::FAMILY_GRIP),
        Controller::new(p::DEVICE_BASE, p::FAMILY_BASE),
    ];
    let dc = read_device::<FakeTransport>("/dev/hidrawX", &ctrls).unwrap();
    assert_eq!(dc.hidraw, "/dev/hidrawX");
    assert_eq!(dc.controllers.len(), 2);
    assert_eq!(dc.controllers[0].family, p::FAMILY_GRIP);
    assert_eq!(dc.controllers[1].model, "J5_BASE");
}

#[test]
fn read_base_led_decodes() {
    let mut t = FakeTransport::open("x").unwrap();
    t.flash.insert((0x20, p::FAMILY_BASE, p::BASE_BACKLIGHT_OFFSET), [200, 0, 0, 0]);
    t.flash.insert((0x20, p::FAMILY_BASE, p::BASE_BREATHING_OFFSET), [p::BREATHING_VALUE, 0, 0, 0]);
    let led = read_base_led(&mut t, 0x20, p::FAMILY_BASE);
    assert_eq!(led.brightness, Some(200));
    assert_eq!(led.breathing, Some(true));
    t.flash.insert((0x20, p::FAMILY_BASE, p::BASE_BACKLIGHT_OFFSET), [0xFF, 0, 0, 0]);
    t.flash.insert((0x20, p::FAMILY_BASE, p::BASE_BREATHING_OFFSET), [p::STATIC_VALUE, 0, 0, 0]);
    let led = read_base_led(&mut t, 0x20, p::FAMILY_BASE);
    assert_eq!(led.brightness, Some(0));
    assert_eq!(led.breathing, Some(false));
}

#[test]
fn read_snapshot_has_base_led() {
    let ctrls = [
        Controller::new(0x0A, p::FAMILY_GRIP),
        Controller::new(p::DEVICE_BASE, p::FAMILY_BASE),
    ];
    let snap = read_snapshot::<FakeTransport>("/dev/hidrawX", &ctrls).unwrap();
    assert_eq!(snap.config.controllers.len(), 2);
    assert!(snap.base_led.is_some());
    assert_eq!(snap.calib.len(), 2);
    let grip = snap.calib.iter().find(|c| c.family == p::FAMILY_GRIP).unwrap();
    assert_eq!(grip.axes, ["Z", "Rx", "Ry", "Slider"]);
    assert_eq!(grip.region.len(), 13);
    let base = snap.calib.iter().find(|c| c.family == p::FAMILY_BASE).unwrap();
    assert_eq!(base.axes, ["X", "Y", "Slider"]);
    assert!(base.region.is_empty());
}

/// A flash that refuses to open, and counts nothing.
struct ClosedTransport;

impl Transport for ClosedTransport {
    fn open(path: &str) -> Result<Self, TransportError> {
        Err(TransportError::Io(format!("no {path}")))
    }
    fn close(self) {}
    fn read_cfg(&mut self, _d: u8, _f: u8, _o: u32) -> Option<[u8; 4]> {
        None
    }
    fn request(&mut self, _d: u8, _f: u8, _op: u8) -> Option<Vec<u8>> {
        None
    }
    fn write_cfg(
        &mut self,
        _device: u8,
        _family: u8,
        offset: u32,
        _data: [u8; 4],
        allow_identity: bool,
    ) -> Result<(p::Frame, Option<Vec<u8>>), TransportError> {
        p::guard_write(offset, allow_identity)?;
        Err(TransportError::Io("closed".to_string()))
    }
    fn restart(&mut self, device: u8, family: u8) -> (p::Frame, Option<Vec<u8>>) {
        (p::build_frame(device, family, p::OP_DEVICE_RESTART, &[]), None)
    }
}

#[test]
fn an_endpoint_that_does_not_open_is_reported() {
    let ctrls = [Controller::new(p::DEVICE_BASE, p::FAMILY_BASE)];
    match read_device::<ClosedTransport>("/dev/hidraw9", &ctrls) {
        Err(TransportError::Io(m)) => assert_eq!(m, "no /dev/hidraw9"),
        other => panic!("{other:?}"),
    }
    assert!(read_snapshot::<ClosedTransport>("/dev/hidraw9", &ctrls).is_err());
}

#[test]
fn transport_errors_as_text() {
    let io = TransportError::Io("timeout".to_string());
    assert_eq!(io.to_string(), "erreur d'I/O : timeout");
    assert_eq!(io.reason(), "timeout");
    let guard = TransportError::Guard(p::WriteGuardError::Forbidden(0xF0));
    assert_eq!(guard.reason(), guard.to_string());
}

#[test]
fn a_word_that_does_not_answer_is_not_written() {
    let mut t = FakeTransport::open("x").unwrap();
    match set_twist_mode(&mut t, 0x0A, p::FAMILY_GRIP, 0x01, false, None) {
        Err(TransportError::Io(m)) => {
            assert_eq!(m, "lecture de 0xd8 impossible (pas d'écho)");
        }
        other => panic!("{other:?}"),
    }
    assert!(t.flash.is_empty());
}

#[test]
fn a_write_waits_for_its_backup() {
    let mut t = FakeTransport::open("x").unwrap();
    t.flash.insert((0x0A, p::FAMILY_GRIP, 0xD8), [0xFF, 1, 2, 3]);
    let out = set_twist_mode(&mut t, 0x0A, p::FAMILY_GRIP, 0x00, false, Some("20260101-000000")).unwrap();
    assert!(!out.emitted && !out.verified && !out.skipped);
    assert_eq!(t.flash[&(0x0A, p::FAMILY_GRIP, 0xD8)], [0xFF, 1, 2, 3]);
    let pending = out.pending.as_ref().unwrap();
    assert_eq!(pending.backup.name, "JGRIP_F1_R-bf0a-20260101-000000.txt");
    assert!(pending.backup.content.contains("0x00d8: ff 01 02 03\n"));
    assert_eq!(pending.backup.content.lines().count(), 120);
    let done = finish_write(&mut t, out, "/tmp/b".to_string()).unwrap();
    assert!(done.emitted && done.echo_ok && done.verified);
    assert_eq!(done.backup.as_deref(), Some("/tmp/b"));
    assert!(done.pending.is_none());
    assert_eq!(t.flash[&(0x0A, p::FAMILY_GRIP, 0xD8)], [0x00, 1, 2, 3]);
}

#[test]
fn a_refused_write_ends_there() {
    let mut t = FakeTransport::open("x").unwrap();
    t.flash.insert((0x0A, p::FAMILY_GRIP, 0x5C), [1, 2, 3, 4]);
    let r = write_flash_byte(&mut t, 0x0A, p::FAMILY_GRIP, 0x5C, 0, 9, false, None);
    assert!(matches!(r, Err(TransportError::Guard(p::WriteGuardError::Identity(0x5C)))));
    let out =
        write_flash_byte(&mut t, 0x0A, p::FAMILY_GRIP, 0x5C, 0, 9, false, Some("ts")).unwrap();
    let r = finish_write(&mut t, out, "/tmp/b".to_string());
    assert!(matches!(r, Err(TransportError::Guard(p::WriteGuardError::Identity(0x5C)))));
    assert_eq!(t.flash[&(0x0A, p::FAMILY_GRIP, 0x5C)], [1, 2, 3, 4]);
}

#[test]
fn a_backup_holds_every_word() {
    let mut t = FakeTransport::open("x").unwrap();
    t.flash.insert((0x20, p::FAMILY_BASE, 0x1DC), [9, 8, 7, 6]);
    let b = backup_controller(&mut t, 0x20, p::FAMILY_BASE, "ts");
    assert_eq!(b.name, "J5_BASE-bb20-ts.txt");
    assert_eq!(b.content.lines().count(), 120);
    assert!(b.content.starts_with("0x0000: -- -- -- --\n"));
    assert!(b.content.ends_with("0x01dc: 09 08 07 06\n"));
    assert_eq!(backup_file_name(0x01, 0x02, "t"), "ctrl-0201-t.txt");
}

#[test]
fn calibration_words_are_compared() {
    let mut t = FakeTransport::open("x").unwrap();
    let before = read_calib_region(&mut t, 0x0A, p::FAMILY_GRIP);
    t.flash.insert((0x0A, p::FAMILY_GRIP, 0xC8), [1, 0, 0, 0]);
    t.flash.insert((0x0A, p::FAMILY_GRIP, 0xF8), [2, 0, 0, 0]);
    let after = read_calib_region(&mut t, 0x0A, p::FAMILY_GRIP);
    assert_eq!(before.len(), 13);
    assert_eq!(count_changed_words(&before, &after), 2);
    assert_eq!(count_changed_words(&after, &after), 0);
    assert_eq!(calibrated_axis_names(p::FAMILY_BASE), vec!["X", "Y", "Slider"]);
}

#[test]
fn directories_of_the_user() {
    assert_eq!(backups_dir("/home/u"), "/home/u/.local/share/winctrl/backups");
    assert_eq!(
        migrate_legacy_data_dir(Some("/home/u"), true, false),
        Some((
            "/home/u/.local/share/winwing".to_string(),
            "/home/u/.local/share/winctrl".to_string()
        ))
    );
    assert_eq!(migrate_legacy_data_dir(Some("/home/u"), true, true), None);
    assert_eq!(migrate_legacy_data_dir(Some("/home/u"), false, false), None);
    assert_eq!(migrate_legacy_data_dir(None, true, false), None);
}
