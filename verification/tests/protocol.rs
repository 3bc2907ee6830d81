//! The wire protocol: frames, the guard of writes and the names.

use winctrl_config::protocol::{
    axis_index_name, axis_name_index, build_frame, calib_region_offsets, calibration_indexes,
    commercial_name, controller_name, controller_pid, grip_device_from_pid, guard_write, hx,
    is_forbidden_opcode, is_forbidden_write_offset, is_identity_offset, is_profile_writable,
    is_write_opcode, ministick_shape_label, model_side, offset_bytes, z_mode_label,
    BASE_4X32_OFFSET, CALIB_REGION_START, DEVICE_BASE, FAMILY_BASE, FAMILY_GRIP, FRAME_LEN,
    IDENTITY_RANGES, OP_DEVICE_RESTART, OP_ENTER_UPDATA_MODE, OP_READ_CFG_DATA, OP_SET_LEDX,
    OP_WRITE_CFG_DATA, WriteGuardError,
};

#[test]
fn identity_ranges_flagged() {
    for &(lo, hi) in IDENTITY_RANGES.iter() {
        let mut off = lo & !3;
        while off <= hi {
            assert!(is_identity_offset(off), "{off:#04x} devrait être identité");
            off += 4;
        }
    }
}

#[test]
fn non_identity_offsets_writable() {
    for off in [0x04, 0xB0, 0xB4, 0xC0, 0xC8, 0xD8, 0xF0, 0x100] {
        assert!(
            !is_identity_offset(off),
            "{off:#04x} ne devrait pas être identité"
        );
    }
}

#[test]
fn overlap_partial_block() {
    assert!(is_identity_offset(0x84));
    assert!(is_identity_offset(0xA4));
}

#[test]
fn boundaries_clear() {
    assert!(!is_identity_offset(0x88));
    assert!(!is_identity_offset(0x18));
}

#[test]
fn offset_bytes_le() {
    assert_eq!(offset_bytes(0xD8), [0xD8, 0x00, 0x00]);
    assert_eq!(offset_bytes(0x012345), [0x45, 0x23, 0x01]);
}

#[test]
fn build_frame_read_cfg() {
    let f = build_frame(0x0A, FAMILY_GRIP, OP_READ_CFG_DATA, &offset_bytes(0xD8));
    assert_eq!(f.len(), FRAME_LEN);
    assert_eq!(
        &f[..10],
        &[0x02, 0x0A, 0xBF, 0, 0, 0x04, 0x05, 0xD8, 0, 0]
    );
}

#[test]
fn build_frame_len_counts_opcode() {
    let f = build_frame(0x20, FAMILY_BASE, OP_DEVICE_RESTART, &[]);
    assert_eq!(f[5], 1);
    assert_eq!(f[6], OP_DEVICE_RESTART);
}

#[test]
fn build_frame_set_led() {
    let f = build_frame(DEVICE_BASE, FAMILY_BASE, OP_SET_LEDX, &[0, 200]);
    assert_eq!(&hx(&f)[..26], "02 20 bb 00 00 03 49 00 c8");
}

#[test]
fn build_frame_4x32_write() {
    let mut args = offset_bytes(BASE_4X32_OFFSET).to_vec();
    args.extend_from_slice(&[1, 0, 0, 0]);
    let f = build_frame(DEVICE_BASE, FAMILY_BASE, OP_WRITE_CFG_DATA, &args);
    assert_eq!(hx(&f), "02 20 bb 00 00 08 06 c8 00 00 01 00 00 00");
}

#[test]
fn grip_device_from_pid_low_byte() {
    assert_eq!(grip_device_from_pid(0xBC2A), 0x0A);
    assert_eq!(grip_device_from_pid(0xBC29), 0x09);
}

#[test]
fn controller_pid_api() {
    assert_eq!(controller_pid(0x0A, FAMILY_GRIP), 0xBF0A);
    assert_eq!(controller_pid(0x20, FAMILY_BASE), 0xBB20);
}

#[test]
fn controller_name_lookup() {
    assert_eq!(controller_name(0x0A, FAMILY_GRIP), Some("JGRIP_F1_R"));
    assert_eq!(controller_name(0x20, FAMILY_BASE), Some("J5_BASE"));
    assert_eq!(controller_name(0x00, FAMILY_GRIP), None);
}

#[test]
fn commercial_name_is_neutral() {
    assert_eq!(commercial_name("JGRIP_F1_R"), "URSA MINOR Joystick (right)");
    assert_eq!(commercial_name("JGRIP_S1_L"), "URSA MINOR Joystick (left)");
    assert_eq!(commercial_name("J5_BASE"), "URSA MINOR — Base");
    assert_eq!(commercial_name("?"), "URSA MINOR");
    assert_eq!(model_side("JGRIP_F1_R"), Some("right"));
    assert_eq!(model_side("J5_BASE"), None);
}

#[test]
fn forbidden_write_predicate() {
    assert!(is_forbidden_write_offset(0xF0));
    assert!(is_forbidden_write_offset(0x100));
    assert!(!is_forbidden_write_offset(0xEC));
    assert!(!is_forbidden_write_offset(0xFC));
}

#[test]
fn guard_refuses_forbidden_and_identity() {
    assert_eq!(guard_write(0xF0, false), Err(WriteGuardError::Forbidden(0xF0)));
    assert_eq!(guard_write(0x100, false), Err(WriteGuardError::Forbidden(0x100)));
    assert_eq!(guard_write(0xF0, true), Err(WriteGuardError::Forbidden(0xF0)));
    assert_eq!(guard_write(0x08, false), Err(WriteGuardError::Identity(0x08)));
    assert_eq!(guard_write(0x5C, false), Err(WriteGuardError::Identity(0x5C)));
    assert_eq!(guard_write(0x08, true), Ok(()));
    assert_eq!(guard_write(0xD8, false), Ok(()));
    assert_eq!(guard_write(0xEC, false), Ok(()));
}

#[test]
fn profile_writable_excludes_the_right_offsets() {
    for off in [0x08, 0x14, 0x5C, 0x9C, 0xF0, 0x100, 0x04, 0xB4, 0xC0] {
        assert!(!is_profile_writable(off), "{off:#04x} ne devrait pas être profilable");
    }
    for off in [0xB0, 0xC8, 0xD8, 0xE8, 0xEC, 0xF8, 0xFC, 0x104] {
        assert!(is_profile_writable(off), "{off:#04x} devrait être profilable");
    }
}

#[test]
fn calibration_indexes_per_family() {
    assert_eq!(calibration_indexes(FAMILY_GRIP), &[2, 3, 4, 6]);
    assert_eq!(calibration_indexes(FAMILY_BASE), &[0, 1, 6]);
    assert_eq!(calibration_indexes(0x00), &[] as &[u8]);
}

#[test]
fn calib_region_offsets_step4() {
    let offs = calib_region_offsets();
    assert_eq!(offs.first(), Some(&0xC8));
    assert_eq!(offs.last(), Some(&0xF8));
    assert_eq!(offs.len(), 13);
    assert!(offs.iter().all(|o| (o - CALIB_REGION_START) % 4 == 0));
}

#[test]
fn axis_name_roundtrip() {
    assert_eq!(axis_index_name(2), Some("Z"));
    assert_eq!(axis_index_name(6), Some("Slider"));
    assert_eq!(axis_name_index("Rx"), Some(3));
    assert_eq!(axis_index_name(99), None);
}

#[test]
fn opcode_classifiers() {
    assert!(is_write_opcode(OP_WRITE_CFG_DATA));
    assert!(!is_write_opcode(OP_READ_CFG_DATA));
    assert!(is_forbidden_opcode(OP_ENTER_UPDATA_MODE));
    assert!(is_forbidden_opcode(0x22));
    assert!(!is_forbidden_opcode(OP_WRITE_CFG_DATA));
}

#[test]
fn labels_of_modes_and_shapes() {
    assert_eq!(z_mode_label(0xFF), Some("Axis only"));
    assert_eq!(z_mode_label(0x02), None);
    assert_eq!(ministick_shape_label(0x00), Some("carré"));
    assert_eq!(ministick_shape_label(0xFF), Some("rond"));
    assert_eq!(ministick_shape_label(0x77), None);
}

#[test]
fn refusals_of_the_guard_as_text() {
    let e = guard_write(0xF0, false).unwrap_err();
    assert_eq!(
        e.to_string(),
        "écriture refusée : offset 0xf0 formellement interdit (sémantique non comprise, cf. RE §5)"
    );
    let e = guard_write(0x08, false).unwrap_err();
    assert_eq!(e.to_string(), "écriture refusée : offset 0x08 dans une plage d'identité");
}
