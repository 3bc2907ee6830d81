//! The vendor protocol of the WinWing controllers: opcodes, identity of the
//! controllers, map of the flash offsets, write guard and frame encoding.
//!
//! A frame has 14 bytes: `[0]=0x02 [1]=device [2]=family [3..4]=0 [5]=len
//! [6]=opcode [7..]=args`. The acceptance echo sets bit `0x10` of the family
//! byte (`0xbf` becomes `0xcf`).

use crate::text;
use vstd::prelude::*;

verus! {

pub const REPORT_ID: u8 = 0x02;

pub const FRAME_LEN: usize = 14;

/// Set on the family byte in the acceptance echo.
pub const ECHO_FAMILY_BIT: u8 = 0x10;

/// A whole vendor frame.
pub type Frame = [u8; FRAME_LEN];

// --- Opcodes --------------------------------------------------------------------

pub const OP_ONLINE_HEARTBEAT: u8 = 0x00;

pub const OP_REQUEST_DEVICE_HW: u8 = 0x01;

pub const OP_REQUEST_DEVICE_FW: u8 = 0x02;

pub const OP_REQUEST_DEVICE_SN: u8 = 0x03;

pub const OP_DEVICE_RESTART: u8 = 0x04;

pub const OP_READ_CFG_DATA: u8 = 0x05;

pub const OP_WRITE_CFG_DATA: u8 = 0x06;

/// Answers 0x00 in the application, 0x01 in the bootloader.
pub const OP_REQUEST_DEVICE_MODE: u8 = 0x18;

/// Enters the bootloader; only [`crate::flash`] sends it.
pub const OP_ENTER_UPDATA_MODE: u8 = 0x40;

pub const OP_START_UPDATE: u8 = 0x20;

pub const OP_UPDATE_DATA: u8 = 0x21;

pub const OP_UPDATE_DATA_LEN: u8 = 0x22;

pub const OP_UPDATE_DATA_CRC: u8 = 0x23;

pub const OP_QUIT_UPDATA_MODE: u8 = 0x24;

/// Broadcast address of the bootloader orders 0x40 and 0x24.
pub const BROADCAST_DEVICE: u8 = 0x01;

pub const BROADCAST_FAMILY: u8 = 0x00;

/// Starts the calibration of an axis.
pub const OP_CALIBRATION_START: u8 = 0x47;

/// Ends it; the firmware then writes min, center and max itself.
pub const OP_CALIBRATION_FINISH: u8 = 0x48;

pub const OP_SET_LEDX: u8 = 0x49;

pub const OP_READ_PARAM_DATA: u8 = 0x55;

pub const OP_WRITE_PARAM_DATA: u8 = 0x56;

pub const OP_SAVE_PARAM_DATA: u8 = 0x57;

/// Opcodes that write to non-volatile memory or change the state of the device.
pub const WRITE_OPCODES: [u8; 3] = [OP_WRITE_CFG_DATA, OP_WRITE_PARAM_DATA, OP_SAVE_PARAM_DATA];

/// Opcodes that ordinary operation never sends (flashing, bootloader).
pub const FORBIDDEN_OPCODES: [u8; 7] = [0x20, 0x21, 0x22, 0x23, 0x24, 0x25, OP_ENTER_UPDATA_MODE];

/// The opcode writes to non-volatile memory or changes the state of the device.
pub open spec fn writes_memory(opcode: u8) -> bool {
    opcode == OP_WRITE_CFG_DATA || opcode == OP_WRITE_PARAM_DATA || opcode == OP_SAVE_PARAM_DATA
}

/// The opcode belongs to flashing or the bootloader.
pub open spec fn reserved_for_flashing(opcode: u8) -> bool {
    0x20 <= opcode <= 0x25 || opcode == OP_ENTER_UPDATA_MODE
}

/// Whether the opcode writes to non-volatile memory or changes the device's state.
pub fn is_write_opcode(opcode: u8) -> (r: bool)
    ensures
        r == writes_memory(opcode),
{
    let mut i: usize = 0;
    while i < WRITE_OPCODES.len()
        invariant
            i <= 3,
            forall|j: int| 0 <= j < i ==> WRITE_OPCODES[j] != opcode,
        decreases 3 - i,
    {
        if WRITE_OPCODES[i] == opcode {
            return true;
        }
        i += 1;
    }
    assert(WRITE_OPCODES[0] != opcode && WRITE_OPCODES[1] != opcode && WRITE_OPCODES[2] != opcode);
    false
}

/// Whether ordinary operation must never send the opcode.
pub fn is_forbidden_opcode(opcode: u8) -> (r: bool)
    ensures
        r == reserved_for_flashing(opcode),
{
    let mut i: usize = 0;
    while i < FORBIDDEN_OPCODES.len()
        invariant
            i <= 7,
            forall|j: int| 0 <= j < i ==> FORBIDDEN_OPCODES[j] != opcode,
        decreases 7 - i,
    {
        if FORBIDDEN_OPCODES[i] == opcode {
            return true;
        }
        i += 1;
    }
    assert(FORBIDDEN_OPCODES[0] != opcode && FORBIDDEN_OPCODES[1] != opcode && FORBIDDEN_OPCODES[2]
        != opcode && FORBIDDEN_OPCODES[3] != opcode && FORBIDDEN_OPCODES[4] != opcode
        && FORBIDDEN_OPCODES[5] != opcode && FORBIDDEN_OPCODES[6] != opcode);
    false
}

/// No opcode of ordinary writing is one reserved for flashing.
pub proof fn law_write_opcodes_are_not_forbidden(opcode: u8)
    ensures
        writes_memory(opcode) ==> !reserved_for_flashing(opcode),
{
}

// --- Controllers ----------------------------------------------------------------

/// The grip: axes, calibration, mapping, motor.
pub const FAMILY_GRIP: u8 = 0xBF;

/// The base: backlight, screen.
pub const FAMILY_BASE: u8 = 0xBB;

/// The device of the base; that of a grip is the low byte of the USB PID less 0x20.
pub const DEVICE_BASE: u8 = 0x20;

/// Model names by `(device, family)`.
pub const CONTROLLER_NAMES: [((u8, u8), &'static str); 7] = [
    ((0x07, FAMILY_GRIP), "JGRIP_C1_L"),
    ((0x08, FAMILY_GRIP), "JGRIP_C1_R"),
    ((0x09, FAMILY_GRIP), "JGRIP_F1_L"),
    ((0x0A, FAMILY_GRIP), "JGRIP_F1_R"),
    ((0x0B, FAMILY_GRIP), "JGRIP_S1_L"),
    ((0x0C, FAMILY_GRIP), "JGRIP_S1_R"),
    ((0x20, FAMILY_BASE), "J5_BASE"),
];

/// The model of a controller, when it is a known one.
pub open spec fn model_of(device: u8, family: u8) -> Option<&'static str> {
    if family == FAMILY_GRIP {
        if device == 0x07 {
            Some("JGRIP_C1_L")
        } else if device == 0x08 {
            Some("JGRIP_C1_R")
        } else if device == 0x09 {
            Some("JGRIP_F1_L")
        } else if device == 0x0A {
            Some("JGRIP_F1_R")
        } else if device == 0x0B {
            Some("JGRIP_S1_L")
        } else if device == 0x0C {
            Some("JGRIP_S1_R")
        } else {
            None
        }
    } else if family == FAMILY_BASE && device == DEVICE_BASE {
        Some("J5_BASE")
    } else {
        None
    }
}

/// The model of a controller, or the given name when it is not a known one.
pub open spec fn model_or(device: u8, family: u8, unknown: &'static str) -> &'static str {
    match model_of(device, family) {
        Some(m) => m,
        None => unknown,
    }
}

/// Model name of a `(device, family)`, or `None` when it is unknown.
pub fn controller_name(device: u8, family: u8) -> (r: Option<&'static str>)
    ensures
        r == model_of(device, family),
{
    let mut i: usize = 0;
    while i < CONTROLLER_NAMES.len()
        invariant
            i <= 7,
            forall|j: int| 0 <= j < i ==> (#[trigger] CONTROLLER_NAMES[j]).0 != (device, family),
        decreases 7 - i,
    {
        if CONTROLLER_NAMES[i].0.0 == device && CONTROLLER_NAMES[i].0.1 == family {
            return Some(CONTROLLER_NAMES[i].1);
        }
        i += 1;
    }
    proof {
        let key = (device, family);
        assert(CONTROLLER_NAMES[0].0 != key && CONTROLLER_NAMES[1].0 != key
            && CONTROLLER_NAMES[2].0 != key && CONTROLLER_NAMES[3].0 != key
            && CONTROLLER_NAMES[4].0 != key && CONTROLLER_NAMES[5].0 != key
            && CONTROLLER_NAMES[6].0 != key);
    }
    None
}

/// The side that the end of a model name tells.
pub open spec fn side_of(model: Seq<char>) -> Option<&'static str> {
    if text::finishes_with(model, "_L"@) {
        Some("left")
    } else if text::finishes_with(model, "_R"@) {
        Some("right")
    } else {
        None
    }
}

/// Side of a model, told by the end of its name.
pub fn model_side(model: &str) -> (r: Option<&'static str>)
    ensures
        r == side_of(model@),
{
    if text::str_ends_with(model, "_L") {
        Some("left")
    } else if text::str_ends_with(model, "_R") {
        Some("right")
    } else {
        None
    }
}

/// The name of the range that is shown for a model: its side and no variant.
pub open spec fn commercial_name_of(model: Seq<char>) -> Seq<char> {
    if text::holds_text(model, "BASE"@) {
        "URSA MINOR — Base"@
    } else {
        match side_of(model) {
            Some(side) => "URSA MINOR Joystick ("@ + side@ + ")"@,
            None => "URSA MINOR"@,
        }
    }
}

/// Neutral commercial name of a controller: the exact variant cannot be told by
/// software.
pub fn commercial_name(model: &str) -> (r: String)
    ensures
        r@ == commercial_name_of(model@),
{
    if text::str_contains(model, "BASE") {
        return "URSA MINOR — Base".to_string();
    }
    match model_side(model) {
        Some(side) => {
            let mut out: String = "URSA MINOR Joystick (".to_string();
            out.append(side);
            out.append(")");
            out
        },
        None => "URSA MINOR".to_string(),
    }
}

/// Device of the grip of a USB PID: the low byte less 0x20. A low byte under
/// 0x20 gives a negative number, which is no device.
pub fn grip_device_from_pid(pid: u16) -> (r: i32)
    ensures
        r == pid % 256 - 0x20,
{
    (pid % 256) as i32 - 0x20
}

/// The `pid` of a controller in the firmware catalog: the family, then the device.
pub fn controller_pid(device: u8, family: u8) -> (r: u16)
    ensures
        r == family * 256 + device,
{
    family as u16 * 256 + device as u16
}

// --- Labels ---------------------------------------------------------------------

/// Position buttons only.
pub const Z_MODE_BUTTONS_ONLY: u8 = 0x00;

/// Analog axis and buttons.
pub const Z_MODE_AXIS_AND_BUTTONS: u8 = 0x01;

/// Analog axis only.
pub const Z_MODE_AXIS_ONLY: u8 = 0xFF;

/// Labels of the modes of the twist axis.
pub const Z_MODE_LABELS: [(u8, &'static str); 3] = [
    (Z_MODE_BUTTONS_ONLY, "Buttons only"),
    (Z_MODE_AXIS_AND_BUTTONS, "Axis and buttons"),
    (Z_MODE_AXIS_ONLY, "Axis only"),
];

/// The label of a mode of the twist axis, when it is a known one.
pub open spec fn z_label_of(mode: u8) -> Option<&'static str> {
    if mode == Z_MODE_BUTTONS_ONLY {
        Some("Buttons only")
    } else if mode == Z_MODE_AXIS_AND_BUTTONS {
        Some("Axis and buttons")
    } else if mode == Z_MODE_AXIS_ONLY {
        Some("Axis only")
    } else {
        None
    }
}

/// Label of a mode of the twist axis, or `None` when it is unknown.
pub fn z_mode_label(mode: u8) -> (r: Option<&'static str>)
    ensures
        r == z_label_of(mode),
{
    let mut i: usize = 0;
    while i < Z_MODE_LABELS.len()
        invariant
            i <= 3,
            forall|j: int| 0 <= j < i ==> (#[trigger] Z_MODE_LABELS[j]).0 != mode,
        decreases 3 - i,
    {
        if Z_MODE_LABELS[i].0 == mode {
            return Some(Z_MODE_LABELS[i].1);
        }
        i += 1;
    }
    assert(Z_MODE_LABELS[0].0 != mode && Z_MODE_LABELS[1].0 != mode && Z_MODE_LABELS[2].0 != mode);
    None
}

pub const MINISTICK_SHAPE_SQUARE: u8 = 0x00;

pub const MINISTICK_SHAPE_ROUND: u8 = 0xFF;

/// Labels of the shapes of the mini-stick.
pub const MINISTICK_SHAPE_LABELS: [(u8, &'static str); 2] = [
    (MINISTICK_SHAPE_SQUARE, "carré"),
    (MINISTICK_SHAPE_ROUND, "rond"),
];

/// The label of a shape of the mini-stick, when it is a known one.
pub open spec fn shape_label_of(shape: u8) -> Option<&'static str> {
    if shape == MINISTICK_SHAPE_SQUARE {
        Some("carré")
    } else if shape == MINISTICK_SHAPE_ROUND {
        Some("rond")
    } else {
        None
    }
}

/// Label of a shape of the mini-stick, or `None` when it is unknown.
pub fn ministick_shape_label(shape: u8) -> (r: Option<&'static str>)
    ensures
        r == shape_label_of(shape),
{
    let mut i: usize = 0;
    while i < MINISTICK_SHAPE_LABELS.len()
        invariant
            i <= 2,
            forall|j: int| 0 <= j < i ==> (#[trigger] MINISTICK_SHAPE_LABELS[j]).0 != shape,
        decreases 2 - i,
    {
        if MINISTICK_SHAPE_LABELS[i].0 == shape {
            return Some(MINISTICK_SHAPE_LABELS[i].1);
        }
        i += 1;
    }
    assert(MINISTICK_SHAPE_LABELS[0].0 != shape && MINISTICK_SHAPE_LABELS[1].0 != shape);
    None
}

// --- Offsets whose meaning depends on the family ----------------------------------

/// Writing this flag and restarting rebuilds the factory configuration.
pub const RESTORE_DEFAULT_OFFSET: u32 = 0xB4;

pub const RESTORE_DEFAULT_DATA: [u8; 4] = [1, 0, 0, 0];

/// Index 0 of SET_LEDX: backlight of the base, motor of the grip.
pub const LED_INDEX_BACKLIGHT: u8 = 0;

/// Base: byte 0 is 0 or 1, the 4x32 mode; needs a restart.
pub const BASE_4X32_OFFSET: u32 = 0xC8;

/// Base: deadzone of the X axis, 32 bits little-endian.
pub const BASE_DEADZONE_X_OFFSET: u32 = 0xD8;

/// Base: deadzone of the Y axis, 32 bits little-endian.
pub const BASE_DEADZONE_Y_OFFSET: u32 = 0xE8;

/// Base: byte 0 is the stored brightness.
pub const BASE_BACKLIGHT_OFFSET: u32 = 0xEC;

/// Base: byte 0 is the state of the light.
pub const BASE_BREATHING_OFFSET: u32 = 0xF8;

/// The light breathes.
pub const BREATHING_VALUE: u8 = 0x00;

/// The light is steady.
pub const STATIC_VALUE: u8 = 0x01;

/// Grip: shape and mode of the mini-stick.
pub const GRIP_MINISTICK_OFFSET: u32 = 0xFC;

/// Grip: byte 2 is the deadzone of the twist.
pub const GRIP_DEADZONE_TWIST_OFFSET: u32 = 0x104;

/// Largest deadzone of the twist.
pub const DEADZONE_TWIST_MAX: u8 = 30;

// --- Calibration ------------------------------------------------------------------

pub const CALIB_REGION_START: u32 = 0xC8;

pub const CALIB_REGION_END: u32 = 0xF8;

/// Canonical names of the axis indexes.
pub const AXIS_INDEX_NAMES: [(u8, &'static str); 8] = [
    (0, "X"),
    (1, "Y"),
    (2, "Z"),
    (3, "Rx"),
    (4, "Ry"),
    (5, "Rz"),
    (6, "Slider"),
    (7, "Dial"),
];

/// The canonical name of an axis index, when there is one.
pub open spec fn axis_name_of(index: u8) -> Option<&'static str> {
    if index == 0 {
        Some("X")
    } else if index == 1 {
        Some("Y")
    } else if index == 2 {
        Some("Z")
    } else if index == 3 {
        Some("Rx")
    } else if index == 4 {
        Some("Ry")
    } else if index == 5 {
        Some("Rz")
    } else if index == 6 {
        Some("Slider")
    } else if index == 7 {
        Some("Dial")
    } else {
        None
    }
}

/// Canonical name of an axis index, or `None`.
pub fn axis_index_name(index: u8) -> (r: Option<&'static str>)
    ensures
        r == axis_name_of(index),
{
    let mut i: usize = 0;
    while i < AXIS_INDEX_NAMES.len()
        invariant
            i <= 8,
            forall|j: int| 0 <= j < i ==> (#[trigger] AXIS_INDEX_NAMES[j]).0 != index,
        decreases 8 - i,
    {
        if AXIS_INDEX_NAMES[i].0 == index {
            return Some(AXIS_INDEX_NAMES[i].1);
        }
        i += 1;
    }
    assert(AXIS_INDEX_NAMES[0].0 != index && AXIS_INDEX_NAMES[1].0 != index
        && AXIS_INDEX_NAMES[2].0 != index && AXIS_INDEX_NAMES[3].0 != index
        && AXIS_INDEX_NAMES[4].0 != index && AXIS_INDEX_NAMES[5].0 != index
        && AXIS_INDEX_NAMES[6].0 != index && AXIS_INDEX_NAMES[7].0 != index);
    None
}

/// `index` is the axis index whose canonical name is `name`.
pub open spec fn names_axis(name: Seq<char>, index: u8) -> bool {
    match axis_name_of(index) {
        Some(n) => n@ == name,
        None => false,
    }
}

/// A name belongs to one axis index only.
pub proof fn law_axis_names_are_distinct(name: Seq<char>, a: u8, b: u8)
    requires
        names_axis(name, a),
        names_axis(name, b),
    ensures
        a == b,
{
    reveal_strlit("X");
    reveal_strlit("Y");
    reveal_strlit("Z");
    reveal_strlit("Rx");
    reveal_strlit("Ry");
    reveal_strlit("Rz");
    reveal_strlit("Slider");
    reveal_strlit("Dial");
    assert("X"@.len() == 1 && "Rx"@.len() == 2 && "Ry"@.len() == 2 && "Rz"@.len() == 2);
    assert("Y"@.len() == 1 && "Z"@.len() == 1 && "Slider"@.len() == 6 && "Dial"@.len() == 4);
    assert("X"@[0] == 'X' && "Y"@[0] == 'Y' && "Z"@[0] == 'Z');
    assert("Rx"@[1] == 'x' && "Ry"@[1] == 'y' && "Rz"@[1] == 'z');
}

/// Axis index of a canonical name, or `None`.
pub fn axis_name_index(name: &str) -> (r: Option<u8>)
    ensures
        match r {
            Some(index) => names_axis(name@, index),
            None => forall|index: u8| !names_axis(name@, index),
        },
{
    let mut i: usize = 0;
    while i < AXIS_INDEX_NAMES.len()
        invariant
            i <= 8,
            forall|j: int| 0 <= j < i ==> (#[trigger] AXIS_INDEX_NAMES[j]).1@ != name@,
        decreases 8 - i,
    {
        if text::str_eq(AXIS_INDEX_NAMES[i].1, name) {
            return Some(AXIS_INDEX_NAMES[i].0);
        }
        i += 1;
    }
    assert(AXIS_INDEX_NAMES[0].1@ != name@ && AXIS_INDEX_NAMES[1].1@ != name@
        && AXIS_INDEX_NAMES[2].1@ != name@ && AXIS_INDEX_NAMES[3].1@ != name@
        && AXIS_INDEX_NAMES[4].1@ != name@ && AXIS_INDEX_NAMES[5].1@ != name@
        && AXIS_INDEX_NAMES[6].1@ != name@ && AXIS_INDEX_NAMES[7].1@ != name@);
    None
}

/// Axes that can be calibrated on the base.
pub const CALIB_AXES_BASE: [u8; 3] = [0, 1, 6];

/// Axes that can be calibrated on a grip.
pub const CALIB_AXES_GRIP: [u8; 4] = [2, 3, 4, 6];

/// The axis indexes that can be calibrated on a controller of the family.
pub open spec fn calibrated_axes(family: u8) -> Seq<u8> {
    if family == FAMILY_GRIP {
        seq![2u8, 3, 4, 6]
    } else if family == FAMILY_BASE {
        seq![0u8, 1, 6]
    } else {
        Seq::empty()
    }
}

/// Axis indexes that can be calibrated on a controller of the family.
pub fn calibration_indexes(family: u8) -> (r: Vec<u8>)
    ensures
        r@ == calibrated_axes(family),
{
    let mut out: Vec<u8> = Vec::new();
    if family == FAMILY_GRIP {
        out.extend_from_slice(CALIB_AXES_GRIP.as_slice());
        assert(out@ == seq![2u8, 3, 4, 6]);
    } else if family == FAMILY_BASE {
        out.extend_from_slice(CALIB_AXES_BASE.as_slice());
        assert(out@ == seq![0u8, 1, 6]);
    }
    out
}

/// The offsets of the calibration region, by words of four bytes.
pub open spec fn calib_offsets() -> Seq<u32> {
    Seq::new(13, |i: int| (CALIB_REGION_START + 4 * i) as u32)
}

/// Offsets of the calibration region 0xC8 to 0xF8, by words of four bytes.
pub fn calib_region_offsets() -> (r: Vec<u32>)
    ensures
        r@ == calib_offsets(),
{
    let mut out: Vec<u32> = Vec::new();
    let mut off: u32 = CALIB_REGION_START;
    while off <= CALIB_REGION_END
        invariant
            off == CALIB_REGION_START + 4 * out.len(),
            out.len() <= 13,
            out@ == calib_offsets().take(out.len() as int),
        decreases CALIB_REGION_END + 4 - off,
    {
        out.push(off);
        assert(out@ == calib_offsets().take(out.len() as int));
        off += 4;
    }
    out
}

// --- Flash map --------------------------------------------------------------------

/// A named field of the on-board configuration.
#[derive(Debug, Clone, Copy, PartialEq, Eq)]
pub struct FlashField {
    pub offset: u32,
    /// Technical name.
    pub name: &'static str,
    /// Readable description.
    pub note: &'static str,
    /// The field is an identity field, which is never written.
    pub identity: bool,
    /// The meaning holds for a grip only.
    pub grip_only: bool,
}

impl FlashField {
    pub fn new(offset: u32, name: &'static str, note: &'static str) -> (r: Self)
        ensures
            r == (FlashField { offset, name, note, identity: false, grip_only: false }),
    {
        FlashField { offset, name, note, identity: false, grip_only: false }
    }

    pub fn identity(offset: u32, name: &'static str, note: &'static str) -> (r: Self)
        ensures
            r == (FlashField { offset, name, note, identity: true, grip_only: false }),
    {
        FlashField { offset, name, note, identity: true, grip_only: false }
    }

    pub fn grip(offset: u32, name: &'static str, note: &'static str) -> (r: Self)
        ensures
            r == (FlashField { offset, name, note, identity: false, grip_only: true }),
    {
        FlashField { offset, name, note, identity: false, grip_only: true }
    }
}

/// A field that every controller has.
pub open spec fn plain_field(offset: u32, name: &'static str, note: &'static str) -> FlashField {
    FlashField { offset, name, note, identity: false, grip_only: false }
}

/// A field of the identity.
pub open spec fn identity_field(offset: u32, name: &'static str, note: &'static str) -> FlashField {
    FlashField { offset, name, note, identity: true, grip_only: false }
}

/// A field of a grip.
pub open spec fn grip_field(offset: u32, name: &'static str, note: &'static str) -> FlashField {
    FlashField { offset, name, note, identity: false, grip_only: true }
}

/// The fields of the configuration, in the order in which they are read.
pub open spec fn flash_table() -> Seq<FlashField> {
    seq![
        plain_field(0x04, "firmware_complete", "drapeau d'écriture firmware achevée (=1)"),
        identity_field(0x08, "type_id", "type/ID du modèle"),
        identity_field(0x14, "device_family", "device + family du contrôleur"),
        identity_field(0x5C, "product_name", "nom produit ASCII (0x5c–0x84)"),
        identity_field(0x9C, "serial", "numéro de série (0x9c–0xa4)"),
        plain_field(0xB0, "hardware_version", "version matérielle (recoupe REQUEST_DEVICE_HW)"),
        plain_field(0xB4, "restore_default", "drapeau « restaurer config par défaut »"),
        grip_field(0xC0, "cfg_c0", "config (diffère L↔R)"),
        grip_field(0xC8, "calibration", "calibration des axes min/centre/max (0xc8–0xf8)"),
        grip_field(0xD8, "z_axis_mode", "mode de l'axe twist Z/Rz [mode,0xff,spd_lo,spd_hi]"),
        grip_field(0xF0, "axis_xy_mode", "mode de sortie XY (axiosXYMode)"),
    ]
}

/// The fields of the configuration, in the order in which they are read.
pub fn flash_fields() -> (r: Vec<FlashField>)
    ensures
        r@ == flash_table(),
{
    let out: Vec<FlashField> = vec![
        FlashField::new(0x04, "firmware_complete", "drapeau d'écriture firmware achevée (=1)"),
        FlashField::identity(0x08, "type_id", "type/ID du modèle"),
        FlashField::identity(0x14, "device_family", "device + family du contrôleur"),
        FlashField::identity(0x5C, "product_name", "nom produit ASCII (0x5c–0x84)"),
        FlashField::identity(0x9C, "serial", "numéro de série (0x9c–0xa4)"),
        FlashField::new(
            0xB0,
            "hardware_version",
            "version matérielle (recoupe REQUEST_DEVICE_HW)",
        ),
        FlashField::new(0xB4, "restore_default", "drapeau « restaurer config par défaut »"),
        FlashField::grip(0xC0, "cfg_c0", "config (diffère L↔R)"),
        FlashField::grip(
            0xC8,
            "calibration",
            "calibration des axes min/centre/max (0xc8–0xf8)",
        ),
        FlashField::grip(
            0xD8,
            "z_axis_mode",
            "mode de l'axe twist Z/Rz [mode,0xff,spd_lo,spd_hi]",
        ),
        FlashField::grip(0xF0, "axis_xy_mode", "mode de sortie XY (axiosXYMode)"),
    ];
    assert(out@ == flash_table());
    out
}

// --- Write guard --------------------------------------------------------------------

/// Offsets that are never written, whatever the device: their meaning is not known.
pub const FORBIDDEN_WRITE_OFFSETS: [u32; 2] = [0xF0, 0x100];

/// Bytes of the identity, first and last of each range.
pub const IDENTITY_RANGES: [(u32, u32); 4] = [
    (0x08, 0x0B),
    (0x14, 0x17),
    (0x5C, 0x84),
    (0x9C, 0xA4),
];

/// Offsets that a profile leaves out: flags and a counter.
pub const PROFILE_SKIP_OFFSETS: [u32; 3] = [0x04, 0xB4, 0xC0];

/// The byte belongs to the identity: type, device and family, product name,
/// serial number.
pub open spec fn identity_byte(b: int) -> bool {
    0x08 <= b <= 0x0B || 0x14 <= b <= 0x17 || 0x5C <= b <= 0x84 || 0x9C <= b <= 0xA4
}

/// The byte belongs to a word that must not be written.
pub open spec fn forbidden_byte(b: int) -> bool {
    0xF0 <= b <= 0xF3 || 0x100 <= b <= 0x103
}

/// The block of four bytes at `offset` holds a byte of the identity.
pub open spec fn touches_identity(offset: u32) -> bool {
    exists|b: int| offset <= b < offset + 4 && #[trigger] identity_byte(b)
}

/// The block of four bytes at `offset` holds a byte that must not be written.
pub open spec fn touches_forbidden(offset: u32) -> bool {
    exists|b: int| offset <= b < offset + 4 && #[trigger] forbidden_byte(b)
}

/// The block at `offset` may be part of a profile.
pub open spec fn profile_writable(offset: u32) -> bool {
    &&& !touches_identity(offset)
    &&& !touches_forbidden(offset)
    &&& offset != 0x04 && offset != 0xB4 && offset != 0xC0
}

/// Whether the block of four bytes at `offset` meets an offset that must not be
/// written.
pub fn is_forbidden_write_offset(offset: u32) -> (r: bool)
    requires
        offset <= u32::MAX - 3,
    ensures
        r == touches_forbidden(offset),
{
    let mut i: usize = 0;
    while i < FORBIDDEN_WRITE_OFFSETS.len()
        invariant
            i <= 2,
            offset <= u32::MAX - 3,
            forall|j: int|
                0 <= j < i ==> !(offset <= (#[trigger] FORBIDDEN_WRITE_OFFSETS[j]) + 3 && offset + 3
                    >= FORBIDDEN_WRITE_OFFSETS[j]),
        decreases 2 - i,
    {
        assert(FORBIDDEN_WRITE_OFFSETS[i as int] <= 0x100);
        if offset <= FORBIDDEN_WRITE_OFFSETS[i] + 3 && offset + 3 >= FORBIDDEN_WRITE_OFFSETS[i] {
            proof {
                let o = FORBIDDEN_WRITE_OFFSETS[i as int] as int;
                assert(forbidden_byte(if offset >= o { offset as int } else { o }));
            }
            return true;
        }
        i += 1;
    }
    proof {
        let a = FORBIDDEN_WRITE_OFFSETS[0];
        let b = FORBIDDEN_WRITE_OFFSETS[1];
        assert(!(offset <= a + 3 && offset + 3 >= a));
        assert(!(offset <= b + 3 && offset + 3 >= b));
    }
    false
}

/// Whether the block of four bytes at `offset` meets a range of the identity.
pub fn is_identity_offset(offset: u32) -> (r: bool)
    requires
        offset <= u32::MAX - 3,
    ensures
        r == touches_identity(offset),
{
    let mut i: usize = 0;
    while i < IDENTITY_RANGES.len()
        invariant
            i <= 4,
            offset <= u32::MAX - 3,
            forall|j: int|
                0 <= j < i ==> !(offset <= (#[trigger] IDENTITY_RANGES[j]).1 && offset + 3
                    >= IDENTITY_RANGES[j].0),
        decreases 4 - i,
    {
        if offset <= IDENTITY_RANGES[i].1 && offset + 3 >= IDENTITY_RANGES[i].0 {
            proof {
                let lo = IDENTITY_RANGES[i as int].0 as int;
                assert(identity_byte(if offset >= lo { offset as int } else { lo }));
            }
            return true;
        }
        i += 1;
    }
    proof {
        assert(!(offset <= IDENTITY_RANGES[0].1 && offset + 3 >= IDENTITY_RANGES[0].0));
        assert(!(offset <= IDENTITY_RANGES[1].1 && offset + 3 >= IDENTITY_RANGES[1].0));
        assert(!(offset <= IDENTITY_RANGES[2].1 && offset + 3 >= IDENTITY_RANGES[2].0));
        assert(!(offset <= IDENTITY_RANGES[3].1 && offset + 3 >= IDENTITY_RANGES[3].0));
    }
    false
}

/// Whether the block at `offset` may be part of a profile: neither identity, nor
/// flag or counter, nor an offset that must not be written.
pub fn is_profile_writable(offset: u32) -> (r: bool)
    requires
        offset <= u32::MAX - 3,
    ensures
        r == profile_writable(offset),
{
    !is_identity_offset(offset) && !is_forbidden_write_offset(offset) && offset
        != PROFILE_SKIP_OFFSETS[0] && offset != PROFILE_SKIP_OFFSETS[1] && offset
        != PROFILE_SKIP_OFFSETS[2]
}

/// Why the guard refuses a write.
#[derive(Debug, Clone, Copy, PartialEq, Eq, Structural)]
pub enum WriteGuardError {
    /// The block meets a range of the identity.
    Identity(u32),
    /// The block meets an offset that must not be written.
    Forbidden(u32),
}

impl WriteGuardError {
    /// The text of a refusal.
    pub open spec fn message(self) -> Seq<char> {
        match self {
            WriteGuardError::Identity(off) => "écriture refusée : offset "@ + text::hex_prefixed(
                off as nat,
                2,
            ) + " dans une plage d'identité"@,
            WriteGuardError::Forbidden(off) => "écriture refusée : offset "@ + text::hex_prefixed(
                off as nat,
                2,
            ) + " formellement interdit (sémantique non comprise, cf. RE §5)"@,
        }
    }

    /// The text of the refusal.
    pub fn to_string(&self) -> (r: String)
        ensures
            r@ == self.message(),
    {
        let mut out: String = "écriture refusée : offset ".to_string();
        match self {
            WriteGuardError::Identity(off) => {
                out.append(text::hex_prefixed_text(*off as u64, 2).as_str());
                out.append(" dans une plage d'identité");
            },
            WriteGuardError::Forbidden(off) => {
                out.append(text::hex_prefixed_text(*off as u64, 2).as_str());
                out.append(" formellement interdit (sémantique non comprise, cf. RE §5)");
            },
        }
        out
    }
}

/// What the guard answers to a write at `offset`.
pub open spec fn guard_verdict(offset: u32, allow_identity: bool) -> Result<(), WriteGuardError> {
    if !allow_identity && touches_identity(offset) {
        Err(WriteGuardError::Identity(offset))
    } else if touches_forbidden(offset) {
        Err(WriteGuardError::Forbidden(offset))
    } else {
        Ok(())
    }
}

/// Applies the write guard to `offset`. `allow_identity` is for repair tools
/// only.
pub fn guard_write(offset: u32, allow_identity: bool) -> (r: Result<(), WriteGuardError>)
    requires
        offset <= u32::MAX - 3,
    ensures
        r == guard_verdict(offset, allow_identity),
{
    if !allow_identity && is_identity_offset(offset) {
        return Err(WriteGuardError::Identity(offset));
    }
    if is_forbidden_write_offset(offset) {
        return Err(WriteGuardError::Forbidden(offset));
    }
    Ok(())
}

/// No write that the guard lets through without `allow_identity` changes a byte
/// of the identity, and none at all changes a forbidden byte.
pub proof fn law_guard_protects(offset: u32, allow_identity: bool, b: int)
    requires
        guard_verdict(offset, allow_identity) is Ok,
        offset <= b < offset + 4,
    ensures
        !forbidden_byte(b),
        !allow_identity ==> !identity_byte(b),
{
}

/// Whatever may be part of a profile passes the write guard.
pub proof fn law_profile_passes_guard(offset: u32)
    requires
        profile_writable(offset),
    ensures
        guard_verdict(offset, false) is Ok,
{
}

/// A field marked as identity is refused by the guard, and no other field of the
/// map holds a byte of the identity.
pub proof fn law_identity_fields_are_guarded(i: int)
    requires
        0 <= i < flash_table().len(),
    ensures
        flash_table()[i].identity == touches_identity(flash_table()[i].offset),
        flash_table()[i].identity ==> guard_verdict(flash_table()[i].offset, false) == Err::<(), _>(
            WriteGuardError::Identity(flash_table()[i].offset),
        ),
{
    let off = flash_table()[i].offset;
    if flash_table()[i].identity {
        assert(identity_byte(off as int));
    }
}

// --- Frames ---------------------------------------------------------------------------

/// The fourteen bytes of a frame: the length byte counts the opcode and the
/// arguments, and zeros follow the arguments.
pub open spec fn frame_bytes(device: u8, family: u8, opcode: u8, args: Seq<u8>) -> Seq<u8> {
    seq![REPORT_ID, device, family, 0u8, 0u8, (1 + args.len()) as u8, opcode] + args + Seq::new(
        (7 - args.len()) as nat,
        |i: int| 0u8,
    )
}

/// Builds a frame. At most seven bytes of arguments fit.
pub fn build_frame(device: u8, family: u8, opcode: u8, args: &[u8]) -> (r: Frame)
    requires
        args.len() <= 7,
    ensures
        r@ == frame_bytes(device, family, opcode, args@),
{
    let mut b: [u8; 14] = [0u8;14];
    b[0] = REPORT_ID;
    b[1] = device;
    b[2] = family;
    b[5] = 1 + args.len() as u8;
    b[6] = opcode;
    let mut i: usize = 0;
    while i < args.len()
        invariant
            i <= args.len() <= 7,
            b@ == frame_bytes(device, family, opcode, args@.take(i as int)).update(
                5,
                (1 + args.len()) as u8,
            ),
        decreases args.len() - i,
    {
        b[7 + i] = args[i];
        i += 1;
        assert(b@ == frame_bytes(device, family, opcode, args@.take(i as int)).update(
            5,
            (1 + args.len()) as u8,
        ));
    }
    assert(args@.take(i as int) == args@);
    assert(b@ == frame_bytes(device, family, opcode, args@));
    b
}

/// A frame of fourteen bytes begins with the number of the report, gives back its
/// address, its opcode and, by its length byte, its arguments, and holds zeros
/// elsewhere.
pub proof fn law_frame_layout(device: u8, family: u8, opcode: u8, args: Seq<u8>)
    requires
        args.len() <= 7,
    ensures
        frame_bytes(device, family, opcode, args).len() == FRAME_LEN,
        frame_bytes(device, family, opcode, args).len() == 14,
        frame_bytes(device, family, opcode, args)[0] == 2,
        frame_bytes(device, family, opcode, args)[3] == 0,
        frame_bytes(device, family, opcode, args)[4] == 0,
        frame_bytes(device, family, opcode, args)[5] == args.len() + 1,
        forall|i: int|
            7 + args.len() <= i < 14 ==> #[trigger] frame_bytes(device, family, opcode, args)[i]
                == 0,
        frame_bytes(device, family, opcode, args)[1] == device,
        frame_bytes(device, family, opcode, args)[2] == family,
        frame_bytes(device, family, opcode, args)[6] == opcode,
        frame_bytes(device, family, opcode, args).subrange(
            7,
            6 + frame_bytes(device, family, opcode, args)[5],
        ) == args,
{
    assert(frame_bytes(device, family, opcode, args).subrange(7, (7 + args.len()) as int) == args);
}

/// The three little-endian bytes of an offset.
pub open spec fn offset_le(offset: u32) -> Seq<u8> {
    seq![
        (offset % 256) as u8,
        (offset / 256 % 256) as u8,
        (offset / 65536 % 256) as u8,
    ]
}

/// The offset that three little-endian bytes stand for.
pub open spec fn offset_from(b: Seq<u8>) -> int {
    b[0] + 256 * b[1] + 65536 * b[2]
}

/// Offset on three little-endian bytes.
pub fn offset_bytes(offset: u32) -> (r: [u8; 3])
    ensures
        r@ == offset_le(offset),
{
    let r: [u8; 3] = [
        (offset % 256) as u8,
        (offset / 256 % 256) as u8,
        (offset / 65536 % 256) as u8,
    ];
    assert(r@ == offset_le(offset));
    r
}

/// Three bytes hold every offset of a flash page of less than 16 MiB; of a larger
/// one they hold the rest that is left of it by 16 MiB.
pub proof fn law_offset_round_trip(offset: u32)
    ensures
        offset_from(offset_le(offset)) == offset % 0x100_0000,
        offset_le(offset).len() == 3,
        offset_le(offset)[0] + 256 * offset_le(offset)[1] + 65536 * offset_le(offset)[2] == offset
            % 0x100_0000,
        offset < 0x100_0000 ==> offset_from(offset_le(offset)) == offset,
{
}

/// Bytes in hexadecimal, two digits each.
pub open spec fn hex_pairs(data: Seq<u8>) -> Seq<Seq<char>> {
    Seq::new(data.len(), |i: int| text::hex_fill(data[i] as nat, 2))
}

/// Bytes in hexadecimal, with a space between them.
pub open spec fn hex_dump(data: Seq<u8>) -> Seq<char> {
    text::joined(hex_pairs(data), " "@)
}

/// The bytes in hexadecimal, each on its own.
pub(crate) fn hex_pair_texts(data: &[u8]) -> (r: Vec<String>)
    ensures
        text::views(r@) == hex_pairs(data@),
{
    let mut parts: Vec<String> = Vec::new();
    let mut i: usize = 0;
    while i < data.len()
        invariant
            i <= data.len(),
            text::views(parts@) == hex_pairs(data@).take(i as int),
        decreases data.len() - i,
    {
        let ghost before = text::views(parts@);
        parts.push(text::hex_text(data[i] as u64, 2));
        assert(text::views(parts@) == before.push(text::hex_fill(data[i as int] as nat, 2)));
        i += 1;
        assert(text::views(parts@) == hex_pairs(data@).take(i as int));
    }
    assert(hex_pairs(data@).take(i as int) == hex_pairs(data@));
    parts
}

/// Bytes in lower-case hexadecimal, with a space between them.
pub fn hx(data: &[u8]) -> (r: String)
    ensures
        r@ == hex_dump(data@),
{
    text::join_text(&hex_pair_texts(data), " ")
}

/// Which words the guard keeps and which ones a profile leaves out, word by word.
pub proof fn law_guarded_words(offset: u32)
    requires
        offset % 4 == 0,
    ensures
        touches_identity(offset) <==> offset == 0x08 || offset == 0x14 || 0x5C <= offset <= 0x84
            || 0x9C <= offset <= 0xA4,
        touches_forbidden(offset) <==> offset == 0xF0 || offset == 0x100,
        profile_writable(offset) <==> !touches_identity(offset) && !touches_forbidden(offset)
            && offset != 0x04 && offset != 0xB4 && offset != 0xC0,
{
    assert(identity_byte(offset as int) || !identity_byte(offset as int));
    assert(forbidden_byte(offset as int) || !forbidden_byte(offset as int));
    if offset == 0x08 || offset == 0x14 || 0x5C <= offset <= 0x84 || 0x9C <= offset <= 0xA4 {
        assert(identity_byte(offset as int));
    }
    if offset == 0xF0 || offset == 0x100 {
        assert(forbidden_byte(offset as int));
    }
}

/// A dump of four bytes shows each of them by its two digits, in order, with a space
/// between.
pub proof fn law_dump_shows_every_byte(w: Seq<u8>, i: int)
    requires
        w.len() == 4,
        0 <= i < 4,
    ensures
        hex_dump(w).len() == 11,
        hex_dump(w).subrange(3 * i, 3 * i + 2) == text::hex_fill(w[i] as nat, 2),
        i < 3 ==> hex_dump(w)[3 * i + 2] == ' ',
{
    reveal_strlit(" ");
    let p = hex_pairs(w);
    lemma_byte_digits(w[0]);
    lemma_byte_digits(w[1]);
    lemma_byte_digits(w[2]);
    lemma_byte_digits(w[3]);
    let p1 = p.take(1);
    let p2 = p.take(2);
    let p3 = p.take(3);
    assert(p.drop_last() == p3 && p3.drop_last() == p2 && p2.drop_last() == p1);
    assert(p1.drop_last() == Seq::<Seq<char>>::empty());
    assert(p.last() == p[3] && p3.last() == p[2] && p2.last() == p[1] && p1.last() == p[0]);
    let d1 = text::joined(p1, " "@);
    let d2 = text::joined(p2, " "@);
    let d3 = text::joined(p3, " "@);
    assert(d1 =~= p[0]);
    assert(d2 =~= p[0] + " "@ + p[1]);
    assert(d3 =~= p[0] + " "@ + p[1] + " "@ + p[2]);
    assert(hex_dump(w) =~= p[0] + " "@ + p[1] + " "@ + p[2] + " "@ + p[3]);
    assert(hex_dump(w).subrange(3 * i, 3 * i + 2) =~= p[i]);
}

proof fn lemma_byte_digits(b: u8)
    ensures
        text::hex_fill(b as nat, 2).len() == 2,
{
    reveal_with_fuel(text::digits, 3);
}

/// Which axes can be calibrated: on a grip the twist, the small stick and the slider,
/// on a base X, Y and the slider, elsewhere none.
pub proof fn law_calibrated_axes(family: u8, index: u8)
    ensures
        calibrated_axes(0xBF).contains(index) <==> index == 2 || index == 3 || index == 4 || index
            == 6,
        calibrated_axes(0xBB).contains(index) <==> index == 0 || index == 1 || index == 6,
        family != 0xBF && family != 0xBB ==> calibrated_axes(family).len() == 0,
{
    let g = calibrated_axes(0xBF);
    let b = calibrated_axes(0xBB);
    assert(g[0] == 2 && g[1] == 3 && g[2] == 4 && g[3] == 6);
    assert(b[0] == 0 && b[1] == 1 && b[2] == 6);
}

/// The words of the calibration stand from 0xC8 to 0xF8, one after the other.
pub proof fn law_calibration_region(i: int)
    requires
        0 <= i < 13,
    ensures
        calib_offsets().len() == 13,
        calib_offsets()[i] == 0xC8 + 4 * i,
        calib_offsets().last() == 0xF8,
{
}

/// Where the fields of the configuration stand, which of them are the identity, and
/// which ones only a grip has.
pub proof fn law_map_of_the_flash(i: int)
    requires
        0 <= i < 11,
    ensures
        ({
            let t = flash_table();
            &&& t.len() == 11
            &&& t[0].name@ == "firmware_complete"@ && t[0].offset == 0x04
            &&& t[1].name@ == "type_id"@ && t[1].offset == 0x08
            &&& t[2].name@ == "device_family"@ && t[2].offset == 0x14
            &&& t[3].name@ == "product_name"@ && t[3].offset == 0x5C
            &&& t[4].name@ == "serial"@ && t[4].offset == 0x9C
            &&& t[5].name@ == "hardware_version"@ && t[5].offset == 0xB0
            &&& t[6].name@ == "restore_default"@ && t[6].offset == 0xB4
            &&& t[7].name@ == "cfg_c0"@ && t[7].offset == 0xC0
            &&& t[8].name@ == "calibration"@ && t[8].offset == 0xC8
            &&& t[9].name@ == "z_axis_mode"@ && t[9].offset == 0xD8
            &&& t[10].name@ == "axis_xy_mode"@ && t[10].offset == 0xF0
            &&& t[i].identity <==> 1 <= i <= 4
            &&& t[i].grip_only <==> i >= 7
        }),
{
}

/// The models come in pairs: the odd numbers of the grips are the left ones, the even
/// ones the right ones; the base has no side.
pub proof fn law_models_have_a_side(device: u8)
    ensures
        7 <= device <= 12 ==> model_of(device, 0xBF) is Some,
        device < 7 || device > 12 ==> model_of(device, 0xBF) is None,
        7 <= device <= 12 && device % 2 == 1 ==> side_of(model_of(device, 0xBF)->0@) == Some("left"),
        7 <= device <= 12 && device % 2 == 0 ==> side_of(model_of(device, 0xBF)->0@) == Some(
            "right",
        ),
        model_of(device, 0xBB) is Some <==> device == 0x20,
        side_of(model_of(0x20, 0xBB)->0@) is None,
{
    reveal_strlit("_L");
    reveal_strlit("_R");
    reveal_strlit("JGRIP_C1_L");
    reveal_strlit("JGRIP_C1_R");
    reveal_strlit("JGRIP_F1_L");
    reveal_strlit("JGRIP_F1_R");
    reveal_strlit("JGRIP_S1_L");
    reveal_strlit("JGRIP_S1_R");
    reveal_strlit("J5_BASE");
    assert("JGRIP_C1_L"@.subrange(8, 10) =~= "_L"@);
    assert("JGRIP_F1_L"@.subrange(8, 10) =~= "_L"@);
    assert("JGRIP_S1_L"@.subrange(8, 10) =~= "_L"@);
    assert("JGRIP_C1_R"@.subrange(8, 10) =~= "_R"@);
    assert("JGRIP_F1_R"@.subrange(8, 10) =~= "_R"@);
    assert("JGRIP_S1_R"@.subrange(8, 10) =~= "_R"@);
    assert("_L"@[1] == 'L' && "_R"@[1] == 'R');
    assert("J5_BASE"@.subrange(5, 7)[1] == 'E');
}

/// The canonical names of the axes, and no others.
pub proof fn law_names_of_the_axes(index: u8)
    ensures
        names_axis("X"@, 0) && names_axis("Y"@, 1) && names_axis("Z"@, 2),
        names_axis("Rx"@, 3) && names_axis("Ry"@, 4) && names_axis("Rz"@, 5),
        names_axis("Slider"@, 6) && names_axis("Dial"@, 7),
        axis_name_of(index) is Some <==> index < 8,
{
}

} // verus!
