//! What goes over the wire: which frame each operation sends, which report is
//! its echo, and what the echo says.
//!
//! The echo is the only sign of acceptance: a controller ignores an unknown
//! opcode or offset in silence.

use crate::model;
use crate::protocol;
use crate::protocol::{Frame, WriteGuardError};
use vstd::prelude::*;

verus! {

/// Times to wait for an echo, in milliseconds.
pub const READ_TIMEOUT_MS: u64 = 400;

pub const RESTART_TIMEOUT_MS: u64 = 600;

pub const CALIBRATION_START_TIMEOUT_MS: u64 = 500;

pub const CALIBRATION_FINISH_TIMEOUT_MS: u64 = 600;

/// The report is the echo of an opcode: a vendor report, not one of the joystick,
/// that carries the opcode.
pub open spec fn is_echo(report: Seq<u8>, opcode: u8) -> bool {
    report.len() >= 7 && report[0] == protocol::REPORT_ID && report[6] == opcode
}

/// Whether a report is the echo of an opcode.
pub fn accepts_echo(report: &[u8], opcode: u8) -> (r: bool)
    ensures
        r == is_echo(report@, opcode),
{
    report.len() >= 7 && report[0] == protocol::REPORT_ID && report[6] == opcode
}

/// The frame that reads the word at `offset`.
pub fn read_frame(device: u8, family: u8, offset: u32) -> (r: Frame)
    ensures
        r@ == protocol::frame_bytes(
            device,
            family,
            protocol::OP_READ_CFG_DATA,
            protocol::offset_le(offset),
        ),
{
    protocol::build_frame(
        device,
        family,
        protocol::OP_READ_CFG_DATA,
        protocol::offset_bytes(offset).as_slice(),
    )
}

/// The word that the echo of a read holds: it must be of full length and be for
/// the offset that was asked for.
pub open spec fn word_in_echo(report: Seq<u8>, offset: u32) -> Option<Seq<u8>> {
    if report.len() >= protocol::FRAME_LEN && protocol::offset_from(report.subrange(7, 10)) == offset {
        Some(report.subrange(10, 14))
    } else {
        None
    }
}

/// The word in the echo of a read at `offset`.
pub fn cfg_reply(report: &[u8], offset: u32) -> (r: Option<[u8; 4]>)
    ensures
        match r {
            Some(w) => word_in_echo(report@, offset) == Some(w@),
            None => word_in_echo(report@, offset) is None,
        },
{
    if report.len() < protocol::FRAME_LEN {
        return None;
    }
    let echoed: u32 = report[7] as u32 + 256 * report[8] as u32 + 65536 * report[9] as u32;
    assert(report@.subrange(7, 10)[0] == report@[7] && report@.subrange(7, 10)[1] == report@[8]
        && report@.subrange(7, 10)[2] == report@[9]);
    if echoed != offset {
        return None;
    }
    let w: [u8; 4] = [report[10], report[11], report[12], report[13]];
    assert(w@ == report@.subrange(10, 14));
    Some(w)
}

/// A controller that repeats the offset of a read frame and adds its word is
/// understood, and a report for another offset is not taken for the answer.
pub proof fn law_read_reply_round_trip(
    device: u8,
    family: u8,
    offset: u32,
    other: u32,
    word: Seq<u8>,
)
    requires
        offset < 0x100_0000,
        word.len() == 4,
    ensures
        ({
            let report = protocol::frame_bytes(
                device,
                family,
                protocol::OP_READ_CFG_DATA,
                protocol::offset_le(offset) + word,
            );
            &&& is_echo(report, protocol::OP_READ_CFG_DATA)
            &&& word_in_echo(report, offset) == Some(word)
            &&& other != offset ==> word_in_echo(report, other) is None
        }),
{
    let report = protocol::frame_bytes(
        device,
        family,
        protocol::OP_READ_CFG_DATA,
        protocol::offset_le(offset) + word,
    );
    assert(report.subrange(7, 10) == protocol::offset_le(offset));
    assert(report.subrange(10, 14) == word);
    protocol::law_offset_round_trip(offset);
}

/// The opcode asks for the identity or the mode.
pub open spec fn asks_identity(opcode: u8) -> bool {
    opcode == protocol::OP_REQUEST_DEVICE_HW || opcode == protocol::OP_REQUEST_DEVICE_FW || opcode
        == protocol::OP_REQUEST_DEVICE_SN || opcode == protocol::OP_REQUEST_DEVICE_MODE
}

/// Whether a request may carry the opcode: only those that ask for the identity
/// or the mode.
pub fn is_request_opcode(opcode: u8) -> (r: bool)
    ensures
        r == asks_identity(opcode),
{
    opcode == protocol::OP_REQUEST_DEVICE_HW || opcode == protocol::OP_REQUEST_DEVICE_FW || opcode
        == protocol::OP_REQUEST_DEVICE_SN || opcode == protocol::OP_REQUEST_DEVICE_MODE
}

/// No request writes or enters the bootloader.
pub proof fn law_requests_do_not_write(opcode: u8)
    requires
        asks_identity(opcode),
    ensures
        !protocol::writes_memory(opcode),
        !protocol::reserved_for_flashing(opcode),
{
}

/// The frame of a request, when the opcode may be requested.
pub fn request_frame(device: u8, family: u8, opcode: u8) -> (r: Option<Frame>)
    ensures
        match r {
            Some(f) => asks_identity(opcode) && f@ == protocol::frame_bytes(
                device,
                family,
                opcode,
                Seq::empty(),
            ),
            None => !asks_identity(opcode),
        },
{
    if !is_request_opcode(opcode) {
        return None;
    }
    let none: [u8; 0] = [];
    assert(none@ == Seq::<u8>::empty());
    Some(protocol::build_frame(device, family, opcode, none.as_slice()))
}

/// The bytes after the opcode that the length byte of an echo counts, as far as
/// the echo holds them.
pub open spec fn payload(report: Seq<u8>) -> Seq<u8> {
    let end = 6 + report[5];
    let stop = if end <= report.len() {
        end
    } else {
        report.len() as int
    };
    if stop <= 7 {
        Seq::empty()
    } else {
        report.subrange(7, stop)
    }
}

/// The payload of an echo.
pub fn reply_payload(report: &[u8]) -> (r: Vec<u8>)
    requires
        report.len() >= 7,
    ensures
        r@ == payload(report@),
{
    let length: usize = report[5] as usize;
    let end: usize = if length <= report.len() - 6 {
        6 + length
    } else {
        report.len()
    };
    let mut out: Vec<u8> = Vec::new();
    let mut i: usize = 7;
    while i < end
        invariant
            7 <= i,
            end <= report.len(),
            i == 7 || i <= end,
            out@ == report@.subrange(7, i as int),
            report.len() >= 7,
        decreases end - i,
    {
        out.push(report[i]);
        i += 1;
        assert(out@ == report@.subrange(7, i as int));
    }
    out
}

/// The payload of an echo of a frame is the frame's arguments.
pub proof fn law_payload_is_the_arguments(device: u8, family: u8, opcode: u8, args: Seq<u8>)
    requires
        args.len() <= 7,
    ensures
        payload(protocol::frame_bytes(device, family, opcode, args)) == args,
{
    protocol::law_frame_layout(device, family, opcode, args);
}

/// The offset that a frame carries in its three bytes for `offset`: what does not
/// fit in them is cut off.
pub open spec fn carried_offset(offset: u32) -> u32 {
    offset % 0x100_0000
}

/// What is answered to a write at `offset`: the guard is asked for the offset that
/// the frame carries, since that is the one that would be written.
pub open spec fn frame_verdict(offset: u32, allow_identity: bool) -> Result<(), WriteGuardError> {
    protocol::guard_verdict(carried_offset(offset), allow_identity)
}

/// What the guard says of an offset is what is answered to a write there, where a
/// frame carries the offset whole; and no offset that the guard refuses is let
/// pass.
pub proof fn law_frames_keep_the_guard(offset: u32, allow_identity: bool)
    ensures
        offset < 0x100_0000 ==> frame_verdict(offset, allow_identity) == protocol::guard_verdict(
            offset,
            allow_identity,
        ),
        protocol::guard_verdict(offset, allow_identity) is Err ==> frame_verdict(
            offset,
            allow_identity,
        ) == protocol::guard_verdict(offset, allow_identity),
{
}

/// The frame of a write of four bytes at `offset`, when the guard lets it pass:
/// the guard comes before anything is sent.
pub fn guarded_frame(
    device: u8,
    family: u8,
    offset: u32,
    data: [u8; 4],
    allow_identity: bool,
) -> (r: Result<Frame, WriteGuardError>)
    ensures
        match r {
            Ok(f) => frame_verdict(offset, allow_identity) is Ok && f@ == model::write_frame_of(
                device,
                family,
                offset,
                data@,
            ),
            Err(e) => frame_verdict(offset, allow_identity) == Err::<(), WriteGuardError>(e),
        },
{
    match protocol::guard_write(offset % 0x100_0000, allow_identity) {
        Err(e) => Err(e),
        Ok(()) => Ok(model::write_frame(device, family, offset, data)),
    }
}

/// A write frame that passed the guard never changes a byte of the identity: the
/// offset that the frame carries is that of a block without any.
pub proof fn law_no_frame_writes_identity(device: u8, family: u8, offset: u32, data: Seq<u8>, b: int)
    requires
        data.len() == 4,
        frame_verdict(offset, false) is Ok,
        ({
            let at = protocol::offset_from(
                model::write_frame_of(device, family, offset, data).subrange(7, 10),
            );
            at <= b < at + 4
        }),
    ensures
        !protocol::identity_byte(b),
        !protocol::forbidden_byte(b),
{
    let f = model::write_frame_of(device, family, offset, data);
    assert(f.subrange(7, 10) == protocol::offset_le(offset));
    protocol::law_offset_round_trip(offset);
    protocol::law_guard_protects(carried_offset(offset), false, b);
}

/// Every setting that the application offers is at an offset that the guard lets
/// pass.
pub proof fn law_settings_pass_the_guard(offset: u32)
    requires
        offset == model::Z_AXIS_MODE_OFFSET || offset == protocol::BASE_BACKLIGHT_OFFSET || offset
            == protocol::BASE_BREATHING_OFFSET || offset == protocol::BASE_DEADZONE_X_OFFSET
            || offset == protocol::BASE_DEADZONE_Y_OFFSET || offset
            == protocol::GRIP_DEADZONE_TWIST_OFFSET || offset == protocol::BASE_4X32_OFFSET
            || offset == protocol::RESTORE_DEFAULT_OFFSET,
    ensures
        protocol::guard_verdict(offset, false) is Ok,
        frame_verdict(offset, false) is Ok,
{
}

/// The frame that restarts a controller.
pub fn restart_frame(device: u8, family: u8) -> (r: Frame)
    ensures
        r@ == protocol::frame_bytes(device, family, protocol::OP_DEVICE_RESTART, Seq::empty()),
{
    let none: [u8; 0] = [];
    assert(none@ == Seq::<u8>::empty());
    protocol::build_frame(device, family, protocol::OP_DEVICE_RESTART, none.as_slice())
}

/// The frame that sets a light or the motor at once, without storing it.
pub fn led_frame(device: u8, family: u8, index: u8, value: u8) -> (r: Frame)
    ensures
        r@ == protocol::frame_bytes(device, family, protocol::OP_SET_LEDX, seq![index, value]),
{
    let args: [u8; 2] = [index, value];
    assert(args@ == seq![index, value]);
    protocol::build_frame(device, family, protocol::OP_SET_LEDX, args.as_slice())
}

/// The frame that starts the calibration of an axis.
pub fn start_calibration_frame(device: u8, family: u8, index: u8) -> (r: Frame)
    ensures
        r@ == protocol::frame_bytes(device, family, protocol::OP_CALIBRATION_START, seq![index]),
{
    let args: [u8; 1] = [index];
    assert(args@ == seq![index]);
    protocol::build_frame(device, family, protocol::OP_CALIBRATION_START, args.as_slice())
}

/// The frame that ends the calibration of an axis; the firmware then stores it.
pub fn finish_calibration_frame(device: u8, family: u8, index: u8) -> (r: Frame)
    ensures
        r@ == protocol::frame_bytes(device, family, protocol::OP_CALIBRATION_FINISH, seq![index]),
{
    let args: [u8; 1] = [index];
    assert(args@ == seq![index]);
    protocol::build_frame(device, family, protocol::OP_CALIBRATION_FINISH, args.as_slice())
}

/// What the frames of the single orders hold: the address, the opcode and, behind
/// it, what the order is about.
pub proof fn law_order_frames(device: u8, family: u8, offset: u32, a: u8, b: u8, f: Frame)
    ensures
        call_ensures(read_frame, (device, family, offset), f) ==> {
            &&& f@[0] == 2 && f@[1] == device && f@[2] == family && f@[5] == 4 && f@[6] == 5
            &&& f@[7] + 256 * f@[8] + 65536 * f@[9] == offset % 0x100_0000
        },
        call_ensures(restart_frame, (device, family), f) ==> f@[0] == 2 && f@[1] == device
            && f@[2] == family && f@[5] == 1 && f@[6] == 4,
        call_ensures(led_frame, (device, family, a, b), f) ==> f@[0] == 2 && f@[1] == device
            && f@[2] == family && f@[5] == 3 && f@[6] == 0x49 && f@[7] == a && f@[8] == b,
        call_ensures(start_calibration_frame, (device, family, a), f) ==> f@[0] == 2 && f@[1]
            == device && f@[2] == family && f@[5] == 2 && f@[6] == 0x47 && f@[7] == a,
        call_ensures(finish_calibration_frame, (device, family, a), f) ==> f@[0] == 2 && f@[1]
            == device && f@[2] == family && f@[5] == 2 && f@[6] == 0x48 && f@[7] == a,
        call_ensures(request_frame, (device, family, a), Some(f)) ==> f@[0] == 2 && f@[1] == device
            && f@[2] == family && f@[5] == 1 && f@[6] == a && (a == 1 || a == 2 || a == 3 || a
            == 0x18),
{
    protocol::law_offset_round_trip(offset);
}

/// A write frame holds the offset in three bytes, low byte first, and then the word.
pub proof fn law_write_frame_layout(device: u8, family: u8, offset: u32, data: Seq<u8>)
    requires
        data.len() == 4,
    ensures
        ({
            let f = model::write_frame_of(device, family, offset, data);
            &&& f.len() == 14
            &&& f[0] == 2 && f[1] == device && f[2] == family && f[5] == 8 && f[6] == 6
            &&& f[7] + 256 * f[8] + 65536 * f[9] == offset % 0x100_0000
            &&& f[10] == data[0] && f[11] == data[1] && f[12] == data[2] && f[13] == data[3]
        }),
{
    protocol::law_offset_round_trip(offset);
}

/// The word of an answer is its last four bytes, and the answer is for the offset
/// that its three bytes before them name.
pub proof fn law_answers_name_their_offset(report: Seq<u8>, offset: u32)
    ensures
        word_in_echo(report, offset) is Some <==> report.len() >= 14 && report[7] + 256 * report[8]
            + 65536 * report[9] == offset,
        word_in_echo(report, offset) matches Some(w) ==> w == seq![
            report[10],
            report[11],
            report[12],
            report[13],
        ],
{
    if report.len() >= 14 {
        let o = report.subrange(7, 10);
        assert(o[0] == report[7] && o[1] == report[8] && o[2] == report[9]);
        assert(report.subrange(10, 14) =~= seq![
            report[10],
            report[11],
            report[12],
            report[13],
        ]);
    }
}

/// A report is the echo of the opcode in its seventh byte and of no other; reports
/// of the joystick itself are none.
pub proof fn law_echoes(report: Seq<u8>, opcode: u8)
    ensures
        is_echo(report, opcode) ==> report.len() >= 7 && report[0] == 2 && report[6] == opcode,
        report.len() >= 7 && report[0] == 2 ==> is_echo(report, report[6]),
        asks_identity(opcode) <==> opcode == 1 || opcode == 2 || opcode == 3 || opcode == 0x18,
{
}

} // verus!
