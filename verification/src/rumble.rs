//! The structures by which the kernel drives the motor of a joystick.
//!
//! An effect is uploaded, gets a number from the kernel, and is started and stopped
//! by events that carry the number. Nothing is written to the flash.

use crate::livemon;
use crate::native;
use vstd::prelude::*;

verus! {

pub const EV_FF: u16 = 0x15;

pub const FF_RUMBLE: u16 = 0x50;

/// Size of the structure of an effect.
pub const FF_EFFECT_SIZE: usize = 48;

/// Uploads an effect.
pub const EVIOCSFF: u64 = 0x4030_4580;

/// Removes an effect by its number.
pub const EVIOCRMFF: u64 = 0x4004_4581;

/// The requests carry the letter, numbers and sizes of the kernel's interface.
pub proof fn law_effect_requests()
    ensures
        EVIOCSFF == livemon::ioc_of(1, livemon::IOC_E, 0x80, FF_EFFECT_SIZE as u64),
        EVIOCRMFF == livemon::ioc_of(1, livemon::IOC_E, 0x81, 4),
{
    livemon::law_ioc_fields(1, livemon::IOC_E, 0x80, 48);
    livemon::law_ioc_fields(1, livemon::IOC_E, 0x81, 4);
}

/// The number of an effect as the unsigned one with the same bits.
pub open spec fn id_bits(id: i16) -> u16 {
    if id < 0 {
        (id + 0x1_0000) as u16
    } else {
        id as u16
    }
}

fn unsigned_id(id: i16) -> (r: u16)
    ensures
        r == id_bits(id),
{
    if id < 0 {
        (id as i32 + 0x1_0000) as u16
    } else {
        id as u16
    }
}

/// The structure of a rumble: its kind, its number, its length and the strengths of
/// the two motors.
pub open spec fn rumble_bytes(
    strong: u16,
    weak: u16,
    length_ms: u16,
    effect_id: i16,
    little: bool,
) -> Seq<u8> {
    native::bytes16(FF_RUMBLE, little) + native::bytes16(id_bits(effect_id), little) + Seq::new(
        6,
        |i: int| 0u8,
    ) + native::bytes16(length_ms, little) + Seq::new(4, |i: int| 0u8) + native::bytes16(
        strong,
        little,
    ) + native::bytes16(weak, little) + Seq::new(28, |i: int| 0u8)
}

/// The structure of a rumble in the given byte order; -1 asks the kernel for a
/// number.
pub fn encode_rumble_effect(
    strong: u16,
    weak: u16,
    length_ms: u16,
    effect_id: i16,
    little: bool,
) -> (r: [u8; 48])
    ensures
        r@ == rumble_bytes(strong, weak, length_ms, effect_id, little),
{
    let kind: [u8; 2] = native::put16(FF_RUMBLE, little);
    let id: [u8; 2] = native::put16(unsigned_id(effect_id), little);
    let length: [u8; 2] = native::put16(length_ms, little);
    let first: [u8; 2] = native::put16(strong, little);
    let second: [u8; 2] = native::put16(weak, little);
    let mut b: [u8; 48] = [0u8;48];
    b[0] = kind[0];
    b[1] = kind[1];
    b[2] = id[0];
    b[3] = id[1];
    b[10] = length[0];
    b[11] = length[1];
    b[16] = first[0];
    b[17] = first[1];
    b[18] = second[0];
    b[19] = second[1];
    assert(b@ =~= rumble_bytes(strong, weak, length_ms, effect_id, little));
    b
}

/// The structure of a rumble for the kernel of this machine.
pub fn build_rumble_effect(strong: u16, weak: u16, length_ms: u16, effect_id: i16) -> (r: [u8; 48])
    ensures
        exists|little: bool|
            call_ensures(native::is_little, (), little) && r@ == #[trigger] rumble_bytes(
                strong,
                weak,
                length_ms,
                effect_id,
                little,
            ),
{
    let little: bool = native::is_little();
    encode_rumble_effect(strong, weak, length_ms, effect_id, little)
}

/// The number that an effect has in its structure.
pub fn effect_id(effect: &[u8; 48], little: bool) -> (r: i16)
    ensures
        id_bits(r) == native::number16(effect@.subrange(2, 4), little),
{
    assert(effect@.subrange(2, 4) == seq![effect@[2], effect@[3]]);
    let n: u16 = native::get16(effect[2], effect[3], little);
    if n < 0x8000 {
        n as i16
    } else {
        (n as i32 - 0x1_0000) as i16
    }
}

/// The number that was put into the structure is read from it.
pub proof fn law_effect_id_round_trip(
    strong: u16,
    weak: u16,
    length_ms: u16,
    effect_id: i16,
    other: i16,
    little: bool,
)
    ensures
        native::number16(
            rumble_bytes(strong, weak, length_ms, effect_id, little).subrange(2, 4),
            little,
        ) == id_bits(effect_id),
        id_bits(effect_id) == id_bits(other) ==> effect_id == other,
{
    assert(rumble_bytes(strong, weak, length_ms, effect_id, little).subrange(2, 4)
        == native::bytes16(id_bits(effect_id), little));
    native::law_bytes_round_trip(id_bits(effect_id), 0, 0, little);
}

/// The event that starts or stops an effect.
pub fn play_event(effect_id: i16, on: bool, little: bool) -> (r: Vec<u8>)
    ensures
        r@ == livemon::event_bytes(
            EV_FF,
            id_bits(effect_id),
            if on {
                1
            } else {
                0
            },
            little,
        ),
{
    let value: i32 = if on {
        1
    } else {
        0
    };
    livemon::encode_event(EV_FF, unsigned_id(effect_id), value, little)
}

/// The structure of a rumble holds its kind, its length and the strengths of the
/// strong and of the weak motor each at its own place, and zeros elsewhere.
pub proof fn law_rumble_layout(
    strong: u16,
    weak: u16,
    length_ms: u16,
    effect_id: i16,
    little: bool,
    i: int,
)
    requires
        0 <= i < 48,
    ensures
        ({
            let b = rumble_bytes(strong, weak, length_ms, effect_id, little);
            &&& b.len() == 48
            &&& b.subrange(0, 2) == native::bytes16(0x50, little)
            &&& b.subrange(10, 12) == native::bytes16(length_ms, little)
            &&& b.subrange(16, 18) == native::bytes16(strong, little)
            &&& b.subrange(18, 20) == native::bytes16(weak, little)
            &&& 4 <= i < 10 || 12 <= i < 16 || 20 <= i ==> b[i] == 0
        }),
{
    let b = rumble_bytes(strong, weak, length_ms, effect_id, little);
    assert(b.len() == 48);
    assert(b.subrange(0, 2) =~= native::bytes16(0x50, little));
    assert(b.subrange(10, 12) =~= native::bytes16(length_ms, little));
    assert(b.subrange(16, 18) =~= native::bytes16(strong, little));
    assert(b.subrange(18, 20) =~= native::bytes16(weak, little));
}

/// The event of an effect is read as one of the motor with the number of the effect:
/// one starts it, zero stops it.
pub proof fn law_play_event_is_read(effect_id: i16, on: bool, little: bool, r: Vec<u8>)
    requires
        call_ensures(play_event, (effect_id, on, little), r),
    ensures
        livemon::events_in(r@, little) == seq![
            (
                0x15u16,
                id_bits(effect_id),
                if on {
                    1i32
                } else {
                    0i32
                },
            ),
        ],
{
    livemon::law_event_round_trip(
        0x15,
        id_bits(effect_id),
        if on {
            1i32
        } else {
            0i32
        },
        little,
    );
}

} // verus!
