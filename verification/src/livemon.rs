//! The live state of the joystick, from the events of its input node.
//!
//! The caller opens the node, asks for its capabilities and reads its events; here
//! stand the numbers of the requests, the meaning of the answers and the effect of
//! the events.

use crate::native;
use crate::text;
use std::collections::HashSet;
use vstd::prelude::*;

verus! {

/// Size of an event: time (16), type (2), code (2), value (4).
pub const EV_SIZE: usize = 24;

pub const EV_SYN: u16 = 0x00;

pub const EV_KEY: u16 = 0x01;

pub const EV_ABS: u16 = 0x03;

pub const ABS_X: u16 = 0x00;

pub const ABS_Y: u16 = 0x01;

pub const ABS_Z: u16 = 0x02;

pub const ABS_RX: u16 = 0x03;

pub const ABS_RY: u16 = 0x04;

pub const ABS_RZ: u16 = 0x05;

pub const ABS_THROTTLE: u16 = 0x06;

pub const ABS_HAT0X: u16 = 0x10;

pub const ABS_HAT0Y: u16 = 0x11;

pub const ABS_MAX: u16 = 0x3F;

/// First button of a joystick.
pub const BTN_JOYSTICK: u16 = 0x120;

/// Buttons that exist: those that are declared beyond them are never pressed.
pub const MAX_REAL_BUTTONS: usize = 51;

/// Last code of a key or a button.
pub const KEY_MAX: u16 = 0x2FF;

/// Name, description and whether the axis rests at its center.
pub open spec fn known_axis(code: u16) -> Option<(&'static str, &'static str, bool)> {
    if code == ABS_X {
        Some(("X", "roll", true))
    } else if code == ABS_Y {
        Some(("Y", "pitch", true))
    } else if code == ABS_Z {
        Some(("Z", "yaw", true))
    } else if code == ABS_RX {
        Some(("Rx", "mini-stick", false))
    } else if code == ABS_RY {
        Some(("Ry", "mini-stick", false))
    } else if code == ABS_RZ {
        Some(("Rz", "yaw", true))
    } else if code == ABS_THROTTLE {
        Some(("Slider", "throttle", false))
    } else if code == ABS_HAT0X {
        Some(("Hat", "cross (X)", false))
    } else if code == ABS_HAT0Y {
        Some(("Hat", "cross (Y)", false))
    } else {
        None
    }
}

/// The label of an axis: an unknown one is named by its code and has no
/// description.
pub open spec fn label_of(code: u16) -> (Seq<char>, &'static str, bool) {
    match known_axis(code) {
        Some(k) => (k.0@, k.1, k.2),
        None => ("ABS_"@ + text::hex_fill(code as nat, 2), "", false),
    }
}

/// Label of an axis: short name, description, and whether it rests at its center.
pub fn abs_label(code: u16) -> (r: (String, &'static str, bool))
    ensures
        (r.0@, r.1, r.2) == label_of(code),
{
    let (name, desc, centered): (&'static str, &'static str, bool) = if code == ABS_X {
        ("X", "roll", true)
    } else if code == ABS_Y {
        ("Y", "pitch", true)
    } else if code == ABS_Z {
        ("Z", "yaw", true)
    } else if code == ABS_RX {
        ("Rx", "mini-stick", false)
    } else if code == ABS_RY {
        ("Ry", "mini-stick", false)
    } else if code == ABS_RZ {
        ("Rz", "yaw", true)
    } else if code == ABS_THROTTLE {
        ("Slider", "throttle", false)
    } else if code == ABS_HAT0X {
        ("Hat", "cross (X)", false)
    } else if code == ABS_HAT0Y {
        ("Hat", "cross (Y)", false)
    } else {
        let mut out: String = "ABS_".to_string();
        out.append(text::hex_text(code as u64, 2).as_str());
        return (out, "", false);
    };
    (name.to_string(), desc, centered)
}

// --- Numbers of the requests -------------------------------------------------------------

/// The number of a request to the kernel: direction, size, type, number.
pub open spec fn ioc_of(dir: u64, typ: u64, nr: u64, size: u64) -> u64 {
    (dir << 30) | (size << 16) | (typ << 8) | nr
}

/// The number of a request to the kernel.
pub fn ioc(dir: u64, typ: u64, nr: u64, size: u64) -> (r: u64)
    ensures
        r == ioc_of(dir, typ, nr, size),
{
    (dir << 30) | (size << 16) | (typ << 8) | nr
}

/// Each part of a request that fits its field has its own bits.
pub proof fn law_ioc_fields(dir: u64, typ: u64, nr: u64, size: u64)
    requires
        dir < 4,
        size < 0x4000,
        typ < 0x100,
        nr < 0x100,
    ensures
        ioc_of(dir, typ, nr, size) == dir * 0x4000_0000 + size * 0x1_0000 + typ * 0x100 + nr,
{
    assert((dir << 30) | (size << 16) | (typ << 8) | nr == dir * 0x4000_0000 + size * 0x1_0000 + typ
        * 0x100 + nr) by (bit_vector)
        requires
            dir < 4,
            size < 0x4000,
            typ < 0x100,
            nr < 0x100,
    ;
}

pub const IOC_READ: u64 = 2;

/// The type of the requests on an input node: the letter E.
pub const IOC_E: u64 = 0x45;

/// The request for the codes of an event type.
pub fn eviocgbit(ev: u16, len: u64) -> (r: u64)
    ensures
        r == ioc_of(IOC_READ, IOC_E, (0x20 + ev) as u64, len),
{
    ioc(IOC_READ, IOC_E, 0x20 + ev as u64, len)
}

/// The request for the range of an axis.
pub fn eviocgabs(abs: u16) -> (r: u64)
    ensures
        r == ioc_of(IOC_READ, IOC_E, (0x40 + abs) as u64, 24),
{
    ioc(IOC_READ, IOC_E, 0x40 + abs as u64, 24)
}

/// The request for the name of the device.
pub fn eviocgname(len: u64) -> (r: u64)
    ensures
        r == ioc_of(IOC_READ, IOC_E, 0x06, len),
{
    ioc(IOC_READ, IOC_E, 0x06, len)
}

// --- Events ---------------------------------------------------------------------------------

/// The event that the bytes from `at` on hold.
pub open spec fn event_at(buf: Seq<u8>, at: int, little: bool) -> (u16, u16, i32) {
    (
        native::number16(buf.subrange(at + 16, at + 18), little),
        native::number16(buf.subrange(at + 18, at + 20), little),
        native::number_signed(buf.subrange(at + 20, at + 24), little),
    )
}

/// The events that bytes hold; a part of an event at the end is left out.
pub open spec fn events_in(buf: Seq<u8>, little: bool) -> Seq<(u16, u16, i32)> {
    Seq::new(buf.len() / 24, |i: int| event_at(buf, 24 * i, little))
}

/// Decodes events in the given byte order.
pub fn decode_events(buf: &[u8], little: bool) -> (r: Vec<(u16, u16, i32)>)
    ensures
        r@ == events_in(buf@, little),
{
    let mut out: Vec<(u16, u16, i32)> = Vec::new();
    let mut i: usize = 0;
    while buf.len() - i >= EV_SIZE
        invariant
            i <= buf.len(),
            i == 24 * out.len(),
            out@ == events_in(buf@, little).take(out.len() as int),
            out.len() <= buf.len() / 24,
        decreases buf.len() - i,
    {
        let kind: u16 = native::get16(buf[i + 16], buf[i + 17], little);
        let code: u16 = native::get16(buf[i + 18], buf[i + 19], little);
        let value: i32 = native::get_signed(
            buf[i + 20],
            buf[i + 21],
            buf[i + 22],
            buf[i + 23],
            little,
        );
        proof {
            let k = out.len() as int;
            assert(buf@.subrange(i + 16, i + 18) == seq![buf@[i + 16], buf@[i + 17]]);
            assert(buf@.subrange(i + 18, i + 20) == seq![buf@[i + 18], buf@[i + 19]]);
            assert(buf@.subrange(i + 20, i + 24) == seq![
                buf@[i + 20],
                buf@[i + 21],
                buf@[i + 22],
                buf@[i + 23],
            ]);
            assert((kind, code, value) == event_at(buf@, 24 * k, little));
        }
        out.push((kind, code, value));
        i += EV_SIZE;
        assert(out@ == events_in(buf@, little).take(out.len() as int));
    }
    assert(out.len() == buf.len() / 24);
    out
}

/// Decodes the events of this machine.
pub fn parse_events(buf: &[u8]) -> (r: Vec<(u16, u16, i32)>)
    ensures
        exists|little: bool|
            call_ensures(native::is_little, (), little) && r@ == #[trigger] events_in(buf@, little),
{
    let little: bool = native::is_little();
    decode_events(buf, little)
}

/// The bytes of an event, with a time of zero.
pub open spec fn event_bytes(kind: u16, code: u16, value: i32, little: bool) -> Seq<u8> {
    Seq::new(16, |i: int| 0u8) + native::bytes16(kind, little) + native::bytes16(code, little)
        + native::bytes_signed(value, little)
}

/// The bytes of an event in the given byte order.
pub fn encode_event(kind: u16, code: u16, value: i32, little: bool) -> (r: Vec<u8>)
    ensures
        r@ == event_bytes(kind, code, value, little),
{
    let mut out: Vec<u8> = Vec::new();
    let mut i: usize = 0;
    while i < 16
        invariant
            i <= 16,
            out@ == Seq::new(i as nat, |j: int| 0u8),
        decreases 16 - i,
    {
        out.push(0);
        i += 1;
        assert(out@ == Seq::new(i as nat, |j: int| 0u8));
    }
    out.extend_from_slice(native::put16(kind, little).as_slice());
    out.extend_from_slice(native::put16(code, little).as_slice());
    out.extend_from_slice(native::put_signed(value, little).as_slice());
    out
}

/// An event is decoded as it was encoded.
pub proof fn law_event_round_trip(kind: u16, code: u16, value: i32, little: bool)
    ensures
        events_in(event_bytes(kind, code, value, little), little) == seq![(kind, code, value)],
{
    let b = event_bytes(kind, code, value, little);
    assert(b.len() == 24);
    assert(b.subrange(16, 18) == native::bytes16(kind, little));
    assert(b.subrange(18, 20) == native::bytes16(code, little));
    assert(b.subrange(20, 24) == native::bytes_signed(value, little));
    native::law_bytes_round_trip(kind, 0, value, little);
    native::law_bytes_round_trip(code, 0, value, little);
    assert(events_in(b, little) == seq![(kind, code, value)]);
}

// --- State ------------------------------------------------------------------------------------

/// State of an axis.
#[derive(Debug, Clone)]
pub struct AxisState {
    pub code: u16,
    /// Short name.
    pub name: String,
    /// Description, empty for an unknown axis.
    pub desc: &'static str,
    pub minimum: i32,
    pub maximum: i32,
    pub value: i32,
    /// The axis rests at its center.
    pub centered: bool,
}

/// State of an axis as its plain values.
#[verifier::ext_equal]
pub struct Axis {
    pub code: u16,
    pub name: Seq<char>,
    pub desc: &'static str,
    pub minimum: i32,
    pub maximum: i32,
    pub value: i32,
    pub centered: bool,
}

impl View for AxisState {
    type V = Axis;

    open spec fn view(&self) -> Axis {
        Axis {
            code: self.code,
            name: self.name@,
            desc: self.desc,
            minimum: self.minimum,
            maximum: self.maximum,
            value: self.value,
            centered: self.centered,
        }
    }
}

impl AxisState {
    /// Length of the range.
    pub fn span(&self) -> (r: i32)
        requires
            i32::MIN <= self.maximum - self.minimum <= i32::MAX,
        ensures
            r == self.maximum - self.minimum,
    {
        self.maximum - self.minimum
    }

    /// Value and maximum, as they are shown.
    pub fn display(&self) -> (r: String)
        ensures
            r@ == text::signed(self.value as int) + " / "@ + text::signed(self.maximum as int),
    {
        let mut out: String = text::signed_text(self.value as i64);
        out.append(" / ");
        out.append(text::signed_text(self.maximum as i64).as_str());
        out
    }
}

/// The axis of a code, with what the kernel says of its range: value, minimum and
/// maximum, or 0, 0 and 65535 when it says nothing.
pub open spec fn axis_of(code: u16, info: Option<Seq<u8>>, little: bool) -> Axis {
    let label = label_of(code);
    Axis {
        code,
        name: label.0,
        desc: label.1,
        minimum: match info {
            Some(b) => native::number_signed(b.subrange(4, 8), little),
            None => 0,
        },
        maximum: match info {
            Some(b) => native::number_signed(b.subrange(8, 12), little),
            None => 65535,
        },
        value: match info {
            Some(b) => native::number_signed(b.subrange(0, 4), little),
            None => 0,
        },
        centered: label.2,
    }
}

/// The axis of a code, with the answer of the kernel about its range.
pub fn decode_axis(code: u16, info: Option<[u8; 24]>, little: bool) -> (r: AxisState)
    ensures
        r@ == axis_of(
            code,
            match info {
                Some(b) => Some(b@),
                None => None,
            },
            little,
        ),
{
    let (name, desc, centered): (String, &'static str, bool) = abs_label(code);
    let (value, minimum, maximum): (i32, i32, i32) = match info {
        Some(b) => {
            proof {
                assert(b@.subrange(0, 4) == seq![b@[0], b@[1], b@[2], b@[3]]);
                assert(b@.subrange(4, 8) == seq![b@[4], b@[5], b@[6], b@[7]]);
                assert(b@.subrange(8, 12) == seq![b@[8], b@[9], b@[10], b@[11]]);
            }
            (
                native::get_signed(b[0], b[1], b[2], b[3], little),
                native::get_signed(b[4], b[5], b[6], b[7], little),
                native::get_signed(b[8], b[9], b[10], b[11], little),
            )
        },
        None => (0, 0, 65535),
    };
    AxisState { code, name, desc, minimum, maximum, value, centered }
}

/// The bit of a code is set.
pub open spec fn has_code(bits: Seq<u8>, code: int) -> bool {
    (bits[code / 8] >> ((code % 8) as u8)) & 1 == 1
}

/// The codes below `limit` whose bits are set, in ascending order.
pub open spec fn codes_in(bits: Seq<u8>, limit: nat) -> Seq<u16>
    decreases limit,
{
    if limit == 0 {
        Seq::empty()
    } else {
        let before = codes_in(bits, (limit - 1) as nat);
        if has_code(bits, limit - 1) {
            before.push((limit - 1) as u16)
        } else {
            before
        }
    }
}

/// The first codes of a sequence, at most `max` of them.
pub open spec fn first_codes(codes: Seq<u16>, max: nat) -> Seq<u16> {
    if codes.len() <= max {
        codes
    } else {
        codes.take(max as int)
    }
}

proof fn lemma_codes_prefix(bits: Seq<u8>, a: nat, b: nat)
    requires
        a <= b,
    ensures
        codes_in(bits, a).len() <= codes_in(bits, b).len(),
        codes_in(bits, b).take(codes_in(bits, a).len() as int) == codes_in(bits, a),
    decreases b,
{
    let x = codes_in(bits, a);
    if a == b {
        assert(x.take(x.len() as int) == x);
    } else {
        lemma_codes_prefix(bits, a, (b - 1) as nat);
        let y = codes_in(bits, (b - 1) as nat);
        let z = codes_in(bits, b);
        assert(z.take(x.len() as int) == y.take(x.len() as int));
    }
}

fn read_codes(bits: &[u8], limit: u16, max: usize) -> (r: Vec<u16>)
    requires
        8 * bits.len() >= limit,
        max >= 1,
    ensures
        r@ == first_codes(codes_in(bits@, limit as nat), max as nat),
{
    let mut out: Vec<u16> = Vec::new();
    let mut code: u16 = 0;
    while code < limit
        invariant
            code <= limit,
            8 * bits.len() >= limit,
            max >= 1,
            out.len() < max,
            out@ == codes_in(bits@, code as nat),
        decreases limit - code,
    {
        let byte: u8 = bits[(code / 8) as usize];
        if (byte >> ((code % 8) as u8)) & 1 == 1 {
            out.push(code);
            if out.len() >= max {
                proof {
                    lemma_codes_prefix(bits@, (code + 1) as nat, limit as nat);
                }
                return out;
            }
        }
        code += 1;
    }
    out
}

/// The axes that a bitmap of codes declares.
pub fn axis_codes(bits: &[u8]) -> (r: Vec<u16>)
    requires
        8 * bits.len() >= ABS_MAX,
    ensures
        r@ == codes_in(bits@, ABS_MAX as nat),
{
    proof {
        lemma_codes_len(bits@, ABS_MAX as nat);
    }
    read_codes(bits, ABS_MAX, 64)
}

proof fn lemma_codes_len(bits: Seq<u8>, limit: nat)
    ensures
        codes_in(bits, limit).len() <= limit,
    decreases limit,
{
    if limit > 0 {
        lemma_codes_len(bits, (limit - 1) as nat);
    }
}

/// The buttons that a bitmap of codes declares, without those beyond the real ones.
pub fn button_codes(bits: &[u8]) -> (r: Vec<u16>)
    requires
        8 * bits.len() >= KEY_MAX,
    ensures
        r@ == first_codes(codes_in(bits@, KEY_MAX as nat), MAX_REAL_BUTTONS as nat),
{
    read_codes(bits, KEY_MAX, MAX_REAL_BUTTONS)
}

/// The codes of a bitmap are distinct and ascending.
pub proof fn law_codes_ascend(bits: Seq<u8>, limit: nat, i: int, j: int)
    requires
        limit <= 0x1_0000,
        0 <= i < j < codes_in(bits, limit).len(),
    ensures
        codes_in(bits, limit)[i] < codes_in(bits, limit)[j] < limit,
    decreases limit,
{
    let before = codes_in(bits, (limit - 1) as nat);
    if j < before.len() {
        law_codes_ascend(bits, (limit - 1) as nat, i, j);
    } else {
        lemma_codes_below(bits, (limit - 1) as nat, i);
    }
}

proof fn lemma_codes_below(bits: Seq<u8>, limit: nat, i: int)
    requires
        limit <= 0x1_0000,
        0 <= i < codes_in(bits, limit).len(),
    ensures
        codes_in(bits, limit)[i] < limit,
    decreases limit,
{
    let before = codes_in(bits, (limit - 1) as nat);
    if i < before.len() {
        lemma_codes_below(bits, (limit - 1) as nat, i);
    }
}

/// The live state of a joystick.
#[derive(Debug)]
pub struct LiveState {
    /// The axes, each code once.
    pub axes: Vec<AxisState>,
    /// The codes of the buttons, in the order in which they are counted.
    pub buttons: Vec<u16>,
    /// The codes that are pressed.
    pub pressed: HashSet<u16>,
}

/// The live state as its plain values.
#[verifier::ext_equal]
pub struct Live {
    pub axes: Seq<Axis>,
    pub buttons: Seq<u16>,
    pub pressed: Set<u16>,
}

/// The axes as their plain values.
pub open spec fn axis_views(axes: Seq<AxisState>) -> Seq<Axis> {
    Seq::new(axes.len(), |i: int| axes[i]@)
}

impl View for LiveState {
    type V = Live;

    open spec fn view(&self) -> Live {
        Live {
            axes: axis_views(self.axes@),
            buttons: self.buttons@,
            pressed: self.pressed@,
        }
    }
}

impl Default for LiveState {
    fn default() -> (r: Self)
        ensures
            r@ == (Live { axes: Seq::empty(), buttons: Seq::empty(), pressed: Set::empty() }),
    {
        let r: LiveState = LiveState {
            axes: Vec::new(),
            buttons: Vec::new(),
            pressed: HashSet::new(),
        };
        assert(r@ =~~= (Live {
            axes: Seq::empty(),
            buttons: Seq::empty(),
            pressed: Set::empty(),
        }));
        r
    }
}

/// The number of a button, counted from one; -1 when the code is no button.
pub open spec fn ordinal_of(buttons: Seq<u16>, code: u16) -> int
    decreases buttons.len(),
{
    if buttons.len() == 0 {
        -1
    } else if buttons[0] == code {
        1
    } else {
        let n = ordinal_of(buttons.skip(1), code);
        if n < 0 {
            -1
        } else {
            n + 1
        }
    }
}

/// The last axis with a code.
pub open spec fn axis_with(axes: Seq<Axis>, code: u16) -> Option<int>
    decreases axes.len(),
{
    if axes.len() == 0 {
        None
    } else if axes.last().code == code {
        Some(axes.len() - 1)
    } else {
        axis_with(axes.drop_last(), code)
    }
}

/// The state after an event: a known axis has the value; a key is pressed or
/// released; other events change nothing.
pub open spec fn after_event(s: Live, e: (u16, u16, i32)) -> Live {
    if e.0 == EV_ABS {
        match axis_with(s.axes, e.1) {
            Some(i) => Live {
                axes: s.axes.update(i, Axis { value: e.2, ..s.axes[i] }),
                ..s
            },
            None => s,
        }
    } else if e.0 == EV_KEY {
        if e.2 != 0 {
            Live { pressed: s.pressed.insert(e.1), ..s }
        } else {
            Live { pressed: s.pressed.remove(e.1), ..s }
        }
    } else {
        s
    }
}

/// The event is one that the state reacts to.
pub open spec fn concerns(s: Live, e: (u16, u16, i32)) -> bool {
    e.0 == EV_KEY || (e.0 == EV_ABS && axis_with(s.axes, e.1) is Some)
}

/// The state after events, one after the other.
pub open spec fn after_events(s: Live, events: Seq<(u16, u16, i32)>) -> Live
    decreases events.len(),
{
    if events.len() == 0 {
        s
    } else {
        after_event(after_events(s, events.drop_last()), events.last())
    }
}

proof fn lemma_axis_with(axes: Seq<Axis>, code: u16)
    ensures
        match axis_with(axes, code) {
            Some(i) => 0 <= i < axes.len() && axes[i].code == code,
            None => true,
        },
    decreases axes.len(),
{
    if axes.len() > 0 && axes.last().code != code {
        lemma_axis_with(axes.drop_last(), code);
    }
}

/// The value of the last event of a kind with a code.
pub open spec fn last_sent(events: Seq<(u16, u16, i32)>, kind: u16, code: u16) -> Option<i32>
    decreases events.len(),
{
    if events.len() == 0 {
        None
    } else if events.last().0 == kind && events.last().1 == code {
        Some(events.last().2)
    } else {
        last_sent(events.drop_last(), kind, code)
    }
}

proof fn lemma_axis_with_same_codes(a: Seq<Axis>, b: Seq<Axis>, code: u16)
    requires
        a.len() == b.len(),
        forall|i: int| 0 <= i < a.len() ==> (#[trigger] a[i]).code == b[i].code,
    ensures
        axis_with(a, code) == axis_with(b, code),
    decreases a.len(),
{
    if a.len() > 0 {
        assert(a[a.len() - 1].code == b[b.len() - 1].code);
        let (x, y) = (a.drop_last(), b.drop_last());
        assert forall|i: int| 0 <= i < x.len() implies (#[trigger] x[i]).code == y[i].code by {
            assert(a[i].code == b[i].code);
        }
        lemma_axis_with_same_codes(x, y, code);
    }
}

/// After events the last one of each counts: a known axis has the value of its last
/// event, a code is pressed when its last event pressed it, and what had no event is
/// as it was. The buttons, and all of the axes but their values, stay.
pub proof fn law_last_event_counts(s: Live, events: Seq<(u16, u16, i32)>, code: u16)
    ensures
        ({
            let e = after_events(s, events);
            &&& e.buttons == s.buttons
            &&& e.axes.len() == s.axes.len()
            &&& forall|i: int|
                0 <= i < s.axes.len() ==> (#[trigger] e.axes[i]) == (Axis {
                    value: e.axes[i].value,
                    ..s.axes[i]
                })
            &&& axis_with(e.axes, code) == axis_with(s.axes, code)
            &&& axis_with(s.axes, code) matches Some(i) ==> e.axes[i].value == match last_sent(
                events,
                EV_ABS,
                code,
            ) {
                Some(v) => v,
                None => s.axes[i].value,
            }
            &&& e.pressed.contains(code) == match last_sent(events, EV_KEY, code) {
                Some(v) => v != 0,
                None => s.pressed.contains(code),
            }
        }),
    decreases events.len(),
{
    lemma_axis_with(s.axes, code);
    if events.len() > 0 {
        let rest = events.drop_last();
        let last = events.last();
        law_last_event_counts(s, rest, code);
        let m = after_events(s, rest);
        let e = after_events(s, events);
        lemma_axis_with(m.axes, code);
        lemma_axis_with(m.axes, last.1);
        assert forall|i: int| 0 <= i < m.axes.len() implies (#[trigger] e.axes[i]).code
            == m.axes[i].code by {}
        lemma_axis_with_same_codes(e.axes, m.axes, code);
        assert forall|i: int| 0 <= i < s.axes.len() implies (#[trigger] e.axes[i]) == (Axis {
            value: e.axes[i].value,
            ..s.axes[i]
        }) by {
            assert(m.axes[i] == (Axis { value: m.axes[i].value, ..s.axes[i] }));
        }
    }
}

impl LiveState {
    /// Number of a button, counted from one, or -1 when the code is no button.
    pub fn button_index(&self, code: u16) -> (r: i32)
        requires
            self.buttons.len() < i32::MAX,
        ensures
            r == ordinal_of(self.buttons@, code),
    {
        let mut i: usize = 0;
        assert(self.buttons@.skip(0) == self.buttons@);
        while i < self.buttons.len()
            invariant
                i <= self.buttons.len(),
                self.buttons.len() < i32::MAX,
                ordinal_of(self.buttons@, code) == {
                    let n = ordinal_of(self.buttons@.skip(i as int), code);
                    if n < 0 {
                        -1
                    } else {
                        n + i
                    }
                },
            decreases self.buttons.len() - i,
        {
            assert(self.buttons@.skip(i as int)[0] == self.buttons[i as int]);
            assert(self.buttons@.skip(i as int).skip(1) == self.buttons@.skip(i + 1));
            if self.buttons[i] == code {
                return i as i32 + 1;
            }
            i += 1;
        }
        -1
    }

    fn axis_position(&self, code: u16) -> (r: Option<usize>)
        ensures
            match r {
                Some(i) => axis_with(self@.axes, code) == Some(i as int),
                None => axis_with(self@.axes, code) is None,
            },
    {
        let ghost all = self@.axes;
        let mut i: usize = self.axes.len();
        assert(all.take(i as int) == all);
        while i > 0
            invariant
                i <= self.axes.len(),
                all == axis_views(self.axes@),
                axis_with(all, code) == axis_with(all.take(i as int), code),
            decreases i,
        {
            assert(all.take(i as int).last() == self.axes[i - 1]@);
            assert(all.take(i as int).drop_last() == all.take(i - 1));
            if self.axes[i - 1].code == code {
                return Some(i - 1);
            }
            i -= 1;
        }
        None
    }

    /// Takes in one event; says whether it is one that the state reacts to.
    pub fn apply_event(&mut self, kind: u16, code: u16, value: i32) -> (r: bool)
        ensures
            final(self)@ == after_event(old(self)@, (kind, code, value)),
            r == concerns(old(self)@, (kind, code, value)),
    {
        let ghost before = self@;
        if kind == EV_ABS {
            match self.axis_position(code) {
                Some(i) => {
                    proof {
                        lemma_axis_with(before.axes, code);
                    }
                    self.axes[i].value = value;
                    assert(axis_views(self.axes@) =~= before.axes.update(
                        i as int,
                        Axis { value, ..before.axes[i as int] },
                    ));
                    assert(self@ =~~= after_event(before, (kind, code, value)));
                    true
                },
                None => false,
            }
        } else if kind == EV_KEY {
            if value != 0 {
                self.pressed.insert(code);
            } else {
                self.pressed.remove(&code);
            }
            assert(self@ =~~= after_event(before, (kind, code, value)));
            true
        } else {
            false
        }
    }

    /// Takes in the events that were read; says whether there was one.
    pub fn apply_events(&mut self, events: &Vec<(u16, u16, i32)>) -> (r: bool)
        ensures
            final(self)@ == after_events(old(self)@, events@),
            r == (events@.len() > 0),
    {
        let ghost start = self@;
        let mut i: usize = 0;
        while i < events.len()
            invariant
                i <= events.len(),
                start == old(self)@,
                self@ == after_events(start, events@.take(i as int)),
            decreases events.len() - i,
        {
            assert(events@.take(i + 1).drop_last() == events@.take(i as int));
            assert(events@.take(i + 1).last() == events@[i as int]);
            let e: (u16, u16, i32) = events[i];
            self.apply_event(e.0, e.1, e.2);
            i += 1;
        }
        assert(events@.take(i as int) == events@);
        events.len() > 0
    }

    /// The first button, in the order in which they are counted, that is pressed and
    /// was not in `baseline`, with its number.
    pub fn first_new_press(&self, baseline: &HashSet<u16>) -> (r: Option<(u32, u16)>)
        requires
            self.buttons.len() < i32::MAX,
        ensures
            match r {
                Some(p) => {
                    &&& self.pressed@.contains(p.1) && !baseline@.contains(p.1)
                    &&& ordinal_of(self.buttons@, p.1) == p.0
                    &&& forall|c: u16|
                        self.pressed@.contains(c) && !baseline@.contains(c) && ordinal_of(
                            self.buttons@,
                            c,
                        ) >= 1 ==> p.0 <= #[trigger] ordinal_of(self.buttons@, c)
                },
                None => forall|c: u16|
                    self.pressed@.contains(c) && !baseline@.contains(c) ==> #[trigger] ordinal_of(
                        self.buttons@,
                        c,
                    ) == -1,
            },
    {
        let mut i: usize = 0;
        while i < self.buttons.len()
            invariant
                i <= self.buttons.len(),
                self.buttons.len() < i32::MAX,
                forall|j: int|
                    0 <= j < i ==> !(self.pressed@.contains(#[trigger] self.buttons[j])
                        && !baseline@.contains(self.buttons[j])),
            decreases self.buttons.len() - i,
        {
            let code: u16 = self.buttons[i];
            if self.pressed.contains(&code) && !baseline.contains(&code) {
                proof {
                    assert forall|c: u16|
                        self.pressed@.contains(c) && !baseline@.contains(c) && ordinal_of(
                            self.buttons@,
                            c,
                        ) >= 1 implies i + 1 <= #[trigger] ordinal_of(self.buttons@, c) by {
                        lemma_ordinal(self.buttons@, c);
                        let n = ordinal_of(self.buttons@, c);
                        assert(self.buttons[n - 1] == c);
                    }
                    lemma_ordinal(self.buttons@, code);
                    lemma_ordinal_at(self.buttons@, i as int);
                    let n = ordinal_of(self.buttons@, code);
                    assert(self.buttons[n - 1] == code);
                }
                return Some((i as u32 + 1, code));
            }
            i += 1;
        }
        proof {
            assert forall|c: u16|
                self.pressed@.contains(c) && !baseline@.contains(c) implies #[trigger] ordinal_of(
                self.buttons@,
                c,
            ) == -1 by {
                lemma_ordinal(self.buttons@, c);
                let n = ordinal_of(self.buttons@, c);
                if n != -1 {
                    assert(self.buttons[n - 1] == c);
                }
            }
        }
        None
    }
}

proof fn lemma_ordinal(buttons: Seq<u16>, code: u16)
    ensures
        ordinal_of(buttons, code) == -1 || (1 <= ordinal_of(buttons, code) <= buttons.len()
            && buttons[ordinal_of(buttons, code) - 1] == code),
    decreases buttons.len(),
{
    if buttons.len() > 0 && buttons[0] != code {
        lemma_ordinal(buttons.skip(1), code);
        let n = ordinal_of(buttons.skip(1), code);
        if n != -1 {
            assert(buttons.skip(1)[n - 1] == buttons[n]);
        }
    }
}

proof fn lemma_ordinal_at(buttons: Seq<u16>, i: int)
    requires
        0 <= i < buttons.len(),
    ensures
        1 <= ordinal_of(buttons, buttons[i]) <= i + 1,
    decreases buttons.len(),
{
    if i > 0 && buttons[0] != buttons[i] {
        lemma_ordinal_at(buttons.skip(1), i - 1);
        assert(buttons.skip(1)[i - 1] == buttons[i]);
    }
}

/// Every event stands in 24 bytes, behind its time: the kind, the code and the
/// value, in this order.
pub proof fn law_events_stand_in_order(buf: Seq<u8>, i: int, little: bool)
    requires
        0 <= i < buf.len() / 24,
    ensures
        events_in(buf, little).len() == buf.len() / 24,
        events_in(buf, little)[i].0 == native::number16(
            seq![buf[24 * i + 16], buf[24 * i + 17]],
            little,
        ),
        events_in(buf, little)[i].1 == native::number16(
            seq![buf[24 * i + 18], buf[24 * i + 19]],
            little,
        ),
        events_in(buf, little)[i].2 == native::number_signed(
            seq![buf[24 * i + 20], buf[24 * i + 21], buf[24 * i + 22], buf[24 * i + 23]],
            little,
        ),
{
    assert(buf.subrange(24 * i + 16, 24 * i + 18) =~= seq![buf[24 * i + 16], buf[24 * i + 17]]);
    assert(buf.subrange(24 * i + 18, 24 * i + 20) =~= seq![buf[24 * i + 18], buf[24 * i + 19]]);
    assert(buf.subrange(24 * i + 20, 24 * i + 24) =~= seq![
        buf[24 * i + 20],
        buf[24 * i + 21],
        buf[24 * i + 22],
        buf[24 * i + 23],
    ]);
}

/// Events that were written one after the other are read one after the other.
pub proof fn law_events_are_read_in_order(
    buf: Seq<u8>,
    kind: u16,
    code: u16,
    value: i32,
    little: bool,
)
    requires
        buf.len() % 24 == 0,
    ensures
        events_in(buf + event_bytes(kind, code, value, little), little) == events_in(
            buf,
            little,
        ).push((kind, code, value)),
{
    let e = event_bytes(kind, code, value, little);
    let all = buf + e;
    let n = buf.len() / 24;
    assert(e.len() == 24);
    law_event_round_trip(kind, code, value, little);
    assert(events_in(e, little)[0] == event_at(e, 0, little));
    assert forall|i: int| 0 <= i <= n implies events_in(all, little)[i] == (events_in(
        buf,
        little,
    ).push((kind, code, value)))[i] by {
        let at = 24 * i;
        if i < n {
            assert(all.subrange(at + 16, at + 18) =~= buf.subrange(at + 16, at + 18));
            assert(all.subrange(at + 18, at + 20) =~= buf.subrange(at + 18, at + 20));
            assert(all.subrange(at + 20, at + 24) =~= buf.subrange(at + 20, at + 24));
        } else {
            assert(all.subrange(at + 16, at + 18) =~= e.subrange(16, 18));
            assert(all.subrange(at + 18, at + 20) =~= e.subrange(18, 20));
            assert(all.subrange(at + 20, at + 24) =~= e.subrange(20, 24));
        }
    }
    assert(events_in(all, little) =~= events_in(buf, little).push((kind, code, value)));
}

/// What the kernel says of an axis is taken over: first its value, then the lower
/// and the upper end of its range.
pub proof fn law_axis_range_is_taken_over(
    code: u16,
    value: i32,
    minimum: i32,
    maximum: i32,
    rest: Seq<u8>,
    little: bool,
)
    ensures
        ({
            let info = native::bytes_signed(value, little) + native::bytes_signed(minimum, little)
                + native::bytes_signed(maximum, little) + rest;
            let a = axis_of(code, Some(info), little);
            &&& a.code == code
            &&& a.value == value && a.minimum == minimum && a.maximum == maximum
        }),
        axis_of(code, None, little).code == code,
        axis_of(code, None, little).minimum == 0 && axis_of(code, None, little).maximum == 65535,
{
    let v = native::bytes_signed(value, little);
    let lo = native::bytes_signed(minimum, little);
    let hi = native::bytes_signed(maximum, little);
    let info = v + lo + hi + rest;
    assert(info.subrange(0, 4) =~= v);
    assert(info.subrange(4, 8) =~= lo);
    assert(info.subrange(8, 12) =~= hi);
    native::law_bytes_round_trip(0, 0, value, little);
    native::law_bytes_round_trip(0, 0, minimum, little);
    native::law_bytes_round_trip(0, 0, maximum, little);
}

/// A code is declared exactly when its bit is set: the code counts the bits from the
/// lowest one of the first byte.
pub proof fn law_codes_are_the_set_bits(bits: Seq<u8>, limit: nat, code: u16)
    requires
        limit <= 0x1_0000,
        limit <= 8 * bits.len(),
    ensures
        codes_in(bits, limit).contains(code) <==> code < limit && bits[code as int / 8] & (1u8 << (
        code % 8) as u8) != 0,
    decreases limit,
{
    if limit > 0 {
        let before = codes_in(bits, (limit - 1) as nat);
        let all = codes_in(bits, limit);
        let last = (limit - 1) as u16;
        law_codes_are_the_set_bits(bits, (limit - 1) as nat, code);
        let byte = bits[code as int / 8];
        let k = (code % 8) as u8;
        assert(k < 8 ==> ((byte >> k) & 1 == 1 <==> byte & (1u8 << k) != 0)) by (bit_vector);
        if has_code(bits, limit - 1) {
            assert(all == before.push(last));
            assert(all[all.len() - 1] == last);
            if before.contains(code) {
                let i = choose|i: int| 0 <= i < before.len() && before[i] == code;
                assert(all[i] == code);
            }
            if all.contains(code) && code != last {
                let i = choose|i: int| 0 <= i < all.len() && all[i] == code;
                assert(before[i] == code);
            }
        }
    }
}

/// Buttons count from one in the order of their codes; what is no button has no
/// number.
pub proof fn law_buttons_count_from_one(buttons: Seq<u16>, i: int, code: u16)
    ensures
        0 <= i < buttons.len() && buttons.no_duplicates() ==> ordinal_of(buttons, buttons[i]) == i
            + 1,
        !buttons.contains(code) ==> ordinal_of(buttons, code) == -1,
{
    if 0 <= i < buttons.len() && buttons.no_duplicates() {
        lemma_ordinal_at(buttons, i);
        lemma_ordinal(buttons, buttons[i]);
    }
    lemma_ordinal(buttons, code);
    if ordinal_of(buttons, code) != -1 {
        assert(buttons[ordinal_of(buttons, code) - 1] == code);
    }
}

/// One event: an axis takes the value and no other axis does; a button is held from
/// its press to its release; events of other kinds change nothing.
pub proof fn law_one_event(s: Live, code: u16, other: u16, value: i32, kind: u16)
    ensures
        after_event(s, (1u16, code, value)).pressed.contains(code) <==> value != 0,
        other != code ==> (after_event(s, (1u16, code, value)).pressed.contains(other)
            <==> s.pressed.contains(other)),
        after_event(s, (1u16, code, value)).axes == s.axes,
        after_event(s, (3u16, code, value)).pressed == s.pressed,
        forall|i: int|
            0 <= i < s.axes.len() && s.axes[i].code != code ==> #[trigger] after_event(
                s,
                (3u16, code, value),
            ).axes[i] == s.axes[i],
        kind != 1 && kind != 3 ==> after_event(s, (kind, code, value)) == s,
{
    lemma_axis_with(s.axes, code);
}

/// The numbers of the requests to an input node: for the codes of a kind, for the
/// range of an axis, and for the name.
pub proof fn law_input_requests(kind: u16, code: u16, len: u64, r: u64)
    requires
        kind < 0x20,
        code < 0x40,
        len < 0x4000,
    ensures
        call_ensures(eviocgbit, (kind, len), r) ==> r == 0x8000_4520 + len * 0x1_0000 + kind,
        call_ensures(eviocgabs, (code,), r) ==> r == 0x8018_4540 + code,
        call_ensures(eviocgname, (len,), r) ==> r == 0x8000_4506 + len * 0x1_0000,
{
    law_ioc_fields(2, 0x45, (0x20 + kind) as u64, len);
    law_ioc_fields(2, 0x45, (0x40 + code) as u64, 24);
    law_ioc_fields(2, 0x45, 0x06, len);
}

/// The axes that rest at their center are those of the stick and of the twist; the
/// names that are shown are those of the kernel's codes.
pub proof fn law_axis_labels(code: u16)
    ensures
        label_of(code).2 <==> code == 0 || code == 1 || code == 2 || code == 5,
        label_of(0).0 == "X"@ && label_of(1).0 == "Y"@ && label_of(2).0 == "Z"@,
        label_of(3).0 == "Rx"@ && label_of(4).0 == "Ry"@ && label_of(5).0 == "Rz"@,
        label_of(6).0 == "Slider"@,
{
}

} // verus!
