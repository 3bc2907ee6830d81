//! Remapping and splitting of buttons on virtual controllers.
//!
//! A plan says which virtual controllers there are and where each physical button
//! and axis goes. It is made here without touching the kernel; a [`Router`] then
//! says what to emit for each event. Nothing is written to the joystick.

use crate::axis_curve;
use crate::axis_curve::CurveData;
use crate::livemon;
use crate::livemon::LiveState;
use crate::model;
use crate::native;
use crate::text;
use std::collections::HashMap;
use vstd::prelude::*;

verus! {

pub const SYN_REPORT: u16 = 0;

/// Identity of the virtual controllers: the vendor, with products that no real
/// joystick has.
pub const BUS_VIRTUAL: u16 = 0x06;

pub const VIRT_VENDOR: u16 = 0x4098;

pub const VIRT_PRODUCT_BASE: u16 = 0xBCF0;

pub const UINPUT_MAX_NAME_SIZE: usize = 80;

pub const ABS_CNT: usize = 64;

/// Two controllers of 32 buttons hold every real button.
pub const DEFAULT_SPLIT_DEVICES: usize = 2;

pub const DEFAULT_SPLIT_BUTTONS: usize = 32;

/// First of the codes beyond those of a gamepad.
pub const BTN_TRIGGER_HAPPY: u16 = 0x2C0;

/// Codes of a joystick before those of a gamepad begin, 0x130 to 0x13F, which are
/// avoided: they would make the controller a gamepad.
pub const JOY_SAFE_COUNT: usize = 16;

pub const TRIGGER_HAPPY_COUNT: usize = 64;

/// Highest output button.
pub const MAX_OUTPUT_ORDINAL: usize = 80;

/// Highest index of an output button that has a code at all.
pub const MAX_OUTPUT_INDEX: usize = 64847;

/// The requests that declare a virtual controller.
pub const UI_DEV_CREATE: u64 = 0x5501;

pub const UI_DEV_DESTROY: u64 = 0x5502;

pub const UI_SET_EVBIT: u64 = 0x4004_5564;

pub const UI_SET_KEYBIT: u64 = 0x4004_5565;

pub const UI_SET_ABSBIT: u64 = 0x4004_5567;

/// The request that captures an input node for one reader.
pub const EVIOCGRAB: u64 = 0x4004_4590;

/// The requests carry the letters, numbers and sizes of the kernel's interface.
pub proof fn law_uinput_requests()
    ensures
        UI_DEV_CREATE == livemon::ioc_of(0, 0x55, 1, 0),
        UI_DEV_DESTROY == livemon::ioc_of(0, 0x55, 2, 0),
        UI_SET_EVBIT == livemon::ioc_of(1, 0x55, 100, 4),
        UI_SET_KEYBIT == livemon::ioc_of(1, 0x55, 101, 4),
        UI_SET_ABSBIT == livemon::ioc_of(1, 0x55, 103, 4),
        EVIOCGRAB == livemon::ioc_of(1, livemon::IOC_E, 0x90, 4),
{
    livemon::law_ioc_fields(0, 0x55, 1, 0);
    livemon::law_ioc_fields(0, 0x55, 2, 0);
    livemon::law_ioc_fields(1, 0x55, 100, 4);
    livemon::law_ioc_fields(1, 0x55, 101, 4);
    livemon::law_ioc_fields(1, 0x55, 103, 4);
    livemon::law_ioc_fields(1, livemon::IOC_E, 0x90, 4);
}

/// The code of an output button, counted from zero.
pub open spec fn code_of(index: int) -> u16 {
    if index < JOY_SAFE_COUNT {
        (livemon::BTN_JOYSTICK + index) as u16
    } else {
        (BTN_TRIGGER_HAPPY + index - JOY_SAFE_COUNT) as u16
    }
}

/// Code of an output button, counted from zero, outside the codes of a gamepad.
pub fn out_button_code(index: usize) -> (r: u16)
    requires
        index <= MAX_OUTPUT_INDEX,
    ensures
        r == code_of(index as int),
{
    if index < JOY_SAFE_COUNT {
        livemon::BTN_JOYSTICK + index as u16
    } else {
        BTN_TRIGGER_HAPPY + (index - JOY_SAFE_COUNT) as u16
    }
}

/// The output buttons have distinct codes, none of them one of a gamepad, and all
/// that a remapping may use are codes that the kernel accepts.
pub proof fn law_output_codes(a: int, b: int)
    requires
        0 <= a <= MAX_OUTPUT_INDEX,
        0 <= b <= MAX_OUTPUT_INDEX,
    ensures
        code_of(a) == code_of(b) ==> a == b,
        !(0x130 <= code_of(a) <= 0x13F),
        a < MAX_OUTPUT_ORDINAL ==> code_of(a) <= livemon::KEY_MAX,
{
}

// --- Plan -----------------------------------------------------------------------------------

/// An axis of a virtual controller.
#[derive(Debug, Clone, Copy, PartialEq, Eq, Structural)]
pub struct AxisSpec {
    pub code: u16,
    pub minimum: i32,
    pub maximum: i32,
    pub fuzz: i32,
    pub flat: i32,
}

impl AxisSpec {
    pub fn new(code: u16, minimum: i32, maximum: i32) -> (r: Self)
        ensures
            r == (AxisSpec { code, minimum, maximum, fuzz: 0, flat: 0 }),
    {
        AxisSpec { code, minimum, maximum, fuzz: 0, flat: 0 }
    }
}

/// A virtual controller: its name, its buttons and its axes.
#[derive(Debug, Clone, PartialEq, Eq)]
pub struct OutSpec {
    pub name: String,
    pub buttons: Vec<u16>,
    pub axes: Vec<AxisSpec>,
}

/// A virtual controller as its plain values.
#[verifier::ext_equal]
pub struct Slot {
    pub name: Seq<char>,
    pub buttons: Seq<u16>,
    pub axes: Seq<AxisSpec>,
}

impl View for OutSpec {
    type V = Slot;

    open spec fn view(&self) -> Slot {
        Slot { name: self.name@, buttons: self.buttons@, axes: self.axes@ }
    }
}

/// The virtual controllers as their plain values.
pub open spec fn slot_views(slots: Seq<OutSpec>) -> Seq<Slot> {
    Seq::new(slots.len(), |i: int| slots[i]@)
}

/// Two axes that turn together around their centers.
#[derive(Debug, Clone, Copy, PartialEq, Eq, Structural)]
pub struct RotationLink {
    pub a: u16,
    pub b: u16,
    pub angle_deg: i8,
    pub a_min: i32,
    pub a_max: i32,
    pub b_min: i32,
    pub b_max: i32,
}

/// A plan: the virtual controllers and where everything goes.
#[derive(Debug, PartialEq)]
pub struct RemapPlan {
    /// `split`, `remap` or `curve`.
    pub mode: &'static str,
    pub slots: Vec<OutSpec>,
    /// Physical button to `(slot, output code)`.
    pub key_route: HashMap<u16, Vec<(usize, u16)>>,
    /// Axis to the slots that carry it.
    pub abs_route: HashMap<u16, Vec<usize>>,
    /// Axes with a curve of their own, with their ranges.
    pub abs_curve: HashMap<u16, (CurveData, i32, i32)>,
    /// Axes that turn with a partner.
    pub rotations: HashMap<u16, RotationLink>,
    pub source_buttons: usize,
    pub source_axes: usize,
    /// Physical buttons without an output.
    pub dropped: usize,
}

/// The last axis with a code.
pub open spec fn axis_with(axes: Seq<AxisSpec>, code: u16) -> Option<AxisSpec>
    decreases axes.len(),
{
    if axes.len() == 0 {
        None
    } else if axes.last().code == code {
        Some(axes.last())
    } else {
        axis_with(axes.drop_last(), code)
    }
}

/// The curve of an axis with its range, when the axis is there and the curve does
/// something on its own.
pub open spec fn curve_for(axes: Seq<AxisSpec>, curves: Map<u16, CurveData>, code: u16) -> Option<
    (CurveData, i32, i32),
> {
    match axis_with(axes, code) {
        Some(ax) => if curves.contains_key(code) && !curves[code].passes() {
            Some((curves[code], ax.minimum, ax.maximum))
        } else {
            None
        },
        None => None,
    }
}

/// The table holds what `entry` says of each key, and nothing else.
pub open spec fn is_curve_table(
    m: Map<u16, (CurveData, i32, i32)>,
    axes: Seq<AxisSpec>,
    curves: Map<u16, CurveData>,
) -> bool {
    forall|code: u16|
        match curve_for(axes, curves, code) {
            Some(e) => #[trigger] m.contains_key(code) && m[code] == e,
            None => !m.contains_key(code),
        }
}

/// The axes that have a curve of their own, with their curves and ranges.
pub fn build_abs_curve(axes: &[AxisSpec], curves: &HashMap<u16, CurveData>) -> (r: HashMap<
    u16,
    (CurveData, i32, i32),
>)
    ensures
        is_curve_table(r@, axes@, curves@),
{
    let mut out: HashMap<u16, (CurveData, i32, i32)> = HashMap::new();
    let mut i: usize = 0;
    while i < axes.len()
        invariant
            i <= axes.len(),
            is_curve_table(out@, axes@.take(i as int), curves@),
        decreases axes.len() - i,
    {
        let ax: AxisSpec = axes[i];
        let ghost before = out@;
        let ghost done = axes@.take(i as int);
        let ghost next = axes@.take(i + 1);
        assert(next.drop_last() == done);
        assert(next.last() == ax);
        if let Some(c) = curves.get(&ax.code) {
            if !c.is_identity() {
                out.insert(ax.code, (*c, ax.minimum, ax.maximum));
            }
        }
        proof {
            assert forall|code: u16|
                match curve_for(next, curves@, code) {
                    Some(e) => #[trigger] out@.contains_key(code) && out@[code] == e,
                    None => !out@.contains_key(code),
                } by {
                assert(match curve_for(done, curves@, code) {
                    Some(e) => before.contains_key(code) && before[code] == e,
                    None => !before.contains_key(code),
                });
            }
        }
        i += 1;
    }
    assert(axes@.take(i as int) == axes@);
    out
}

/// The axes that turn in a group, in the order of the axes.
pub open spec fn members(axes: Seq<AxisSpec>, curves: Map<u16, CurveData>, group: u32) -> Seq<u16>
    decreases axes.len(),
{
    if axes.len() == 0 {
        Seq::empty()
    } else {
        let before = members(axes.drop_last(), curves, group);
        let code = axes.last().code;
        if curves.contains_key(code) && curves[code].turns() && curves[code].rotate_group == group {
            before.push(code)
        } else {
            before
        }
    }
}

/// The link of two axes.
pub open spec fn link_of(
    axes: Seq<AxisSpec>,
    curves: Map<u16, CurveData>,
    x: u16,
    y: u16,
) -> RotationLink {
    let a = if x <= y {
        x
    } else {
        y
    };
    let b = if x <= y {
        y
    } else {
        x
    };
    let sa = axis_with(axes, a)->0;
    let sb = axis_with(axes, b)->0;
    RotationLink {
        a,
        b,
        angle_deg: axis_curve::nearest(curves[a].rotate as int, -25, 25) as i8,
        a_min: sa.minimum,
        a_max: sa.maximum,
        b_min: sb.minimum,
        b_max: sb.maximum,
    }
}

/// The link of an axis: it turns when its group has exactly two axes.
pub open spec fn rotation_for(axes: Seq<AxisSpec>, curves: Map<u16, CurveData>, code: u16) -> Option<
    RotationLink,
> {
    if axis_with(axes, code) is Some && curves.contains_key(code) && curves[code].turns() {
        let m = members(axes, curves, curves[code].rotate_group);
        if m.len() == 2 {
            Some(link_of(axes, curves, m[0], m[1]))
        } else {
            None
        }
    } else {
        None
    }
}

/// The table holds the link of each axis that turns, and nothing else.
pub open spec fn is_rotation_table(
    m: Map<u16, RotationLink>,
    axes: Seq<AxisSpec>,
    curves: Map<u16, CurveData>,
) -> bool {
    forall|code: u16|
        match rotation_for(axes, curves, code) {
            Some(l) => #[trigger] m.contains_key(code) && m[code] == l,
            None => !m.contains_key(code),
        }
}

proof fn lemma_members(axes: Seq<AxisSpec>, curves: Map<u16, CurveData>, group: u32, i: int)
    requires
        0 <= i < members(axes, curves, group).len(),
    ensures
        ({
            let c = members(axes, curves, group)[i];
            &&& axis_with(axes, c) is Some
            &&& curves.contains_key(c) && curves[c].turns() && curves[c].rotate_group == group
        }),
    decreases axes.len(),
{
    let before = members(axes.drop_last(), curves, group);
    if i < before.len() {
        lemma_members(axes.drop_last(), curves, group, i);
    }
}

proof fn lemma_member_is_in(axes: Seq<AxisSpec>, curves: Map<u16, CurveData>, code: u16)
    requires
        axis_with(axes, code) is Some,
        curves.contains_key(code),
        curves[code].turns(),
    ensures
        members(axes, curves, curves[code].rotate_group).contains(code),
    decreases axes.len(),
{
    let g = curves[code].rotate_group;
    let all = members(axes, curves, g);
    if axes.last().code == code {
        assert(all[all.len() - 1] == code);
    } else {
        lemma_member_is_in(axes.drop_last(), curves, code);
        let before = members(axes.drop_last(), curves, g);
        let i = choose|i: int| 0 <= i < before.len() && before[i] == code;
        assert(all[i] == code);
    }
}

/// The two axes of a link point to the same link, and an axis that turns is one of
/// its two.
pub proof fn law_rotation_is_mutual(axes: Seq<AxisSpec>, curves: Map<u16, CurveData>, code: u16)
    requires
        rotation_for(axes, curves, code) is Some,
    ensures
        ({
            let l = rotation_for(axes, curves, code)->0;
            &&& code == l.a || code == l.b
            &&& l.a <= l.b
            &&& -25 <= l.angle_deg <= 25
            &&& rotation_for(axes, curves, l.a) == Some(l)
            &&& rotation_for(axes, curves, l.b) == Some(l)
        }),
{
    let g = curves[code].rotate_group;
    let m = members(axes, curves, g);
    lemma_member_is_in(axes, curves, code);
    lemma_members(axes, curves, g, 0);
    lemma_members(axes, curves, g, 1);
}

/// An axis that is alone in its group, or shares it with more than one, does not
/// turn.
pub proof fn law_rotation_needs_a_pair(axes: Seq<AxisSpec>, curves: Map<u16, CurveData>, code: u16)
    requires
        curves.contains_key(code),
        members(axes, curves, curves[code].rotate_group).len() != 2,
    ensures
        rotation_for(axes, curves, code) is None,
{
}

fn group_members(axes: &[AxisSpec], curves: &HashMap<u16, CurveData>, group: u32) -> (r: Vec<u16>)
    ensures
        r@ == members(axes@, curves@, group),
{
    let mut out: Vec<u16> = Vec::new();
    let mut i: usize = 0;
    while i < axes.len()
        invariant
            i <= axes.len(),
            out@ == members(axes@.take(i as int), curves@, group),
        decreases axes.len() - i,
    {
        assert(axes@.take(i + 1).drop_last() == axes@.take(i as int));
        assert(axes@.take(i + 1).last() == axes[i as int]);
        let code: u16 = axes[i].code;
        if let Some(c) = curves.get(&code) {
            if c.has_rotation() && c.rotate_group == group {
                out.push(code);
            }
        }
        i += 1;
    }
    assert(axes@.take(i as int) == axes@);
    out
}

fn find_axis(axes: &[AxisSpec], code: u16) -> (r: Option<AxisSpec>)
    ensures
        r == axis_with(axes@, code),
{
    let mut i: usize = axes.len();
    assert(axes@.take(i as int) == axes@);
    while i > 0
        invariant
            i <= axes.len(),
            axis_with(axes@, code) == axis_with(axes@.take(i as int), code),
        decreases i,
    {
        assert(axes@.take(i as int).last() == axes[i - 1]);
        assert(axes@.take(i as int).drop_last() == axes@.take(i - 1));
        if axes[i - 1].code == code {
            return Some(axes[i - 1]);
        }
        i -= 1;
    }
    None
}

fn find_link(axes: &[AxisSpec], curves: &HashMap<u16, CurveData>, code: u16) -> (r: Option<
    RotationLink,
>)
    requires
        axis_with(axes@, code) is Some,
    ensures
        r == rotation_for(axes@, curves@, code),
{
    let c: CurveData = match curves.get(&code) {
        Some(c) => *c,
        None => {
            return None;
        },
    };
    if !c.has_rotation() {
        return None;
    }
    let m: Vec<u16> = group_members(axes, curves, c.rotate_group);
    if m.len() != 2 {
        return None;
    }
    proof {
        lemma_members(axes@, curves@, c.rotate_group, 0);
        lemma_members(axes@, curves@, c.rotate_group, 1);
    }
    let (a, b): (u16, u16) = if m[0] <= m[1] {
        (m[0], m[1])
    } else {
        (m[1], m[0])
    };
    match (find_axis(axes, a), find_axis(axes, b), curves.get(&a)) {
        (Some(sa), Some(sb), Some(ca)) => Some(
            RotationLink {
                a,
                b,
                angle_deg: ca.bounded().rotate,
                a_min: sa.minimum,
                a_max: sa.maximum,
                b_min: sb.minimum,
                b_max: sb.maximum,
            },
        ),
        _ => None,
    }
}

/// The links of the axes that turn: a group of exactly two axes is one.
pub fn build_rotations(axes: &[AxisSpec], curves: &HashMap<u16, CurveData>) -> (r: HashMap<
    u16,
    RotationLink,
>)
    ensures
        is_rotation_table(r@, axes@, curves@),
{
    let mut out: HashMap<u16, RotationLink> = HashMap::new();
    let mut i: usize = 0;
    while i < axes.len()
        invariant
            i <= axes.len(),
            forall|code: u16|
                #[trigger] out@.contains_key(code) <==> (axis_with(axes@.take(i as int), code) is Some
                    && rotation_for(axes@, curves@, code) is Some),
            forall|code: u16| #[trigger]
                out@.contains_key(code) ==> Some(out@[code]) == rotation_for(axes@, curves@, code),
        decreases axes.len() - i,
    {
        assert(axes@.take(i + 1).drop_last() == axes@.take(i as int));
        assert(axes@.take(i + 1).last() == axes[i as int]);
        let code: u16 = axes[i].code;
        proof {
            lemma_axis_present(axes@, i as int);
        }
        if let Some(link) = find_link(axes, curves, code) {
            out.insert(code, link);
        }
        i += 1;
    }
    assert(axes@.take(i as int) == axes@);
    assert forall|code: u16|
        match rotation_for(axes@, curves@, code) {
            Some(l) => #[trigger] out@.contains_key(code) && out@[code] == l,
            None => !out@.contains_key(code),
        } by {}
    out
}

/// An axis of the list is found by its code.
pub proof fn lemma_axis_present(axes: Seq<AxisSpec>, i: int)
    requires
        0 <= i < axes.len(),
    ensures
        axis_with(axes, axes[i].code) is Some,
    decreases axes.len(),
{
    if i < axes.len() - 1 {
        lemma_axis_present(axes.drop_last(), i);
        assert(axes.drop_last()[i] == axes[i]);
    }
}

/// The middle of a range, for a partner that was not seen yet.
pub fn midpoint(min: i32, max: i32) -> (r: i32)
    requires
        has_span(min, max),
    ensures
        r == middle(min, max),
{
    let d: i32 = max - min;
    if d >= 0 {
        min + d / 2
    } else {
        let m: i64 = -(d as i64);
        (min as i64 - m / 2) as i32
    }
}

/// Every axis goes to the first slot, and nothing else does.
pub open spec fn is_axis_route(m: Map<u16, Vec<usize>>, axes: Seq<AxisSpec>) -> bool {
    forall|code: u16|
        if axis_with(axes, code) is Some {
            #[trigger] m.contains_key(code) && m[code]@ == seq![0usize]
        } else {
            !m.contains_key(code)
        }
}

fn axis_routes(axes: &[AxisSpec]) -> (r: HashMap<u16, Vec<usize>>)
    ensures
        is_axis_route(r@, axes@),
{
    let mut out: HashMap<u16, Vec<usize>> = HashMap::new();
    let mut i: usize = 0;
    while i < axes.len()
        invariant
            i <= axes.len(),
            is_axis_route(out@, axes@.take(i as int)),
        decreases axes.len() - i,
    {
        let ghost done = axes@.take(i as int);
        let ghost next = axes@.take(i + 1);
        let ghost before = out@;
        assert(next.drop_last() == done);
        assert(next.last() == axes[i as int]);
        let mut first: Vec<usize> = Vec::new();
        first.push(0);
        assert(first@ == seq![0usize]);
        out.insert(axes[i].code, first);
        assert forall|code: u16|
            if axis_with(next, code) is Some {
                #[trigger] out@.contains_key(code) && out@[code]@ == seq![0usize]
            } else {
                !out@.contains_key(code)
            } by {
            assert(if axis_with(done, code) is Some {
                before.contains_key(code) && before[code]@ == seq![0usize]
            } else {
                !before.contains_key(code)
            });
        }
        i += 1;
    }
    assert(axes@.take(i as int) == axes@);
    out
}

fn copy_axes(axes: &[AxisSpec]) -> (r: Vec<AxisSpec>)
    ensures
        r@ == axes@,
{
    let mut out: Vec<AxisSpec> = Vec::new();
    let mut i: usize = 0;
    while i < axes.len()
        invariant
            i <= axes.len(),
            out@ == axes@.take(i as int),
        decreases axes.len() - i,
    {
        out.push(axes[i]);
        i += 1;
        assert(out@ == axes@.take(i as int));
    }
    assert(axes@.take(i as int) == axes@);
    out
}

/// The codes of the first output buttons.
pub open spec fn first_outputs(n: nat) -> Seq<u16> {
    Seq::new(n, |i: int| code_of(i))
}

fn first_output_codes(n: usize) -> (r: Vec<u16>)
    requires
        n <= MAX_OUTPUT_INDEX + 1,
    ensures
        r@ == first_outputs(n as nat),
{
    let mut out: Vec<u16> = Vec::new();
    let mut i: usize = 0;
    while i < n
        invariant
            i <= n <= MAX_OUTPUT_INDEX + 1,
            out@ == first_outputs(i as nat),
        decreases n - i,
    {
        out.push(out_button_code(i));
        i += 1;
        assert(out@ == first_outputs(i as nat));
    }
    out
}

// --- Splitting --------------------------------------------------------------------------------

/// The last place of a code.
pub open spec fn last_place(codes: Seq<u16>, code: u16) -> Option<int>
    decreases codes.len(),
{
    if codes.len() == 0 {
        None
    } else if codes.last() == code {
        Some(codes.len() - 1)
    } else {
        last_place(codes.drop_last(), code)
    }
}

/// The buttons that are given an output.
pub open spec fn placed(buttons: Seq<u16>, capacity: int) -> Seq<u16> {
    if buttons.len() <= capacity {
        buttons
    } else {
        buttons.take(capacity)
    }
}

/// Button `i` goes to slot `i / per`, as its button `i % per`.
pub open spec fn is_split_route(m: Map<u16, Vec<(usize, u16)>>, kept: Seq<u16>, per: int) -> bool {
    forall|code: u16|
        match last_place(kept, code) {
            Some(i) => #[trigger] m.contains_key(code) && m[code]@ == seq![
                ((i / per) as usize, code_of(i % per)),
            ],
            None => !m.contains_key(code),
        }
}

/// The number of buttons of slot `s` when `n` buttons are placed.
pub open spec fn slot_count(n: int, per: int, s: int) -> nat {
    if n <= s * per {
        0
    } else if n - s * per >= per {
        per as nat
    } else {
        (n - s * per) as nat
    }
}

/// Slot `s` of a split.
pub open spec fn split_slot(
    name: Seq<char>,
    n_devices: int,
    placed: int,
    per: int,
    axes: Seq<AxisSpec>,
    s: int,
) -> Slot {
    Slot {
        name: name + " ("@ + text::dec((s + 1) as nat) + "/"@ + text::dec(n_devices as nat) + ")"@,
        buttons: first_outputs(slot_count(placed, per, s)),
        axes: if s == 0 {
            axes
        } else {
            Seq::empty()
        },
    }
}

/// The plan of a split: buttons in banks of `per` over `n` controllers, axes on the
/// first one, buttons beyond the capacity dropped.
pub open spec fn is_split_plan(
    p: RemapPlan,
    buttons: Seq<u16>,
    axes: Seq<AxisSpec>,
    curves: Map<u16, CurveData>,
    n: int,
    per: int,
    name: Seq<char>,
) -> bool {
    let kept = placed(buttons, n * per);
    &&& p.mode@ == "split"@
    &&& slot_views(p.slots@) == Seq::new(
        n as nat,
        |s: int| split_slot(name, n, kept.len() as int, per, axes, s),
    )
    &&& is_split_route(p.key_route@, kept, per)
    &&& is_axis_route(p.abs_route@, axes)
    &&& is_curve_table(p.abs_curve@, axes, curves)
    &&& is_rotation_table(p.rotations@, axes, curves)
    &&& p.source_buttons == buttons.len()
    &&& p.source_axes == axes.len()
    &&& p.dropped == buttons.len() - kept.len()
}

fn split_name(name: &str, s: usize, n: usize) -> (r: String)
    requires
        s < n,
    ensures
        r@ == name@ + " ("@ + text::dec((s + 1) as nat) + "/"@ + text::dec(n as nat) + ")"@,
{
    let mut out: String = name.to_string();
    out.append(" (");
    out.append(text::dec_text(s as u64 + 1).as_str());
    out.append("/");
    out.append(text::dec_text(n as u64).as_str());
    out.append(")");
    out
}

fn split_routes(buttons: &[u16], count: usize, per_device: usize) -> (r: HashMap<
    u16,
    Vec<(usize, u16)>,
>)
    requires
        count <= buttons.len(),
        count > 0 ==> per_device > 0,
        per_device <= MAX_OUTPUT_INDEX + 1 || buttons.len() <= MAX_OUTPUT_INDEX + 1,
    ensures
        is_split_route(r@, buttons@.take(count as int), per_device as int),
{
    let mut out: HashMap<u16, Vec<(usize, u16)>> = HashMap::new();
    let mut i: usize = 0;
    while i < count
        invariant
            i <= count <= buttons.len(),
            count > 0 ==> per_device > 0,
            per_device <= MAX_OUTPUT_INDEX + 1 || buttons.len() <= MAX_OUTPUT_INDEX + 1,
            is_split_route(out@, buttons@.take(i as int), per_device as int),
        decreases count - i,
    {
        let ghost done = buttons@.take(i as int);
        let ghost next = buttons@.take(i + 1);
        let ghost before = out@;
        assert(next.drop_last() == done);
        assert(next.last() == buttons[i as int]);
        let slot: usize = i / per_device;
        let local: usize = i % per_device;
        assert(local <= i && local < per_device) by (nonlinear_arith)
            requires
                local == i % per_device,
                per_device > 0,
                i >= 0,
        ;
        let mut route: Vec<(usize, u16)> = Vec::new();
        route.push((slot, out_button_code(local)));
        let ghost rv = route@;
        assert(rv == seq![((i as int / per_device as int) as usize, code_of(i as int % per_device as int))]);
        out.insert(buttons[i], route);
        assert forall|code: u16|
            match last_place(next, code) {
                Some(k) => #[trigger] out@.contains_key(code) && out@[code]@ == seq![
                    ((k / per_device as int) as usize, code_of(k % per_device as int)),
                ],
                None => !out@.contains_key(code),
            } by {
            assert(match last_place(done, code) {
                Some(k) => before.contains_key(code) && before[code]@ == seq![
                    ((k / per_device as int) as usize, code_of(k % per_device as int)),
                ],
                None => !before.contains_key(code),
            });
        }
        i += 1;
    }
    out
}

fn split_slots(
    count: usize,
    axes: &[AxisSpec],
    n_devices: usize,
    per_device: usize,
    name: &str,
) -> (r: Vec<OutSpec>)
    requires
        n_devices * per_device <= usize::MAX,
        per_device <= MAX_OUTPUT_INDEX + 1 || count <= MAX_OUTPUT_INDEX + 1,
    ensures
        slot_views(r@) == Seq::new(
            n_devices as nat,
            |s: int|
                split_slot(name@, n_devices as int, count as int, per_device as int, axes@, s),
        ),
{
    let ghost all = Seq::new(
        n_devices as nat,
        |s: int| split_slot(name@, n_devices as int, count as int, per_device as int, axes@, s),
    );
    let mut slots: Vec<OutSpec> = Vec::new();
    let mut s: usize = 0;
    while s < n_devices
        invariant
            s <= n_devices,
            n_devices * per_device <= usize::MAX,
            per_device <= MAX_OUTPUT_INDEX + 1 || count <= MAX_OUTPUT_INDEX + 1,
            all == Seq::new(
                n_devices as nat,
                |s: int|
                    split_slot(name@, n_devices as int, count as int, per_device as int, axes@, s),
            ),
            slot_views(slots@) == all.take(s as int),
        decreases n_devices - s,
    {
        assert(s * per_device <= n_devices * per_device) by (nonlinear_arith)
            requires
                s <= n_devices,
                per_device >= 0,
        ;
        let start: usize = s * per_device;
        let here: usize = if count <= start {
            0
        } else if count - start >= per_device {
            per_device
        } else {
            count - start
        };
        let spec: OutSpec = OutSpec {
            name: split_name(name, s, n_devices),
            buttons: first_output_codes(here),
            axes: if s == 0 {
                copy_axes(axes)
            } else {
                Vec::new()
            },
        };
        let ghost before = slot_views(slots@);
        let ghost sv = spec@;
        assert(sv =~~= split_slot(
            name@,
            n_devices as int,
            count as int,
            per_device as int,
            axes@,
            s as int,
        ));
        slots.push(spec);
        assert(slot_views(slots@) == before.push(sv));
        s += 1;
        assert(slot_views(slots@) == all.take(s as int));
    }
    assert(all.take(s as int) == all);
    slots
}

/// The plan of a split of the buttons over `n_devices` controllers of `per_device`
/// buttons. The axes go to the first one.
pub fn plan_split(
    buttons: &[u16],
    axes: &[AxisSpec],
    curves: &HashMap<u16, CurveData>,
    n_devices: usize,
    per_device: usize,
    name: &str,
) -> (r: RemapPlan)
    requires
        n_devices * per_device <= usize::MAX,
        per_device <= MAX_OUTPUT_INDEX + 1 || buttons.len() <= MAX_OUTPUT_INDEX + 1,
    ensures
        is_split_plan(
            r,
            buttons@,
            axes@,
            curves@,
            n_devices as int,
            per_device as int,
            name@,
        ),
{
    let capacity: usize = n_devices * per_device;
    let count: usize = if buttons.len() <= capacity {
        buttons.len()
    } else {
        capacity
    };
    proof {
        if count > 0 {
            assert(per_device > 0) by (nonlinear_arith)
                requires
                    capacity == n_devices * per_device,
                    capacity > 0,
                    n_devices >= 0,
                    per_device >= 0,
            ;
        }
        assert(buttons@.take(count as int) == placed(buttons@, n_devices * per_device));
    }
    RemapPlan {
        mode: "split",
        slots: split_slots(count, axes, n_devices, per_device, name),
        key_route: split_routes(buttons, count, per_device),
        abs_route: axis_routes(axes),
        abs_curve: build_abs_curve(axes, curves),
        rotations: build_rotations(axes, curves),
        source_buttons: buttons.len(),
        source_axes: axes.len(),
        dropped: buttons.len() - count,
    }
}

/// In a split every placed button has its own output: two of them never share one.
pub proof fn law_split_outputs_are_distinct(i: int, j: int, per: int)
    requires
        0 <= i,
        0 <= j,
        0 < per <= MAX_OUTPUT_INDEX + 1,
        i / per == j / per,
        code_of(i % per) == code_of(j % per),
    ensures
        i == j,
{
    assert(0 <= i % per < per && 0 <= j % per < per && i == per * (i / per) + i % per && j == per * (
    j / per) + j % per) by (nonlinear_arith)
        requires
            per > 0,
    ;
    law_output_codes(i % per, j % per);
}

/// In a split every placed button goes to a slot that exists, to a button that the
/// slot declares.
pub proof fn law_split_stays_within(i: int, placed: int, n: int, per: int)
    requires
        0 <= i < placed <= n * per,
        0 < per,
        0 <= n,
    ensures
        0 <= i / per < n,
        i % per < slot_count(placed, per, i / per),
{
    let s = i / per;
    assert(0 <= s && s < n && 0 <= i % per < per && i == per * s + i % per && s * per == per * s) by (
    nonlinear_arith)
        requires
            0 <= i < n * per,
            per > 0,
            s == i / per,
    ;
}

/// The split that is made by default drops no button of a live joystick, which has
/// at most [`livemon::MAX_REAL_BUTTONS`] of them.
pub proof fn law_default_split_drops_nothing(buttons: Seq<u16>)
    requires
        buttons.len() <= livemon::MAX_REAL_BUTTONS,
    ensures
        placed(buttons, DEFAULT_SPLIT_DEVICES * DEFAULT_SPLIT_BUTTONS) == buttons,
{
}

// --- Remapping --------------------------------------------------------------------------------

/// The output button of a physical one, both counted from one.
pub open spec fn target(overrides: Map<u32, u32>, ordinal: int) -> int {
    if 0 <= ordinal <= u32::MAX && overrides.contains_key(ordinal as u32) {
        overrides[ordinal as u32] as int
    } else {
        ordinal
    }
}

/// An entry of a remapping of `n` buttons that can be followed.
pub open spec fn is_override(n: int, src: u32, dst: u32) -> bool {
    1 <= src <= n && 1 <= dst <= MAX_OUTPUT_ORDINAL
}

/// Every entry of the remapping can be followed.
pub open spec fn is_remapping(n: int, overrides: Map<u32, u32>) -> bool {
    forall|src: u32| #[trigger]
        overrides.contains_key(src) ==> is_override(n, src, overrides[src])
}

/// What is said of an entry that cannot be followed.
pub open spec fn override_refusal(n: int, src: u32, dst: u32) -> Seq<char> {
    "remap invalide : "@ + text::dec(src as nat) + "->"@ + text::dec(dst as nat) + " (source 1.."@
        + text::dec(n as nat) + ", sortie 1.."@ + text::dec(MAX_OUTPUT_ORDINAL as nat) + ")"@
}

/// The last place of a code whose button has an output.
pub open spec fn last_routed(codes: Seq<u16>, overrides: Map<u32, u32>, code: u16) -> Option<int>
    decreases codes.len(),
{
    if codes.len() == 0 {
        None
    } else if codes.last() == code && target(overrides, codes.len() as int) <= MAX_OUTPUT_ORDINAL {
        Some(codes.len() - 1)
    } else {
        last_routed(codes.drop_last(), overrides, code)
    }
}

/// The route of button `i`: its output on the one slot.
pub open spec fn output_route(overrides: Map<u32, u32>, i: int) -> Seq<(usize, u16)> {
    seq![(0usize, code_of(target(overrides, i + 1) - 1))]
}

/// Every button goes to its output.
pub open spec fn is_remap_route(
    m: Map<u16, Vec<(usize, u16)>>,
    buttons: Seq<u16>,
    overrides: Map<u32, u32>,
) -> bool {
    forall|code: u16|
        match last_routed(buttons, overrides, code) {
            Some(i) => #[trigger] m.contains_key(code) && m[code]@ == output_route(overrides, i),
            None => !m.contains_key(code),
        }
}

/// The highest output of the first `n` buttons.
pub open spec fn highest_output(n: nat, overrides: Map<u32, u32>) -> int
    decreases n,
{
    if n == 0 {
        0
    } else {
        let before = highest_output((n - 1) as nat, overrides);
        let t = target(overrides, n as int);
        if before < t <= MAX_OUTPUT_ORDINAL {
            t
        } else {
            before
        }
    }
}

/// The number of the first `n` buttons that have no output.
pub open spec fn without_output(n: nat, overrides: Map<u32, u32>) -> int
    decreases n,
{
    if n == 0 {
        0
    } else {
        without_output((n - 1) as nat, overrides) + if target(overrides, n as int)
            > MAX_OUTPUT_ORDINAL {
            1int
        } else {
            0
        }
    }
}

/// The plan of a remapping: one controller with the buttons up to the highest
/// output, and the axes.
pub open spec fn is_remap_plan(
    p: RemapPlan,
    mode: Seq<char>,
    buttons: Seq<u16>,
    axes: Seq<AxisSpec>,
    curves: Map<u16, CurveData>,
    overrides: Map<u32, u32>,
    name: Seq<char>,
) -> bool {
    &&& p.mode@ == mode
    &&& slot_views(p.slots@) == seq![
        Slot {
            name,
            buttons: first_outputs(highest_output(buttons.len(), overrides) as nat),
            axes,
        },
    ]
    &&& is_remap_route(p.key_route@, buttons, overrides)
    &&& is_axis_route(p.abs_route@, axes)
    &&& is_curve_table(p.abs_curve@, axes, curves)
    &&& is_rotation_table(p.rotations@, axes, curves)
    &&& p.source_buttons == buttons.len()
    &&& p.source_axes == axes.len()
    &&& p.dropped == without_output(buttons.len(), overrides)
}

fn refusal_text(n: u32, src: u32, dst: u32) -> (r: String)
    ensures
        r@ == override_refusal(n as int, src, dst),
{
    let mut out: String = "remap invalide : ".to_string();
    out.append(text::dec_text(src as u64).as_str());
    out.append("->");
    out.append(text::dec_text(dst as u64).as_str());
    out.append(" (source 1..");
    out.append(text::dec_text(n as u64).as_str());
    out.append(", sortie 1..");
    out.append(text::dec_text(MAX_OUTPUT_ORDINAL as u64).as_str());
    out.append(")");
    out
}

/// An entry that cannot be followed, if there is one; which one, when there are
/// several, is open.
fn refused_override(n: u32, overrides: &HashMap<u32, u32>) -> (r: Option<(u32, u32)>)
    ensures
        r is None <==> is_remapping(n as int, overrides@),
        r is Some ==> overrides@.contains_key((r->0).0) && overrides@[(r->0).0] == (r->0).1
            && !is_override(n as int, (r->0).0, (r->0).1),
{
    let entries = overrides.iter();
    let ghost all = vstd::std_specs::iter::IteratorSpec::remaining(&entries);
    for kv in it: entries
        invariant
            it.seq() == all,
            forall|i: int|
                0 <= i < all.len() ==> overrides@.contains_key(*(#[trigger] all[i]).0)
                    && overrides@[*all[i].0] == *all[i].1,
            forall|i: int|
                0 <= i < it.index() ==> is_override(
                    n as int,
                    *(#[trigger] all[i]).0,
                    *all[i].1,
                ),
    {
        let src: u32 = *kv.0;
        let dst: u32 = *kv.1;
        assert(kv == all[it.index() as int]);
        if !(1 <= src && src <= n) || !(1 <= dst && dst as usize <= MAX_OUTPUT_ORDINAL) {
            return Some((src, dst));
        }
    }
    assert forall|src: u32| #[trigger] overrides@.contains_key(src) implies is_override(
        n as int,
        src,
        overrides@[src],
    ) by {
        assert(all.contains((&src, &overrides@[src])));
        let i = choose|i: int| 0 <= i < all.len() && all[i] == (&src, &overrides@[src]);
        assert(is_override(n as int, *all[i].0, *all[i].1));
    }
    None
}

proof fn lemma_highest_output(n: nat, overrides: Map<u32, u32>)
    ensures
        0 <= highest_output(n, overrides) <= MAX_OUTPUT_ORDINAL,
        0 <= without_output(n, overrides) <= n,
    decreases n,
{
    if n > 0 {
        lemma_highest_output((n - 1) as nat, overrides);
    }
}

/// The plan of a remapping on one controller. A button goes where the remapping
/// says, by numbers that count from one, or keeps its number; buttons whose number
/// is beyond the last output are not exposed.
pub fn plan_remap(
    buttons: &[u16],
    axes: &[AxisSpec],
    curves: &HashMap<u16, CurveData>,
    overrides: &HashMap<u32, u32>,
    name: &str,
) -> (r: Result<RemapPlan, String>)
    requires
        buttons.len() <= u32::MAX,
    ensures
        r is Ok <==> is_remapping(buttons@.len() as int, overrides@),
        r is Ok ==> is_remap_plan(
            r->Ok_0,
            "remap"@,
            buttons@,
            axes@,
            curves@,
            overrides@,
            name@,
        ),
        r is Err ==> exists|src: u32| #[trigger]
            overrides@.contains_key(src) && !is_override(
                buttons@.len() as int,
                src,
                overrides@[src],
            ) && r->Err_0@ == override_refusal(buttons@.len() as int, src, overrides@[src]),
{
    let n: u32 = buttons.len() as u32;
    if let Some((src, dst)) = refused_override(n, overrides) {
        return Err(refusal_text(n, src, dst));
    }
    let mut key_route: HashMap<u16, Vec<(usize, u16)>> = HashMap::new();
    let mut highest: usize = 0;
    let mut dropped: usize = 0;
    let mut i: usize = 0;
    while i < buttons.len()
        invariant
            i <= buttons.len() <= u32::MAX,
            is_remapping(buttons@.len() as int, overrides@),
            is_remap_route(key_route@, buttons@.take(i as int), overrides@),
            highest == highest_output(i as nat, overrides@),
            dropped == without_output(i as nat, overrides@),
            dropped <= i,
            highest <= MAX_OUTPUT_ORDINAL,
        decreases buttons.len() - i,
    {
        let ghost done = buttons@.take(i as int);
        let ghost next = buttons@.take(i + 1);
        let ghost before = key_route@;
        assert(next.drop_last() == done);
        assert(next.last() == buttons[i as int]);
        assert(is_remap_route(before, done, overrides@));
        let ordinal: u32 = i as u32 + 1;
        let dst: u32 = match overrides.get(&ordinal) {
            Some(d) => *d,
            None => ordinal,
        };
        assert(dst == target(overrides@, i + 1));
        if dst as usize > MAX_OUTPUT_ORDINAL {
            dropped += 1;
        } else {
            let mut route: Vec<(usize, u16)> = Vec::new();
            route.push((0, out_button_code(dst as usize - 1)));
            assert(route@ == output_route(overrides@, i as int));
            key_route.insert(buttons[i], route);
            if dst as usize > highest {
                highest = dst as usize;
            }
        }
        assert forall|code: u16|
            match last_routed(next, overrides@, code) {
                Some(k) => #[trigger] key_route@.contains_key(code) && key_route@[code]@
                    == output_route(overrides@, k),
                None => !key_route@.contains_key(code),
            } by {
            let known = before.contains_key(code);
            assert(known ==> last_routed(done, overrides@, code) is Some);
            assert(!known ==> last_routed(done, overrides@, code) is None);
            assert(match last_routed(done, overrides@, code) {
                Some(k) => before.contains_key(code) && before[code]@ == output_route(overrides@, k),
                None => !before.contains_key(code),
            });
        }
        i += 1;
    }
    assert(buttons@.take(i as int) == buttons@);
    let mut slots: Vec<OutSpec> = Vec::new();
    let spec: OutSpec = OutSpec {
        name: name.to_string(),
        buttons: first_output_codes(highest),
        axes: copy_axes(axes),
    };
    let ghost sv = spec@;
    slots.push(spec);
    assert(slot_views(slots@) == seq![sv]);
    Ok(
        RemapPlan {
            mode: "remap",
            slots,
            key_route,
            abs_route: axis_routes(axes),
            abs_curve: build_abs_curve(axes, curves),
            rotations: build_rotations(axes, curves),
            source_buttons: buttons.len(),
            source_axes: axes.len(),
            dropped,
        },
    )
}

/// Without a remapping every button keeps its number, up to the last output.
pub proof fn law_identity_remap(n: nat)
    ensures
        is_remapping(n as int, Map::empty()),
        forall|i: int| target(Map::empty(), i) == i,
        highest_output(n, Map::empty()) == if n <= MAX_OUTPUT_ORDINAL {
            n as int
        } else {
            MAX_OUTPUT_ORDINAL as int
        },
        without_output(n, Map::empty()) == if n <= MAX_OUTPUT_ORDINAL {
            0
        } else {
            n - MAX_OUTPUT_ORDINAL
        },
    decreases n,
{
    if n > 0 {
        law_identity_remap((n - 1) as nat);
    }
}

/// In a remapping that can be followed, a button with an output goes to one that
/// the controller declares.
pub proof fn law_remap_stays_within(n: nat, overrides: Map<u32, u32>, ordinal: int)
    requires
        n <= u32::MAX,
        is_remapping(n as int, overrides),
        1 <= ordinal <= n,
        target(overrides, ordinal) <= MAX_OUTPUT_ORDINAL,
    ensures
        1 <= target(overrides, ordinal) <= highest_output(n, overrides) <= MAX_OUTPUT_ORDINAL,
    decreases n,
{
    lemma_highest_output(n, overrides);
    lemma_reached(n, overrides, ordinal);
}

proof fn lemma_reached(n: nat, overrides: Map<u32, u32>, ordinal: int)
    requires
        1 <= ordinal <= n,
        target(overrides, ordinal) <= MAX_OUTPUT_ORDINAL,
    ensures
        target(overrides, ordinal) <= highest_output(n, overrides),
    decreases n,
{
    if ordinal < n {
        lemma_reached((n - 1) as nat, overrides, ordinal);
    }
}

// --- From a live joystick ---------------------------------------------------------------------

/// The axes of a live joystick.
pub open spec fn live_axes(axes: Seq<livemon::Axis>) -> Seq<AxisSpec> {
    Seq::new(
        axes.len(),
        |i: int|
            AxisSpec {
                code: axes[i].code,
                minimum: axes[i].minimum,
                maximum: axes[i].maximum,
                fuzz: 0,
                flat: 0,
            },
    )
}

/// The axes of a live joystick, as axes of a virtual controller.
pub fn axes_from_live(state: &LiveState) -> (r: Vec<AxisSpec>)
    ensures
        r@ == live_axes(state@.axes),
{
    let mut out: Vec<AxisSpec> = Vec::new();
    let mut i: usize = 0;
    while i < state.axes.len()
        invariant
            i <= state.axes.len(),
            out@ == live_axes(state@.axes).take(i as int),
        decreases state.axes.len() - i,
    {
        assert(state@.axes[i as int] == state.axes[i as int]@);
        let a: AxisSpec = AxisSpec::new(
            state.axes[i].code,
            state.axes[i].minimum,
            state.axes[i].maximum,
        );
        out.push(a);
        i += 1;
        assert(out@ == live_axes(state@.axes).take(i as int));
    }
    assert(live_axes(state@.axes).take(i as int) == live_axes(state@.axes));
    out
}

/// The name of the joystick from the bytes that the kernel gave, if it gave any.
pub fn source_name(reply: Option<&[u8]>) -> (r: String)
    ensures
        r@ == match reply {
            Some(b) => text::utf8_lossy(model::before_zero(b@)),
            None => Seq::empty(),
        },
{
    match reply {
        Some(b) => model::text_before_zero(b),
        None => {
            let r: String = String::new();
            assert(r@ == Seq::<char>::empty());
            r
        },
    }
}

/// The side that the name of a joystick ends with.
pub open spec fn side_of(source: Seq<char>) -> Seq<char> {
    let s = text::trim_end(source);
    if text::finishes_with(s, "R"@) {
        " R"@
    } else if text::finishes_with(s, "L"@) {
        " L"@
    } else {
        Seq::empty()
    }
}

pub fn side_suffix(source: &str) -> (r: &'static str)
    ensures
        r@ == side_of(source@),
{
    let s: String = text::trim_end_text(source);
    if text::str_ends_with(s.as_str(), "R") {
        " R"
    } else if text::str_ends_with(s.as_str(), "L") {
        " L"
    } else {
        proof {
            reveal_strlit("");
            assert(""@ == Seq::<char>::empty());
        }
        ""
    }
}

/// The name of the virtual controllers: the side keeps two joysticks apart.
pub open spec fn base_name(source: Seq<char>) -> Seq<char> {
    "WinWing URSA MINOR"@ + side_of(source)
}

/// The name of the virtual controllers of a joystick.
pub fn virtual_base_name(source: &str) -> (r: String)
    ensures
        r@ == base_name(source@),
{
    let mut out: String = "WinWing URSA MINOR".to_string();
    out.append(side_suffix(source));
    out
}

/// The plan of a live joystick: `split` spreads its buttons, `remap` follows the
/// remapping, and `curve` only shapes the axes.
pub fn build_plan(
    state: &LiveState,
    source: &str,
    mode: &str,
    overrides: &HashMap<u32, u32>,
    curves: &HashMap<u16, CurveData>,
) -> (r: Result<RemapPlan, String>)
    requires
        state.buttons.len() <= u32::MAX,
    ensures
        mode@ == "split"@ ==> r is Ok && is_split_plan(
            r->Ok_0,
            state@.buttons,
            live_axes(state@.axes),
            curves@,
            DEFAULT_SPLIT_DEVICES as int,
            DEFAULT_SPLIT_BUTTONS as int,
            base_name(source@),
        ),
        mode@ == "remap"@ ==> (r is Ok <==> is_remapping(
            state@.buttons.len() as int,
            overrides@,
        )),
        mode@ == "remap"@ && r is Ok ==> is_remap_plan(
            r->Ok_0,
            "remap"@,
            state@.buttons,
            live_axes(state@.axes),
            curves@,
            overrides@,
            base_name(source@) + " (remap)"@,
        ),
        mode@ == "remap"@ && r is Err ==> exists|src: u32| #[trigger]
            overrides@.contains_key(src) && !is_override(
                state@.buttons.len() as int,
                src,
                overrides@[src],
            ) && r->Err_0@ == override_refusal(
                state@.buttons.len() as int,
                src,
                overrides@[src],
            ),
        mode@ == "curve"@ ==> r is Ok && is_remap_plan(
            r->Ok_0,
            "curve"@,
            state@.buttons,
            live_axes(state@.axes),
            curves@,
            Map::empty(),
            base_name(source@) + " (courbe)"@,
        ),
        mode@ != "split"@ && mode@ != "remap"@ && mode@ != "curve"@ ==> r is Err && r->Err_0@
            == "mode inconnu : "@ + mode@,
{
    proof {
        reveal_strlit("split");
        reveal_strlit("remap");
        reveal_strlit("curve");
        assert("split"@[0] != "remap"@[0]);
        assert("split"@[0] != "curve"@[0]);
        assert("remap"@[0] != "curve"@[0]);
    }
    let mut name: String = virtual_base_name(source);
    let axes: Vec<AxisSpec> = axes_from_live(state);
    if text::str_eq(mode, "split") {
        Ok(
            plan_split(
                state.buttons.as_slice(),
                axes.as_slice(),
                curves,
                DEFAULT_SPLIT_DEVICES,
                DEFAULT_SPLIT_BUTTONS,
                name.as_str(),
            ),
        )
    } else if text::str_eq(mode, "remap") {
        name.append(" (remap)");
        plan_remap(
            state.buttons.as_slice(),
            axes.as_slice(),
            curves,
            overrides,
            name.as_str(),
        )
    } else if text::str_eq(mode, "curve") {
        name.append(" (courbe)");
        let none: HashMap<u32, u32> = HashMap::new();
        match plan_remap(
            state.buttons.as_slice(),
            axes.as_slice(),
            curves,
            &none,
            name.as_str(),
        ) {
            Ok(plan) => {
                let mut p: RemapPlan = plan;
                p.mode = "curve";
                Ok(p)
            },
            Err(e) => Err(e),
        }
    } else {
        let mut out: String = "mode inconnu : ".to_string();
        out.append(mode);
        Err(out)
    }
}

// --- Routing ----------------------------------------------------------------------------------

/// An event for a slot: the slot, the kind, the code and the value.
pub open spec fn key_events(routes: Seq<(usize, u16)>, value: i32) -> Seq<(usize, u16, u16, i32)> {
    Seq::new(routes.len(), |i: int| (routes[i].0, livemon::EV_KEY, routes[i].1, value))
}

/// The events of an axis, one for each slot that carries it.
pub open spec fn axis_events(slots: Seq<usize>, code: u16, value: i32) -> Seq<
    (usize, u16, u16, i32),
> {
    Seq::new(slots.len(), |i: int| (slots[i], livemon::EV_ABS, code, value))
}

/// The end of a group of events, for every slot.
pub open spec fn sync_events(n: nat) -> Seq<(usize, u16, u16, i32)> {
    Seq::new(n, |i: int| (i as usize, livemon::EV_SYN, SYN_REPORT, 0i32))
}

impl RemapPlan {
    /// The value of an axis after its curve, whose result is `curved`.
    pub open spec fn shaped(self, code: u16, value: i32, curved: i32) -> i32 {
        if self.abs_curve@.contains_key(code) {
            let (c, min, max) = self.abs_curve@[code];
            c.applied(value, min, max, curved) as i32
        } else {
            value
        }
    }

    /// The events of an axis with a value.
    pub open spec fn on_axis(self, code: u16, value: i32) -> Seq<(usize, u16, u16, i32)> {
        if self.abs_route@.contains_key(code) {
            axis_events(self.abs_route@[code]@, code, value)
        } else {
            Seq::empty()
        }
    }

    /// The events that a physical event becomes, rotations aside.
    pub open spec fn translated(self, kind: u16, code: u16, value: i32, curved: i32) -> Seq<
        (usize, u16, u16, i32),
    > {
        if kind == livemon::EV_KEY && self.key_route@.contains_key(code) {
            key_events(self.key_route@[code]@, value)
        } else if kind == livemon::EV_ABS {
            self.on_axis(code, self.shaped(code, value, curved))
        } else {
            Seq::empty()
        }
    }

    /// The events that go out for an event of an axis that does not turn, of a button,
    /// or at the end of a group: the repetition of a held button is not passed on.
    pub open spec fn passed_on(self, kind: u16, code: u16, value: i32, curved: i32) -> Seq<
        (usize, u16, u16, i32),
    > {
        if kind == livemon::EV_SYN {
            sync_events(self.slots@.len())
        } else if kind == livemon::EV_KEY && value == 2 {
            Seq::empty()
        } else {
            self.translated(kind, code, value, curved)
        }
    }

    /// The events of a pair after its rotation: both axes go out.
    pub open spec fn turned_out(
        self,
        link: RotationLink,
        a_value: i32,
        b_value: i32,
        turned: (i32, i32),
    ) -> Seq<(usize, u16, u16, i32)> {
        let (oa, ob) = axis_curve::rotated(
            a_value,
            link.a_min,
            link.a_max,
            b_value,
            link.b_min,
            link.b_max,
            link.angle_deg,
            turned,
        );
        self.on_axis(link.a, oa) + self.on_axis(link.b, ob)
    }

    /// Number of virtual controllers.
    pub fn n_slots(&self) -> (r: usize)
        ensures
            r == self.slots@.len(),
    {
        self.slots.len()
    }

    /// The value of an axis after its curve; `curved` is what the curve computes
    /// for the value. An axis without a curve keeps its value.
    pub fn shape_axis(&self, code: u16, value: i32, curved: i32) -> (r: i32)
        ensures
            r == self.shaped(code, value, curved),
    {
        match self.abs_curve.get(&code) {
            Some(e) => e.0.apply(value, e.1, e.2, curved),
            None => value,
        }
    }

    /// The events that a physical event becomes; `curved` is what the curve of the
    /// axis computes for the value. An event without a route becomes none.
    pub fn translate(&self, kind: u16, code: u16, value: i32, curved: i32) -> (r: Vec<
        (usize, u16, u16, i32),
    >)
        ensures
            r@ == self.translated(kind, code, value, curved),
    {
        if kind == livemon::EV_KEY {
            let mut out: Vec<(usize, u16, u16, i32)> = Vec::new();
            if let Some(routes) = self.key_route.get(&code) {
                let mut i: usize = 0;
                while i < routes.len()
                    invariant
                        i <= routes.len(),
                        out@ == key_events(routes@, value).take(i as int),
                    decreases routes.len() - i,
                {
                    out.push((routes[i].0, livemon::EV_KEY, routes[i].1, value));
                    i += 1;
                    assert(out@ == key_events(routes@, value).take(i as int));
                }
                assert(key_events(routes@, value).take(i as int) == key_events(routes@, value));
            }
            out
        } else if kind == livemon::EV_ABS {
            self.axis_output(code, self.shape_axis(code, value, curved))
        } else {
            Vec::new()
        }
    }

    fn axis_output(&self, code: u16, value: i32) -> (r: Vec<(usize, u16, u16, i32)>)
        ensures
            r@ == self.on_axis(code, value),
    {
        let mut out: Vec<(usize, u16, u16, i32)> = Vec::new();
        if let Some(slots) = self.abs_route.get(&code) {
            let mut i: usize = 0;
            while i < slots.len()
                invariant
                    i <= slots.len(),
                    out@ == axis_events(slots@, code, value).take(i as int),
                decreases slots.len() - i,
            {
                out.push((slots[i], livemon::EV_ABS, code, value));
                i += 1;
                assert(out@ == axis_events(slots@, code, value).take(i as int));
            }
            assert(axis_events(slots@, code, value).take(i as int) == axis_events(
                slots@,
                code,
                value,
            ));
        }
        out
    }
}

/// Whatever the curves compute, an axis without a curve of its own passes with its
/// raw value.
pub proof fn law_axis_without_curve_passes(p: RemapPlan, code: u16, value: i32, curved: i32)
    requires
        !p.abs_curve@.contains_key(code),
    ensures
        p.translated(livemon::EV_ABS, code, value, curved) == p.on_axis(code, value),
{
}

/// In a plan made from axes and curves, an axis whose curve changes nothing is not
/// curved, and a curved axis stays within its range.
pub proof fn law_curves_stay_in_range(
    p: RemapPlan,
    axes: Seq<AxisSpec>,
    curves: Map<u16, CurveData>,
    code: u16,
    value: i32,
    curved: i32,
)
    requires
        is_curve_table(p.abs_curve@, axes, curves),
    ensures
        curves.contains_key(code) && curves[code].passes() ==> p.shaped(code, value, curved)
            == value,
        !curves.contains_key(code) ==> p.shaped(code, value, curved) == value,
        axis_with(axes, code) is Some && axis_with(axes, code)->0.minimum <= value <= axis_with(
            axes,
            code,
        )->0.maximum ==> axis_with(axes, code)->0.minimum <= p.shaped(code, value, curved)
            <= axis_with(axes, code)->0.maximum,
{
    let known = p.abs_curve@.contains_key(code);
    assert(known ==> curve_for(axes, curves, code) is Some);
}

/// What follows from an event.
#[derive(Debug, PartialEq, Eq)]
pub enum RouteStep {
    /// These events go out.
    Emit(Vec<(usize, u16, u16, i32)>),
    /// The pair of axes is turned first, and [`Router::turn`] says what goes out.
    Rotate { link: RotationLink, a_value: i32, b_value: i32 },
}

/// The events of a joystick on their way to the virtual controllers.
#[derive(Debug, PartialEq)]
pub struct Router {
    pub plan: RemapPlan,
    /// The last value of each axis that turns, after its curve.
    pub axis_shaped: HashMap<u16, i32>,
}

/// The middle of a range.
pub open spec fn middle(min: i32, max: i32) -> i32 {
    if min <= max {
        (min + (max - min) / 2) as i32
    } else {
        (min - (min - max) / 2) as i32
    }
}

/// The length of the range is a number of the machine.
pub open spec fn has_span(min: i32, max: i32) -> bool {
    i32::MIN <= max - min <= i32::MAX
}

/// The ranges of all axes that turn have a length.
pub open spec fn have_spans(rotations: Map<u16, RotationLink>) -> bool {
    forall|code: u16| #[trigger]
        rotations.contains_key(code) ==> has_span(rotations[code].a_min, rotations[code].a_max)
            && has_span(rotations[code].b_min, rotations[code].b_max)
}

/// The last value of an axis; the middle of its range as long as it was not seen.
pub open spec fn last_value(seen: Map<u16, i32>, code: u16, min: i32, max: i32) -> i32 {
    if seen.contains_key(code) {
        seen[code]
    } else {
        middle(min, max)
    }
}

impl Router {
    pub fn new(plan: RemapPlan) -> (r: Self)
        ensures
            r.plan == plan,
            r.axis_shaped@ == Map::<u16, i32>::empty(),
    {
        Router { plan, axis_shaped: HashMap::new() }
    }

    /// Routes an event; `curved` is what the curve of the axis computes for the
    /// value. The end of a group goes to every controller, the repetition of a held
    /// button nowhere. An axis that turns is turned with the last value of its
    /// partner.
    pub fn route(&mut self, kind: u16, code: u16, value: i32, curved: i32) -> (r: RouteStep)
        requires
            have_spans(old(self).plan.rotations@),
        ensures
            final(self).plan == old(self).plan,
            kind == livemon::EV_ABS && old(self).plan.rotations@.contains_key(code) ==> {
                let link = old(self).plan.rotations@[code];
                let seen = old(self).axis_shaped@.insert(
                    code,
                    old(self).plan.shaped(code, value, curved),
                );
                &&& final(self).axis_shaped@ == seen
                &&& r == (RouteStep::Rotate {
                    link,
                    a_value: last_value(seen, link.a, link.a_min, link.a_max),
                    b_value: last_value(seen, link.b, link.b_min, link.b_max),
                })
            },
            !(kind == livemon::EV_ABS && old(self).plan.rotations@.contains_key(code)) ==> {
                &&& final(self).axis_shaped@ == old(self).axis_shaped@
                &&& r is Emit
                &&& r->Emit_0@ == old(self).plan.passed_on(kind, code, value, curved)
            },
    {
        if kind == livemon::EV_SYN {
            let n: usize = self.plan.n_slots();
            let mut out: Vec<(usize, u16, u16, i32)> = Vec::new();
            let mut i: usize = 0;
            while i < n
                invariant
                    i <= n,
                    out@ == sync_events(i as nat),
                decreases n - i,
            {
                out.push((i, livemon::EV_SYN, SYN_REPORT, 0));
                i += 1;
                assert(out@ == sync_events(i as nat));
            }
            return RouteStep::Emit(out);
        }
        if kind == livemon::EV_KEY && value == 2 {
            return RouteStep::Emit(Vec::new());
        }
        if kind == livemon::EV_ABS {
            let found: Option<RotationLink> = match self.plan.rotations.get(&code) {
                Some(l) => Some(*l),
                None => None,
            };
            if let Some(link) = found {
                let shaped: i32 = self.plan.shape_axis(code, value, curved);
                self.axis_shaped.insert(code, shaped);
                let a_value: i32 = match self.axis_shaped.get(&link.a) {
                    Some(v) => *v,
                    None => midpoint(link.a_min, link.a_max),
                };
                let b_value: i32 = match self.axis_shaped.get(&link.b) {
                    Some(v) => *v,
                    None => midpoint(link.b_min, link.b_max),
                };
                return RouteStep::Rotate { link, a_value, b_value };
            }
        }
        RouteStep::Emit(self.plan.translate(kind, code, value, curved))
    }

    /// The events of a pair after its rotation, whose result is `turned`: both axes
    /// go out.
    pub fn turn(&self, link: &RotationLink, a_value: i32, b_value: i32, turned: (i32, i32)) -> (r:
        Vec<(usize, u16, u16, i32)>)
        ensures
            r@ == self.plan.turned_out(*link, a_value, b_value, turned),
    {
        let pair: (i32, i32) = axis_curve::rotate_pair(
            a_value,
            link.a_min,
            link.a_max,
            b_value,
            link.b_min,
            link.b_max,
            link.angle_deg,
            turned,
        );
        let mut out: Vec<(usize, u16, u16, i32)> = self.plan.axis_output(link.a, pair.0);
        let more: Vec<(usize, u16, u16, i32)> = self.plan.axis_output(link.b, pair.1);
        let ghost first = out@;
        let mut i: usize = 0;
        while i < more.len()
            invariant
                i <= more.len(),
                out@ == first + more@.take(i as int),
            decreases more.len() - i,
        {
            out.push(more[i]);
            i += 1;
            assert(more@.take(i as int) == more@.take(i - 1).push(more@[i - 1]));
        }
        assert(more@.take(i as int) == more@);
        out
    }
}

/// An event stands for something that a controller of the plan declares.
pub open spec fn is_declared(p: RemapPlan, e: (usize, u16, u16, i32)) -> bool {
    &&& e.0 < p.slots@.len()
    &&& e.1 == livemon::EV_KEY ==> p.slots@[e.0 as int].buttons@.contains(e.2)
    &&& e.1 == livemon::EV_ABS ==> axis_codes(p.slots@[e.0 as int].axes@).contains(e.2)
}

proof fn lemma_last_place(codes: Seq<u16>, code: u16)
    ensures
        last_place(codes, code) is Some ==> 0 <= last_place(codes, code)->0 < codes.len(),
    decreases codes.len(),
{
    if codes.len() > 0 {
        lemma_last_place(codes.drop_last(), code);
    }
}

proof fn lemma_last_routed(codes: Seq<u16>, overrides: Map<u32, u32>, code: u16)
    ensures
        last_routed(codes, overrides, code) is Some ==> {
            let i = last_routed(codes, overrides, code)->0;
            0 <= i < codes.len() && target(overrides, i + 1) <= MAX_OUTPUT_ORDINAL
        },
    decreases codes.len(),
{
    if codes.len() > 0 {
        lemma_last_routed(codes.drop_last(), overrides, code);
    }
}

proof fn lemma_axis_code(axes: Seq<AxisSpec>, code: u16)
    requires
        axis_with(axes, code) is Some,
    ensures
        axis_codes(axes).contains(code),
    decreases axes.len(),
{
    if axes.last().code == code {
        assert(axis_codes(axes)[axes.len() - 1] == code);
    } else {
        lemma_axis_code(axes.drop_last(), code);
        let i = choose|i: int|
            0 <= i < axes.len() - 1 && axis_codes(axes.drop_last())[i] == code;
        assert(axis_codes(axes)[i] == code);
    }
}

/// Whatever the joystick sends, a split only emits what its controllers declare.
pub proof fn law_split_emits_what_it_declares(
    p: RemapPlan,
    buttons: Seq<u16>,
    axes: Seq<AxisSpec>,
    curves: Map<u16, CurveData>,
    n: int,
    per: int,
    name: Seq<char>,
    event: (u16, u16, i32),
    curved: i32,
    i: int,
)
    requires
        n > 0,
        per > 0,
        is_split_plan(p, buttons, axes, curves, n, per, name),
        0 <= i < p.translated(event.0, event.1, event.2, curved).len(),
    ensures
        is_declared(p, p.translated(event.0, event.1, event.2, curved)[i]),
{
    let code = event.1;
    let kept = placed(buttons, n * per);
    let views = slot_views(p.slots@);
    assert(views.len() == n);
    if event.0 == livemon::EV_KEY {
        let known = p.key_route@.contains_key(code);
        assert(known);
        assert(last_place(kept, code) is Some);
        lemma_last_place(kept, code);
        let k = last_place(kept, code)->0;
        law_split_stays_within(k, kept.len() as int, n, per);
        let s = k / per;
        assert(views[s] == split_slot(name, n, kept.len() as int, per, axes, s));
        assert(views[s].buttons[k % per] == code_of(k % per)) by {
            assert(0 <= k % per) by (nonlinear_arith)
                requires
                    per > 0,
            ;
        }
    } else {
        let known = p.abs_route@.contains_key(code);
        assert(known);
        assert(axis_with(axes, code) is Some);
        assert(views[0] == split_slot(name, n, kept.len() as int, per, axes, 0));
        lemma_axis_code(axes, code);
    }
}

/// Whatever the joystick sends, a remapping only emits what its controller
/// declares.
pub proof fn law_remap_emits_what_it_declares(
    p: RemapPlan,
    mode: Seq<char>,
    buttons: Seq<u16>,
    axes: Seq<AxisSpec>,
    curves: Map<u16, CurveData>,
    overrides: Map<u32, u32>,
    name: Seq<char>,
    event: (u16, u16, i32),
    curved: i32,
    i: int,
)
    requires
        buttons.len() <= u32::MAX,
        is_remapping(buttons.len() as int, overrides),
        is_remap_plan(p, mode, buttons, axes, curves, overrides, name),
        0 <= i < p.translated(event.0, event.1, event.2, curved).len(),
    ensures
        is_declared(p, p.translated(event.0, event.1, event.2, curved)[i]),
{
    let code = event.1;
    let views = slot_views(p.slots@);
    let slot = Slot {
        name,
        buttons: first_outputs(highest_output(buttons.len(), overrides) as nat),
        axes,
    };
    assert(views.len() == 1 && views[0] == slot);
    if event.0 == livemon::EV_KEY {
        let known = p.key_route@.contains_key(code);
        assert(known);
        assert(last_routed(buttons, overrides, code) is Some);
        lemma_last_routed(buttons, overrides, code);
        let k = last_routed(buttons, overrides, code)->0;
        law_remap_stays_within(buttons.len(), overrides, k + 1);
        let t = target(overrides, k + 1);
        assert(slot.buttons[t - 1] == code_of(t - 1));
    } else {
        let known = p.abs_route@.contains_key(code);
        assert(known);
        assert(axis_with(axes, code) is Some);
        lemma_axis_code(axes, code);
    }
}

// --- Laws of the routing ------------------------------------------------------------------------

/// The first sixteen outputs are the buttons of a joystick, the others those beyond
/// a gamepad; a later output has a later code.
pub proof fn law_outputs_ascend(a: int, b: int)
    requires
        0 <= a < b <= MAX_OUTPUT_INDEX,
    ensures
        code_of(0) == 0x120,
        code_of(15) == 0x12F,
        code_of(16) == 0x2C0,
        code_of(a) < code_of(b),
        b == a + 1 && b != 16 ==> code_of(b) == code_of(a) + 1,
{
}

proof fn lemma_place_of_distinct(codes: Seq<u16>, i: int)
    requires
        codes.no_duplicates(),
        0 <= i < codes.len(),
    ensures
        last_place(codes, codes[i]) == Some(i),
    decreases codes.len(),
{
    if i < codes.len() - 1 {
        assert(codes.last() == codes[codes.len() - 1]);
        assert(codes.drop_last()[i] == codes[i]);
        assert(codes.drop_last().no_duplicates());
        lemma_place_of_distinct(codes.drop_last(), i);
    }
}

proof fn lemma_absent(codes: Seq<u16>, code: u16)
    requires
        !codes.contains(code),
    ensures
        last_place(codes, code) is None,
    decreases codes.len(),
{
    if codes.len() > 0 {
        assert(codes[codes.len() - 1] != code);
        assert forall|j: int| 0 <= j < codes.drop_last().len() implies codes.drop_last()[j]
            != code by {
            assert(codes[j] != code);
        }
        lemma_absent(codes.drop_last(), code);
    }
}

/// In a split the buttons fill one controller after the other: the button at place
/// `i` comes out once, with its own value, on the controller whose bank it falls in,
/// as the button of its place in the bank. Beyond the banks nothing comes out, and
/// as many buttons are said to be dropped.
pub proof fn law_split_fills_banks(
    p: RemapPlan,
    buttons: Seq<u16>,
    axes: Seq<AxisSpec>,
    curves: Map<u16, CurveData>,
    n: int,
    per: int,
    name: Seq<char>,
    i: int,
    value: i32,
    curved: i32,
)
    requires
        0 < n,
        0 < per <= MAX_OUTPUT_INDEX + 1,
        n * per <= usize::MAX,
        buttons.no_duplicates(),
        0 <= i < buttons.len(),
        is_split_plan(p, buttons, axes, curves, n, per, name),
    ensures
        p.slots@.len() == n,
        i < n * per ==> {
            let out = p.translated(1, buttons[i], value, curved);
            &&& out.len() == 1
            &&& out[0].0 * per <= i < (out[0].0 + 1) * per
            &&& out[0].1 == 1
            &&& out[0].2 == code_of(i - out[0].0 * per)
            &&& out[0].3 == value
        },
        i >= n * per ==> p.translated(1, buttons[i], value, curved).len() == 0,
        buttons.len() <= n * per ==> p.dropped == 0,
        buttons.len() > n * per ==> p.dropped == buttons.len() - n * per,
{
    let kept = placed(buttons, n * per);
    let views = slot_views(p.slots@);
    assert(views.len() == n);
    let code = buttons[i];
    assert(n * per > 0) by (nonlinear_arith)
        requires
            n > 0,
            per > 0,
    ;
    if i < n * per {
        assert(kept[i] == code);
        lemma_place_of_distinct(kept, i);
        assert(p.key_route@.contains_key(code));
        let s = i / per;
        assert(0 <= s && s <= i && s * per <= i < (s + 1) * per && i % per == i - s * per) by (
        nonlinear_arith)
            requires
                0 <= i,
                per > 0,
                s == i / per,
        ;
        let out = p.translated(1, code, value, curved);
        assert(out == key_events(p.key_route@[code]@, value));
        assert(out[0].0 == s);
    } else {
        assert(!kept.contains(code)) by {
            if kept.contains(code) {
                let j = choose|j: int| 0 <= j < kept.len() && kept[j] == code;
                assert(buttons[j] == code);
            }
        }
        lemma_absent(kept, code);
        assert(!p.key_route@.contains_key(code));
    }
}

proof fn lemma_routed_of_distinct(codes: Seq<u16>, overrides: Map<u32, u32>, i: int)
    requires
        codes.no_duplicates(),
        0 <= i < codes.len(),
    ensures
        target(overrides, i + 1) <= MAX_OUTPUT_ORDINAL ==> last_routed(codes, overrides, codes[i])
            == Some(i),
        target(overrides, i + 1) > MAX_OUTPUT_ORDINAL ==> last_routed(codes, overrides, codes[i])
            is None,
    decreases codes.len(),
{
    let before = codes.drop_last();
    assert(codes.last() == codes[codes.len() - 1]);
    assert(before.no_duplicates());
    if i < codes.len() - 1 {
        assert(before[i] == codes[i]);
        lemma_routed_of_distinct(before, overrides, i);
    } else {
        lemma_not_routed(before, overrides, codes[i]);
    }
}

proof fn lemma_not_routed(codes: Seq<u16>, overrides: Map<u32, u32>, code: u16)
    requires
        forall|j: int| 0 <= j < codes.len() ==> codes[j] != code,
    ensures
        last_routed(codes, overrides, code) is None,
    decreases codes.len(),
{
    if codes.len() > 0 {
        assert(codes[codes.len() - 1] != code);
        lemma_not_routed(codes.drop_last(), overrides, code);
    }
}

/// In a remapping a button comes out once, with its own value, as the output that
/// the remapping names for its number, or, when it names none, as the output of its
/// own number. Numbers beyond the last output come out nowhere.
pub proof fn law_remap_follows_the_numbers(
    p: RemapPlan,
    mode: Seq<char>,
    buttons: Seq<u16>,
    axes: Seq<AxisSpec>,
    curves: Map<u16, CurveData>,
    overrides: Map<u32, u32>,
    name: Seq<char>,
    i: int,
    value: i32,
    curved: i32,
)
    requires
        buttons.len() <= u32::MAX,
        buttons.no_duplicates(),
        0 <= i < buttons.len(),
        is_remapping(buttons.len() as int, overrides),
        is_remap_plan(p, mode, buttons, axes, curves, overrides, name),
    ensures
        ({
            let out = p.translated(1, buttons[i], value, curved);
            let number = (i + 1) as u32;
            &&& overrides.contains_key(number) ==> out == seq![
                (0usize, 1u16, code_of(overrides[number] - 1), value),
            ]
            &&& !overrides.contains_key(number) && i < MAX_OUTPUT_ORDINAL ==> out == seq![
                (0usize, 1u16, code_of(i), value),
            ]
            &&& !overrides.contains_key(number) && i >= MAX_OUTPUT_ORDINAL ==> out.len() == 0
        }),
        p.slots@.len() == 1,
{
    let code = buttons[i];
    let number = (i + 1) as u32;
    assert(slot_views(p.slots@).len() == 1);
    lemma_routed_of_distinct(buttons, overrides, i);
    if overrides.contains_key(number) {
        assert(is_override(buttons.len() as int, number, overrides[number]));
    }
    let out = p.translated(1, code, value, curved);
    if target(overrides, i + 1) <= MAX_OUTPUT_ORDINAL {
        assert(p.key_route@.contains_key(code));
        assert(p.key_route@[code]@ == output_route(overrides, i));
        assert(out == key_events(output_route(overrides, i), value));
        if overrides.contains_key(number) {
            assert(out =~= seq![(0usize, 1u16, code_of(overrides[number] - 1), value)]);
        } else {
            assert(out =~= seq![(0usize, 1u16, code_of(i), value)]);
        }
    } else {
        assert(!p.key_route@.contains_key(code));
    }
}

/// A remapping can be followed exactly when every entry leads from a button that is
/// there to an output that is there; both count from one.
pub proof fn law_followed_remappings(n: int, overrides: Map<u32, u32>, src: u32)
    requires
        overrides.contains_key(src),
    ensures
        is_remapping(n, overrides) ==> 1 <= src <= n && 1 <= overrides[src]
            <= MAX_OUTPUT_ORDINAL,
        src == 0 || src > n || overrides[src] == 0 || overrides[src] > MAX_OUTPUT_ORDINAL
            ==> !is_remapping(n, overrides),
        MAX_OUTPUT_ORDINAL == 80,
{
}

/// The controller of a remapping declares no button without use at its end: its last
/// one is the output of some button.
pub proof fn law_last_output_is_used(n: nat, overrides: Map<u32, u32>)
    requires
        highest_output(n, overrides) > 0,
    ensures
        exists|i: int| 1 <= i <= n && target(overrides, i) == highest_output(n, overrides),
    decreases n,
{
    let before = highest_output((n - 1) as nat, overrides);
    if highest_output(n, overrides) == before {
        law_last_output_is_used((n - 1) as nat, overrides);
        let i = choose|i: int| 1 <= i <= n - 1 && target(overrides, i) == before;
        assert(target(overrides, i) == highest_output(n, overrides));
    } else {
        assert(target(overrides, n as int) == highest_output(n, overrides));
    }
}

/// The codes of the axes are all different.
pub open spec fn has_distinct_axes(axes: Seq<AxisSpec>) -> bool {
    forall|i: int, j: int|
        0 <= i < j < axes.len() ==> (#[trigger] axes[i]).code != (#[trigger] axes[j]).code
}

proof fn lemma_axis_of_distinct(axes: Seq<AxisSpec>, i: int)
    requires
        has_distinct_axes(axes),
        0 <= i < axes.len(),
    ensures
        axis_with(axes, axes[i].code) == Some(axes[i]),
    decreases axes.len(),
{
    if i < axes.len() - 1 {
        assert(axes.last() == axes[axes.len() - 1]);
        assert(axes.drop_last()[i] == axes[i]);
        lemma_axis_of_distinct(axes.drop_last(), i);
    }
}

/// An axis comes out once, on the first controller, under its own code. Its value is
/// the raw one as long as no setting acts on it; else the one that its settings make
/// of it within the range of that axis: the computed value when they bend it, and the
/// mirrored one when they only invert it.
pub proof fn law_axis_goes_through_its_own_settings(
    p: RemapPlan,
    axes: Seq<AxisSpec>,
    curves: Map<u16, CurveData>,
    i: int,
    value: i32,
    curved: i32,
)
    requires
        is_curve_table(p.abs_curve@, axes, curves),
        is_axis_route(p.abs_route@, axes),
        has_distinct_axes(axes),
        0 <= i < axes.len(),
    ensures
        ({
            let code = axes[i].code;
            let (lo, hi) = (axes[i].minimum, axes[i].maximum);
            let out = p.translated(3, code, value, curved);
            let c = curves[code];
            &&& out.len() == 1
            &&& out[0].0 == 0 && out[0].1 == 3 && out[0].2 == code
            &&& !curves.contains_key(code) ==> out[0].3 == value
            &&& curves.contains_key(code) && c.passes() ==> out[0].3 == value
            &&& lo >= hi ==> out[0].3 == value
            &&& curves.contains_key(code) && !c.straight() && lo <= curved <= hi && lo < hi
                ==> out[0].3 == curved
            &&& curves.contains_key(code) && c.straight() && c.is_reversed && lo <= value <= hi
                && lo < hi ==> out[0].3 - lo == hi - value
        }),
{
    let code = axes[i].code;
    lemma_axis_of_distinct(axes, i);
    let curved_axis = p.abs_curve@.contains_key(code);
    assert(curved_axis ==> curve_for(axes, curves, code) is Some);
    assert(!curved_axis ==> curve_for(axes, curves, code) is None);
    assert(p.abs_route@.contains_key(code) && p.abs_route@[code]@ == seq![0usize]);
    let out = p.translated(3, code, value, curved);
    assert(out == p.on_axis(code, p.shaped(code, value, curved)));
}

/// What is not routed comes out nowhere: an axis that the joystick does not have, and
/// events of other kinds than buttons and axes.
pub proof fn law_nothing_else_comes_out(
    p: RemapPlan,
    axes: Seq<AxisSpec>,
    kind: u16,
    code: u16,
    value: i32,
    curved: i32,
)
    requires
        is_axis_route(p.abs_route@, axes),
        kind != 1,
        kind == 3 ==> forall|i: int| 0 <= i < axes.len() ==> (#[trigger] axes[i]).code != code,
    ensures
        p.translated(kind, code, value, curved).len() == 0,
{
    if kind == 3 {
        lemma_no_such_axis(axes, code);
        assert(!p.abs_route@.contains_key(code));
    }
}

proof fn lemma_no_such_axis(axes: Seq<AxisSpec>, code: u16)
    requires
        forall|i: int| 0 <= i < axes.len() ==> (#[trigger] axes[i]).code != code,
    ensures
        axis_with(axes, code) is None,
    decreases axes.len(),
{
    if axes.len() > 0 {
        assert(axes.last() == axes[axes.len() - 1]);
        assert forall|i: int| 0 <= i < axes.drop_last().len() implies (#[trigger] axes.drop_last()[i]).code
            != code by {
            assert(axes.drop_last()[i] == axes[i]);
        }
        lemma_no_such_axis(axes.drop_last(), code);
    }
}

/// The end of a group of events goes to every controller once.
pub proof fn law_sync_reaches_every_controller(n: nat, i: int)
    requires
        0 <= i < n <= usize::MAX,
    ensures
        sync_events(n).len() == n,
        sync_events(n)[i] == (i as usize, 0u16, 0u16, 0i32),
{
}

/// The axis at place `i` turns in the group.
pub open spec fn turns_in(axes: Seq<AxisSpec>, curves: Map<u16, CurveData>, group: u32, i: int) -> bool {
    let code = axes[i].code;
    curves.contains_key(code) && curves[code].rotate != 0 && group != 0
        && curves[code].rotate_group == group
}

proof fn lemma_no_members(axes: Seq<AxisSpec>, curves: Map<u16, CurveData>, group: u32)
    requires
        forall|k: int| 0 <= k < axes.len() ==> !turns_in(axes, curves, group, k),
    ensures
        members(axes, curves, group).len() == 0,
    decreases axes.len(),
{
    if axes.len() > 0 {
        let before = axes.drop_last();
        assert forall|k: int| 0 <= k < before.len() implies !turns_in(before, curves, group, k) by {
            assert(!turns_in(axes, curves, group, k));
        }
        lemma_no_members(before, curves, group);
        assert(!turns_in(axes, curves, group, axes.len() - 1));
    }
}

proof fn lemma_one_member(axes: Seq<AxisSpec>, curves: Map<u16, CurveData>, group: u32, i: int)
    requires
        0 <= i < axes.len(),
        forall|k: int| 0 <= k < axes.len() ==> (turns_in(axes, curves, group, k) <==> k == i),
    ensures
        members(axes, curves, group) == seq![axes[i].code],
    decreases axes.len(),
{
    let before = axes.drop_last();
    assert forall|k: int| 0 <= k < before.len() implies (turns_in(before, curves, group, k) <==> k
        == i) by {
        assert(turns_in(axes, curves, group, k) <==> k == i);
    }
    assert(turns_in(axes, curves, group, axes.len() - 1) <==> axes.len() - 1 == i);
    if i == axes.len() - 1 {
        lemma_no_members(before, curves, group);
    } else {
        lemma_one_member(before, curves, group, i);
        assert(before[i] == axes[i]);
    }
    assert(members(axes, curves, group) =~= seq![axes[i].code]);
}

proof fn lemma_two_members(
    axes: Seq<AxisSpec>,
    curves: Map<u16, CurveData>,
    group: u32,
    i: int,
    j: int,
)
    requires
        0 <= i < j < axes.len(),
        forall|k: int|
            0 <= k < axes.len() ==> (turns_in(axes, curves, group, k) <==> (k == i || k == j)),
    ensures
        members(axes, curves, group) == seq![axes[i].code, axes[j].code],
    decreases axes.len(),
{
    let before = axes.drop_last();
    assert forall|k: int| 0 <= k < before.len() implies (turns_in(before, curves, group, k) <==> (k
        == i || k == j)) by {
        assert(turns_in(axes, curves, group, k) <==> (k == i || k == j));
    }
    assert(turns_in(axes, curves, group, axes.len() - 1) <==> axes.len() - 1 == j);
    if j == axes.len() - 1 {
        lemma_one_member(before, curves, group, i);
    } else {
        lemma_two_members(before, curves, group, i, j);
        assert(before[j] == axes[j]);
    }
    assert(before[i] == axes[i]);
    assert(members(axes, curves, group) =~= seq![axes[i].code, axes[j].code]);
}

/// Two axes that are alone in a group turn together: each with the other, by the
/// angle of the one with the lower code, each within the range of its own axis.
pub proof fn law_a_pair_turns_together(
    axes: Seq<AxisSpec>,
    curves: Map<u16, CurveData>,
    group: u32,
    i: int,
    j: int,
)
    requires
        has_distinct_axes(axes),
        group != 0,
        0 <= i < j < axes.len(),
        forall|k: int|
            0 <= k < axes.len() ==> (turns_in(axes, curves, group, k) <==> (k == i || k == j)),
    ensures
        ({
            let (x, y) = if axes[i].code < axes[j].code {
                (axes[i], axes[j])
            } else {
                (axes[j], axes[i])
            };
            let link = rotation_for(axes, curves, axes[i].code);
            &&& link is Some && rotation_for(axes, curves, axes[j].code) == link
            &&& link->0.a == x.code && link->0.b == y.code
            &&& link->0.a_min == x.minimum && link->0.a_max == x.maximum
            &&& link->0.b_min == y.minimum && link->0.b_max == y.maximum
            &&& -25 <= curves[x.code].rotate <= 25 ==> link->0.angle_deg == curves[x.code].rotate
        }),
{
    assert(turns_in(axes, curves, group, i) && turns_in(axes, curves, group, j));
    lemma_axis_of_distinct(axes, i);
    lemma_axis_of_distinct(axes, j);
    lemma_two_members(axes, curves, group, i, j);
}

/// An axis that does not turn, by its own settings, has no partner; nor has one that
/// is alone in its group.
pub proof fn law_no_turn_without_a_partner(
    axes: Seq<AxisSpec>,
    curves: Map<u16, CurveData>,
    group: u32,
    i: int,
)
    requires
        0 <= i < axes.len(),
    ensures
        !curves.contains_key(axes[i].code) || curves[axes[i].code].rotate == 0
            || curves[axes[i].code].rotate_group == 0 ==> rotation_for(axes, curves, axes[i].code)
            is None,
        (forall|k: int| 0 <= k < axes.len() ==> (turns_in(axes, curves, group, k) <==> k == i))
            ==> rotation_for(axes, curves, axes[i].code) is None,
{
    if forall|k: int| 0 <= k < axes.len() ==> (turns_in(axes, curves, group, k) <==> k == i) {
        assert(turns_in(axes, curves, group, i));
        lemma_one_member(axes, curves, group, i);
    }
}

/// An axis that was not seen yet counts as being in the middle of its range: as far
/// from one end as from the other, but for one step. One that was seen counts with
/// its last value.
pub proof fn law_unseen_axis_is_centered(seen: Map<u16, i32>, code: u16, min: i32, max: i32)
    ensures
        seen.contains_key(code) ==> last_value(seen, code, min, max) == seen[code],
        !seen.contains_key(code) ==> ({
            let m = last_value(seen, code, min, max) as int;
            &&& -1 <= (m - min) - (max - m) <= 1
            &&& min <= max ==> min <= m <= max
        }),
{
}

/// The axes of a live joystick keep their order, their codes and their ranges.
pub proof fn law_live_axes_keep_their_ranges(axes: Seq<livemon::Axis>, i: int)
    requires
        0 <= i < axes.len(),
    ensures
        live_axes(axes).len() == axes.len(),
        live_axes(axes)[i].code == axes[i].code,
        live_axes(axes)[i].minimum == axes[i].minimum,
        live_axes(axes)[i].maximum == axes[i].maximum,
{
}

// --- Virtual controllers -----------------------------------------------------------------------

/// The requests that declare keys or axes, each with its code.
pub open spec fn declared(request: u64, codes: Seq<u16>) -> Seq<(u64, i32)> {
    Seq::new(codes.len(), |i: int| (request, codes[i] as i32))
}

/// The codes of axes.
pub open spec fn axis_codes(axes: Seq<AxisSpec>) -> Seq<u16> {
    Seq::new(axes.len(), |i: int| axes[i].code)
}

/// The requests that declare what a controller has, in order.
pub open spec fn setup_of(s: Slot) -> Seq<(u64, i32)> {
    seq![(UI_SET_EVBIT, livemon::EV_SYN as i32)] + (if s.buttons.len() > 0 {
        seq![(UI_SET_EVBIT, livemon::EV_KEY as i32)] + declared(UI_SET_KEYBIT, s.buttons)
    } else {
        Seq::empty()
    }) + (if s.axes.len() > 0 {
        seq![(UI_SET_EVBIT, livemon::EV_ABS as i32)] + declared(UI_SET_ABSBIT, axis_codes(s.axes))
    } else {
        Seq::empty()
    })
}

/// The requests that declare what a virtual controller has, each with its value,
/// in the order in which they are made.
pub fn setup(spec: &OutSpec) -> (r: Vec<(u64, i32)>)
    ensures
        r@ == setup_of(spec@),
{
    let mut out: Vec<(u64, i32)> = Vec::new();
    out.push((UI_SET_EVBIT, livemon::EV_SYN as i32));
    let ghost start = out@;
    assert(start == seq![(UI_SET_EVBIT, livemon::EV_SYN as i32)]);
    if spec.buttons.len() > 0 {
        out.push((UI_SET_EVBIT, livemon::EV_KEY as i32));
        let mut i: usize = 0;
        assert(out@ == start + (seq![(UI_SET_EVBIT, livemon::EV_KEY as i32)] + declared(
            UI_SET_KEYBIT,
            spec.buttons@.take(0),
        )));
        while i < spec.buttons.len()
            invariant
                i <= spec.buttons.len(),
                out@ == start + (seq![(UI_SET_EVBIT, livemon::EV_KEY as i32)] + declared(
                    UI_SET_KEYBIT,
                    spec.buttons@.take(i as int),
                )),
            decreases spec.buttons.len() - i,
        {
            out.push((UI_SET_KEYBIT, spec.buttons[i] as i32));
            i += 1;
            assert(out@ == start + (seq![(UI_SET_EVBIT, livemon::EV_KEY as i32)] + declared(
                UI_SET_KEYBIT,
                spec.buttons@.take(i as int),
            )));
        }
        assert(spec.buttons@.take(i as int) == spec.buttons@);
    } else {
        assert(start + Seq::<(u64, i32)>::empty() == start);
    }
    let ghost middle = out@;
    if spec.axes.len() > 0 {
        out.push((UI_SET_EVBIT, livemon::EV_ABS as i32));
        let mut i: usize = 0;
        assert(out@ == middle + (seq![(UI_SET_EVBIT, livemon::EV_ABS as i32)] + declared(
            UI_SET_ABSBIT,
            axis_codes(spec.axes@.take(0)),
        )));
        while i < spec.axes.len()
            invariant
                i <= spec.axes.len(),
                out@ == middle + (seq![(UI_SET_EVBIT, livemon::EV_ABS as i32)] + declared(
                    UI_SET_ABSBIT,
                    axis_codes(spec.axes@.take(i as int)),
                )),
            decreases spec.axes.len() - i,
        {
            out.push((UI_SET_ABSBIT, spec.axes[i].code as i32));
            i += 1;
            assert(out@ == middle + (seq![(UI_SET_EVBIT, livemon::EV_ABS as i32)] + declared(
                UI_SET_ABSBIT,
                axis_codes(spec.axes@.take(i as int)),
            )));
        }
        assert(spec.axes@.take(i as int) == spec.axes@);
    } else {
        assert(middle + Seq::<(u64, i32)>::empty() == middle);
    }
    out
}

/// The name of a controller in its field: cut so that a zero ends it, and padded.
pub open spec fn name_field(name: Seq<char>) -> Seq<u8> {
    let b = vstd::utf8::encode_utf8(name);
    Seq::new(
        80,
        |i: int|
            if i < 79 && i < b.len() {
                b[i]
            } else {
                0u8
            },
    )
}

/// Numbers one after the other.
pub open spec fn packed(values: Seq<i32>, little: bool) -> Seq<u8>
    decreases values.len(),
{
    if values.len() == 0 {
        Seq::empty()
    } else {
        packed(values.drop_last(), little) + native::bytes_signed(values.last(), little)
    }
}

/// One number for each axis code; zero for the codes without an axis.
pub open spec fn by_code(axes: Seq<AxisSpec>, value: spec_fn(AxisSpec) -> i32) -> Seq<i32> {
    Seq::new(
        64,
        |c: int|
            match axis_with(axes, c as u16) {
                Some(ax) => value(ax),
                None => 0,
            },
    )
}

/// The structure that declares a controller: its name, its identity, and the
/// upper ends, lower ends, noise and dead ranges of its axes.
pub open spec fn user_dev(
    name: Seq<char>,
    product: u16,
    version: u16,
    axes: Seq<AxisSpec>,
    little: bool,
) -> Seq<u8> {
    name_field(name) + native::bytes16(BUS_VIRTUAL, little) + native::bytes16(VIRT_VENDOR, little)
        + native::bytes16(product, little) + native::bytes16(version, little)
        + native::bytes_signed(0, little) + packed(by_code(axes, |a: AxisSpec| a.maximum), little)
        + packed(by_code(axes, |a: AxisSpec| a.minimum), little) + packed(
        by_code(axes, |a: AxisSpec| a.fuzz),
        little,
    ) + packed(by_code(axes, |a: AxisSpec| a.flat), little)
}

proof fn lemma_packed(values: Seq<i32>, little: bool, i: int)
    requires
        0 <= i < values.len(),
    ensures
        packed(values, little).len() == 4 * values.len(),
        packed(values, little).subrange(4 * i, 4 * i + 4) == native::bytes_signed(values[i], little),
    decreases values.len(),
{
    let rest = values.drop_last();
    if rest.len() > 0 {
        lemma_packed(rest, little, 0);
    }
    let before = packed(rest, little);
    assert(before.len() == 4 * rest.len());
    if i < rest.len() {
        lemma_packed(rest, little, i);
        assert(packed(values, little).subrange(4 * i, 4 * i + 4) == before.subrange(
            4 * i,
            4 * i + 4,
        ));
    } else {
        assert(packed(values, little).subrange(4 * i, 4 * i + 4) == native::bytes_signed(
            values.last(),
            little,
        ));
    }
}

/// The structure has 1116 bytes; the name, whatever its length, ends with a zero,
/// and the range of an axis stands at the place of its code.
pub proof fn law_user_dev_layout(
    name: Seq<char>,
    product: u16,
    version: u16,
    axes: Seq<AxisSpec>,
    little: bool,
    code: u16,
)
    requires
        code < ABS_CNT,
    ensures
        user_dev(name, product, version, axes, little).len() == 1116,
        user_dev(name, product, version, axes, little)[79] == 0,
        user_dev(name, product, version, axes, little).subrange(84, 86) == native::bytes16(
            product,
            little,
        ),
        axis_with(axes, code) is Some ==> {
            let u = user_dev(name, product, version, axes, little);
            &&& u.subrange(92 + 4 * code, 96 + 4 * code) == native::bytes_signed(
                axis_with(axes, code)->0.maximum,
                little,
            )
            &&& u.subrange(348 + 4 * code, 352 + 4 * code) == native::bytes_signed(
                axis_with(axes, code)->0.minimum,
                little,
            )
        },
{
    let maxima = by_code(axes, |a: AxisSpec| a.maximum);
    let minima = by_code(axes, |a: AxisSpec| a.minimum);
    let fuzz = by_code(axes, |a: AxisSpec| a.fuzz);
    let flat = by_code(axes, |a: AxisSpec| a.flat);
    lemma_packed(maxima, little, code as int);
    lemma_packed(minima, little, code as int);
    lemma_packed(fuzz, little, 0);
    lemma_packed(flat, little, 0);
    let identity = name_field(name) + native::bytes16(BUS_VIRTUAL, little) + native::bytes16(
        VIRT_VENDOR,
        little,
    );
    let head = identity + native::bytes16(product, little) + native::bytes16(version, little)
        + native::bytes_signed(0, little);
    assert(head[79] == 0);
    assert(head.subrange(84, 86) == native::bytes16(product, little));
    lemma_parts(
        head,
        packed(maxima, little),
        packed(minima, little),
        packed(fuzz, little),
        packed(flat, little),
        4 * code,
    );
}

proof fn lemma_parts(a: Seq<u8>, b: Seq<u8>, c: Seq<u8>, d: Seq<u8>, e: Seq<u8>, i: int)
    requires
        a.len() == 92,
        b.len() == 256,
        c.len() == 256,
        d.len() == 256,
        e.len() == 256,
        0 <= i <= 252,
    ensures
        ({
            let u = a + b + c + d + e;
            &&& u.len() == 1116
            &&& u[79] == a[79]
            &&& u.subrange(84, 86) == a.subrange(84, 86)
            &&& u.subrange(92 + i, 96 + i) == b.subrange(i, i + 4)
            &&& u.subrange(348 + i, 352 + i) == c.subrange(i, i + 4)
        }),
{
    let u = a + b + c + d + e;
    assert(u.subrange(84, 86) == a.subrange(84, 86));
    assert(u.subrange(92 + i, 96 + i) == b.subrange(i, i + 4));
    assert(u.subrange(348 + i, 352 + i) == c.subrange(i, i + 4));
}

fn put_values(out: &mut Vec<u8>, values: &[i32; 64], little: bool)
    ensures
        final(out)@ == old(out)@ + packed(values@, little),
{
    let ghost start = out@;
    let mut i: usize = 0;
    assert(start + packed(values@.take(0), little) == start);
    while i < 64
        invariant
            i <= 64,
            out@ == start + packed(values@.take(i as int), little),
        decreases 64 - i,
    {
        let b: [u8; 4] = native::put_signed(values[i], little);
        out.extend_from_slice(b.as_slice());
        assert(values@.take(i + 1).drop_last() == values@.take(i as int));
        i += 1;
        assert(out@ == start + packed(values@.take(i as int), little));
    }
    assert(values@.take(64) == values@);
}

/// The structure that declares a virtual controller, in the given byte order.
pub fn encode_user_dev(
    name: &str,
    product: u16,
    version: u16,
    axes: &[AxisSpec],
    little: bool,
) -> (r: Vec<u8>)
    ensures
        r@ == user_dev(name@, product, version, axes@, little),
{
    let mut absmin: [i32; 64] = [0i32;64];
    let mut absmax: [i32; 64] = [0i32;64];
    let mut absfuzz: [i32; 64] = [0i32;64];
    let mut absflat: [i32; 64] = [0i32;64];
    let mut i: usize = 0;
    assert(absmin@ =~= by_code(axes@.take(0), |a: AxisSpec| a.minimum));
    assert(absmax@ =~= by_code(axes@.take(0), |a: AxisSpec| a.maximum));
    assert(absfuzz@ =~= by_code(axes@.take(0), |a: AxisSpec| a.fuzz));
    assert(absflat@ =~= by_code(axes@.take(0), |a: AxisSpec| a.flat));
    while i < axes.len()
        invariant
            i <= axes.len(),
            absmin@ == by_code(axes@.take(i as int), |a: AxisSpec| a.minimum),
            absmax@ == by_code(axes@.take(i as int), |a: AxisSpec| a.maximum),
            absfuzz@ == by_code(axes@.take(i as int), |a: AxisSpec| a.fuzz),
            absflat@ == by_code(axes@.take(i as int), |a: AxisSpec| a.flat),
        decreases axes.len() - i,
    {
        let ax: AxisSpec = axes[i];
        assert(axes@.take(i + 1).drop_last() == axes@.take(i as int));
        assert(axes@.take(i + 1).last() == ax);
        let c: usize = ax.code as usize;
        if c < ABS_CNT {
            absmin[c] = ax.minimum;
            absmax[c] = ax.maximum;
            absfuzz[c] = ax.fuzz;
            absflat[c] = ax.flat;
        }
        i += 1;
        assert(absmin@ =~= by_code(axes@.take(i as int), |a: AxisSpec| a.minimum));
        assert(absmax@ =~= by_code(axes@.take(i as int), |a: AxisSpec| a.maximum));
        assert(absfuzz@ =~= by_code(axes@.take(i as int), |a: AxisSpec| a.fuzz));
        assert(absflat@ =~= by_code(axes@.take(i as int), |a: AxisSpec| a.flat));
    }
    assert(axes@.take(i as int) == axes@);
    let bytes: &[u8] = name.as_bytes();
    let mut out: Vec<u8> = Vec::new();
    let mut k: usize = 0;
    while k < UINPUT_MAX_NAME_SIZE
        invariant
            k <= 80,
            bytes@ == vstd::utf8::encode_utf8(name@),
            out@ == name_field(name@).take(k as int),
        decreases 80 - k,
    {
        if k < UINPUT_MAX_NAME_SIZE - 1 && k < bytes.len() {
            out.push(bytes[k]);
        } else {
            out.push(0);
        }
        k += 1;
        assert(out@ == name_field(name@).take(k as int));
    }
    assert(out@ == name_field(name@));
    out.extend_from_slice(native::put16(BUS_VIRTUAL, little).as_slice());
    out.extend_from_slice(native::put16(VIRT_VENDOR, little).as_slice());
    out.extend_from_slice(native::put16(product, little).as_slice());
    out.extend_from_slice(native::put16(version, little).as_slice());
    out.extend_from_slice(native::put_signed(0, little).as_slice());
    put_values(&mut out, &absmax, little);
    put_values(&mut out, &absmin, little);
    put_values(&mut out, &absfuzz, little);
    put_values(&mut out, &absflat, little);
    out
}

/// The structure that declares a virtual controller to the kernel of this machine.
pub fn pack_user_dev(name: &str, product: u16, version: u16, axes: &[AxisSpec]) -> (r: Vec<u8>)
    ensures
        exists|little: bool|
            call_ensures(native::is_little, (), little) && r@ == #[trigger] user_dev(
                name@,
                product,
                version,
                axes@,
                little,
            ),
{
    let little: bool = native::is_little();
    encode_user_dev(name, product, version, axes, little)
}

// --- Preview ------------------------------------------------------------------------------------

/// The buttons of a slot, as the preview tells them.
pub open spec fn span_text(split: bool, i: int, n: nat) -> Seq<char> {
    if split && n > 0 {
        "boutons "@ + text::dec((i * DEFAULT_SPLIT_BUTTONS + 1) as nat) + "–"@ + text::dec(
            (i * DEFAULT_SPLIT_BUTTONS + n) as nat,
        )
    } else {
        text::dec(n) + " boutons"@
    }
}

/// The line of a slot.
pub open spec fn slot_line(split: bool, i: int, s: Slot) -> Seq<char> {
    "     • "@ + s.name + " : "@ + span_text(split, i, s.buttons.len()) + "  (+ "@ + text::dec(
        s.axes.len(),
    ) + " axes)"@
}

/// The lines of the preview.
pub open spec fn preview_lines(p: RemapPlan, node: Seq<char>) -> Seq<Seq<char>> {
    let split = p.mode@ == "split"@;
    let slots = slot_views(p.slots@);
    seq![
        if split {
            "Split "@ + text::dec(slots.len()) + "×"@ + text::dec(DEFAULT_SPLIT_BUTTONS as nat)
                + " (contournement de la limite 32 boutons)"@
        } else {
            "Remap de boutons (1 périphérique virtuel)"@
        },
        "  source : "@ + node + " — "@ + text::dec(p.source_buttons as nat) + " boutons, "@
            + text::dec(p.source_axes as nat) + " axes"@,
        "  → "@ + text::dec(slots.len()) + " périphérique(s) virtuel(s) :"@,
    ] + Seq::new(slots.len(), |i: int| slot_line(split, i, slots[i])) + if p.dropped > 0 {
        seq![
            "  ("@ + text::dec(p.dropped as nat)
                + " boutons déclarés au-delà de la capacité, non exposés — souvent des slots fantômes du firmware)."@,
        ]
    } else {
        Seq::empty()
    }
}

fn slot_text(split: bool, i: usize, s: &OutSpec) -> (r: String)
    requires
        i * DEFAULT_SPLIT_BUTTONS + s.buttons@.len() <= usize::MAX,
    ensures
        r@ == slot_line(split, i as int, s@),
{
    let n: usize = s.buttons.len();
    let mut out: String = "     • ".to_string();
    out.append(s.name.as_str());
    out.append(" : ");
    let mut span: String;
    if split && n > 0 {
        let base: usize = i * DEFAULT_SPLIT_BUTTONS;
        span = "boutons ".to_string();
        span.append(text::dec_text((base + 1) as u64).as_str());
        span.append("–");
        span.append(text::dec_text((base + n) as u64).as_str());
    } else {
        span = text::dec_text(n as u64);
        span.append(" boutons");
    }
    assert(span@ == span_text(split, i as int, n as nat));
    out.append(span.as_str());
    out.append("  (+ ");
    out.append(text::dec_text(s.axes.len() as u64).as_str());
    out.append(" axes)");
    out
}

/// What a plan would do, in words, without creating anything.
pub fn preview(plan: &RemapPlan, node: &str) -> (r: String)
    requires
        forall|i: int|
            0 <= i < plan.slots@.len() ==> i * DEFAULT_SPLIT_BUTTONS + (#[trigger] plan.slots@[i]).buttons@.len()
                <= usize::MAX,
    ensures
        r@ == text::joined(preview_lines(*plan, node@), "\n"@),
{
    let split: bool = text::str_eq(plan.mode, "split");
    let ghost slots = slot_views(plan.slots@);
    let mut lines: Vec<String> = Vec::new();
    if split {
        let mut first: String = "Split ".to_string();
        first.append(text::dec_text(plan.n_slots() as u64).as_str());
        first.append("×");
        first.append(text::dec_text(DEFAULT_SPLIT_BUTTONS as u64).as_str());
        first.append(" (contournement de la limite 32 boutons)");
        lines.push(first);
    } else {
        lines.push("Remap de boutons (1 périphérique virtuel)".to_string());
    }
    let mut source: String = "  source : ".to_string();
    source.append(node);
    source.append(" — ");
    source.append(text::dec_text(plan.source_buttons as u64).as_str());
    source.append(" boutons, ");
    source.append(text::dec_text(plan.source_axes as u64).as_str());
    source.append(" axes");
    lines.push(source);
    let mut count: String = "  → ".to_string();
    count.append(text::dec_text(plan.n_slots() as u64).as_str());
    count.append(" périphérique(s) virtuel(s) :");
    lines.push(count);
    let ghost head = text::views(lines@);
    assert(head.len() == 3);
    let ghost rows = Seq::new(slots.len(), |i: int| slot_line(split, i, slots[i]));
    let mut i: usize = 0;
    assert(head + rows.take(0) == head);
    while i < plan.slots.len()
        invariant
            i <= plan.slots.len(),
            slots == slot_views(plan.slots@),
            rows == Seq::new(slots.len(), |i: int| slot_line(split, i, slots[i])),
            forall|i: int|
                0 <= i < plan.slots@.len() ==> i * DEFAULT_SPLIT_BUTTONS + (
                #[trigger] plan.slots@[i]).buttons@.len() <= usize::MAX,
            text::views(lines@) == head + rows.take(i as int),
        decreases plan.slots.len() - i,
    {
        let line: String = slot_text(split, i, &plan.slots[i]);
        let ghost before = text::views(lines@);
        let ghost lv = line@;
        lines.push(line);
        assert(text::views(lines@) == before.push(lv));
        assert(lv == rows[i as int]);
        i += 1;
        assert(text::views(lines@) == head + rows.take(i as int));
    }
    assert(rows.take(i as int) == rows);
    let ghost body = text::views(lines@);
    if plan.dropped > 0 {
        let mut last: String = "  (".to_string();
        last.append(text::dec_text(plan.dropped as u64).as_str());
        last.append(
            " boutons déclarés au-delà de la capacité, non exposés — souvent des slots fantômes du firmware).",
        );
        let ghost lv = last@;
        lines.push(last);
        assert(text::views(lines@) == body + seq![lv]);
    } else {
        assert(body + Seq::<Seq<char>>::empty() == body);
    }
    assert(text::views(lines@) == preview_lines(*plan, node@));
    text::join_text(&lines, "\n")
}

/// A virtual controller declares each of its buttons and each of its axes, and
/// nothing else.
pub proof fn law_setup_declares_what_there_is(s: Slot, code: u16)
    ensures
        setup_of(s).contains((0x4004_5565u64, code as i32)) <==> s.buttons.contains(code),
        setup_of(s).contains((0x4004_5567u64, code as i32)) <==> axis_codes(s.axes).contains(code),
        setup_of(s).contains((0x4004_5564u64, 1i32)) <==> s.buttons.len() > 0,
        setup_of(s).contains((0x4004_5564u64, 3i32)) <==> s.axes.len() > 0,
        setup_of(s)[0] == (0x4004_5564u64, 0i32),
{
    let all = setup_of(s);
    let n = s.buttons.len() as int;
    let m = s.axes.len() as int;
    let keys = if n > 0 {
        1 + n
    } else {
        0
    };
    if n > 0 {
        assert(all[1] == (0x4004_5564u64, 1i32));
    }
    if m > 0 {
        assert(all[1 + keys] == (0x4004_5564u64, 3i32));
    }
    if s.buttons.contains(code) {
        let i = choose|i: int| 0 <= i < n && s.buttons[i] == code;
        assert(all[2 + i] == (0x4004_5565u64, code as i32));
    }
    if axis_codes(s.axes).contains(code) {
        let i = choose|i: int| 0 <= i < m && axis_codes(s.axes)[i] == code;
        assert(all[2 + keys + i] == (0x4004_5567u64, code as i32));
    }
    assert forall|i: int| 0 <= i < all.len() implies {
        &&& all[i] == (0x4004_5565u64, code as i32) ==> s.buttons.contains(code)
        &&& all[i] == (0x4004_5567u64, code as i32) ==> axis_codes(s.axes).contains(code)
        &&& all[i] == (0x4004_5564u64, 1i32) ==> n > 0
        &&& all[i] == (0x4004_5564u64, 3i32) ==> m > 0
    } by {
        if 2 <= i < 1 + keys {
            assert(all[i] == (UI_SET_KEYBIT, s.buttons[i - 2] as i32));
        } else if i >= 2 + keys {
            assert(all[i] == (UI_SET_ABSBIT, axis_codes(s.axes)[i - 2 - keys] as i32));
        }
    }
}

/// A button is passed on when it is pressed and when it is released, but not while
/// it is held; the end of a group reaches every controller.
pub proof fn law_presses_and_releases_pass(p: RemapPlan, code: u16, curved: i32, i: int)
    requires
        p.slots@.len() <= usize::MAX,
    ensures
        p.passed_on(1, code, 1, curved) == p.translated(1, code, 1, curved),
        p.passed_on(1, code, 0, curved) == p.translated(1, code, 0, curved),
        p.passed_on(1, code, 2, curved).len() == 0,
        p.passed_on(0, code, 0, curved).len() == p.slots@.len(),
        0 <= i < p.slots@.len() ==> p.passed_on(0, code, 0, curved)[i] == (
            i as usize,
            0u16,
            0u16,
            0i32,
        ),
        p.passed_on(3, code, 2, curved) == p.translated(3, code, 2, curved),
{
}

/// The axis that moved counts with its new value, and its partner with its last one.
pub proof fn law_moved_axis_counts_with_its_new_value(
    seen: Map<u16, i32>,
    moved: u16,
    partner: u16,
    value: i32,
    min: i32,
    max: i32,
)
    requires
        moved != partner,
    ensures
        last_value(seen.insert(moved, value), moved, min, max) == value,
        last_value(seen.insert(moved, value), partner, min, max) == last_value(
            seen,
            partner,
            min,
            max,
        ),
{
}

/// Both axes of a pair come out, each under its own code on the first controller,
/// with the value that the rotation computes for it when it is within its range.
pub proof fn law_turned_pair_comes_out(
    p: RemapPlan,
    axes: Seq<AxisSpec>,
    i: int,
    j: int,
    link: RotationLink,
    a_value: i32,
    b_value: i32,
    turned: (i32, i32),
)
    requires
        is_axis_route(p.abs_route@, axes),
        0 <= i < axes.len(),
        0 <= j < axes.len(),
        link.a == axes[i].code,
        link.b == axes[j].code,
    ensures
        ({
            let out = p.turned_out(link, a_value, b_value, turned);
            let turns = link.a_min < link.a_max && link.b_min < link.b_max && link.angle_deg != 0;
            &&& out.len() == 2
            &&& out[0].0 == 0 && out[0].1 == 3 && out[0].2 == link.a
            &&& out[1].0 == 0 && out[1].1 == 3 && out[1].2 == link.b
            &&& turns && link.a_min <= turned.0 <= link.a_max ==> out[0].3 == turned.0
            &&& turns && link.b_min <= turned.1 <= link.b_max ==> out[1].3 == turned.1
            &&& !turns ==> out[0].3 == a_value && out[1].3 == b_value
        }),
{
    lemma_axis_present(axes, i);
    lemma_axis_present(axes, j);
    assert(p.abs_route@.contains_key(link.a) && p.abs_route@[link.a]@ == seq![0usize]);
    assert(p.abs_route@.contains_key(link.b) && p.abs_route@[link.b]@ == seq![0usize]);
    axis_curve::law_rotation_keeps_each_range(
        a_value,
        link.a_min,
        link.a_max,
        b_value,
        link.b_min,
        link.b_max,
        link.angle_deg,
        turned,
    );
    let (oa, ob) = axis_curve::rotated(
        a_value,
        link.a_min,
        link.a_max,
        b_value,
        link.b_min,
        link.b_max,
        link.angle_deg,
        turned,
    );
    assert(p.on_axis(link.a, oa) =~= seq![(0usize, 3u16, link.a, oa)]);
    assert(p.on_axis(link.b, ob) =~= seq![(0usize, 3u16, link.b, ob)]);
}

/// The identity of a virtual controller stands behind its name: the bus, the vendor,
/// the product and the version; the noise and the dead range of an axis stand at the
/// places of its code.
pub proof fn law_user_dev_identity(
    name: Seq<char>,
    product: u16,
    version: u16,
    axes: Seq<AxisSpec>,
    little: bool,
    code: u16,
)
    requires
        code < 64,
    ensures
        ({
            let u = user_dev(name, product, version, axes, little);
            &&& u.subrange(80, 82) == native::bytes16(6, little)
            &&& u.subrange(82, 84) == native::bytes16(0x4098, little)
            &&& u.subrange(84, 86) == native::bytes16(product, little)
            &&& u.subrange(86, 88) == native::bytes16(version, little)
            &&& axis_with(axes, code) matches Some(ax) ==> {
                &&& u.subrange(604 + 4 * code, 608 + 4 * code) == native::bytes_signed(
                    ax.fuzz,
                    little,
                )
                &&& u.subrange(860 + 4 * code, 864 + 4 * code) == native::bytes_signed(
                    ax.flat,
                    little,
                )
            }
        }),
{
    let fuzz = by_code(axes, |a: AxisSpec| a.fuzz);
    let flat = by_code(axes, |a: AxisSpec| a.flat);
    let maxima = packed(by_code(axes, |a: AxisSpec| a.maximum), little);
    let minima = packed(by_code(axes, |a: AxisSpec| a.minimum), little);
    lemma_packed(by_code(axes, |a: AxisSpec| a.maximum), little, 0);
    lemma_packed(by_code(axes, |a: AxisSpec| a.minimum), little, 0);
    lemma_packed(fuzz, little, code as int);
    lemma_packed(flat, little, code as int);
    let head = name_field(name) + native::bytes16(6, little) + native::bytes16(0x4098, little)
        + native::bytes16(product, little) + native::bytes16(version, little)
        + native::bytes_signed(0, little);
    let pf = packed(fuzz, little);
    let pl = packed(flat, little);
    let u = head + maxima + minima + pf + pl;
    assert(u == user_dev(name, product, version, axes, little));
    assert(head.len() == 92 && maxima.len() == 256 && minima.len() == 256 && pf.len() == 256
        && pl.len() == 256);
    assert(u.subrange(80, 82) =~= native::bytes16(6, little));
    assert(u.subrange(82, 84) =~= native::bytes16(0x4098, little));
    assert(u.subrange(84, 86) =~= native::bytes16(product, little));
    assert(u.subrange(86, 88) =~= native::bytes16(version, little));
    let k = 4 * code as int;
    assert(u.subrange(604 + k, 608 + k) =~= pf.subrange(k, k + 4));
    assert(u.subrange(860 + k, 864 + k) =~= pl.subrange(k, k + 4));
}

/// Two joysticks of a pair have virtual controllers of different names: the side at
/// the end of the name of the joystick is kept.
pub proof fn law_sides_are_kept(source: Seq<char>)
    requires
        source.len() > 0,
    ensures
        source.last() == 'R' ==> side_of(source) == seq![' ', 'R'],
        source.last() == 'L' ==> side_of(source) == seq![' ', 'L'],
        !text::is_white(source.last()) && source.last() != 'R' && source.last() != 'L'
            ==> side_of(source).len() == 0,
{
    reveal_strlit("R");
    reveal_strlit("L");
    reveal_strlit(" R");
    reveal_strlit(" L");
    let n = source.len() as int;
    let end = source.subrange(n - 1, n);
    assert(end[0] == source.last());
    assert("R"@[0] == 'R' && "L"@[0] == 'L');
    if source.last() == 'R' {
        assert(end =~= "R"@);
        assert(" R"@ =~= seq![' ', 'R']);
    }
    if source.last() == 'L' {
        assert(end =~= "L"@);
        assert(" L"@ =~= seq![' ', 'L']);
    }
}

} // verus!
