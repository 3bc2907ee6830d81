//! The page of the axes: settings of each axis, and rotations of pairs.

use crate::axis_curve;
use crate::axis_curve::CurveData;
use crate::axis_store;
use crate::axis_store::AxisCurves;
use crate::enumerate::WinwingDevice;
use crate::livemon;
use crate::message;
use crate::message::Message;
use crate::pages::remapping;
use crate::remap;
use crate::remap::AxisSpec;
use crate::text;
use std::collections::HashMap;
use vstd::prelude::*;

verus! {

/// Axes that can turn together: the one that shows the setting, its partner, and
/// the number of the group.
pub const ROT_PAIRS: [(u16, u16, u32); 2] = [
    (livemon::ABS_X, livemon::ABS_Y, 1),
    (livemon::ABS_RX, livemon::ABS_RY, 2),
];

/// Why the settings of a joystick cannot be shown, if so: it has no input device,
/// the device does not open, or it has no axes. `opened` is the number of axes of
/// the opened device, or why it did not open.
pub fn content_refusal(dev: &WinwingDevice, opened: &Result<usize, String>) -> (r: Option<Message>)
    ensures
        r is None <==> dev.evdev@.len() > 0 && opened is Ok && opened->Ok_0 > 0,
        r is Some ==> r->0@ == if dev.evdev@.len() == 0 {
            message::said("Input device not found for this joystick."@, Seq::empty())
        } else if opened is Err {
            message::said("Cannot open the input device: {}"@, seq![opened->Err_0@])
        } else {
            message::said("No axis detected on this joystick."@, Seq::empty())
        },
{
    proof {
        reveal_strlit("Input device not found for this joystick.");
        reveal_strlit("Cannot open the input device: {}");
        reveal_strlit("No axis detected on this joystick.");
    }
    if dev.evdev.as_str().is_empty() {
        return Some(Message::plain("Input device not found for this joystick."));
    }
    match opened {
        Err(e) => Some(Message::about("Cannot open the input device: {}", e.as_str())),
        Ok(n) => if *n == 0 {
            Some(Message::plain("No axis detected on this joystick."))
        } else {
            None
        },
    }
}

/// The partner and the group of the axis that shows the setting of a pair.
pub open spec fn partner_of(code: u16) -> Option<(u16, u32)> {
    if code == livemon::ABS_X {
        Some((livemon::ABS_Y, 1u32))
    } else if code == livemon::ABS_RX {
        Some((livemon::ABS_RY, 2u32))
    } else {
        None
    }
}

/// The partner and the group of the axis that shows the setting of a pair.
pub fn rotation_partner(code: u16) -> (r: Option<(u16, u32)>)
    ensures
        r == partner_of(code),
{
    let mut i: usize = 0;
    while i < ROT_PAIRS.len()
        invariant
            i <= 2,
            forall|k: int| 0 <= k < i ==> (#[trigger] ROT_PAIRS[k]).0 != code,
        decreases 2 - i,
    {
        if ROT_PAIRS[i].0 == code {
            return Some((ROT_PAIRS[i].1, ROT_PAIRS[i].2));
        }
        i += 1;
    }
    assert(ROT_PAIRS[0].0 != code && ROT_PAIRS[1].0 != code);
    None
}

/// The joystick has the axis.
pub open spec fn has_axis(cells: Seq<(u16, CurveData)>, code: u16) -> bool {
    exists|i: int| 0 <= i < cells.len() && (#[trigger] cells[i]).0 == code
}

/// The partner and the group of an axis whose row offers a rotation: both axes of
/// the pair are there.
pub fn rotation_control(cells: &Vec<(u16, CurveData)>, code: u16) -> (r: Option<(u16, u32)>)
    ensures
        r == match partner_of(code) {
            Some(p) => if has_axis(cells@, p.0) {
                Some(p)
            } else {
                None
            },
            None => None,
        },
{
    match rotation_partner(code) {
        Some(p) => {
            let mut i: usize = 0;
            while i < cells.len()
                invariant
                    i <= cells.len(),
                    partner_of(code) == Some(p),
                    forall|k: int| 0 <= k < i ==> (#[trigger] cells@[k]).0 != p.0,
                decreases cells.len() - i,
            {
                if cells[i].0 == p.0 {
                    return Some(p);
                }
                i += 1;
            }
            None
        },
        None => None,
    }
}

/// The settings with an angle; no angle, no group.
pub open spec fn turned(c: CurveData, angle: i8, group: u32) -> CurveData {
    CurveData {
        rotate: angle,
        rotate_group: if angle != 0 {
            group
        } else {
            0
        },
        ..c
    }
}

/// The settings after the angle of a pair is chosen: both axes get it.
pub open spec fn with_rotation(
    cells: Seq<(u16, CurveData)>,
    code: u16,
    partner: u16,
    group: u32,
    angle: i8,
) -> Seq<(u16, CurveData)> {
    Seq::new(
        cells.len(),
        |i: int|
            if cells[i].0 == code || cells[i].0 == partner {
                (cells[i].0, turned(cells[i].1, angle, group))
            } else {
                cells[i]
            },
    )
}

fn turned_curve(c: CurveData, angle: i8, group: u32) -> (r: CurveData)
    ensures
        r == turned(c, angle, group),
{
    let mut out: CurveData = c;
    out.rotate = angle;
    out.rotate_group = if angle != 0 {
        group
    } else {
        0
    };
    out
}

/// Chooses the angle of a pair of axes.
pub fn set_rotation(
    cells: &mut Vec<(u16, CurveData)>,
    code: u16,
    partner: u16,
    group: u32,
    angle: i8,
)
    ensures
        final(cells)@ == with_rotation(old(cells)@, code, partner, group, angle),
{
    let ghost start = cells@;
    let ghost all = with_rotation(start, code, partner, group, angle);
    let mut i: usize = 0;
    while i < cells.len()
        invariant
            i <= cells.len(),
            cells.len() == start.len(),
            all == with_rotation(start, code, partner, group, angle),
            forall|k: int| 0 <= k < i ==> #[trigger] cells@[k] == all[k],
            forall|k: int| i <= k < cells.len() ==> #[trigger] cells@[k] == start[k],
        decreases cells.len() - i,
    {
        let cell: (u16, CurveData) = cells[i];
        if cell.0 == code || cell.0 == partner {
            cells[i] = (cell.0, turned_curve(cell.1, angle, group));
        }
        i += 1;
    }
    assert(cells@ =~= all);
}

/// The settings after an axis is reset: its own are the default ones, and the
/// partner of a pair does not turn any more.
pub open spec fn after_reset(cells: Seq<(u16, CurveData)>, code: u16) -> Seq<(u16, CurveData)> {
    Seq::new(
        cells.len(),
        |i: int|
            if partner_of(code) is Some && cells[i].0 == (partner_of(code)->0).0 {
                (cells[i].0, turned(cells[i].1, 0, 0))
            } else if cells[i].0 == code {
                (code, axis_curve::neutral())
            } else {
                cells[i]
            },
    )
}

/// Resets an axis.
pub fn reset_axis(cells: &mut Vec<(u16, CurveData)>, code: u16)
    ensures
        final(cells)@ == after_reset(old(cells)@, code),
{
    let ghost start = cells@;
    let ghost all = after_reset(start, code);
    let partner: Option<(u16, u32)> = rotation_partner(code);
    let mut i: usize = 0;
    while i < cells.len()
        invariant
            i <= cells.len(),
            cells.len() == start.len(),
            partner == partner_of(code),
            all == after_reset(start, code),
            forall|k: int| 0 <= k < i ==> #[trigger] cells@[k] == all[k],
            forall|k: int| i <= k < cells.len() ==> #[trigger] cells@[k] == start[k],
        decreases cells.len() - i,
    {
        let cell: (u16, CurveData) = cells[i];
        let of_pair: bool = match partner {
            Some(p) => cell.0 == p.0,
            None => false,
        };
        if of_pair {
            cells[i] = (cell.0, turned_curve(cell.1, 0, 0));
        } else if cell.0 == code {
            cells[i] = (code, CurveData::default());
        }
        i += 1;
    }
    assert(cells@ =~= all);
}

/// After a reset the axis has no effect, and its partner does not turn.
pub proof fn law_reset_has_no_effect(cells: Seq<(u16, CurveData)>, code: u16, i: int)
    requires
        0 <= i < cells.len(),
    ensures
        cells[i].0 == code ==> !after_reset(cells, code)[i].1.acts(),
        partner_of(code) is Some && cells[i].0 == (partner_of(code)->0).0 ==> !after_reset(
            cells,
            code,
        )[i].1.turns(),
{
}

// --- Storing and applying ---------------------------------------------------------------------------

/// What is kept of the settings: those with an effect.
pub open spec fn kept(cells: Seq<(u16, CurveData)>) -> Map<u16, CurveData>
    decreases cells.len(),
{
    if cells.len() == 0 {
        Map::empty()
    } else {
        axis_store::with_curve(kept(cells.drop_last()), cells.last().0, cells.last().1)
    }
}

/// The settings to store.
pub fn collect(cells: &Vec<(u16, CurveData)>) -> (r: AxisCurves)
    ensures
        r@ == kept(cells@),
{
    let mut out: AxisCurves = AxisCurves::new();
    let mut i: usize = 0;
    while i < cells.len()
        invariant
            i <= cells.len(),
            out@ == kept(cells@.take(i as int)),
        decreases cells.len() - i,
    {
        assert(cells@.take(i + 1).drop_last() == cells@.take(i as int));
        assert(cells@.take(i + 1).last() == cells@[i as int]);
        out.set(cells[i].0, cells[i].1);
        i += 1;
    }
    assert(cells@.take(i as int) == cells@);
    out
}

/// The settings that a session applies: those with an effect, of which rotations
/// are some.
pub open spec fn applied(cells: Seq<(u16, CurveData)>) -> Map<u16, CurveData>
    decreases cells.len(),
{
    if cells.len() == 0 {
        Map::empty()
    } else {
        let before = applied(cells.drop_last());
        if cells.last().1.acts() {
            before.insert(cells.last().0, cells.last().1)
        } else {
            before
        }
    }
}

/// The settings that a session applies.
pub fn effective_curves(cells: &Vec<(u16, CurveData)>) -> (r: HashMap<u16, CurveData>)
    ensures
        r@ == applied(cells@),
{
    let mut out: HashMap<u16, CurveData> = HashMap::new();
    let mut i: usize = 0;
    while i < cells.len()
        invariant
            i <= cells.len(),
            out@ == applied(cells@.take(i as int)),
        decreases cells.len() - i,
    {
        assert(cells@.take(i + 1).drop_last() == cells@.take(i as int));
        assert(cells@.take(i + 1).last() == cells@[i as int]);
        let c: CurveData = cells[i].1;
        if !c.is_identity() || c.has_rotation() {
            out.insert(cells[i].0, c);
        }
        i += 1;
    }
    assert(cells@.take(i as int) == cells@);
    out
}

/// No code stands twice.
pub open spec fn are_distinct(cells: Seq<(u16, CurveData)>) -> bool {
    forall|i: int, j: int|
        0 <= i < j < cells.len() ==> (#[trigger] cells[i]).0 != (#[trigger] cells[j]).0
}

/// When no axis stands twice, what a session applies is what is stored, and each
/// axis has exactly its own settings when they have an effect.
pub proof fn law_applied_is_stored(cells: Seq<(u16, CurveData)>)
    requires
        are_distinct(cells),
    ensures
        applied(cells) == kept(cells),
        forall|i: int|
            #![trigger cells[i]]
            0 <= i < cells.len() ==> (applied(cells).contains_key(cells[i].0)
                <==> cells[i].1.acts()) && (cells[i].1.acts() ==> applied(cells)[cells[i].0]
                == cells[i].1),
        forall|code: u16| #[trigger]
            applied(cells).contains_key(code) ==> has_axis(cells, code),
    decreases cells.len(),
{
    if cells.len() > 0 {
        let before = cells.drop_last();
        let (code, c) = cells.last();
        assert(are_distinct(before)) by {
            assert forall|i: int, j: int| 0 <= i < j < before.len() implies (#[trigger] before[i]).0
                != (#[trigger] before[j]).0 by {
                assert(before[i] == cells[i] && before[j] == cells[j]);
            }
        }
        law_applied_is_stored(before);
        assert(!applied(before).contains_key(code)) by {
            if applied(before).contains_key(code) {
                let i = choose|i: int| 0 <= i < before.len() && (#[trigger] before[i]).0 == code;
                assert(cells[i].0 != cells[cells.len() - 1].0);
            }
        }
        assert(applied(cells) =~= kept(cells));
        assert forall|i: int|
            #![trigger cells[i]]
            0 <= i < cells.len() implies (applied(cells).contains_key(cells[i].0)
            <==> cells[i].1.acts()) && (cells[i].1.acts() ==> applied(cells)[cells[i].0]
            == cells[i].1) by {
            if i < before.len() {
                assert(before[i] == cells[i]);
                assert(cells[i].0 != cells[cells.len() - 1].0);
            }
        }
        assert forall|k: u16| #[trigger] applied(cells).contains_key(k) implies has_axis(cells, k) by {
            if applied(before).contains_key(k) {
                let i = choose|i: int| 0 <= i < before.len() && (#[trigger] before[i]).0 == k;
                assert(cells[i].0 == k);
            } else {
                assert(cells[cells.len() - 1].0 == k);
            }
        }
    }
}

/// Why the settings cannot be applied, if so: the joystick has no input device, or
/// no setting has an effect.
pub fn start_refusal(evdev: &str, curves: &HashMap<u16, CurveData>) -> (r: Option<Message>)
    ensures
        r is Some <==> evdev@.len() == 0 || curves@.len() == 0,
        r is Some ==> r->0@ == message::said(
            if evdev@.len() == 0 {
                "Input device not found for this joystick"@
            } else {
                "No axis inverted, curved or rotated — set an axis first"@
            },
            Seq::empty(),
        ),
{
    proof {
        reveal_strlit("Input device not found for this joystick");
        reveal_strlit("No axis inverted, curved or rotated — set an axis first");
    }
    if evdev.is_empty() {
        Some(Message::plain("Input device not found for this joystick"))
    } else if curves.len() == 0 {
        Some(Message::plain("No axis inverted, curved or rotated — set an axis first"))
    } else {
        None
    }
}

// --- Summary ----------------------------------------------------------------------------------------

/// A part of a summary, when it applies.
pub open spec fn part_if(applies: bool, s: message::Saying) -> Seq<message::Saying> {
    if applies {
        seq![s]
    } else {
        Seq::empty()
    }
}

/// The parts that sum up the settings of an axis.
pub open spec fn summary_parts(c: CurveData) -> Seq<message::Saying> {
    part_if(c.is_reversed, message::said("inverted"@, Seq::empty())) + part_if(
        c.curve != 0,
        message::said("curve {} {}"@, seq![c.curve_type.label()@, text::with_sign(c.curve as int)]),
    ) + part_if(
        c.zoom != 0,
        message::said("gain {}"@, seq![text::with_sign(c.zoom as int)]),
    ) + part_if(
        c.lower != 0 || c.upper != 0,
        message::said("bounds {}/{}"@, seq![text::dec(c.lower as nat), text::dec(c.upper as nat)]),
    ) + part_if(
        c.center_lower != 0 || c.center_upper != 0,
        message::said(
            "center {}/{}"@,
            seq![text::dec(c.center_lower as nat), text::dec(c.center_upper as nat)],
        ),
    ) + part_if(
        c.x_pos != 50 || c.y_pos != 50,
        message::said("point {}/{}"@, seq![text::dec(c.x_pos as nat), text::dec(c.y_pos as nat)]),
    ) + part_if(
        c.rotate != 0,
        message::said("rotation {}°"@, seq![text::signed(c.rotate as int)]),
    )
}

/// What sums up the settings of an axis: its parts, or that there are none.
pub open spec fn summary_of(c: CurveData) -> Seq<message::Saying> {
    let parts = summary_parts(c);
    if !c.acts() || parts.len() == 0 {
        seq![message::said("Linear (no setting)"@, Seq::empty())]
    } else {
        parts
    }
}

fn push_part(out: &mut Vec<Message>, m: Message)
    ensures
        remapping::sayings(final(out)@) == remapping::sayings(old(out)@) + seq![m@],
{
    let ghost mv = m@;
    out.push(m);
    assert(remapping::sayings(out@) =~= remapping::sayings(old(out)@) + seq![mv]);
}

fn pair_part(id: &'static str, a: u8, b: u8) -> (r: Message)
    requires
        crate::i18n::no_nul(id@),
    ensures
        r@ == message::said(id@, seq![text::dec(a as nat), text::dec(b as nat)]),
{
    Message::about_both(
        id,
        text::dec_text(a as u64).as_str(),
        text::dec_text(b as u64).as_str(),
    )
}

/// The messages that sum up the settings of an axis, in order.
pub fn curve_summary(c: &CurveData) -> (r: Vec<Message>)
    ensures
        remapping::sayings(r@) == summary_of(*c),
{
    proof {
        reveal_strlit("Linear (no setting)");
        reveal_strlit("inverted");
        reveal_strlit("curve {} {}");
        reveal_strlit("gain {}");
        reveal_strlit("bounds {}/{}");
        reveal_strlit("center {}/{}");
        reveal_strlit("point {}/{}");
        reveal_strlit("rotation {}°");
    }
    let mut out: Vec<Message> = Vec::new();
    assert(remapping::sayings(out@) =~= Seq::<message::Saying>::empty());
    if c.is_identity() && !c.has_rotation() {
        push_part(&mut out, Message::plain("Linear (no setting)"));
        assert(remapping::sayings(out@) =~= summary_of(*c));
        return out;
    }
    if c.is_reversed {
        push_part(&mut out, Message::plain("inverted"));
    }
    if c.curve != 0 {
        let sign: String = text::with_sign_text(c.curve as i64);
        push_part(
            &mut out,
            Message::about_both("curve {} {}", c.curve_type.as_str(), sign.as_str()),
        );
    }
    if c.zoom != 0 {
        push_part(&mut out, Message::about("gain {}", text::with_sign_text(c.zoom as i64).as_str()));
    }
    if c.lower != 0 || c.upper != 0 {
        push_part(&mut out, pair_part("bounds {}/{}", c.lower, c.upper));
    }
    if c.center_lower != 0 || c.center_upper != 0 {
        push_part(&mut out, pair_part("center {}/{}", c.center_lower, c.center_upper));
    }
    if c.x_pos != 50 || c.y_pos != 50 {
        push_part(&mut out, pair_part("point {}/{}", c.x_pos, c.y_pos));
    }
    if c.rotate != 0 {
        push_part(
            &mut out,
            Message::about("rotation {}°", text::signed_text(c.rotate as i64).as_str()),
        );
    }
    assert(remapping::sayings(out@) =~= summary_parts(*c));
    if out.len() == 0 {
        push_part(&mut out, Message::plain("Linear (no setting)"));
    }
    assert(remapping::sayings(out@) =~= summary_of(*c));
    out
}

/// The axes are those of the settings, each once.
pub open spec fn same_axes(axes: Seq<AxisSpec>, cells: Seq<(u16, CurveData)>) -> bool {
    &&& axes.len() == cells.len()
    &&& forall|k: int| 0 <= k < cells.len() ==> (#[trigger] axes[k]).code == cells[k].0
    &&& are_distinct(cells)
}

proof fn lemma_pair_members(
    cells: Seq<(u16, CurveData)>,
    axes: Seq<AxisSpec>,
    group: u32,
    lo: int,
    hi: int,
    n: nat,
)
    requires
        same_axes(axes, cells),
        n <= cells.len(),
        0 <= lo < hi < cells.len(),
        cells[lo].1.turns() && cells[lo].1.rotate_group == group,
        cells[hi].1.turns() && cells[hi].1.rotate_group == group,
        forall|k: int|
            0 <= k < cells.len() && k != lo && k != hi ==> !((#[trigger] cells[k]).1.turns()
                && cells[k].1.rotate_group == group),
    ensures
        remap::members(axes.take(n as int), applied(cells), group) == if n <= lo {
            Seq::empty()
        } else if n <= hi {
            seq![cells[lo].0]
        } else {
            seq![cells[lo].0, cells[hi].0]
        },
    decreases n,
{
    if n > 0 {
        let k = n - 1;
        lemma_pair_members(cells, axes, group, lo, hi, k as nat);
        law_applied_is_stored(cells);
        assert(axes.take(n as int).drop_last() == axes.take(k));
        assert(axes.take(n as int).last() == axes[k]);
        assert(axes[k].code == cells[k].0);
        assert(applied(cells).contains_key(cells[k].0) <==> cells[k].1.acts());
        let all = remap::members(axes.take(n as int), applied(cells), group);
        if n > hi {
            assert(all =~= seq![cells[lo].0, cells[hi].0]);
        } else if n > lo {
            assert(all =~= seq![cells[lo].0]);
        }
    }
}

/// Once the angle of a pair is chosen, the plan of a session turns these two axes
/// together by the angle, within 25 degrees, when no other axis is in their group.
pub proof fn law_chosen_rotation_turns_the_pair(
    cells: Seq<(u16, CurveData)>,
    axes: Seq<AxisSpec>,
    i: int,
    j: int,
    group: u32,
    angle: i8,
)
    requires
        same_axes(axes, cells),
        0 <= i < cells.len(),
        0 <= j < cells.len(),
        i != j,
        group != 0,
        angle != 0,
        forall|k: int|
            0 <= k < cells.len() && k != i && k != j ==> !((#[trigger] cells[k]).1.turns()
                && cells[k].1.rotate_group == group),
    ensures
        ({
            let chosen = with_rotation(cells, cells[i].0, cells[j].0, group, angle);
            let link = remap::rotation_for(axes, applied(chosen), cells[i].0);
            &&& link is Some
            &&& link == remap::rotation_for(axes, applied(chosen), cells[j].0)
            &&& link->0.angle_deg == axis_curve::nearest(angle as int, -25, 25)
            &&& (link->0.a == cells[i].0 && link->0.b == cells[j].0) || (link->0.a == cells[j].0
                && link->0.b == cells[i].0)
        }),
{
    let chosen = with_rotation(cells, cells[i].0, cells[j].0, group, angle);
    let lo = if i < j {
        i
    } else {
        j
    };
    let hi = if i < j {
        j
    } else {
        i
    };
    assert(are_distinct(chosen)) by {
        assert forall|a: int, b: int| 0 <= a < b < chosen.len() implies (#[trigger] chosen[a]).0 != (
        #[trigger] chosen[b]).0 by {
            assert(cells[a].0 != cells[b].0);
        }
    }
    assert(same_axes(axes, chosen));
    assert forall|k: int| 0 <= k < chosen.len() && k != lo && k != hi implies !((
    #[trigger] chosen[k]).1.turns() && chosen[k].1.rotate_group == group) by {
        if k < i {
            assert(cells[k].0 != cells[i].0);
        } else {
            assert(cells[i].0 != cells[k].0);
        }
        if k < j {
            assert(cells[k].0 != cells[j].0);
        } else {
            assert(cells[j].0 != cells[k].0);
        }
        assert(chosen[k] == cells[k]);
    }
    lemma_pair_members(chosen, axes, group, lo, hi, chosen.len());
    assert(axes.take(chosen.len() as int) == axes);
    law_applied_is_stored(chosen);
    assert(chosen[i].1.acts() && chosen[j].1.acts());
    remap::lemma_axis_present(axes, i);
    remap::lemma_axis_present(axes, j);
    assert(axes[i].code == cells[i].0 && axes[j].code == cells[j].0);
    assert(applied(chosen)[chosen[i].0] == chosen[i].1);
    assert(applied(chosen)[chosen[j].0] == chosen[j].1);
}

/// Which axes turn as a pair: X with Y, and the two of the small stick, each pair in
/// a group of its own.
pub proof fn law_pairs(code: u16)
    ensures
        partner_of(0) == Some((1u16, 1u32)),
        partner_of(3) == Some((4u16, 2u32)),
        code != 0 && code != 3 ==> partner_of(code) is None,
{
}

/// Choosing the angle of a pair changes only how its two axes turn: all their other
/// settings, and the other axes, stay as they were. Without an angle neither turns.
pub proof fn law_rotation_changes_only_the_angle(
    cells: Seq<(u16, CurveData)>,
    code: u16,
    partner: u16,
    group: u32,
    angle: i8,
    i: int,
)
    requires
        0 <= i < cells.len(),
    ensures
        ({
            let chosen = with_rotation(cells, code, partner, group, angle);
            let of_pair = cells[i].0 == code || cells[i].0 == partner;
            &&& chosen.len() == cells.len()
            &&& chosen[i].0 == cells[i].0
            &&& !of_pair ==> chosen[i] == cells[i]
            &&& chosen[i].1 == (CurveData {
                rotate: chosen[i].1.rotate,
                rotate_group: chosen[i].1.rotate_group,
                ..cells[i].1
            })
            &&& of_pair ==> chosen[i].1.rotate == angle
            &&& of_pair && angle != 0 ==> chosen[i].1.rotate_group == group
            &&& of_pair && angle == 0 ==> !chosen[i].1.turns()
        }),
{
}

/// A reset touches the axis and, of its partner, only the rotation; every other axis
/// stays as it was.
pub proof fn law_reset_leaves_the_others(cells: Seq<(u16, CurveData)>, code: u16, i: int)
    requires
        0 <= i < cells.len(),
    ensures
        ({
            let r = after_reset(cells, code);
            let partner = if code == 0 {
                1int
            } else if code == 3 {
                4
            } else {
                -1
            };
            &&& r.len() == cells.len()
            &&& r[i].0 == cells[i].0
            &&& cells[i].0 != code && cells[i].0 != partner ==> r[i] == cells[i]
            &&& cells[i].0 == partner ==> r[i].1 == (CurveData {
                rotate: 0,
                rotate_group: 0,
                ..cells[i].1
            })
            &&& cells[i].0 == code ==> r[i].1.passes() && r[i].1.rotate == 0
        }),
{
}

/// The summary of an axis has a part for each kind of setting that is not at rest,
/// and says that the axis is linear when there is none.
pub proof fn law_summary_tells_what_is_set(c: CurveData)
    ensures
        ({
            let n = (if c.is_reversed {
                1int
            } else {
                0
            }) + (if c.curve != 0 {
                1int
            } else {
                0
            }) + (if c.zoom != 0 {
                1int
            } else {
                0
            }) + (if c.lower > 0 || c.upper > 0 {
                1int
            } else {
                0
            }) + (if c.center_lower > 0 || c.center_upper > 0 {
                1int
            } else {
                0
            }) + (if c.x_pos != 50 || c.y_pos != 50 {
                1int
            } else {
                0
            }) + (if c.rotate != 0 {
                1int
            } else {
                0
            });
            &&& summary_parts(c).len() == n
            &&& c.acts() ==> summary_of(c).len() == n
            &&& !c.acts() ==> summary_of(c).len() == 1
        }),
{
}

/// What is said of an axis with one kind of setting: the setting and its own values,
/// the lower one before the upper one.
pub proof fn law_summary_of_one_setting(c: CurveData, a: u8, b: u8, n: i8)
    requires
        c == axis_curve::neutral(),
        a > 0,
        b > 0,
        a != 50,
        n != 0,
    ensures
        summary_of(CurveData { lower: a, upper: b, ..c }) == seq![
            message::said("bounds {}/{}"@, seq![text::dec(a as nat), text::dec(b as nat)]),
        ],
        summary_of(CurveData { center_lower: a, center_upper: b, ..c }) == seq![
            message::said("center {}/{}"@, seq![text::dec(a as nat), text::dec(b as nat)]),
        ],
        summary_of(CurveData { x_pos: a, y_pos: b, ..c }) == seq![
            message::said("point {}/{}"@, seq![text::dec(a as nat), text::dec(b as nat)]),
        ],
        summary_of(CurveData { zoom: n, ..c }) == seq![
            message::said("gain {}"@, seq![text::with_sign(n as int)]),
        ],
        summary_of(CurveData { curve: n, ..c }) == seq![
            message::said("curve {} {}"@, seq!["S"@, text::with_sign(n as int)]),
        ],
        summary_of(CurveData { is_reversed: true, ..c }) == seq![
            message::said("inverted"@, Seq::empty()),
        ],
        summary_of(c) == seq![message::said("Linear (no setting)"@, Seq::empty())],
{
    assert(summary_of(CurveData { lower: a, upper: b, ..c }) =~= seq![
        message::said("bounds {}/{}"@, seq![text::dec(a as nat), text::dec(b as nat)]),
    ]);
    assert(summary_of(CurveData { center_lower: a, center_upper: b, ..c }) =~= seq![
        message::said("center {}/{}"@, seq![text::dec(a as nat), text::dec(b as nat)]),
    ]);
    assert(summary_of(CurveData { x_pos: a, y_pos: b, ..c }) =~= seq![
        message::said("point {}/{}"@, seq![text::dec(a as nat), text::dec(b as nat)]),
    ]);
    assert(summary_of(CurveData { zoom: n, ..c }) =~= seq![
        message::said("gain {}"@, seq![text::with_sign(n as int)]),
    ]);
    assert(summary_of(CurveData { curve: n, ..c }) =~= seq![
        message::said("curve {} {}"@, seq!["S"@, text::with_sign(n as int)]),
    ]);
    assert(summary_of(CurveData { is_reversed: true, ..c }) =~= seq![
        message::said("inverted"@, Seq::empty()),
    ]);
}

} // verus!
