//! Settings of the response of an axis.
//!
//! They are applied by the virtual controller, never written to the joystick. The
//! curve itself is computed in floating point by the caller; here stand the
//! settings, their ranges, and what becomes of the computed value.

use crate::text;
use vstd::prelude::*;

verus! {

/// Shape of a response curve.
#[derive(Debug, Clone, Copy, PartialEq, Eq, Structural, Default)]
pub enum CurveType {
    /// Flat at the center and at the ends.
    #[default]
    S,
    /// Exponential.
    J,
}

impl CurveType {
    /// The letter of the shape.
    pub open spec fn label(self) -> &'static str {
        match self {
            CurveType::S => "S",
            CurveType::J => "J",
        }
    }

    /// The shape of a label: anything but `J` is `S`.
    pub open spec fn of_label(s: Seq<char>) -> CurveType {
        if s == "J"@ {
            CurveType::J
        } else {
            CurveType::S
        }
    }

    /// The letter of the shape.
    pub fn as_str(self) -> (r: &'static str)
        ensures
            r == self.label(),
    {
        match self {
            CurveType::S => "S",
            CurveType::J => "J",
        }
    }

    /// The shape of a label.
    pub fn from_label(s: &str) -> (r: Self)
        ensures
            r == CurveType::of_label(s@),
    {
        if text::str_eq(s, "J") {
            CurveType::J
        } else {
            CurveType::S
        }
    }
}

/// The letter of a shape names that shape.
pub proof fn law_label_round_trip(t: CurveType)
    ensures
        CurveType::of_label(t.label()@) == t,
{
    reveal_strlit("S");
    reveal_strlit("J");
    assert("S"@[0] == 'S' && "J"@[0] == 'J');
}

/// Settings of the response of an axis. The default changes nothing.
#[derive(Debug, Clone, Copy, PartialEq, Eq, Structural)]
pub struct CurveData {
    pub curve_type: CurveType,
    pub is_reversed: bool,
    /// Dead travel at the minimum, in percent (0 to 50).
    pub lower: u8,
    /// Saturation at the maximum, in percent (0 to 50).
    pub upper: u8,
    /// Deadzone below the center, in percent (0 to 50).
    pub center_lower: u8,
    /// Deadzone above the center, in percent (0 to 50).
    pub center_upper: u8,
    /// Curvature (-18 to 18, 0 is linear).
    pub curve: i8,
    /// Gain (-10 to 10, 0 is none).
    pub zoom: i8,
    /// Control point, X (1 to 99).
    pub x_pos: u8,
    /// Control point, Y (1 to 99).
    pub y_pos: u8,
    /// Rotation of a pair of axes, in degrees (-25 to 25).
    pub rotate: i8,
    /// The pair that turns together; 0 is none.
    pub rotate_group: u32,
}

/// The settings that change nothing.
pub open spec fn neutral() -> CurveData {
    CurveData {
        curve_type: CurveType::S,
        is_reversed: false,
        lower: 0,
        upper: 0,
        center_lower: 0,
        center_upper: 0,
        curve: 0,
        zoom: 0,
        x_pos: 50,
        y_pos: 50,
        rotate: 0,
        rotate_group: 0,
    }
}

impl Default for CurveData {
    fn default() -> (r: Self)
        ensures
            r == neutral(),
    {
        CurveData {
            curve_type: CurveType::S,
            is_reversed: false,
            lower: 0,
            upper: 0,
            center_lower: 0,
            center_upper: 0,
            curve: 0,
            zoom: 0,
            x_pos: 50,
            y_pos: 50,
            rotate: 0,
            rotate_group: 0,
        }
    }
}

/// The nearest value of the range.
pub open spec fn nearest(v: int, lo: int, hi: int) -> int {
    if v < lo {
        lo
    } else if v > hi {
        hi
    } else {
        v
    }
}

fn nearest_u8(v: u8, lo: u8, hi: u8) -> (r: u8)
    ensures
        r == nearest(v as int, lo as int, hi as int),
{
    if v < lo {
        lo
    } else if v > hi {
        hi
    } else {
        v
    }
}

fn nearest_i8(v: i8, lo: i8, hi: i8) -> (r: i8)
    ensures
        r == nearest(v as int, lo as int, hi as int),
{
    if v < lo {
        lo
    } else if v > hi {
        hi
    } else {
        v
    }
}

impl CurveData {
    /// On its own the axis passes unchanged: no inversion, bounds, deadzone,
    /// curvature, gain or control point.
    pub open spec fn passes(self) -> bool {
        &&& !self.is_reversed
        &&& self.lower == 0 && self.upper == 0
        &&& self.center_lower == 0 && self.center_upper == 0
        &&& self.curve == 0 && self.zoom == 0
        &&& self.x_pos == 50 && self.y_pos == 50
    }

    /// The axis turns with others.
    pub open spec fn turns(self) -> bool {
        self.rotate != 0 && self.rotate_group != 0
    }

    /// The settings have an effect.
    pub open spec fn acts(self) -> bool {
        !self.passes() || self.turns()
    }

    /// The settings within their ranges.
    pub open spec fn within(self) -> CurveData {
        CurveData {
            lower: nearest(self.lower as int, 0, 50) as u8,
            upper: nearest(self.upper as int, 0, 50) as u8,
            center_lower: nearest(self.center_lower as int, 0, 50) as u8,
            center_upper: nearest(self.center_upper as int, 0, 50) as u8,
            curve: nearest(self.curve as int, -18, 18) as i8,
            zoom: nearest(self.zoom as int, -10, 10) as i8,
            x_pos: nearest(self.x_pos as int, 1, 99) as u8,
            y_pos: nearest(self.y_pos as int, 1, 99) as u8,
            rotate: nearest(self.rotate as int, -25, 25) as i8,
            ..self
        }
    }

    /// Whether the axis passes unchanged on its own; its rotation, which needs a
    /// partner, is not asked for here.
    pub fn is_identity(&self) -> (r: bool)
        ensures
            r == self.passes(),
    {
        !self.is_reversed && self.lower == 0 && self.upper == 0 && self.center_lower == 0
            && self.center_upper == 0 && self.curve == 0 && self.zoom == 0 && self.x_pos == 50
            && self.y_pos == 50
    }

    /// Whether the axis turns with others.
    pub fn has_rotation(&self) -> (r: bool)
        ensures
            r == self.turns(),
    {
        self.rotate != 0 && self.rotate_group != 0
    }

    /// The settings within their ranges, as the curve is computed from them.
    pub fn bounded(&self) -> (r: Self)
        ensures
            r == self.within(),
    {
        CurveData {
            curve_type: self.curve_type,
            is_reversed: self.is_reversed,
            lower: nearest_u8(self.lower, 0, 50),
            upper: nearest_u8(self.upper, 0, 50),
            center_lower: nearest_u8(self.center_lower, 0, 50),
            center_upper: nearest_u8(self.center_upper, 0, 50),
            curve: nearest_i8(self.curve, -18, 18),
            zoom: nearest_i8(self.zoom, -10, 10),
            x_pos: nearest_u8(self.x_pos, 1, 99),
            y_pos: nearest_u8(self.y_pos, 1, 99),
            rotate: nearest_i8(self.rotate, -25, 25),
            rotate_group: self.rotate_group,
        }
    }

    /// The settings bend nothing: at most they invert the axis.
    pub open spec fn straight(self) -> bool {
        &&& self.lower == 0 && self.upper == 0
        &&& self.center_lower == 0 && self.center_upper == 0
        &&& self.curve == 0 && self.zoom == 0
        &&& self.x_pos == 50 && self.y_pos == 50
    }

    /// The value of the axis after its settings, when `curved` is what the curve
    /// computes: an axis without a range keeps its raw value; without a curve the
    /// value stays or is mirrored; all within the range.
    pub open spec fn applied(self, raw: i32, min: i32, max: i32, curved: i32) -> int {
        if min >= max {
            raw as int
        } else if self.straight() {
            let v = nearest(raw as int, min as int, max as int);
            if self.is_reversed {
                min + max - v
            } else {
                v
            }
        } else {
            nearest(curved as int, min as int, max as int)
        }
    }

    /// The value of the axis after its settings. `curved` is what the curve
    /// computes for the value; it is not asked for when the settings bend nothing.
    pub fn apply(&self, raw: i32, min: i32, max: i32, curved: i32) -> (r: i32)
        ensures
            r == self.applied(raw, min, max, curved),
    {
        if min >= max {
            return raw;
        }
        if self.is_straight() {
            let v: i32 = nearest_i32(raw, min, max);
            if self.is_reversed {
                (min as i64 + max as i64 - v as i64) as i32
            } else {
                v
            }
        } else {
            nearest_i32(curved, min, max)
        }
    }

    /// Whether the settings bend nothing.
    pub fn is_straight(&self) -> (r: bool)
        ensures
            r == self.straight(),
    {
        self.lower == 0 && self.upper == 0 && self.center_lower == 0 && self.center_upper == 0
            && self.curve == 0 && self.zoom == 0 && self.x_pos == 50 && self.y_pos == 50
    }
}

/// One setting that bends the axis is enough: as soon as one of them is not at
/// rest, the value is the computed one, or the end of the range that it passes.
pub proof fn law_any_bend_counts(c: CurveData, min: i32, max: i32, raw: i32, curved: i32)
    requires
        min < max,
        c.lower > 0 || c.upper > 0 || c.center_lower > 0 || c.center_upper > 0 || c.curve != 0
            || c.zoom != 0 || c.x_pos != 50 || c.y_pos != 50,
    ensures
        min <= curved <= max ==> c.applied(raw, min, max, curved) == curved,
        curved < min ==> c.applied(raw, min, max, curved) == min,
        curved > max ==> c.applied(raw, min, max, curved) == max,
        !c.straight(),
        !c.passes(),
        c.acts(),
{
}

/// With every bending setting at rest the computed value has no say: the raw value
/// stays, or is mirrored between the ends of the range when the axis is inverted.
pub proof fn law_without_bend_the_raw_value_counts(
    c: CurveData,
    min: i32,
    max: i32,
    raw: i32,
    curved: i32,
)
    requires
        min < max,
        c.lower == 0 && c.upper == 0 && c.center_lower == 0 && c.center_upper == 0 && c.curve == 0
            && c.zoom == 0 && c.x_pos == 50 && c.y_pos == 50,
    ensures
        min <= raw <= max && !c.is_reversed ==> c.applied(raw, min, max, curved) == raw,
        min <= raw <= max && c.is_reversed ==> c.applied(raw, min, max, curved) - min == max - raw,
        raw < min ==> c.applied(raw, min, max, curved) == (if c.is_reversed {
            max
        } else {
            min
        }),
        raw > max ==> c.applied(raw, min, max, curved) == (if c.is_reversed {
            min
        } else {
            max
        }),
        c.straight(),
        c.passes() <==> !c.is_reversed,
{
}

/// An axis without a range is left alone, whatever its settings.
pub proof fn law_no_range_no_change(c: CurveData, min: i32, max: i32, raw: i32, curved: i32)
    requires
        min >= max,
    ensures
        c.applied(raw, min, max, curved) == raw,
{
}

/// Settings bend nothing exactly when, without the inversion, the axis passes
/// unchanged; and settings without effect are the default ones, but for the shape
/// of a curve that is not there and for a rotation that lacks its angle or its
/// group.
pub proof fn law_straight_is_passing(c: CurveData)
    ensures
        c.straight() <==> (CurveData { is_reversed: false, ..c }).passes(),
        c.passes() <==> c == (CurveData {
            curve_type: c.curve_type,
            rotate: c.rotate,
            rotate_group: c.rotate_group,
            ..neutral()
        }),
        c.acts() <==> !c.passes() || (c.rotate != 0 && c.rotate_group != 0),
{
}

/// An inverted axis ends where it began: the ends change places, inverting twice
/// gives the value back, and a greater value becomes a smaller one.
pub proof fn law_inversion_is_mirrored(
    c: CurveData,
    min: i32,
    max: i32,
    raw: i32,
    other: i32,
    curved: i32,
)
    requires
        c.straight(),
        c.is_reversed,
        min < max,
        min <= raw <= max,
        min <= other <= max,
    ensures
        c.applied(min, min, max, curved) == max,
        c.applied(max, min, max, curved) == min,
        c.applied(c.applied(raw, min, max, curved) as i32, min, max, curved) == raw,
        raw < other ==> c.applied(raw, min, max, curved) > c.applied(other, min, max, curved),
{
}

/// Whatever the curve computes, the value stays within the range; settings that do
/// nothing leave a value of the range as it is.
pub proof fn law_values_stay_in_range(c: CurveData, min: i32, max: i32, raw: i32, curved: i32)
    requires
        min < max,
    ensures
        min <= c.applied(raw, min, max, curved) <= max,
        c.passes() && min <= raw <= max ==> c.applied(raw, min, max, curved) == raw,
{
}

fn nearest_i32(v: i32, lo: i32, hi: i32) -> (r: i32)
    ensures
        r == nearest(v as int, lo as int, hi as int),
{
    if v < lo {
        lo
    } else if v > hi {
        hi
    } else {
        v
    }
}

/// Settings within their ranges stay as they are, and whatever the settings, those
/// that the curve is computed from are within the ranges.
pub proof fn law_bounded_settings(c: CurveData)
    ensures
        c.within().within() == c.within(),
        c.within().lower <= 50 && c.within().upper <= 50,
        c.within().center_lower <= 50 && c.within().center_upper <= 50,
        -18 <= c.within().curve <= 18,
        -10 <= c.within().zoom <= 10,
        1 <= c.within().x_pos <= 99 && 1 <= c.within().y_pos <= 99,
        -25 <= c.within().rotate <= 25,
        c.passes() ==> c.within().passes(),
{
}

/// A setting within its range is kept, one beyond it becomes the nearest end, and
/// what has no range is not touched.
pub proof fn law_bounds_change_only_what_is_beyond(c: CurveData)
    ensures
        c.within().lower == (if c.lower <= 50 {
            c.lower
        } else {
            50
        }),
        c.within().upper == (if c.upper <= 50 {
            c.upper
        } else {
            50
        }),
        c.within().center_lower == (if c.center_lower <= 50 {
            c.center_lower
        } else {
            50
        }),
        c.within().center_upper == (if c.center_upper <= 50 {
            c.center_upper
        } else {
            50
        }),
        -18 <= c.curve <= 18 ==> c.within().curve == c.curve,
        c.curve < -18 ==> c.within().curve == -18,
        c.curve > 18 ==> c.within().curve == 18,
        -10 <= c.zoom <= 10 ==> c.within().zoom == c.zoom,
        c.zoom < -10 ==> c.within().zoom == -10,
        c.zoom > 10 ==> c.within().zoom == 10,
        1 <= c.x_pos <= 99 ==> c.within().x_pos == c.x_pos,
        1 <= c.y_pos <= 99 ==> c.within().y_pos == c.y_pos,
        c.x_pos < 1 ==> c.within().x_pos == 1,
        c.y_pos < 1 ==> c.within().y_pos == 1,
        c.x_pos > 99 ==> c.within().x_pos == 99,
        c.y_pos > 99 ==> c.within().y_pos == 99,
        -25 <= c.rotate <= 25 ==> c.within().rotate == c.rotate,
        c.rotate < -25 ==> c.within().rotate == -25,
        c.rotate > 25 ==> c.within().rotate == 25,
        c.within().curve_type == c.curve_type,
        c.within().is_reversed == c.is_reversed,
        c.within().rotate_group == c.rotate_group,
{
}

/// The default settings have no effect.
pub proof fn law_default_has_no_effect()
    ensures
        neutral().passes(),
        !neutral().turns(),
        !neutral().acts(),
{
}

/// A pair of axes after its rotation, when `turned` is what the rotation computes:
/// axes without a range, or no angle, keep their raw values; else both stay within
/// their ranges.
pub open spec fn rotated(
    a_raw: i32,
    a_min: i32,
    a_max: i32,
    b_raw: i32,
    b_min: i32,
    b_max: i32,
    angle_deg: i8,
    turned: (i32, i32),
) -> (i32, i32) {
    if a_min >= a_max || b_min >= b_max || angle_deg == 0 {
        (a_raw, b_raw)
    } else {
        (
            nearest(turned.0 as int, a_min as int, a_max as int) as i32,
            nearest(turned.1 as int, b_min as int, b_max as int) as i32,
        )
    }
}

/// A pair of axes after its rotation; `turned` is what the rotation computes.
pub fn rotate_pair(
    a_raw: i32,
    a_min: i32,
    a_max: i32,
    b_raw: i32,
    b_min: i32,
    b_max: i32,
    angle_deg: i8,
    turned: (i32, i32),
) -> (r: (i32, i32))
    ensures
        r == rotated(a_raw, a_min, a_max, b_raw, b_min, b_max, angle_deg, turned),
{
    if a_min >= a_max || b_min >= b_max || angle_deg == 0 {
        (a_raw, b_raw)
    } else {
        (nearest_i32(turned.0, a_min, a_max), nearest_i32(turned.1, b_min, b_max))
    }
}

/// A pair that turns gets the computed values, each brought into the range of its
/// own axis; without an angle, or with an axis that has no range, both keep their
/// raw values.
pub proof fn law_rotation_keeps_each_range(
    a_raw: i32,
    a_min: i32,
    a_max: i32,
    b_raw: i32,
    b_min: i32,
    b_max: i32,
    angle_deg: i8,
    turned: (i32, i32),
)
    ensures
        ({
            let r = rotated(a_raw, a_min, a_max, b_raw, b_min, b_max, angle_deg, turned);
            let turns = a_min < a_max && b_min < b_max && angle_deg != 0;
            &&& !turns ==> r.0 == a_raw && r.1 == b_raw
            &&& turns ==> a_min <= r.0 <= a_max && b_min <= r.1 <= b_max
            &&& turns && a_min <= turned.0 <= a_max ==> r.0 == turned.0
            &&& turns && b_min <= turned.1 <= b_max ==> r.1 == turned.1
            &&& turns && turned.0 < a_min ==> r.0 == a_min
            &&& turns && turned.0 > a_max ==> r.0 == a_max
            &&& turns && turned.1 < b_min ==> r.1 == b_min
            &&& turns && turned.1 > b_max ==> r.1 == b_max
        }),
{
}

} // verus!
