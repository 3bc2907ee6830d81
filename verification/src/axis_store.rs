//! Stored settings of the axes, one file for each device.
//!
//! The settings are kept by axis code. Those that have no effect are not kept: the
//! axis passes as it is anyway.

use crate::axis_curve;
use crate::axis_curve::{CurveData, CurveType};
use crate::enumerate::WinwingDevice;
use crate::json;
use crate::remap_store;
use crate::remap_store::SaveAction;
use crate::text;
use crate::version;
use std::collections::BTreeMap;
use std::collections::HashMap;
use vstd::prelude::*;

verus! {

pub const AXIS_FORMAT: &'static str = "winwing-axis";

pub const AXIS_VERSION: u64 = 1;

/// Settings of the axes of a device, by axis code.
#[derive(Debug, PartialEq, Eq)]
pub struct AxisCurves {
    curves: BTreeMap<u16, CurveData>,
}

/// Settings by axis code, all of them with an effect.
pub open spec fn all_act(m: Map<u16, CurveData>) -> bool {
    &&& m.dom().finite()
    &&& forall|c: u16| #[trigger] m.contains_key(c) ==> m[c].acts()
}

/// The settings after those of an axis were set: without an effect they are
/// removed.
pub open spec fn with_curve(m: Map<u16, CurveData>, code: u16, curve: CurveData) -> Map<
    u16,
    CurveData,
> {
    if curve.acts() {
        m.insert(code, curve)
    } else {
        m.remove(code)
    }
}

impl View for AxisCurves {
    type V = Map<u16, CurveData>;

    closed spec fn view(&self) -> Map<u16, CurveData> {
        self.curves@
    }
}

impl Clone for AxisCurves {
    fn clone(&self) -> (r: Self)
        ensures
            r@ == self@,
    {
        proof {
            use_type_invariant(self);
        }
        AxisCurves { curves: self.curves.clone() }
    }
}

impl Default for AxisCurves {
    fn default() -> (r: Self)
        ensures
            r@ == Map::<u16, CurveData>::empty(),
    {
        AxisCurves { curves: BTreeMap::new() }
    }
}

/// The pairs are those of the settings, each once, by ascending axis code.
pub open spec fn lists_curves(pairs: Seq<(u16, CurveData)>, m: Map<u16, CurveData>) -> bool {
    &&& forall|i: int, j: int|
        0 <= i < j < pairs.len() ==> (#[trigger] pairs[i]).0 < (#[trigger] pairs[j]).0
    &&& forall|i: int|
        0 <= i < pairs.len() ==> m.contains_key((#[trigger] pairs[i]).0) && m[pairs[i].0]
            == pairs[i].1
    &&& forall|c: u16| #[trigger]
        m.contains_key(c) ==> exists|i: int| 0 <= i < pairs.len() && (#[trigger] pairs[i]).0 == c
}

impl AxisCurves {
    #[verifier::type_invariant]
    spec fn inv(self) -> bool {
        all_act(self.curves@)
    }

    pub fn new() -> (r: Self)
        ensures
            r@ == Map::<u16, CurveData>::empty(),
    {
        AxisCurves { curves: BTreeMap::new() }
    }

    /// Sets the settings of an axis; settings without an effect remove them.
    pub fn set(&mut self, code: u16, curve: CurveData)
        ensures
            final(self)@ == with_curve(old(self)@, code, curve),
    {
        proof {
            use_type_invariant(&*self);
        }
        let mut table: BTreeMap<u16, CurveData> = self.curves.clone();
        if curve.is_identity() && !curve.has_rotation() {
            table.remove(&code);
        } else {
            table.insert(code, curve);
        }
        *self = AxisCurves { curves: table };
    }

    /// The settings of an axis; the default when none are kept.
    pub fn get(&self, code: u16) -> (r: CurveData)
        ensures
            r == if self@.contains_key(code) {
                self@[code]
            } else {
                axis_curve::neutral()
            },
    {
        match self.curves.get(&code) {
            Some(c) => *c,
            None => CurveData::default(),
        }
    }

    /// Removes the settings of an axis.
    pub fn clear(&mut self, code: u16)
        ensures
            final(self)@ == old(self)@.remove(code),
    {
        proof {
            use_type_invariant(&*self);
        }
        let mut table: BTreeMap<u16, CurveData> = self.curves.clone();
        table.remove(&code);
        *self = AxisCurves { curves: table };
    }

    /// Removes all settings.
    pub fn clear_all(&mut self)
        ensures
            final(self)@ == Map::<u16, CurveData>::empty(),
    {
        *self = AxisCurves { curves: BTreeMap::new() };
    }

    pub fn is_empty(&self) -> (r: bool)
        ensures
            r == (self@ == Map::<u16, CurveData>::empty()),
    {
        let r: bool = self.curves.is_empty();
        proof {
            if r {
                assert(self@ =~= Map::<u16, CurveData>::empty());
            }
        }
        r
    }

    /// Number of axes with settings.
    pub fn len(&self) -> (r: usize)
        ensures
            r == self@.dom().len(),
    {
        self.curves.len()
    }

    /// The axes with their settings, by ascending code.
    pub fn entries(&self) -> (r: Vec<(u16, CurveData)>)
        ensures
            all_act(self@),
            lists_curves(r@, self@),
    {
        proof {
            use_type_invariant(self);
        }
        let mut out: Vec<(u16, CurveData)> = Vec::new();
        let pairs = self.curves.iter();
        let ghost all = vstd::std_specs::iter::IteratorSpec::remaining(&pairs);
        for kv in it: pairs
            invariant
                it.seq() == all,
                out.len() == it.index(),
                forall|i: int| 0 <= i < out.len() ==> (#[trigger] out[i]).0 == *all[i].0,
                forall|i: int| 0 <= i < out.len() ==> (#[trigger] out[i]).1 == *all[i].1,
        {
            out.push((*kv.0, *kv.1));
        }
        proof {
            let keys = all.map_values(|kv: (&u16, &CurveData)| *kv.0);
            assert(vstd::std_specs::btree::increasing_seq(keys));
            vstd::std_specs::btree::axiom_increasing_seq_meaning(keys);
            assert forall|i: int, j: int| 0 <= i < j < out.len() implies (#[trigger] out[i]).0 < (
            #[trigger] out[j]).0 by {
                assert(keys[i] == out[i].0);
                assert(keys[j] == out[j].0);
                assert(vstd::std_specs::cmp::OrdSpec::cmp_spec(&keys[i], &keys[j]) is Less);
            }
            assert forall|c: u16| #[trigger] self@.contains_key(c) implies exists|i: int|
                0 <= i < out.len() && (#[trigger] out[i]).0 == c by {
                assert(all.contains((&c, &self.curves@[c])));
                let i = choose|i: int| 0 <= i < all.len() && all[i] == (&c, &self.curves@[c]);
                assert(out[i].0 == c);
            }
        }
        out
    }

    /// The settings as a hash map, for a plan.
    pub fn to_curves(&self) -> (r: HashMap<u16, CurveData>)
        ensures
            all_act(self@),
            r@ == self@,
    {
        let pairs: Vec<(u16, CurveData)> = self.entries();
        let mut out: HashMap<u16, CurveData> = HashMap::new();
        let mut i: usize = 0;
        while i < pairs.len()
            invariant
                i <= pairs.len(),
                lists_curves(pairs@, self@),
                forall|c: u16|
                    #[trigger] out@.contains_key(c) <==> exists|j: int|
                        0 <= j < i && (#[trigger] pairs[j]).0 == c,
                forall|j: int| 0 <= j < i ==> out@[(#[trigger] pairs[j]).0] == pairs[j].1,
            decreases pairs.len() - i,
        {
            let ghost before = out@;
            out.insert(pairs[i].0, pairs[i].1);
            proof {
                assert forall|c: u16| #[trigger] out@.contains_key(c) <==> exists|j: int|
                    0 <= j < i + 1 && (#[trigger] pairs[j]).0 == c by {
                    if before.contains_key(c) {
                        let j = choose|j: int| 0 <= j < i && (#[trigger] pairs[j]).0 == c;
                        assert(0 <= j < i + 1 && pairs[j].0 == c);
                    }
                    if c == pairs[i as int].0 {
                        assert(0 <= i < i + 1 && pairs[i as int].0 == c);
                    }
                }
            }
            i += 1;
        }
        assert(out@ =~= self@);
        out
    }
}

/// What is set is what is got back, and other axes keep their settings.
pub proof fn law_set_then_get(m: Map<u16, CurveData>, code: u16, curve: CurveData, other: u16)
    ensures
        curve.acts() ==> with_curve(m, code, curve).contains_key(code) && with_curve(
            m,
            code,
            curve,
        )[code] == curve,
        !curve.acts() ==> !with_curve(m, code, curve).contains_key(code),
        other != code ==> with_curve(m, code, curve).contains_key(other) == m.contains_key(other)
            && (m.contains_key(other) ==> with_curve(m, code, curve)[other] == m[other]),
{
}

// --- Text of the file ------------------------------------------------------------------------

/// The low byte of a number.
pub open spec fn low_byte(n: int) -> u8 {
    (n % 256) as u8
}

/// The low byte of a number, read with its sign.
pub open spec fn low_signed(n: int) -> i8 {
    if n % 256 < 128 {
        (n % 256) as i8
    } else {
        (n % 256 - 256) as i8
    }
}

/// The unsigned number under a key, when there is one.
pub open spec fn member_u64(v: serde_json::Value, key: Seq<char>) -> Option<u64> {
    match json::member(v, key) {
        Some(x) => json::json_u64(x),
        None => None,
    }
}

/// The byte under a key; the default when there is none.
pub open spec fn byte_or(v: serde_json::Value, key: Seq<char>, default: u8) -> u8 {
    match member_u64(v, key) {
        Some(n) => low_byte(n as int),
        None => default,
    }
}

/// The signed byte under a key; the default when there is none.
pub open spec fn signed_or(v: serde_json::Value, key: Seq<char>, default: i8) -> i8 {
    match json::member(v, key) {
        Some(x) => match json::json_i64(x) {
            Some(n) => low_signed(n as int),
            None => default,
        },
        None => default,
    }
}

/// The settings that a stored value means: whatever is missing or of another kind
/// has its default.
pub open spec fn curve_in(v: serde_json::Value) -> CurveData {
    let d = axis_curve::neutral();
    CurveData {
        curve_type: match json::member(v, "curve_type"@) {
            Some(x) => match json::json_string(x) {
                Some(s) => CurveType::of_label(s),
                None => d.curve_type,
            },
            None => d.curve_type,
        },
        is_reversed: match json::member(v, "is_reversed"@) {
            Some(x) => match json::json_bool(x) {
                Some(b) => b,
                None => d.is_reversed,
            },
            None => d.is_reversed,
        },
        lower: byte_or(v, "lower"@, d.lower),
        upper: byte_or(v, "upper"@, d.upper),
        center_lower: byte_or(v, "center_lower"@, d.center_lower),
        center_upper: byte_or(v, "center_upper"@, d.center_upper),
        curve: signed_or(v, "curve"@, d.curve),
        zoom: signed_or(v, "zoom"@, d.zoom),
        x_pos: byte_or(v, "x_pos"@, d.x_pos),
        y_pos: byte_or(v, "y_pos"@, d.y_pos),
        rotate: signed_or(v, "rotate"@, d.rotate),
        rotate_group: match member_u64(v, "rotate_group"@) {
            Some(n) => (n % 0x1_0000_0000) as u32,
            None => d.rotate_group,
        },
    }
}

fn read_byte(v: &serde_json::Value, key: &str, default: u8) -> (r: u8)
    ensures
        r == byte_or(*v, key@, default),
{
    match json::get(v, key) {
        Some(x) => match json::as_u64(x) {
            Some(n) => (n % 256) as u8,
            None => default,
        },
        None => default,
    }
}

fn read_signed(v: &serde_json::Value, key: &str, default: i8) -> (r: i8)
    ensures
        r == signed_or(*v, key@, default),
{
    match json::get(v, key) {
        Some(x) => match json::as_i64(x) {
            Some(n) => match n.checked_rem_euclid(256) {
                Some(m) => if m < 128 {
                    m as i8
                } else {
                    (m - 256) as i8
                },
                None => default,
            },
            None => default,
        },
        None => default,
    }
}

/// The settings that a stored value means.
pub fn curve_from_json(v: &serde_json::Value) -> (r: CurveData)
    ensures
        r == curve_in(*v),
{
    let d: CurveData = CurveData::default();
    let curve_type: CurveType = match json::get(v, "curve_type") {
        Some(x) => match json::as_str(x) {
            Some(s) => CurveType::from_label(s.as_str()),
            None => d.curve_type,
        },
        None => d.curve_type,
    };
    let is_reversed: bool = match json::get(v, "is_reversed") {
        Some(x) => match json::as_bool(x) {
            Some(b) => b,
            None => d.is_reversed,
        },
        None => d.is_reversed,
    };
    let rotate_group: u32 = match json::get(v, "rotate_group") {
        Some(x) => match json::as_u64(x) {
            Some(n) => (n % 0x1_0000_0000) as u32,
            None => d.rotate_group,
        },
        None => d.rotate_group,
    };
    CurveData {
        curve_type,
        is_reversed,
        lower: read_byte(v, "lower", d.lower),
        upper: read_byte(v, "upper", d.upper),
        center_lower: read_byte(v, "center_lower", d.center_lower),
        center_upper: read_byte(v, "center_upper", d.center_upper),
        curve: read_signed(v, "curve", d.curve),
        zoom: read_signed(v, "zoom", d.zoom),
        x_pos: read_byte(v, "x_pos", d.x_pos),
        y_pos: read_byte(v, "y_pos", d.y_pos),
        rotate: read_signed(v, "rotate", d.rotate),
        rotate_group,
    }
}

/// The keys of stored settings.
pub open spec fn curve_keys() -> Seq<Seq<char>> {
    seq![
        "curve_type"@,
        "is_reversed"@,
        "lower"@,
        "upper"@,
        "center_lower"@,
        "center_upper"@,
        "curve"@,
        "zoom"@,
        "x_pos"@,
        "y_pos"@,
        "rotate"@,
        "rotate_group"@,
    ]
}

proof fn lemma_curve_keys_distinct(i: int, j: int)
    requires
        0 <= i < j < curve_keys().len(),
    ensures
        curve_keys()[i] != curve_keys()[j],
{
    reveal_strlit("curve_type");
    reveal_strlit("is_reversed");
    reveal_strlit("lower");
    reveal_strlit("upper");
    reveal_strlit("center_lower");
    reveal_strlit("center_upper");
    reveal_strlit("curve");
    reveal_strlit("zoom");
    reveal_strlit("x_pos");
    reveal_strlit("y_pos");
    reveal_strlit("rotate");
    reveal_strlit("rotate_group");
    assert("curve_type"@.len() == 10 && "is_reversed"@.len() == 11 && "lower"@.len() == 5
        && "upper"@.len() == 5 && "center_lower"@.len() == 12 && "center_upper"@.len() == 12
        && "curve"@.len() == 5 && "zoom"@.len() == 4 && "x_pos"@.len() == 5 && "y_pos"@.len() == 5
        && "rotate"@.len() == 6 && "rotate_group"@.len() == 12);
    assert("lower"@[0] == 'l' && "upper"@[0] == 'u' && "curve"@[0] == 'c' && "x_pos"@[0] == 'x'
        && "y_pos"@[0] == 'y');
    assert("center_lower"@[7] == 'l' && "center_upper"@[7] == 'u' && "rotate_group"@[7] == 'g');
}

/// The value stores the settings: all of them, and nothing else.
pub open spec fn stores_curve(v: serde_json::Value, c: CurveData) -> bool {
    json::json_object(v) matches Some(m) && {
        &&& forall|k: Seq<char>| #[trigger] m.contains_key(k) <==> curve_keys().contains(k)
        &&& json::json_string(m["curve_type"@]) == Some(c.curve_type.label()@)
        &&& json::json_bool(m["is_reversed"@]) == Some(c.is_reversed)
        &&& json::json_u64(m["lower"@]) == Some(c.lower as u64)
        &&& json::json_u64(m["upper"@]) == Some(c.upper as u64)
        &&& json::json_u64(m["center_lower"@]) == Some(c.center_lower as u64)
        &&& json::json_u64(m["center_upper"@]) == Some(c.center_upper as u64)
        &&& json::json_i64(m["curve"@]) == Some(c.curve as i64)
        &&& json::json_i64(m["zoom"@]) == Some(c.zoom as i64)
        &&& json::json_u64(m["x_pos"@]) == Some(c.x_pos as u64)
        &&& json::json_u64(m["y_pos"@]) == Some(c.y_pos as u64)
        &&& json::json_i64(m["rotate"@]) == Some(c.rotate as i64)
        &&& json::json_u64(m["rotate_group"@]) == Some(c.rotate_group as u64)
    }
}

/// The value that stores the settings.
pub fn curve_to_json(c: &CurveData) -> (r: serde_json::Value)
    ensures
        stores_curve(r, *c),
        json::is_exact(r, 1),
{
    let mut entries: Vec<(String, serde_json::Value)> = Vec::new();
    entries.push(("curve_type".to_string(), json::from_text(c.curve_type.as_str())));
    entries.push(("is_reversed".to_string(), json::from_bool(c.is_reversed)));
    entries.push(("lower".to_string(), json::from_u64(c.lower as u64)));
    entries.push(("upper".to_string(), json::from_u64(c.upper as u64)));
    entries.push(("center_lower".to_string(), json::from_u64(c.center_lower as u64)));
    entries.push(("center_upper".to_string(), json::from_u64(c.center_upper as u64)));
    entries.push(("curve".to_string(), json::from_i64(c.curve as i64)));
    entries.push(("zoom".to_string(), json::from_i64(c.zoom as i64)));
    entries.push(("x_pos".to_string(), json::from_u64(c.x_pos as u64)));
    entries.push(("y_pos".to_string(), json::from_u64(c.y_pos as u64)));
    entries.push(("rotate".to_string(), json::from_i64(c.rotate as i64)));
    entries.push(("rotate_group".to_string(), json::from_u64(c.rotate_group as u64)));
    let ghost es = entries@;
    let r: serde_json::Value = json::from_entries(entries);
    proof {
        let m = json::entries_map(es);
        assert forall|i: int| 0 <= i < 12 implies (#[trigger] es[i]).0@ == curve_keys()[i] by {}
        assert forall|a: int, b: int| 0 <= a < b < es.len() implies (#[trigger] es[a]).0@ != (
        #[trigger] es[b]).0@ by {
            lemma_curve_keys_distinct(a, b);
        }
        json::lemma_entry(es, 0);
        json::lemma_entry(es, 1);
        json::lemma_entry(es, 2);
        json::lemma_entry(es, 3);
        json::lemma_entry(es, 4);
        json::lemma_entry(es, 5);
        json::lemma_entry(es, 6);
        json::lemma_entry(es, 7);
        json::lemma_entry(es, 8);
        json::lemma_entry(es, 9);
        json::lemma_entry(es, 10);
        json::lemma_entry(es, 11);
        assert forall|k: Seq<char>| #[trigger] m.contains_key(k) <==> curve_keys().contains(k) by {
            if m.contains_key(k) {
                json::lemma_entry_keys(es, k);
                let i = choose|i: int| 0 <= i < es.len() && (#[trigger] es[i]).0@ == k;
                assert(curve_keys()[i] == k);
            }
            if curve_keys().contains(k) {
                let i = choose|i: int| 0 <= i < curve_keys().len() && curve_keys()[i] == k;
                assert(es[i].0@ == k);
                json::lemma_entry(es, i);
            }
        }
        assert forall|k: Seq<char>| m.contains_key(k) implies json::is_exact(
            #[trigger] m[k],
            0,
        ) by {
            json::lemma_entry_keys(es, k);
            let i = choose|i: int| 0 <= i < es.len() && (#[trigger] es[i]).0@ == k;
            json::lemma_entry(es, i);
        }
        assert(json::is_exact(r, 1));
    }
    r
}

/// Stored settings are read as the settings that were stored.
pub proof fn law_curve_round_trip(v: serde_json::Value, c: CurveData)
    requires
        stores_curve(v, c),
    ensures
        curve_in(v) == c,
{
    let ks = curve_keys();
    assert(ks.contains(ks[0]) && ks.contains(ks[1]) && ks.contains(ks[2]) && ks.contains(ks[3])
        && ks.contains(ks[4]) && ks.contains(ks[5]) && ks.contains(ks[6]) && ks.contains(ks[7])
        && ks.contains(ks[8]) && ks.contains(ks[9]) && ks.contains(ks[10]) && ks.contains(ks[11]));
    axis_curve::law_label_round_trip(c.curve_type);
}

/// The meaning of the stored table, key by key: a key that is no axis code refuses
/// it.
pub open spec fn read_curves(keys: Seq<Seq<char>>, obj: Map<Seq<char>, serde_json::Value>) -> Result<
    Map<u16, CurveData>,
    Seq<char>,
>
    decreases keys.len(),
{
    if keys.len() == 0 {
        Ok(Map::empty())
    } else {
        match read_curves(keys.drop_last(), obj) {
            Err(e) => Err(e),
            Ok(m) => match text::parsed(keys.last(), 10, u16::MAX as nat) {
                None => Err("code d'axe non entier"@),
                Some(n) => Ok(with_curve(m, n as u16, curve_in(obj[keys.last()]))),
            },
        }
    }
}

/// The settings that a stored value means, or why it means none.
pub open spec fn curves_in(v: serde_json::Value) -> Result<Map<u16, CurveData>, Seq<char>> {
    if !remap_store::declares_format(v, AXIS_FORMAT@) {
        Err("format de courbe d'axe inattendu"@)
    } else if remap_store::declared_version(v) > AXIS_VERSION {
        Err(
            "version de courbe trop récente : "@ + text::dec(
                remap_store::declared_version(v) as nat,
            ),
        )
    } else {
        match remap_store::object_member(v, "axes"@) {
            None => Err("config sans table d'axes"@),
            Some(obj) => read_curves(json::key_order(obj), obj),
        }
    }
}

/// The value stores the settings: one member for each axis, by its code.
pub open spec fn stores_curves(v: serde_json::Value, m: Map<u16, CurveData>) -> bool {
    &&& remap_store::declares_format(v, AXIS_FORMAT@)
    &&& remap_store::declared_version(v) == AXIS_VERSION
    &&& remap_store::object_member(v, "axes"@) matches Some(obj) && {
        &&& obj.dom().finite()
        &&& forall|k: Seq<char>| #[trigger]
            obj.contains_key(k) ==> exists|c: u16|
                #[trigger] m.contains_key(c) && k == text::dec(c as nat)
        &&& forall|c: u16| #[trigger]
            m.contains_key(c) ==> obj.contains_key(text::dec(c as nat)) && stores_curve(
                obj[text::dec(c as nat)],
                m[c],
            )
    }
}

impl AxisCurves {
    /// The value that stores the settings; `meta` identifies the device.
    pub fn to_json(&self, meta: serde_json::Value) -> (r: serde_json::Value)
        ensures
            all_act(self@),
            stores_curves(r, self@),
            json::member(r, "app_version"@) matches Some(x) && json::json_string(x) == Some(
                version::APP_VERSION@,
            ),
            json::member(r, "device"@) == Some(meta),
            json::is_exact(meta, 6) ==> json::is_exact(r, 7),
    {
        let pairs: Vec<(u16, CurveData)> = self.entries();
        let mut entries: Vec<(String, serde_json::Value)> = Vec::new();
        let mut i: usize = 0;
        while i < pairs.len()
            invariant
                i <= pairs.len(),
                entries.len() == i,
                forall|j: int|
                    0 <= j < i ==> (#[trigger] entries[j]).0@ == text::dec(pairs[j].0 as nat),
                forall|j: int| 0 <= j < i ==> stores_curve((#[trigger] entries[j]).1, pairs[j].1),
                forall|j: int| 0 <= j < i ==> json::is_exact((#[trigger] entries[j]).1, 1),
            decreases pairs.len() - i,
        {
            entries.push((text::dec_text(pairs[i].0 as u64), curve_to_json(&pairs[i].1)));
            i += 1;
        }
        let ghost es = entries@;
        let table: serde_json::Value = json::from_entries(entries);
        proof {
            let obj = json::entries_map(es);
            assert forall|a: int, b: int| 0 <= a < b < es.len() implies (#[trigger] es[a]).0@ != (
            #[trigger] es[b]).0@ by {
                if es[a].0@ == es[b].0@ {
                    text::lemma_dec_injective(pairs[a].0 as nat, pairs[b].0 as nat);
                }
            }
            assert forall|k: Seq<char>| #[trigger] obj.contains_key(k) implies exists|c: u16|
                #[trigger] self@.contains_key(c) && k == text::dec(c as nat) by {
                json::lemma_entry_keys(es, k);
                let j = choose|j: int| 0 <= j < es.len() && (#[trigger] es[j]).0@ == k;
                assert(self@.contains_key(pairs[j].0));
            }
            assert forall|c: u16| #[trigger] self@.contains_key(c) implies obj.contains_key(
                text::dec(c as nat),
            ) && stores_curve(obj[text::dec(c as nat)], self@[c]) by {
                let j = choose|j: int| 0 <= j < pairs.len() && (#[trigger] pairs[j]).0 == c;
                json::lemma_entry(es, j);
            }
            assert forall|k: Seq<char>| obj.contains_key(k) implies json::is_exact(
                #[trigger] obj[k],
                5,
            ) by {
                json::lemma_entry_keys(es, k);
                let j = choose|j: int| 0 <= j < es.len() && (#[trigger] es[j]).0@ == k;
                json::lemma_entry(es, j);
                remap_store::lemma_exact_deeper(obj[k], 1, 5);
            }
            assert(json::is_exact(table, 6));
            remap_store::lemma_entries_finite(es);
            reveal_strlit("axes");
            reveal_strlit("format");
            reveal_strlit("version");
            reveal_strlit("app_version");
            reveal_strlit("device");
            assert("axes"@.len() == 4 && "format"@.len() == 6 && "version"@.len() == 7
                && "app_version"@.len() == 11 && "device"@.len() == 6);
        }
        remap_store::stored_value(AXIS_FORMAT, AXIS_VERSION, meta, "axes", table)
    }

    /// The settings that a stored value means.
    pub fn from_json(v: &serde_json::Value) -> (r: Result<AxisCurves, String>)
        ensures
            match r {
                Ok(m) => curves_in(*v) == Ok::<Map<u16, CurveData>, Seq<char>>(m@),
                Err(e) => curves_in(*v) == Err::<Map<u16, CurveData>, Seq<char>>(e@),
            },
    {
        if !remap_store::has_format(v, AXIS_FORMAT) {
            return Err("format de courbe d'axe inattendu".to_string());
        }
        let number: u64 = remap_store::version_of(v);
        if number > AXIS_VERSION {
            let mut e: String = "version de courbe trop récente : ".to_string();
            e.append(text::dec_text(number).as_str());
            return Err(e);
        }
        let table: &serde_json::Value = match json::get(v, "axes") {
            Some(x) => x,
            None => {
                return Err("config sans table d'axes".to_string());
            },
        };
        let keys: Vec<String> = match json::object_keys(table) {
            Some(k) => k,
            None => {
                return Err("config sans table d'axes".to_string());
            },
        };
        let ghost obj = json::json_object(*table)->0;
        let ghost ks = text::views(keys@);
        proof {
            json::lemma_key_order(ks, obj);
            assert(curves_in(*v) == read_curves(ks, obj));
        }
        let mut m: AxisCurves = AxisCurves::new();
        let mut i: usize = 0;
        assert(ks.take(0) == Seq::<Seq<char>>::empty());
        while i < keys.len()
            invariant
                i <= keys.len(),
                ks == text::views(keys@),
                json::json_object(*table) == Some(obj),
                json::lists_keys(ks, obj),
                curves_in(*v) == read_curves(ks, obj),
                read_curves(ks.take(i as int), obj) == Ok::<Map<u16, CurveData>, Seq<char>>(m@),
            decreases keys.len() - i,
        {
            let ghost next = ks.take(i + 1);
            let ghost k = ks[i as int];
            proof {
                assert(next.drop_last() == ks.take(i as int));
                assert(next.last() == k);
                assert(keys[i as int]@ == k);
                assert(ks.contains(k));
                assert(obj.contains_key(k));
            }
            let code: u16 = match text::parse_number(keys[i].as_str(), 10, u16::MAX as u128) {
                Some(n) => n as u16,
                None => {
                    proof {
                        lemma_curves_stop(ks, obj, i + 1);
                    }
                    return Err("code d'axe non entier".to_string());
                },
            };
            if let Some(x) = json::get(table, keys[i].as_str()) {
                m.set(code, curve_from_json(x));
            }
            i += 1;
        }
        assert(ks.take(i as int) == ks);
        Ok(m)
    }
}

/// A bad key refuses the whole table, whatever follows.
proof fn lemma_curves_stop(keys: Seq<Seq<char>>, obj: Map<Seq<char>, serde_json::Value>, n: int)
    requires
        0 <= n <= keys.len(),
        read_curves(keys.take(n), obj) is Err,
    ensures
        read_curves(keys, obj) == read_curves(keys.take(n), obj),
    decreases keys.len(),
{
    if n == keys.len() {
        assert(keys.take(n) == keys);
    } else {
        assert(keys.drop_last().take(n) == keys.take(n));
        lemma_curves_stop(keys.drop_last(), obj, n);
    }
}

/// The part of the settings whose codes are among the texts.
spec fn part(m: Map<u16, CurveData>, keys: Seq<Seq<char>>) -> Map<u16, CurveData> {
    Map::new(|c: u16| m.contains_key(c) && keys.contains(text::dec(c as nat)), |c: u16| m[c])
}

proof fn lemma_read_part(
    keys: Seq<Seq<char>>,
    n: int,
    obj: Map<Seq<char>, serde_json::Value>,
    m: Map<u16, CurveData>,
)
    requires
        0 <= n <= keys.len(),
        all_act(m),
        json::lists_keys(keys, obj),
        forall|k: Seq<char>| #[trigger]
            obj.contains_key(k) ==> exists|c: u16|
                #[trigger] m.contains_key(c) && k == text::dec(c as nat),
        forall|c: u16| #[trigger]
            m.contains_key(c) ==> obj.contains_key(text::dec(c as nat)) && stores_curve(
                obj[text::dec(c as nat)],
                m[c],
            ),
    ensures
        read_curves(keys.take(n), obj) == Ok::<Map<u16, CurveData>, Seq<char>>(
            part(m, keys.take(n)),
        ),
    decreases n,
{
    let now = keys.take(n);
    if n == 0 {
        assert(part(m, now) =~= Map::<u16, CurveData>::empty());
    } else {
        let before = keys.take(n - 1);
        lemma_read_part(keys, n - 1, obj, m);
        assert(now.drop_last() == before);
        let k = now.last();
        assert(k == keys[n - 1]);
        assert(keys.contains(k));
        assert(obj.contains_key(k));
        let c = choose|c: u16| #[trigger] m.contains_key(c) && k == text::dec(c as nat);
        text::lemma_parsed_dec(c as nat, u16::MAX as nat);
        law_curve_round_trip(obj[k], m[c]);
        assert(read_curves(now, obj) == Ok::<Map<u16, CurveData>, Seq<char>>(
            part(m, before).insert(c, m[c]),
        ));
        assert forall|x: u16| part(m, now).contains_key(x) <==> part(m, before).insert(
            c,
            m[c],
        ).contains_key(x) by {
            if m.contains_key(x) && now.contains(text::dec(x as nat)) {
                let j = choose|j: int| 0 <= j < now.len() && now[j] == text::dec(x as nat);
                if j < n - 1 {
                    assert(before[j] == text::dec(x as nat));
                } else {
                    text::lemma_dec_injective(x as nat, c as nat);
                }
            }
            if m.contains_key(x) && before.contains(text::dec(x as nat)) {
                let j = choose|j: int| 0 <= j < before.len() && before[j] == text::dec(x as nat);
                assert(now[j] == text::dec(x as nat));
            }
            if x == c {
                assert(now[n - 1] == text::dec(c as nat));
            }
        }
        assert(part(m, now) =~= part(m, before).insert(c, m[c]));
    }
}

/// What stored settings are read as are the settings that were stored.
pub proof fn law_curves_round_trip(v: serde_json::Value, m: Map<u16, CurveData>)
    requires
        all_act(m),
        stores_curves(v, m),
    ensures
        curves_in(v) == Ok::<Map<u16, CurveData>, Seq<char>>(m),
{
    let obj = remap_store::object_member(v, "axes"@)->0;
    let keys = json::key_order(obj);
    json::lemma_key_order_exists(obj);
    lemma_read_part(keys, keys.len() as int, obj, m);
    assert(keys.take(keys.len() as int) == keys);
    assert(part(m, keys) =~= m) by {
        assert forall|c: u16| m.contains_key(c) implies keys.contains(text::dec(c as nat)) by {
            assert(obj.contains_key(text::dec(c as nat)));
        }
    }
}

/// The settings that the text of a file means: none when it means none.
pub open spec fn loaded(content: Seq<char>) -> Map<u16, CurveData> {
    match json::json_parsed(content) {
        Some(v) => match curves_in(v) {
            Ok(m) => m,
            Err(_) => Map::empty(),
        },
        None => Map::empty(),
    }
}

/// The settings of a device from the text of its file; none when there is no file
/// or it cannot be understood.
pub fn load_curves(content: Option<&str>) -> (r: AxisCurves)
    ensures
        r@ == match content {
            Some(t) => loaded(t@),
            None => Map::empty(),
        },
{
    match content {
        Some(t) => match json::parse(t) {
            Some(v) => match AxisCurves::from_json(&v) {
                Ok(m) => m,
                Err(_) => AxisCurves::new(),
            },
            None => AxisCurves::new(),
        },
        None => AxisCurves::new(),
    }
}

/// The value is that of the file of a device with the settings.
pub open spec fn is_curves_file(
    v: serde_json::Value,
    dev: WinwingDevice,
    m: Map<u16, CurveData>,
) -> bool {
    &&& stores_curves(v, m)
    &&& json::member(v, "device"@) matches Some(d) && remap_store::is_device_meta(d, dev)
}

/// What to do with the file of a device: no settings remove it; any others are
/// written, and are what the file is read as.
pub fn save_curves(dev: &WinwingDevice, curves: &AxisCurves) -> (r: SaveAction)
    ensures
        match r {
            SaveAction::Remove => curves@ == Map::<u16, CurveData>::empty(),
            SaveAction::Write(t) => {
                &&& curves@ != Map::<u16, CurveData>::empty()
                &&& exists|v: serde_json::Value|
                    is_curves_file(v, *dev, curves@) && t@ == #[trigger] json::json_pretty(v)
                &&& loaded(t@) == curves@
            },
        },
{
    if curves.is_empty() {
        return SaveAction::Remove;
    }
    let meta: serde_json::Value = remap_store::device_meta(dev);
    proof {
        remap_store::lemma_exact_deeper(meta, 1, 6);
    }
    let v: serde_json::Value = curves.to_json(meta);
    proof {
        remap_store::lemma_exact_deeper(v, 7, 8);
        law_curves_round_trip(v, curves@);
    }
    SaveAction::Write(json::pretty(&v))
}

/// Where the settings are stored.
pub fn axis_dir(home: &str) -> (r: String)
    ensures
        r@ == text::below(home@, ".local/share/winctrl/axis"@),
{
    text::path_below(home, ".local/share/winctrl/axis")
}

/// The file of a device in a directory.
pub fn curves_path(dev: &WinwingDevice, directory: &str) -> (r: String)
    ensures
        r@ == remap_store::file_in(directory@, *dev),
{
    remap_store::mapping_path(dev, directory)
}

/// What the keys of stored settings mean: each names its own setting.
pub proof fn law_each_key_has_its_setting(
    v: serde_json::Value,
    m: Map<Seq<char>, serde_json::Value>,
    byte: u8,
    number: i8,
    group: u32,
    on: bool,
)
    requires
        json::json_object(v) == Some(m),
    ensures
        m.contains_key("lower"@) && json::json_u64(m["lower"@]) == Some(byte as u64) ==> curve_in(
            v,
        ).lower == byte,
        m.contains_key("upper"@) && json::json_u64(m["upper"@]) == Some(byte as u64) ==> curve_in(
            v,
        ).upper == byte,
        m.contains_key("center_lower"@) && json::json_u64(m["center_lower"@]) == Some(byte as u64)
            ==> curve_in(v).center_lower == byte,
        m.contains_key("center_upper"@) && json::json_u64(m["center_upper"@]) == Some(byte as u64)
            ==> curve_in(v).center_upper == byte,
        m.contains_key("x_pos"@) && json::json_u64(m["x_pos"@]) == Some(byte as u64) ==> curve_in(
            v,
        ).x_pos == byte,
        m.contains_key("y_pos"@) && json::json_u64(m["y_pos"@]) == Some(byte as u64) ==> curve_in(
            v,
        ).y_pos == byte,
        m.contains_key("curve"@) && json::json_i64(m["curve"@]) == Some(number as i64) ==> curve_in(
            v,
        ).curve == number,
        m.contains_key("zoom"@) && json::json_i64(m["zoom"@]) == Some(number as i64) ==> curve_in(
            v,
        ).zoom == number,
        m.contains_key("rotate"@) && json::json_i64(m["rotate"@]) == Some(number as i64)
            ==> curve_in(v).rotate == number,
        m.contains_key("rotate_group"@) && json::json_u64(m["rotate_group"@]) == Some(group as u64)
            ==> curve_in(v).rotate_group == group,
        m.contains_key("is_reversed"@) && json::json_bool(m["is_reversed"@]) == Some(on)
            ==> curve_in(v).is_reversed == on,
        m.contains_key("curve_type"@) && json::json_string(m["curve_type"@]) == Some("J"@)
            ==> curve_in(v).curve_type == CurveType::J,
{
}

/// Settings that are not stored are at rest.
pub proof fn law_missing_settings_are_at_rest(v: serde_json::Value)
    requires
        json::json_object(v) == Some(Map::<Seq<char>, serde_json::Value>::empty()),
    ensures
        curve_in(v).passes(),
        !curve_in(v).turns(),
{
}

} // verus!
