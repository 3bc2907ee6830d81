//! Stored remappings of buttons, one file for each device.
//!
//! A remapping is a table from physical buttons to output buttons, both counted
//! from one. The text of the file is made and read here; the caller stores it.

use crate::enumerate::WinwingDevice;
use crate::json;
use crate::text;
use crate::version;
use std::collections::BTreeMap;
use std::collections::HashMap;
use vstd::prelude::*;

verus! {

pub const REMAP_FORMAT: &'static str = "winwing-remap";

pub const REMAP_VERSION: u64 = 1;

/// A remapping of buttons. A button that is its own output is not in the table.
#[derive(Debug, PartialEq, Eq)]
pub struct RemapMapping {
    overrides: BTreeMap<u32, u32>,
}

/// A table of remapped buttons: buttons count from one, and none is its own
/// output.
pub open spec fn is_table(m: Map<u32, u32>) -> bool {
    &&& m.dom().finite()
    &&& forall|s: u32| #[trigger] m.contains_key(s) ==> s >= 1 && m[s] >= 1 && m[s] != s
}

/// The table after `src` was given the output `dst`.
pub open spec fn with_output(m: Map<u32, u32>, src: u32, dst: u32) -> Map<u32, u32> {
    if src == dst {
        m.remove(src)
    } else {
        m.insert(src, dst)
    }
}

/// The text of the refusal of a button.
pub open spec fn refusal(src: u32, dst: u32) -> Seq<char> {
    "remap invalide : "@ + text::dec(src as nat) + "->"@ + text::dec(dst as nat)
        + " (ordinaux >= 1)"@
}

impl View for RemapMapping {
    type V = Map<u32, u32>;

    closed spec fn view(&self) -> Map<u32, u32> {
        self.overrides@
    }
}

impl Clone for RemapMapping {
    fn clone(&self) -> (r: Self)
        ensures
            r@ == self@,
    {
        proof {
            use_type_invariant(self);
        }
        RemapMapping { overrides: self.overrides.clone() }
    }
}

impl Default for RemapMapping {
    fn default() -> (r: Self)
        ensures
            r@ == Map::<u32, u32>::empty(),
    {
        RemapMapping { overrides: BTreeMap::new() }
    }
}

impl RemapMapping {
    #[verifier::type_invariant]
    spec fn inv(self) -> bool {
        is_table(self.overrides@)
    }

    pub fn new() -> (r: Self)
        ensures
            r@ == Map::<u32, u32>::empty(),
    {
        RemapMapping { overrides: BTreeMap::new() }
    }

    /// Gives `src` the output `dst`; its own number removes the remapping. Buttons
    /// count from one.
    pub fn set(&mut self, src: u32, dst: u32) -> (r: Result<(), String>)
        ensures
            match r {
                Ok(()) => src >= 1 && dst >= 1 && final(self)@ == with_output(old(self)@, src, dst),
                Err(m) => (src < 1 || dst < 1) && final(self)@ == old(self)@ && m@ == refusal(
                    src,
                    dst,
                ),
            },
    {
        proof {
            use_type_invariant(&*self);
        }
        if src < 1 || dst < 1 {
            let mut m: String = "remap invalide : ".to_string();
            m.append(text::dec_text(src as u64).as_str());
            m.append("->");
            m.append(text::dec_text(dst as u64).as_str());
            m.append(" (ordinaux >= 1)");
            return Err(m);
        }
        let mut table: BTreeMap<u32, u32> = self.overrides.clone();
        if src == dst {
            table.remove(&src);
        } else {
            table.insert(src, dst);
        }
        *self = RemapMapping { overrides: table };
        Ok(())
    }

    /// Removes the remapping of `src`, if there is one.
    pub fn clear(&mut self, src: u32)
        ensures
            final(self)@ == old(self)@.remove(src),
    {
        proof {
            use_type_invariant(&*self);
        }
        let mut table: BTreeMap<u32, u32> = self.overrides.clone();
        table.remove(&src);
        *self = RemapMapping { overrides: table };
    }

    /// Removes every remapping.
    pub fn clear_all(&mut self)
        ensures
            final(self)@ == Map::<u32, u32>::empty(),
    {
        *self = RemapMapping { overrides: BTreeMap::new() };
    }

    pub fn is_empty(&self) -> (r: bool)
        ensures
            r == (self@ == Map::<u32, u32>::empty()),
    {
        let r: bool = self.overrides.is_empty();
        proof {
            if r {
                assert(self@ =~= Map::<u32, u32>::empty());
            }
        }
        r
    }

    /// Number of remapped buttons.
    pub fn len(&self) -> (r: usize)
        ensures
            r == self@.dom().len(),
    {
        self.overrides.len()
    }

    /// The remapped buttons with their outputs, by ascending button.
    pub fn entries(&self) -> (r: Vec<(u32, u32)>)
        ensures
            is_table(self@),
            lists_table(r@, self@),
    {
        proof {
            use_type_invariant(self);
        }
        let mut out: Vec<(u32, u32)> = Vec::new();
        let pairs = self.overrides.iter();
        let ghost all = vstd::std_specs::iter::IteratorSpec::remaining(&pairs);
        for kv in it: pairs
            invariant
                it.seq() == all,
                out.len() == it.index(),
                forall|i: int| 0 <= i < out.len() ==> (#[trigger] out[i]).0 == *all[i].0,
                forall|i: int| 0 <= i < out.len() ==> (#[trigger] out[i]).1 == *all[i].1,
        {
            out.push((*kv.0, *kv.1));
        }
        proof {
            let keys = all.map_values(|kv: (&u32, &u32)| *kv.0);
            assert(vstd::std_specs::btree::increasing_seq(keys));
            vstd::std_specs::btree::axiom_increasing_seq_meaning(keys);
            assert forall|i: int, j: int| 0 <= i < j < out.len() implies (#[trigger] out[i]).0 < (
            #[trigger] out[j]).0 by {
                assert(keys[i] == out[i].0);
                assert(keys[j] == out[j].0);
                assert(vstd::std_specs::cmp::OrdSpec::cmp_spec(&keys[i], &keys[j]) is Less);
            }
            assert forall|s: u32| #[trigger] self@.contains_key(s) implies exists|i: int|
                0 <= i < out.len() && (#[trigger] out[i]).0 == s by {
                assert(all.contains((&s, &self.overrides@[s])));
                let i = choose|i: int| 0 <= i < all.len() && all[i] == (&s, &self.overrides@[s]);
                assert(out[i].0 == s);
            }
        }
        out
    }

    /// The output of a button: its own number when it is not remapped.
    pub fn output_for(&self, src: u32) -> (r: u32)
        ensures
            r == if self@.contains_key(src) {
                self@[src]
            } else {
                src
            },
    {
        match self.overrides.get(&src) {
            Some(d) => *d,
            None => src,
        }
    }
}

/// The pairs are those of the table, each once, by ascending button.
pub open spec fn lists_table(pairs: Seq<(u32, u32)>, m: Map<u32, u32>) -> bool {
    &&& forall|i: int, j: int|
        0 <= i < j < pairs.len() ==> (#[trigger] pairs[i]).0 < (#[trigger] pairs[j]).0
    &&& forall|i: int|
        0 <= i < pairs.len() ==> m.contains_key((#[trigger] pairs[i]).0) && m[pairs[i].0]
            == pairs[i].1
    &&& forall|s: u32| #[trigger]
        m.contains_key(s) ==> exists|i: int| 0 <= i < pairs.len() && (#[trigger] pairs[i]).0 == s
}

impl RemapMapping {
    /// The table as a hash map, for a plan.
    pub fn to_overrides(&self) -> (r: HashMap<u32, u32>)
        ensures
            is_table(self@),
            r@ == self@,
    {
        let pairs: Vec<(u32, u32)> = self.entries();
        let mut out: HashMap<u32, u32> = HashMap::new();
        let mut i: usize = 0;
        while i < pairs.len()
            invariant
                i <= pairs.len(),
                lists_table(pairs@, self@),
                forall|s: u32|
                    #[trigger] out@.contains_key(s) <==> exists|j: int|
                        0 <= j < i && (#[trigger] pairs[j]).0 == s,
                forall|j: int| 0 <= j < i ==> out@[(#[trigger] pairs[j]).0] == pairs[j].1,
            decreases pairs.len() - i,
        {
            let ghost before = out@;
            out.insert(pairs[i].0, pairs[i].1);
            proof {
                assert forall|s: u32| #[trigger] out@.contains_key(s) <==> exists|j: int|
                    0 <= j < i + 1 && (#[trigger] pairs[j]).0 == s by {
                    if before.contains_key(s) {
                        let j = choose|j: int| 0 <= j < i && (#[trigger] pairs[j]).0 == s;
                        assert(0 <= j < i + 1 && pairs[j].0 == s);
                    }
                    if s == pairs[i as int].0 {
                        assert(0 <= i < i + 1 && pairs[i as int].0 == s);
                    }
                }
            }
            i += 1;
        }
        assert(out@ =~= self@);
        out
    }
}

// --- Text of the file ------------------------------------------------------------------------

/// The meaning of one entry of the stored table: the button must be a number, the
/// output an integer, of which the low 32 bits count.
pub open spec fn read_entry(
    m: Map<u32, u32>,
    key: Seq<char>,
    value: serde_json::Value,
) -> Result<Map<u32, u32>, Seq<char>> {
    match text::parsed(key, 10, u32::MAX as nat) {
        None => Err("clé d'override non entière"@),
        Some(n) => match json::json_u64(value) {
            None => Err("valeur d'override non entière"@),
            Some(d) => {
                let src = n as u32;
                let dst = (d % 0x1_0000_0000) as u32;
                if src < 1 || dst < 1 {
                    Err(refusal(src, dst))
                } else {
                    Ok(with_output(m, src, dst))
                }
            },
        },
    }
}

/// The meaning of the stored table, key by key: the first bad entry refuses it.
pub open spec fn read_table(
    keys: Seq<Seq<char>>,
    obj: Map<Seq<char>, serde_json::Value>,
) -> Result<Map<u32, u32>, Seq<char>>
    decreases keys.len(),
{
    if keys.len() == 0 {
        Ok(Map::empty())
    } else {
        match read_table(keys.drop_last(), obj) {
            Err(e) => Err(e),
            Ok(m) => read_entry(m, keys.last(), obj[keys.last()]),
        }
    }
}

/// The version that a stored value declares; a missing one counts as zero.
pub open spec fn declared_version(v: serde_json::Value) -> u64 {
    match json::member(v, "version"@) {
        Some(x) => match json::json_u64(x) {
            Some(n) => n,
            None => 0,
        },
        None => 0,
    }
}

/// The value declares the format.
pub open spec fn declares_format(v: serde_json::Value, format: Seq<char>) -> bool {
    json::member(v, "format"@) matches Some(x) && json::json_string(x) == Some(format)
}

/// The object under a key.
pub open spec fn object_member(v: serde_json::Value, key: Seq<char>) -> Option<
    Map<Seq<char>, serde_json::Value>,
> {
    match json::member(v, key) {
        Some(x) => json::json_object(x),
        None => None,
    }
}

/// The remapping that a stored value means, or why it means none.
pub open spec fn mapping_in(v: serde_json::Value) -> Result<Map<u32, u32>, Seq<char>> {
    if !declares_format(v, REMAP_FORMAT@) {
        Err("format de remap inattendu"@)
    } else if declared_version(v) > REMAP_VERSION {
        Err("version de remap trop récente : "@ + text::dec(declared_version(v) as nat))
    } else {
        match object_member(v, "overrides"@) {
            None => Err("remap sans table d'overrides"@),
            Some(obj) => read_table(json::key_order(obj), obj),
        }
    }
}

/// The value stores the table: one member for each button, by its number.
pub open spec fn stores_table(v: serde_json::Value, m: Map<u32, u32>) -> bool {
    &&& declares_format(v, REMAP_FORMAT@)
    &&& declared_version(v) == REMAP_VERSION
    &&& object_member(v, "overrides"@) matches Some(obj) && {
        &&& obj.dom().finite()
        &&& forall|k: Seq<char>| #[trigger]
            obj.contains_key(k) ==> exists|s: u32|
                #[trigger] m.contains_key(s) && k == text::dec(s as nat)
        &&& forall|s: u32| #[trigger]
            m.contains_key(s) ==> obj.contains_key(text::dec(s as nat)) && json::json_u64(
                obj[text::dec(s as nat)],
            ) == Some(m[s] as u64)
    }
}

pub(crate) fn has_format(v: &serde_json::Value, format: &str) -> (r: bool)
    ensures
        r == declares_format(*v, format@),
{
    match json::get(v, "format") {
        Some(x) => match json::as_str(x) {
            Some(s) => text::str_eq(s.as_str(), format),
            None => false,
        },
        None => false,
    }
}

pub(crate) fn version_of(v: &serde_json::Value) -> (r: u64)
    ensures
        r == declared_version(*v),
{
    match json::get(v, "version") {
        Some(x) => match json::as_u64(x) {
            Some(n) => n,
            None => 0,
        },
        None => 0,
    }
}

/// What identifies a device in a stored file: product, serial number and name.
pub open spec fn is_device_meta(v: serde_json::Value, dev: WinwingDevice) -> bool {
    json::json_object(v) matches Some(m) && {
        &&& m.dom() == set!["pid"@, "serial"@, "product_name"@]
        &&& json::json_string(m["pid"@]) == Some(text::hex_fill(dev.pid as nat, 4))
        &&& json::json_string(m["serial"@]) == Some(dev.serial@)
        &&& json::json_string(m["product_name"@]) == Some(dev.product@)
    }
}

/// What identifies a device in a stored file.
pub fn device_meta(dev: &WinwingDevice) -> (r: serde_json::Value)
    ensures
        is_device_meta(r, *dev),
        json::is_exact(r, 1),
{
    let pid: String = text::hex_text(dev.pid as u64, 4);
    let mut entries: Vec<(String, serde_json::Value)> = Vec::new();
    entries.push(("pid".to_string(), json::from_text(pid.as_str())));
    entries.push(("serial".to_string(), json::from_text(dev.serial.as_str())));
    entries.push(("product_name".to_string(), json::from_text(dev.product.as_str())));
    let ghost es = entries@;
    let r: serde_json::Value = json::from_entries(entries);
    proof {
        reveal_strlit("pid");
        reveal_strlit("serial");
        reveal_strlit("product_name");
        assert("pid"@.len() == 3 && "serial"@.len() == 6 && "product_name"@.len() == 12);
        json::lemma_entry(es, 0);
        json::lemma_entry(es, 1);
        json::lemma_entry(es, 2);
        let m = json::entries_map(es);
        assert forall|k: Seq<char>| m.contains_key(k) implies k == "pid"@ || k == "serial"@ || k
            == "product_name"@ by {
            json::lemma_entry_keys(es, k);
        }
        assert(m.dom() == set!["pid"@, "serial"@, "product_name"@]);
        assert forall|k: Seq<char>| m.contains_key(k) implies json::is_exact(
            #[trigger] m[k],
            0,
        ) by {}
        assert(json::is_exact(r, 1));
    }
    r
}

/// The five members of a stored file.
pub(crate) fn stored_value(
    format: &str,
    number: u64,
    meta: serde_json::Value,
    table_key: &str,
    table: serde_json::Value,
) -> (r: serde_json::Value)
    requires
        table_key@.len() >= 4,
        table_key@ != "format"@,
        table_key@ != "version"@,
        table_key@ != "app_version"@,
        table_key@ != "device"@,
    ensures
        json::json_object(r) matches Some(m) && {
            &&& m.dom() == set!["format"@, "version"@, "app_version"@, "device"@, table_key@]
            &&& json::json_string(m["format"@]) == Some(format@)
            &&& json::json_u64(m["version"@]) == Some(number)
            &&& json::json_string(m["app_version"@]) == Some(version::APP_VERSION@)
            &&& m["device"@] == meta
            &&& m[table_key@] == table
        },
        json::is_exact(meta, 6) && json::is_exact(table, 6) ==> json::is_exact(r, 7),
{
    let mut entries: Vec<(String, serde_json::Value)> = Vec::new();
    entries.push(("format".to_string(), json::from_text(format)));
    entries.push(("version".to_string(), json::from_u64(number)));
    entries.push(("app_version".to_string(), json::from_text(version::APP_VERSION)));
    entries.push(("device".to_string(), meta));
    entries.push((table_key.to_string(), table));
    let ghost es = entries@;
    let r: serde_json::Value = json::from_entries(entries);
    proof {
        reveal_strlit("format");
        reveal_strlit("version");
        reveal_strlit("app_version");
        reveal_strlit("device");
        assert("format"@.len() == 6 && "version"@.len() == 7 && "app_version"@.len() == 11
            && "device"@.len() == 6);
        assert("format"@[0] == 'f' && "device"@[0] == 'd');
        json::lemma_entry(es, 0);
        json::lemma_entry(es, 1);
        json::lemma_entry(es, 2);
        json::lemma_entry(es, 3);
        json::lemma_entry(es, 4);
        let m = json::entries_map(es);
        assert forall|k: Seq<char>| m.contains_key(k) implies k == "format"@ || k == "version"@
            || k == "app_version"@ || k == "device"@ || k == table_key@ by {
            json::lemma_entry_keys(es, k);
        }
        assert(m.dom() == set!["format"@, "version"@, "app_version"@, "device"@, table_key@]);
        if json::is_exact(meta, 6) && json::is_exact(table, 6) {
            assert forall|k: Seq<char>| m.contains_key(k) implies json::is_exact(
                #[trigger] m[k],
                6,
            ) by {}
            assert(json::is_exact(r, 7));
        }
    }
    r
}

impl RemapMapping {
    /// The value that stores the remapping; `meta` identifies the device.
    pub fn to_json(&self, meta: serde_json::Value) -> (r: serde_json::Value)
        ensures
            is_table(self@),
            stores_table(r, self@),
            json::member(r, "app_version"@) matches Some(x) && json::json_string(x) == Some(
                version::APP_VERSION@,
            ),
            json::member(r, "device"@) == Some(meta),
            json::is_exact(meta, 6) ==> json::is_exact(r, 7),
    {
        let pairs: Vec<(u32, u32)> = self.entries();
        let mut entries: Vec<(String, serde_json::Value)> = Vec::new();
        let mut i: usize = 0;
        while i < pairs.len()
            invariant
                i <= pairs.len(),
                entries.len() == i,
                lists_table(pairs@, self@),
                forall|j: int|
                    0 <= j < i ==> (#[trigger] entries[j]).0@ == text::dec(pairs[j].0 as nat),
                forall|j: int|
                    0 <= j < i ==> json::json_u64((#[trigger] entries[j]).1) == Some(
                        pairs[j].1 as u64,
                    ),
            decreases pairs.len() - i,
        {
            entries.push((text::dec_text(pairs[i].0 as u64), json::from_u64(pairs[i].1 as u64)));
            i += 1;
        }
        let ghost es = entries@;
        let table: serde_json::Value = json::from_entries(entries);
        proof {
            let obj = json::entries_map(es);
            assert forall|a: int, b: int| 0 <= a < b < es.len() implies (#[trigger] es[a]).0@ != (
            #[trigger] es[b]).0@ by {
                if es[a].0@ == es[b].0@ {
                    text::lemma_dec_injective(pairs[a].0 as nat, pairs[b].0 as nat);
                }
            }
            assert forall|k: Seq<char>| #[trigger] obj.contains_key(k) implies exists|s: u32|
                #[trigger] self@.contains_key(s) && k == text::dec(s as nat) by {
                json::lemma_entry_keys(es, k);
                let j = choose|j: int| 0 <= j < es.len() && (#[trigger] es[j]).0@ == k;
                assert(self@.contains_key(pairs[j].0));
            }
            assert forall|s: u32| #[trigger] self@.contains_key(s) implies obj.contains_key(
                text::dec(s as nat),
            ) && json::json_u64(obj[text::dec(s as nat)]) == Some(self@[s] as u64) by {
                let j = choose|j: int| 0 <= j < pairs.len() && (#[trigger] pairs[j]).0 == s;
                json::lemma_entry(es, j);
            }
            assert forall|k: Seq<char>| obj.contains_key(k) implies json::is_exact(
                #[trigger] obj[k],
                5,
            ) by {
                let s = choose|s: u32|
                    #[trigger] self@.contains_key(s) && k == text::dec(s as nat);
                assert(json::json_u64(obj[k]) is Some);
            }
            assert(json::is_exact(table, 6));
            lemma_entries_finite(es);
            reveal_strlit("overrides");
            reveal_strlit("format");
            reveal_strlit("version");
            reveal_strlit("app_version");
            reveal_strlit("device");
            assert("overrides"@.len() == 9 && "format"@.len() == 6 && "version"@.len() == 7
                && "app_version"@.len() == 11 && "device"@.len() == 6);
        }
        stored_value(REMAP_FORMAT, REMAP_VERSION, meta, "overrides", table)
    }

    /// The remapping that a stored value means.
    pub fn from_json(v: &serde_json::Value) -> (r: Result<RemapMapping, String>)
        ensures
            match r {
                Ok(m) => mapping_in(*v) == Ok::<Map<u32, u32>, Seq<char>>(m@),
                Err(e) => mapping_in(*v) == Err::<Map<u32, u32>, Seq<char>>(e@),
            },
    {
        if !has_format(v, REMAP_FORMAT) {
            return Err("format de remap inattendu".to_string());
        }
        let number: u64 = version_of(v);
        if number > REMAP_VERSION {
            let mut e: String = "version de remap trop récente : ".to_string();
            e.append(text::dec_text(number).as_str());
            return Err(e);
        }
        let table: &serde_json::Value = match json::get(v, "overrides") {
            Some(x) => x,
            None => {
                return Err("remap sans table d'overrides".to_string());
            },
        };
        let keys: Vec<String> = match json::object_keys(table) {
            Some(k) => k,
            None => {
                return Err("remap sans table d'overrides".to_string());
            },
        };
        let ghost obj = json::json_object(*table)->0;
        let ghost ks = text::views(keys@);
        proof {
            json::lemma_key_order(ks, obj);
            assert(mapping_in(*v) == read_table(ks, obj));
        }
        let mut m: RemapMapping = RemapMapping::new();
        let mut i: usize = 0;
        assert(ks.take(0) == Seq::<Seq<char>>::empty());
        while i < keys.len()
            invariant
                i <= keys.len(),
                ks == text::views(keys@),
                json::json_object(*table) == Some(obj),
                json::lists_keys(ks, obj),
                mapping_in(*v) == read_table(ks, obj),
                read_table(ks.take(i as int), obj) == Ok::<Map<u32, u32>, Seq<char>>(m@),
            decreases keys.len() - i,
        {
            let ghost done = ks.take(i as int);
            let ghost next = ks.take(i + 1);
            let ghost k = ks[i as int];
            proof {
                assert(next.drop_last() == done);
                assert(next.last() == k);
                assert(keys[i as int]@ == k);
                assert(ks.contains(k));
                assert(obj.contains_key(k));
                assert(read_table(next, obj) == read_entry(m@, k, obj[k]));
            }
            let src: u32 = match text::parse_number(keys[i].as_str(), 10, u32::MAX as u128) {
                Some(n) => n as u32,
                None => {
                    proof {
                        lemma_table_stops(ks, obj, i + 1);
                    }
                    return Err("clé d'override non entière".to_string());
                },
            };
            let dst: u32 = match json::get(table, keys[i].as_str()) {
                Some(x) => match json::as_u64(x) {
                    Some(d) => (d % 0x1_0000_0000) as u32,
                    None => {
                        proof {
                            lemma_table_stops(ks, obj, i + 1);
                        }
                        return Err("valeur d'override non entière".to_string());
                    },
                },
                None => {
                    return Err("valeur d'override non entière".to_string());
                },
            };
            if let Err(e) = m.set(src, dst) {
                proof {
                    lemma_table_stops(ks, obj, i + 1);
                }
                return Err(e);
            }
            i += 1;
        }
        assert(ks.take(i as int) == ks);
        Ok(m)
    }
}

pub(crate) proof fn lemma_entries_finite(entries: Seq<(String, serde_json::Value)>)
    ensures
        json::entries_map(entries).dom().finite(),
    decreases entries.len(),
{
    if entries.len() > 0 {
        lemma_entries_finite(entries.drop_last());
    }
}

/// A bad entry refuses the whole table, whatever follows.
proof fn lemma_table_stops(keys: Seq<Seq<char>>, obj: Map<Seq<char>, serde_json::Value>, n: int)
    requires
        0 <= n <= keys.len(),
        read_table(keys.take(n), obj) is Err,
    ensures
        read_table(keys, obj) == read_table(keys.take(n), obj),
    decreases keys.len(),
{
    if n == keys.len() {
        assert(keys.take(n) == keys);
    } else {
        assert(keys.drop_last().take(n) == keys.take(n));
        lemma_table_stops(keys.drop_last(), obj, n);
    }
}

/// The part of the table whose numbers are among the texts.
spec fn part(m: Map<u32, u32>, keys: Seq<Seq<char>>) -> Map<u32, u32> {
    Map::new(|s: u32| m.contains_key(s) && keys.contains(text::dec(s as nat)), |s: u32| m[s])
}

proof fn lemma_read_part(
    keys: Seq<Seq<char>>,
    n: int,
    obj: Map<Seq<char>, serde_json::Value>,
    m: Map<u32, u32>,
)
    requires
        0 <= n <= keys.len(),
        is_table(m),
        json::lists_keys(keys, obj),
        forall|k: Seq<char>| #[trigger]
            obj.contains_key(k) ==> exists|s: u32|
                #[trigger] m.contains_key(s) && k == text::dec(s as nat),
        forall|s: u32| #[trigger]
            m.contains_key(s) ==> obj.contains_key(text::dec(s as nat)) && json::json_u64(
                obj[text::dec(s as nat)],
            ) == Some(m[s] as u64),
    ensures
        read_table(keys.take(n), obj) == Ok::<Map<u32, u32>, Seq<char>>(part(m, keys.take(n))),
    decreases n,
{
    let now = keys.take(n);
    if n == 0 {
        assert(part(m, now) =~= Map::<u32, u32>::empty());
    } else {
        let before = keys.take(n - 1);
        lemma_read_part(keys, n - 1, obj, m);
        assert(now.drop_last() == before);
        let k = now.last();
        assert(k == keys[n - 1]);
        assert(keys.contains(k));
        assert(obj.contains_key(k));
        let s = choose|s: u32| #[trigger] m.contains_key(s) && k == text::dec(s as nat);
        text::lemma_parsed_dec(s as nat, u32::MAX as nat);
        assert(m[s] as u64 % 0x1_0000_0000 == m[s]);
        assert(read_table(now, obj) == Ok::<Map<u32, u32>, Seq<char>>(
            part(m, before).insert(s, m[s]),
        ));
        assert forall|x: u32| part(m, now).contains_key(x) <==> part(m, before).insert(
            s,
            m[s],
        ).contains_key(x) by {
            if m.contains_key(x) && now.contains(text::dec(x as nat)) {
                let j = choose|j: int| 0 <= j < now.len() && now[j] == text::dec(x as nat);
                if j < n - 1 {
                    assert(before[j] == text::dec(x as nat));
                } else {
                    text::lemma_dec_injective(x as nat, s as nat);
                }
            }
            if m.contains_key(x) && before.contains(text::dec(x as nat)) {
                let j = choose|j: int| 0 <= j < before.len() && before[j] == text::dec(x as nat);
                assert(now[j] == text::dec(x as nat));
            }
            if x == s {
                assert(now[n - 1] == text::dec(s as nat));
            }
        }
        assert(part(m, now) =~= part(m, before).insert(s, m[s]));
    }
}

/// What a stored remapping is read as is the remapping that was stored.
pub proof fn law_mapping_round_trip(v: serde_json::Value, m: Map<u32, u32>)
    requires
        is_table(m),
        stores_table(v, m),
    ensures
        mapping_in(v) == Ok::<Map<u32, u32>, Seq<char>>(m),
{
    let obj = object_member(v, "overrides"@)->0;
    let keys = json::key_order(obj);
    json::lemma_key_order_exists(obj);
    lemma_read_part(keys, keys.len() as int, obj, m);
    assert(keys.take(keys.len() as int) == keys);
    assert(part(m, keys) =~= m) by {
        assert forall|s: u32| m.contains_key(s) implies keys.contains(text::dec(s as nat)) by {
            assert(obj.contains_key(text::dec(s as nat)));
        }
    }
}

/// The remapping that the text of a file means: an empty one when it means none.
pub open spec fn loaded(content: Seq<char>) -> Map<u32, u32> {
    match json::json_parsed(content) {
        Some(v) => match mapping_in(v) {
            Ok(m) => m,
            Err(_) => Map::empty(),
        },
        None => Map::empty(),
    }
}

/// The remapping of a device from the text of its file; an empty one when there is
/// no file or it cannot be understood.
pub fn load_mapping(content: Option<&str>) -> (r: RemapMapping)
    ensures
        r@ == match content {
            Some(t) => loaded(t@),
            None => Map::empty(),
        },
{
    match content {
        Some(t) => match json::parse(t) {
            Some(v) => match RemapMapping::from_json(&v) {
                Ok(m) => m,
                Err(_) => RemapMapping::new(),
            },
            None => RemapMapping::new(),
        },
        None => RemapMapping::new(),
    }
}

/// What is to be done with a file.
#[derive(Debug, PartialEq, Eq)]
pub enum SaveAction {
    /// Remove it.
    Remove,
    /// Write the text to it.
    Write(String),
}

/// The value is that of the file of a device with the remapping.
pub open spec fn is_mapping_file(v: serde_json::Value, dev: WinwingDevice, m: Map<u32, u32>) -> bool {
    &&& stores_table(v, m)
    &&& json::member(v, "device"@) matches Some(d) && is_device_meta(d, dev)
}

/// What to do with the file of a device: an empty remapping removes it; any other
/// is written, and is what the file is read as.
pub fn save_mapping(dev: &WinwingDevice, mapping: &RemapMapping) -> (r: SaveAction)
    ensures
        match r {
            SaveAction::Remove => mapping@ == Map::<u32, u32>::empty(),
            SaveAction::Write(t) => {
                &&& mapping@ != Map::<u32, u32>::empty()
                &&& exists|v: serde_json::Value|
                    is_mapping_file(v, *dev, mapping@) && t@ == #[trigger] json::json_pretty(v)
                &&& loaded(t@) == mapping@
            },
        },
{
    if mapping.is_empty() {
        return SaveAction::Remove;
    }
    let meta: serde_json::Value = device_meta(dev);
    proof {
        lemma_exact_deeper(meta, 1, 6);
    }
    let v: serde_json::Value = mapping.to_json(meta);
    proof {
        lemma_exact_deeper(v, 7, 8);
        law_mapping_round_trip(v, mapping@);
    }
    SaveAction::Write(json::pretty(&v))
}

/// A value that is exact within a depth is so within a greater one.
pub(crate) proof fn lemma_exact_deeper(v: serde_json::Value, a: nat, b: nat)
    requires
        a <= b,
        json::is_exact(v, a),
    ensures
        json::is_exact(v, b),
    decreases a,
{
    if json::json_object(v) is Some && a > 0 {
        let m = json::json_object(v)->0;
        if forall|k: Seq<char>| m.contains_key(k) ==> json::is_exact(#[trigger] m[k], (a - 1) as nat) {
            assert forall|k: Seq<char>| m.contains_key(k) implies json::is_exact(
                #[trigger] m[k],
                (b - 1) as nat,
            ) by {
                lemma_exact_deeper(m[k], (a - 1) as nat, (b - 1) as nat);
            }
        }
    }
}

// --- Names of files ----------------------------------------------------------------------------

/// The key of a device: its product, and its serial number when it has one.
pub open spec fn key_of(pid: u16, serial: Seq<char>) -> Seq<char> {
    if serial.len() == 0 {
        text::hex_fill(pid as nat, 4)
    } else {
        text::hex_fill(pid as nat, 4) + "-"@ + serial
    }
}

/// The key of a device.
pub fn device_key(dev: &WinwingDevice) -> (r: String)
    ensures
        r@ == key_of(dev.pid, dev.serial@),
{
    let mut out: String = text::hex_text(dev.pid as u64, 4);
    if !dev.serial.as_str().is_empty() {
        out.append("-");
        out.append(dev.serial.as_str());
    }
    out
}

/// The character may stand in the name of a file.
pub open spec fn allowed(c: char) -> bool {
    'a' <= c <= 'z' || 'A' <= c <= 'Z' || '0' <= c <= '9' || c == '.' || c == '_' || c == '-'
}

/// The text with each run of other characters made one dash.
pub open spec fn dashed(s: Seq<char>) -> Seq<char>
    decreases s.len(),
{
    if s.len() == 0 {
        Seq::empty()
    } else {
        let before = s.drop_last();
        if allowed(s.last()) {
            dashed(before).push(s.last())
        } else if before.len() > 0 && !allowed(before.last()) {
            dashed(before)
        } else {
            dashed(before).push('-')
        }
    }
}

/// The text without the dashes at its end.
pub open spec fn without_last_dashes(s: Seq<char>) -> Seq<char>
    decreases s.len(),
{
    if s.len() > 0 && s.last() == '-' {
        without_last_dashes(s.drop_last())
    } else {
        s
    }
}

/// The text without the dashes at its beginning.
pub open spec fn without_first_dashes(s: Seq<char>) -> Seq<char>
    decreases s.len(),
{
    if s.len() > 0 && s[0] == '-' {
        without_first_dashes(s.skip(1))
    } else {
        s
    }
}

/// The name that a text is made into: without the whitespace around it, with other
/// characters made dashes, without dashes at either end; the fallback when nothing
/// is left.
pub open spec fn slug_of(key: Seq<char>, fallback: Seq<char>) -> Seq<char> {
    let s = without_first_dashes(without_last_dashes(dashed(text::trim(key))));
    if s.len() == 0 {
        fallback
    } else {
        s
    }
}

fn may_stand(c: char) -> (r: bool)
    ensures
        r == allowed(c),
{
    ('a' <= c && c <= 'z') || ('A' <= c && c <= 'Z') || ('0' <= c && c <= '9') || c == '.' || c
        == '_' || c == '-'
}

fn dash_runs(chars: &Vec<char>) -> (r: Vec<char>)
    ensures
        r@ == dashed(chars@),
{
    let mut out: Vec<char> = Vec::new();
    let mut last_dash: bool = false;
    let mut i: usize = 0;
    while i < chars.len()
        invariant
            i <= chars.len(),
            out@ == dashed(chars@.take(i as int)),
            last_dash == (i > 0 && !allowed(chars@[i - 1])),
        decreases chars.len() - i,
    {
        proof {
            let next = chars@.take(i + 1);
            assert(next.drop_last() == chars@.take(i as int));
            assert(next.last() == chars@[i as int]);
            if i > 0 {
                assert(chars@.take(i as int).last() == chars@[i - 1]);
            }
        }
        if may_stand(chars[i]) {
            out.push(chars[i]);
            last_dash = false;
        } else if !last_dash {
            out.push('-');
            last_dash = true;
        }
        i += 1;
    }
    assert(chars@.take(i as int) == chars@);
    out
}

/// The name that a text is made into, or `fallback` when nothing of it is left.
pub(crate) fn slug_or(key: &str, fallback: &str) -> (r: String)
    ensures
        r@ == slug_of(key@, fallback@),
{
    let trimmed: String = text::trim_text(key);
    let chars: Vec<char> = dash_runs(&text::chars_of(trimmed.as_str()));
    let mut end: usize = chars.len();
    let ghost all = chars@;
    assert(all.take(end as int) == all);
    while end > 0 && chars[end - 1] == '-'
        invariant
            end <= chars.len(),
            all == chars@,
            without_last_dashes(all) == without_last_dashes(all.take(end as int)),
        decreases end,
    {
        assert(all.take(end as int).drop_last() == all.take(end - 1));
        end -= 1;
    }
    let ghost body = all.take(end as int);
    assert(without_last_dashes(body) == body);
    let mut start: usize = 0;
    assert(body.skip(0) == body);
    while start < end && chars[start] == '-'
        invariant
            start <= end <= chars.len(),
            all == chars@,
            body == all.take(end as int),
            without_first_dashes(body) == without_first_dashes(body.skip(start as int)),
        decreases end - start,
    {
        assert(body.skip(start as int)[0] == all[start as int]);
        assert(body.skip(start as int).skip(1) == body.skip(start + 1));
        start += 1;
    }
    if start < end {
        assert(body.skip(start as int)[0] == all[start as int]);
    }
    assert(without_first_dashes(body.skip(start as int)) == body.skip(start as int));
    assert(all.subrange(start as int, end as int) == body.skip(start as int));
    if start == end {
        return fallback.to_string();
    }
    text::string_between(&chars, start, end)
}

/// The name of a file that a key is made into.
pub fn slug(key: &str) -> (r: String)
    ensures
        r@ == slug_of(key@, "remap"@),
{
    slug_or(key, "remap")
}

proof fn lemma_dashed_allowed(s: Seq<char>, i: int)
    requires
        0 <= i < dashed(s).len(),
    ensures
        allowed(dashed(s)[i]),
    decreases s.len(),
{
    let before = s.drop_last();
    if i < dashed(before).len() {
        lemma_dashed_allowed(before, i);
    }
}

proof fn lemma_last_dashes_sub(s: Seq<char>)
    ensures
        without_last_dashes(s).len() <= s.len(),
        without_last_dashes(s) == s.take(without_last_dashes(s).len() as int),
    decreases s.len(),
{
    if s.len() > 0 && s.last() == '-' {
        lemma_last_dashes_sub(s.drop_last());
        assert(s.drop_last().take(without_last_dashes(s).len() as int) == s.take(
            without_last_dashes(s).len() as int,
        ));
    } else {
        assert(s.take(s.len() as int) == s);
    }
}

proof fn lemma_first_dashes_sub(s: Seq<char>)
    ensures
        without_first_dashes(s).len() <= s.len(),
        without_first_dashes(s) == s.skip(s.len() - without_first_dashes(s).len()),
    decreases s.len(),
{
    if s.len() > 0 && s[0] == '-' {
        lemma_first_dashes_sub(s.skip(1));
        let n = without_first_dashes(s).len();
        assert(s.skip(1).skip(s.len() - 1 - n) == s.skip(s.len() - n));
    } else {
        assert(s.skip(0) == s);
    }
}

/// Whatever the key, every character of the name may stand in the name of a file:
/// no separator, no space.
pub proof fn law_slug_is_a_file_name(key: Seq<char>, i: int)
    requires
        0 <= i < slug_of(key, "remap"@).len(),
    ensures
        allowed(slug_of(key, "remap"@)[i]),
        slug_of(key, "remap"@)[i] != '/',
{
    let d = dashed(text::trim(key));
    let a = without_last_dashes(d);
    let s = without_first_dashes(a);
    lemma_last_dashes_sub(d);
    lemma_first_dashes_sub(a);
    reveal_strlit("remap");
    if s.len() > 0 {
        let j = a.len() - s.len() + i;
        assert(s[i] == a[j]);
        assert(a[j] == d[j]);
        lemma_dashed_allowed(text::trim(key), j);
    }
}

/// Devices that differ in product or in serial number have different keys.
pub proof fn law_device_keys_are_distinct(p: u16, q: u16, a: Seq<char>, b: Seq<char>)
    requires
        key_of(p, a) == key_of(q, b),
    ensures
        p == q,
        a == b,
{
    reveal_strlit("-");
    let x = text::hex_fill(p as nat, 4);
    let y = text::hex_fill(q as nat, 4);
    lemma_pid_text(p);
    lemma_pid_text(q);
    let k = key_of(p, a);
    assert(k.take(4) == x);
    assert(k.take(4) == y) by {
        assert(key_of(q, b).take(4) == y);
    }
    if a.len() > 0 {
        assert(k.skip(5) == a);
    }
    if b.len() > 0 {
        assert(key_of(q, b).skip(5) == b);
    }
    assert(a.len() == b.len());
    if a.len() == 0 {
        assert(a == b);
    }
    lemma_pid_value(p);
    lemma_pid_value(q);
}

proof fn lemma_hex_len(n: nat, k: nat)
    requires
        k >= 1,
        n < vstd::arithmetic::power::pow(16, k),
    ensures
        text::hex(n).len() <= k,
    decreases k,
{
    vstd::arithmetic::power::lemma_pow0(16);
    vstd::arithmetic::power::lemma_pow1(16);
    if n >= 16 {
        if k == 1 {
            assert(false);
        }
        reveal(vstd::arithmetic::power::pow);
        assert(vstd::arithmetic::power::pow(16, k) == 16 * vstd::arithmetic::power::pow(
            16,
            (k - 1) as nat,
        ));
        assert(n / 16 < vstd::arithmetic::power::pow(16, (k - 1) as nat));
        lemma_hex_len(n / 16, (k - 1) as nat);
    }
}

proof fn lemma_pid_text(p: u16)
    ensures
        text::hex_fill(p as nat, 4).len() == 4,
{
    assert(vstd::arithmetic::power::pow(16, 4) == 65536) by {
        reveal_with_fuel(vstd::arithmetic::power::pow, 5);
    }
    lemma_hex_len(p as nat, 4);
}

proof fn lemma_zeros_value(n: nat, s: Seq<char>)
    ensures
        text::value_of(Seq::new(n, |i: int| '0') + s, 16) == text::value_of(s, 16),
    decreases s.len(), n,
{
    let z = Seq::new(n, |i: int| '0');
    if s.len() > 0 {
        assert((z + s).drop_last() == z + s.drop_last());
        assert((z + s).last() == s.last());
        lemma_zeros_value(n, s.drop_last());
    } else if n > 0 {
        assert((z + s).drop_last() == Seq::new((n - 1) as nat, |i: int| '0') + s);
        lemma_zeros_value((n - 1) as nat, s);
        assert((z + s).last() == '0');
    } else {
        assert(z + s == s);
    }
}

proof fn lemma_pid_value(p: u16)
    ensures
        text::value_of(text::hex_fill(p as nat, 4), 16) == p,
{
    text::lemma_digits_value(p as nat, 16);
    let h = text::hex(p as nat);
    if h.len() < 4 {
        lemma_zeros_value((4 - h.len()) as nat, h);
    }
}

/// The home of the user: under sudo that of the user who called it, when it is
/// known; else that of the `HOME` variable; else the current directory.
pub fn user_home(
    sudo_user: Option<&str>,
    is_root: bool,
    sudo_home: Option<String>,
    home: Option<String>,
) -> (r: String)
    ensures
        r@ == if (sudo_user matches Some(u) && u@.len() > 0) && is_root && sudo_home is Some {
            sudo_home->0@
        } else if home matches Some(h) && h@.len() > 0 {
            home->0@
        } else {
            "."@
        },
{
    if let Some(u) = sudo_user {
        if !u.is_empty() && is_root {
            if let Some(h) = sudo_home {
                return h;
            }
        }
    }
    if let Some(h) = home {
        if !h.as_str().is_empty() {
            return h;
        }
    }
    ".".to_string()
}

/// Who the files are given to: under sudo the user who called it, when their
/// numbers are known; else nobody.
pub fn file_owner(sudo_user: Option<&str>, is_root: bool, ids: Option<(u32, u32)>) -> (r: Option<
    (u32, u32),
>)
    ensures
        r == if (sudo_user matches Some(u) && u@.len() > 0) && is_root && (ids matches Some(n) && n.0
            != u32::MAX && n.1 != u32::MAX) {
            ids
        } else {
            None
        },
{
    if let Some(u) = sudo_user {
        if !u.is_empty() && is_root {
            if let Some(n) = ids {
                if n.0 != u32::MAX && n.1 != u32::MAX {
                    return Some(n);
                }
            }
        }
    }
    None
}

/// Where the remappings are stored.
pub fn remap_dir(home: &str) -> (r: String)
    ensures
        r@ == text::below(home@, ".local/share/winctrl/remap"@),
{
    text::path_below(home, ".local/share/winctrl/remap")
}

/// The file of a device in a directory.
pub open spec fn file_in(dir: Seq<char>, dev: WinwingDevice) -> Seq<char> {
    text::below(dir, slug_of(key_of(dev.pid, dev.serial@), "remap"@) + ".json"@)
}

/// The file of a device in a directory.
pub fn mapping_path(dev: &WinwingDevice, directory: &str) -> (r: String)
    ensures
        r@ == file_in(directory@, *dev),
{
    let mut name: String = slug(device_key(dev).as_str());
    name.append(".json");
    text::path_below(directory, name.as_str())
}

/// A serial number that may stand in a name as it is.
pub open spec fn plain_serial(s: Seq<char>) -> bool {
    &&& forall|i: int| 0 <= i < s.len() ==> allowed(#[trigger] s[i])
    &&& s.len() > 0 ==> s.last() != '-'
}

proof fn lemma_dashed_same(s: Seq<char>)
    requires
        forall|i: int| 0 <= i < s.len() ==> allowed(#[trigger] s[i]),
    ensures
        dashed(s) == s,
    decreases s.len(),
{
    if s.len() > 0 {
        let before = s.drop_last();
        assert forall|i: int| 0 <= i < before.len() implies allowed(#[trigger] before[i]) by {
            assert(before[i] == s[i]);
        }
        lemma_dashed_same(before);
        assert(allowed(s[s.len() - 1]));
        assert(s == before.push(s.last()));
    }
}

proof fn lemma_slug_same(s: Seq<char>)
    requires
        s.len() > 0,
        forall|i: int| 0 <= i < s.len() ==> allowed(#[trigger] s[i]),
        s[0] != '-',
        s.last() != '-',
    ensures
        slug_of(s, "remap"@) == s,
{
    assert(allowed(s[0]) && allowed(s[s.len() - 1]));
    assert(!text::is_white(s[0]) && !text::is_white(s.last()));
    assert(text::trim_end(s) == s);
    assert(text::trim(s) == s);
    lemma_dashed_same(s);
}

/// Joysticks whose keys are made into different names have different files.
pub proof fn law_different_names_different_files(dir: Seq<char>, p: WinwingDevice, q: WinwingDevice)
    requires
        slug_of(key_of(p.pid, p.serial@), "remap"@) != slug_of(key_of(q.pid, q.serial@), "remap"@),
    ensures
        file_in(dir, p) != file_in(dir, q),
{
    let a = slug_of(key_of(p.pid, p.serial@), "remap"@);
    let b = slug_of(key_of(q.pid, q.serial@), "remap"@);
    reveal_strlit("remap");
    reveal_strlit(".json");
    law_slug_is_a_file_name(key_of(p.pid, p.serial@), 0);
    law_slug_is_a_file_name(key_of(q.pid, q.serial@), 0);
    let pre = if dir.len() == 0 || dir.last() == '/' {
        dir
    } else {
        dir + "/"@
    };
    assert(file_in(dir, p) == pre + (a + ".json"@));
    assert(file_in(dir, q) == pre + (b + ".json"@));
    if file_in(dir, p) == file_in(dir, q) {
        assert(a.len() == b.len());
        assert(a == file_in(dir, p).subrange(pre.len() as int, (pre.len() + a.len()) as int));
        assert(b == file_in(dir, q).subrange(pre.len() as int, (pre.len() + b.len()) as int));
    }
}

/// Two joysticks that differ in product or in serial number have different files,
/// when their serial numbers hold only characters that may stand in the name of a
/// file and do not end with a dash.
pub proof fn law_distinct_devices_distinct_files(
    dir: Seq<char>,
    p: WinwingDevice,
    q: WinwingDevice,
)
    requires
        plain_serial(p.serial@),
        plain_serial(q.serial@),
        file_in(dir, p) == file_in(dir, q),
    ensures
        p.pid == q.pid,
        p.serial@ == q.serial@,
{
    lemma_key_is_slug(p.pid, p.serial@);
    lemma_key_is_slug(q.pid, q.serial@);
    if key_of(p.pid, p.serial@) != key_of(q.pid, q.serial@) {
        law_different_names_different_files(dir, p, q);
    }
    law_device_keys_are_distinct(p.pid, q.pid, p.serial@, q.serial@);
}

proof fn lemma_key_is_slug(pid: u16, serial: Seq<char>)
    requires
        plain_serial(serial),
    ensures
        slug_of(key_of(pid, serial), "remap"@) == key_of(pid, serial),
{
    reveal_strlit("-");
    let h = text::hex_fill(pid as nat, 4);
    lemma_pid_text(pid);
    lemma_hex_fill_digits(pid as nat, 4);
    let k = key_of(pid, serial);
    assert forall|i: int| 0 <= i < k.len() implies allowed(#[trigger] k[i]) by {
        if i < 4 {
            assert(k[i] == h[i]);
            assert(text::is_digit(h[i], 16));
        } else if i > 4 {
            assert(k[i] == serial[i - 5]);
        }
    }
    assert(k[0] == h[0] && text::is_digit(h[0], 16));
    if serial.len() > 0 {
        assert(k.last() == serial.last());
    } else {
        assert(k.last() == h[3] && text::is_digit(h[3], 16));
    }
    lemma_slug_same(k);
}

proof fn lemma_hex_fill_digits(n: nat, w: nat)
    ensures
        forall|i: int|
            0 <= i < text::hex_fill(n, w).len() ==> text::is_digit(
                #[trigger] text::hex_fill(n, w)[i],
                16,
            ),
{
    text::lemma_digits_value(n, 16);
    let h = text::hex(n);
    let f = text::hex_fill(n, w);
    assert forall|i: int| 0 <= i < f.len() implies text::is_digit(#[trigger] f[i], 16) by {
        if h.len() < w {
            let z = w - h.len();
            if i < z {
                assert(f[i] == '0');
            } else {
                assert(f[i] == h[i - z]);
            }
        }
    }
}

/// The output of a button by a table: its own number when the table does not name
/// it.
pub open spec fn output_by(m: Map<u32, u32>, src: u32) -> u32 {
    if m.contains_key(src) {
        m[src]
    } else {
        src
    }
}

/// A button has the output that it was given last, and the others keep theirs; a
/// button that was given its own number is in the table no more.
pub proof fn law_output_is_the_one_given(m: Map<u32, u32>, src: u32, dst: u32, other: u32)
    ensures
        output_by(with_output(m, src, dst), src) == dst,
        other != src ==> output_by(with_output(m, src, dst), other) == output_by(m, other),
        with_output(m, src, dst).contains_key(src) <==> dst != src,
        output_by(m.remove(src), src) == src,
        is_table(m) && src >= 1 && dst >= 1 ==> is_table(with_output(m, src, dst)),
{
}

/// A name of characters that may all stand in a file name is kept, when it neither
/// begins nor ends with a dash.
pub proof fn law_plain_names_stay(s: Seq<char>)
    requires
        s.len() > 0,
        forall|i: int|
            0 <= i < s.len() ==> ('a' <= #[trigger] s[i] <= 'z' || 'A' <= s[i] <= 'Z' || '0' <= s[i]
                <= '9' || s[i] == '.' || s[i] == '_' || s[i] == '-'),
        s[0] != '-',
        s.last() != '-',
    ensures
        slug_of(s, "remap"@) == s,
{
    lemma_slug_same(s);
}

/// A stored entry names the button by its key and the output by its value.
pub proof fn law_entry_names_button_and_output(
    m: Map<u32, u32>,
    src: u32,
    dst: u32,
    value: serde_json::Value,
)
    requires
        json::json_u64(value) == Some(dst as u64),
    ensures
        src >= 1 && dst >= 1 ==> read_entry(m, text::dec(src as nat), value) is Ok && output_by(
            read_entry(m, text::dec(src as nat), value)->Ok_0,
            src,
        ) == dst,
        src == 0 || dst == 0 ==> read_entry(m, text::dec(src as nat), value) is Err,
{
    text::lemma_parsed_dec(src as nat, u32::MAX as nat);
}

/// What a file means when it means nothing: no remapping. A file of another format, or
/// of a later version, means nothing.
pub proof fn law_files_that_mean_nothing(content: Seq<char>)
    ensures
        json::json_parsed(content) is None ==> loaded(content) == Map::<u32, u32>::empty(),
        json::json_parsed(content) matches Some(v) ==> (json::member(v, "format"@) is None
            ==> loaded(content) == Map::<u32, u32>::empty()),
        json::json_parsed(content) matches Some(v) ==> ((json::member(v, "version"@) matches Some(
            x,
        ) && json::json_u64(x) == Some(2u64)) ==> loaded(content) == Map::<u32, u32>::empty()),
{
}

/// Characters that may not stand in a file name become one dash, however many of them
/// follow one another; the others are kept.
pub proof fn law_runs_become_one_dash(s: Seq<char>, x: char, y: char)
    requires
        !allowed(x),
        !allowed(y),
    ensures
        dashed(s.push(x).push(y)) == dashed(s.push(x)),
        (s.len() == 0 || allowed(s.last())) ==> dashed(s.push(x)) == dashed(s).push('-'),
        !allowed('/') && !allowed(' ') && !allowed(':') && allowed('.') && allowed('-') && allowed(
            '_',
        ),
{
    assert(s.push(x).push(y).drop_last() =~= s.push(x));
    assert(s.push(x).drop_last() =~= s);
}

} // verus!
