//! Versions of the firmware: those of the controllers and those of the catalog.
//!
//! Nothing here flashes; the caller reads the device and queries the catalog.

use crate::flash;
use crate::flash::{Firmware, FlashTarget};
use crate::enumerate::Controller;
use crate::i18n;
use crate::json;
use crate::protocol;
use crate::text;
use vstd::prelude::*;

verus! {

/// The `pid` of a controller in the catalog: the family, then the device.
pub fn catalog_pid(device: u8, family: u8) -> (r: u32)
    ensures
        r == family * 256 + device,
{
    family as u32 * 256 + device as u32
}

/// The hardware version as the catalog writes it: `hi.lo` in hexadecimal, the low
/// byte on two digits.
pub open spec fn hardware_text(hwver: u16) -> Seq<char> {
    text::hex((hwver / 256) as nat) + "."@ + text::hex_fill((hwver % 256) as nat, 2)
}

/// The hardware version as the catalog writes it.
pub fn hardware_string(hwver: u16) -> (r: String)
    ensures
        r@ == hardware_text(hwver),
{
    let mut out: String = text::hex_text((hwver / 256) as u64, 0);
    out.append(".");
    out.append(text::hex_text((hwver % 256) as u64, 2).as_str());
    out
}

/// The key of an entry of the catalog.
pub open spec fn key_text(pid: u32, hardware: Seq<char>) -> Seq<char> {
    text::dec(pid as nat) + "&"@ + hardware
}

/// The key of an entry of the catalog: `<pid>&<hardWare>`.
pub fn catalog_key(pid: u32, hardware: &str) -> (r: String)
    ensures
        r@ == key_text(pid, hardware@),
{
    let mut out: String = text::dec_text(pid as u64);
    out.append("&");
    out.append(hardware);
    out
}

/// Entries for different products, or for different hardware, have different keys.
pub proof fn law_catalog_keys_are_distinct(p: u32, q: u32, h: Seq<char>, k: Seq<char>)
    requires
        key_text(p, h) == key_text(q, k),
    ensures
        p == q,
        h == k,
{
    reveal_strlit("&");
    let a = text::dec(p as nat);
    let b = text::dec(q as nat);
    text::lemma_digits_value(p as nat, 10);
    text::lemma_digits_value(q as nat, 10);
    let s = key_text(p, h);
    assert(s[a.len() as int] == '&');
    assert(s == b + "&"@ + k);
    assert(s[b.len() as int] == '&');
    if a.len() < b.len() {
        assert(s[a.len() as int] == b[a.len() as int]);
        assert(text::is_digit(b[a.len() as int], 10));
    }
    if b.len() < a.len() {
        assert(s[b.len() as int] == a[b.len() as int]);
        assert(text::is_digit(a[b.len() as int], 10));
    }
    assert(a == s.take(a.len() as int));
    assert(b == s.take(b.len() as int));
    text::lemma_dec_injective(p as nat, q as nat);
    assert(h == s.skip((a.len() + 1) as int));
    assert(k == s.skip((b.len() + 1) as int));
}

/// The value is the query of one entry: its `pid` and its `hardWare`, and nothing
/// else.
pub open spec fn is_query(v: serde_json::Value, pid: u32, hardware: Seq<char>) -> bool {
    json::json_object(v) matches Some(m) && {
        &&& m.dom() == set!["pid"@, "hardWare"@]
        &&& json::json_u64(m["pid"@]) == Some(pid as u64)
        &&& json::json_string(m["hardWare"@]) == Some(hardware)
    }
}

fn query_item(pid: u32, hardware: &str) -> (r: serde_json::Value)
    ensures
        is_query(r, pid, hardware@),
{
    let mut entries: Vec<(String, serde_json::Value)> = Vec::new();
    entries.push(("pid".to_string(), json::from_u64(pid as u64)));
    entries.push(("hardWare".to_string(), json::from_text(hardware)));
    proof {
        reveal_strlit("pid");
        reveal_strlit("hardWare");
        assert("pid"@.len() != "hardWare"@.len());
        json::lemma_entry(entries@, 0);
        json::lemma_entry(entries@, 1);
        let m = json::entries_map(entries@);
        assert forall|k: Seq<char>| m.contains_key(k) implies k == "pid"@ || k == "hardWare"@ by {
            json::lemma_entry_keys(entries@, k);
        }
        assert(m.dom() == set!["pid"@, "hardWare"@]);
    }
    json::from_entries(entries)
}

/// The body of a query of the catalog: the text of an array with one object for
/// each `(pid, hardWare)`.
pub fn build_query_body(items: &[(u32, String)]) -> (r: String)
    ensures
        exists|v: serde_json::Value|
            {
                &&& r@ == #[trigger] json::json_text(v)
                &&& json::json_array(v) matches Some(a) && a.len() == items.len() && forall|i: int|
                    0 <= i < items.len() ==> is_query(#[trigger] a[i], items[i].0, items[i].1@)
            },
{
    let mut out: Vec<serde_json::Value> = Vec::new();
    let mut i: usize = 0;
    while i < items.len()
        invariant
            i <= items.len(),
            out.len() == i,
            forall|j: int|
                0 <= j < i ==> is_query(#[trigger] out[j], items[j].0, items[j].1@),
        decreases items.len() - i,
    {
        out.push(query_item(items[i].0, items[i].1.as_str()));
        i += 1;
    }
    let v: serde_json::Value = json::from_items(out);
    json::compact(&v)
}

/// The member `data`, then the member of the entry, then `firmware_version`.
pub open spec fn version_entry(v: serde_json::Value, key: Seq<char>) -> Option<serde_json::Value> {
    match json::member(v, "data"@) {
        Some(d) => match json::member(d, key) {
            Some(e) => json::member(e, "firmware_version"@),
            None => None,
        },
        None => None,
    }
}

/// The version of an entry in an answer of the catalog: a string as it is, a
/// number as its text, nothing else.
pub open spec fn version_in(v: serde_json::Value, key: Seq<char>) -> Option<Seq<char>> {
    match version_entry(v, key) {
        Some(x) => match json::json_string(x) {
            Some(s) => Some(s),
            None => json::json_number(x),
        },
        None => None,
    }
}

/// The version of an entry in an answer of the catalog that was parsed.
pub fn latest_version_in(v: &serde_json::Value, pid: u32, hardware: &str) -> (r: Option<String>)
    ensures
        match r {
            Some(s) => version_in(*v, key_text(pid, hardware@)) == Some(s@),
            None => version_in(*v, key_text(pid, hardware@)) is None,
        },
{
    let key: String = catalog_key(pid, hardware);
    let data: &serde_json::Value = match json::get(v, "data") {
        Some(d) => d,
        None => {
            return None;
        },
    };
    let entry: &serde_json::Value = match json::get(data, key.as_str()) {
        Some(e) => e,
        None => {
            return None;
        },
    };
    let version: &serde_json::Value = match json::get(entry, "firmware_version") {
        Some(x) => x,
        None => {
            return None;
        },
    };
    match json::as_str(version) {
        Some(s) => Some(s),
        None => json::number_text(version),
    }
}

/// The version of an entry in the text of an answer of the catalog; `None` when
/// the text is not JSON or has no such entry.
pub fn parse_latest_version(response: &str, pid: u32, hardware: &str) -> (r: Option<String>)
    ensures
        match r {
            Some(s) => json::json_parsed(response@) matches Some(v) && version_in(
                v,
                key_text(pid, hardware@),
            ) == Some(s@),
            None => json::json_parsed(response@) matches Some(v) ==> version_in(
                v,
                key_text(pid, hardware@),
            ) is None,
        },
{
    match json::parse(response) {
        Some(v) => latest_version_in(&v, pid, hardware),
        None => None,
    }
}

// --- Answers of the controllers ---------------------------------------------------------

/// The firmware version in the payload `[dev, fam, minor, major]` of an answer, as
/// the catalog writes it: `major.minor`, the minor in hexadecimal on two digits.
pub fn decode_fw_version(payload: &[u8]) -> (r: Option<String>)
    ensures
        match r {
            Some(s) => payload.len() >= 4 && s@ == text::dec(payload@[3] as nat) + "."@
                + text::hex_fill(payload@[2] as nat, 2),
            None => payload.len() < 4,
        },
{
    if payload.len() < 4 {
        return None;
    }
    let mut out: String = text::dec_text(payload[3] as u64);
    out.append(".");
    out.append(text::hex_text(payload[2] as u64, 2).as_str());
    Some(out)
}

/// The hardware version in the payload `[type_lo, type_hi, hw_lo, hw_hi]` of an
/// answer.
pub fn decode_hw(payload: &[u8]) -> (r: Option<u16>)
    ensures
        match r {
            Some(v) => payload.len() >= 4 && v == payload@[2] + 256 * payload@[3],
            None => payload.len() < 4,
        },
{
    if payload.len() < 4 {
        return None;
    }
    Some(payload[2] as u16 + 256 * payload[3] as u16)
}

/// The hardware type in the payload `[type_lo, type_hi, ..]` of an answer.
pub fn decode_hw_type(payload: &[u8]) -> (r: Option<u16>)
    ensures
        match r {
            Some(v) => payload.len() >= 2 && v == payload@[0] + 256 * payload@[1],
            None => payload.len() < 2,
        },
{
    if payload.len() < 2 {
        return None;
    }
    Some(payload[0] as u16 + 256 * payload[1] as u16)
}

/// A controller tells its firmware in the form in which an image tells its own.
pub proof fn law_versions_have_one_form(h: flash::WwtcHeader, payload: Seq<u8>)
    requires
        payload.len() >= 4,
        payload[2] == h.fw_minor,
        payload[3] == h.fw_major,
    ensures
        text::dec(payload[3] as nat) + "."@ + text::hex_fill(payload[2] as nat, 2)
            == h.version_text(),
{
}

// --- Report ---------------------------------------------------------------------------------

/// What a controller says of itself; `None` where it did not answer.
#[derive(Debug, Clone)]
pub struct ControllerVersions {
    pub device: u8,
    pub family: u8,
    pub fw: Option<String>,
    pub hwver: Option<u16>,
}

/// The translated messages of the report.
pub struct ReportTexts {
    pub grip: String,
    pub base: String,
    pub up_to_date: String,
    pub update_available: String,
    /// Name, hardware, firmware, catalog and verdict.
    pub with_entry: String,
    /// Name, hardware and firmware.
    pub without_entry: String,
}

/// The queries for the controllers whose hardware version is known.
pub open spec fn queries_of(ctls: Seq<ControllerVersions>) -> Seq<(u32, Seq<char>)>
    decreases ctls.len(),
{
    if ctls.len() == 0 {
        Seq::empty()
    } else {
        let before = queries_of(ctls.drop_last());
        let c = ctls.last();
        match c.hwver {
            Some(hw) => before.push(((c.family * 256 + c.device) as u32, hardware_text(hw))),
            None => before,
        }
    }
}

/// The queries for the controllers: none for one whose hardware version is not
/// known.
pub fn catalog_queries(ctls: &Vec<ControllerVersions>) -> (r: Vec<(u32, String)>)
    ensures
        r.len() == queries_of(ctls@).len(),
        forall|i: int|
            0 <= i < r.len() ==> ((#[trigger] r[i]).0, r[i].1@) == queries_of(ctls@)[i],
{
    let mut out: Vec<(u32, String)> = Vec::new();
    let mut k: usize = 0;
    while k < ctls.len()
        invariant
            k <= ctls.len(),
            out.len() == queries_of(ctls@.take(k as int)).len(),
            forall|i: int|
                0 <= i < out.len() ==> ((#[trigger] out[i]).0, out[i].1@) == queries_of(
                    ctls@.take(k as int),
                )[i],
        decreases ctls.len() - k,
    {
        assert(ctls@.take(k + 1).drop_last() == ctls@.take(k as int));
        assert(ctls@.take(k + 1).last() == ctls[k as int]);
        if let Some(hw) = ctls[k].hwver {
            out.push((catalog_pid(ctls[k].device, ctls[k].family), hardware_string(hw)));
        }
        k += 1;
    }
    assert(ctls@.take(k as int) == ctls@);
    out
}

/// What the report says of a controller with the hardware version `hw`.
pub open spec fn report_line(
    c: ControllerVersions,
    hw: u16,
    answer: Option<serde_json::Value>,
    t: ReportTexts,
) -> Seq<char> {
    let name = if c.family == protocol::FAMILY_GRIP {
        t.grip@
    } else {
        t.base@
    };
    let current = match c.fw {
        Some(v) => v@,
        None => "?"@,
    };
    let latest = match answer {
        Some(v) => version_in(v, key_text((c.family * 256 + c.device) as u32, hardware_text(hw))),
        None => None,
    };
    match latest {
        Some(l) => {
            let verdict = match c.fw {
                Some(v) => if v@ == l {
                    t.up_to_date@
                } else {
                    t.update_available@
                },
                None => Seq::empty(),
            };
            i18n::interpolated(
                t.with_entry@,
                seq![name, hardware_text(hw), current, l, verdict],
            )
        },
        None => i18n::interpolated(t.without_entry@, seq![name, hardware_text(hw), current]),
    }
}

/// The lines of the report: one for each controller whose hardware version is
/// known.
pub open spec fn report_lines(
    ctls: Seq<ControllerVersions>,
    answer: Option<serde_json::Value>,
    t: ReportTexts,
) -> Seq<Seq<char>>
    decreases ctls.len(),
{
    if ctls.len() == 0 {
        Seq::empty()
    } else {
        let before = report_lines(ctls.drop_last(), answer, t);
        match ctls.last().hwver {
            Some(hw) => before.push(report_line(ctls.last(), hw, answer, t)),
            None => before,
        }
    }
}

fn line_of(
    c: &ControllerVersions,
    hw: u16,
    answer: &Option<serde_json::Value>,
    t: &ReportTexts,
) -> (r: String)
    ensures
        r@ == report_line(*c, hw, *answer, *t),
{
    let hardware: String = hardware_string(hw);
    let name: &str = if c.family == protocol::FAMILY_GRIP {
        t.grip.as_str()
    } else {
        t.base.as_str()
    };
    let current: &str = match &c.fw {
        Some(v) => v.as_str(),
        None => "?",
    };
    let latest: Option<String> = match answer {
        Some(v) => latest_version_in(v, catalog_pid(c.device, c.family), hardware.as_str()),
        None => None,
    };
    match latest {
        Some(l) => {
            let verdict: &str = match &c.fw {
                Some(v) => if text::str_eq(v.as_str(), l.as_str()) {
                    t.up_to_date.as_str()
                } else {
                    t.update_available.as_str()
                },
                None => "",
            };
            let args: [&str; 5] = [name, hardware.as_str(), current, l.as_str(), verdict];
            proof {
                reveal_strlit("");
                assert(""@ == Seq::<char>::empty());
                assert(i18n::arg_texts(args@) == seq![name@, hardware@, current@, l@, verdict@]);
            }
            i18n::interpolate(t.with_entry.clone(), args.as_slice())
        },
        None => {
            let args: [&str; 3] = [name, hardware.as_str(), current];
            assert(i18n::arg_texts(args@) == seq![name@, hardware@, current@]);
            i18n::interpolate(t.without_entry.clone(), args.as_slice())
        },
    }
}

/// The report on an answer of the catalog that was parsed (`None` when it could
/// not be).
pub fn report_on(
    ctls: &Vec<ControllerVersions>,
    answer: &Option<serde_json::Value>,
    t: &ReportTexts,
) -> (r: String)
    ensures
        r@ == text::joined(report_lines(ctls@, *answer, *t), "\n"@),
{
    let mut lines: Vec<String> = Vec::new();
    let mut k: usize = 0;
    assert(text::views(lines@) == report_lines(ctls@.take(0), *answer, *t));
    while k < ctls.len()
        invariant
            k <= ctls.len(),
            text::views(lines@) == report_lines(ctls@.take(k as int), *answer, *t),
        decreases ctls.len() - k,
    {
        assert(ctls@.take(k + 1).drop_last() == ctls@.take(k as int));
        assert(ctls@.take(k + 1).last() == ctls[k as int]);
        if let Some(hw) = ctls[k].hwver {
            let ghost before = text::views(lines@);
            let line: String = line_of(&ctls[k], hw, answer, t);
            let ghost lv = line@;
            lines.push(line);
            assert(text::views(lines@) == before.push(lv));
        }
        k += 1;
    }
    assert(ctls@.take(k as int) == ctls@);
    text::join_text(&lines, "\n")
}

/// Compares the controllers with the answer of the catalog.
pub fn check_firmware(ctls: &Vec<ControllerVersions>, response: &str, t: &ReportTexts) -> (r: String)
    ensures
        r@ == text::joined(report_lines(ctls@, json::json_parsed(response@), *t), "\n"@),
{
    let answer: Option<serde_json::Value> = json::parse(response);
    report_on(ctls, &answer, t)
}

// --- Target of a flash ------------------------------------------------------------------------

/// The controller that an image is for, when the joystick has it.
pub fn flash_controller(controllers: &[Controller], fw: &Firmware) -> (r: Option<Controller>)
    ensures
        ({
            let c = Controller { device: fw.header.device, family: fw.header.family };
            r == if controllers@.contains(c) {
                Some(c)
            } else {
                None
            }
        }),
{
    let ghost c = Controller { device: fw.header.device, family: fw.header.family };
    let mut i: usize = 0;
    while i < controllers.len()
        invariant
            i <= controllers.len(),
            c == (Controller { device: fw.header.device, family: fw.header.family }),
            forall|j: int| 0 <= j < i ==> controllers[j] != c,
        decreases controllers.len() - i,
    {
        if controllers[i].device == fw.header.device && controllers[i].family == fw.header.family {
            assert(controllers@[i as int] == c);
            return Some(controllers[i]);
        }
        i += 1;
    }
    None
}

/// What an answer about the hardware does not tell.
#[derive(Debug, Clone, Copy, PartialEq, Eq, Structural)]
pub enum HardwareError {
    Version,
    Type,
}

/// The target of a flash: the controller with what it answered about its
/// hardware.
pub fn flash_target(c: Controller, hw: &[u8]) -> (r: Result<FlashTarget, HardwareError>)
    ensures
        match r {
            Ok(t) => hw.len() >= 4 && t == (FlashTarget {
                device: c.device,
                family: c.family,
                hwver: (hw@[2] + 256 * hw@[3]) as u16,
                hw_type: (hw@[0] + 256 * hw@[1]) as u16,
            }),
            Err(e) => hw.len() < 4 && e == HardwareError::Version,
        },
{
    let hwver: u16 = match decode_hw(hw) {
        Some(v) => v,
        None => {
            return Err(HardwareError::Version);
        },
    };
    let hw_type: u16 = match decode_hw_type(hw) {
        Some(v) => v,
        None => {
            return Err(HardwareError::Type);
        },
    };
    Ok(FlashTarget { device: c.device, family: c.family, hwver, hw_type })
}

/// The controller that answers with the type and the hardware that an image names,
/// at the address that it names, is one that the image may be flashed to; a
/// different answer is refused.
pub proof fn law_answer_decides_the_target(
    image: Seq<u8>,
    c: Controller,
    hw: &[u8],
    r: Result<FlashTarget, HardwareError>,
)
    requires
        image.len() >= 14,
        hw@.len() >= 4,
        call_ensures(flash_target, (c, hw), r),
    ensures
        r matches Ok(t) && (flash::target_verdict(flash::header_of(image), t) is Ok <==> (hw@[0]
            == image[0] && hw@[1] == image[1] && hw@[2] == image[4] && hw@[3] == image[5]
            && c.device == image[2] && c.family == image[3])),
{
    flash::law_where_the_image_says_it(image);
    flash::law_target_is_exact(flash::header_of(image), r->Ok_0);
}

/// The catalog is asked about every controller whose hardware is known, under the
/// number that puts the family before the device, and about no other.
pub proof fn law_catalog_is_asked_about_each(ctls: Seq<ControllerVersions>, k: int)
    ensures
        0 <= k < ctls.len() && ctls[k].hwver is Some ==> queries_of(ctls).contains(
            (
                (256 * ctls[k].family + ctls[k].device) as u32,
                hardware_text(ctls[k].hwver->0),
            ),
        ),
        queries_of(ctls).len() <= ctls.len(),
        (forall|i: int| 0 <= i < ctls.len() ==> (#[trigger] ctls[i]).hwver is None) ==> queries_of(
            ctls,
        ).len() == 0,
    decreases ctls.len(),
{
    if ctls.len() > 0 {
        let rest = ctls.drop_last();
        let before = queries_of(rest);
        let all = queries_of(ctls);
        law_catalog_is_asked_about_each(rest, k);
        if 0 <= k < ctls.len() && ctls[k].hwver is Some {
            let q = (
                (256 * ctls[k].family + ctls[k].device) as u32,
                hardware_text(ctls[k].hwver->0),
            );
            if k == ctls.len() - 1 {
                assert(all[all.len() - 1] == q);
            } else {
                assert(rest[k] == ctls[k]);
                let i = choose|i: int| 0 <= i < before.len() && before[i] == q;
                assert(all[i] == q);
            }
        }
        if forall|i: int| 0 <= i < ctls.len() ==> (#[trigger] ctls[i]).hwver is None {
            assert(ctls[ctls.len() - 1].hwver is None);
            assert forall|i: int| 0 <= i < rest.len() implies (#[trigger] rest[i]).hwver is None by {
                assert(rest[i] == ctls[i]);
            }
        }
    }
}

/// What a controller answers is read by bytes: the version of its firmware from the
/// third and fourth, its hardware from the third and fourth, its type from the first
/// two, low byte first.
pub proof fn law_answers_are_read_by_bytes(
    answer: &[u8],
    hw: Option<u16>,
    kind: Option<u16>,
    fw: Option<String>,
)
    requires
        call_ensures(decode_hw, (answer,), hw),
        call_ensures(decode_hw_type, (answer,), kind),
        call_ensures(decode_fw_version, (answer,), fw),
    ensures
        hw is Some <==> answer@.len() >= 4,
        fw is Some <==> answer@.len() >= 4,
        kind is Some <==> answer@.len() >= 2,
        hw is Some ==> hw->0 % 256 == answer@[2] && hw->0 / 256 == answer@[3],
        kind is Some ==> kind->0 % 256 == answer@[0] && kind->0 / 256 == answer@[1],
        fw is Some ==> fw->0@ == text::dec(answer@[3] as nat) + "."@ + text::hex_fill(
            answer@[2] as nat,
            2,
        ),
{
}

/// The report compares what a controller runs with what the catalog has for it: the
/// same version is up to date, another one can be updated; a grip is called so, and
/// what the catalog does not know is not compared.
pub proof fn law_report_compares_the_versions(
    c: ControllerVersions,
    hw: u16,
    answer: serde_json::Value,
    t: ReportTexts,
    latest: Seq<char>,
    running: String,
)
    requires
        c.fw == Some(running),
    ensures
        ({
            let key = text::dec((256 * c.family + c.device) as nat) + "&"@ + hardware_text(hw);
            let name = if c.family == 0xBF {
                t.grip@
            } else {
                t.base@
            };
            let hardware = hardware_text(hw);
            let line = report_line(c, hw, Some(answer), t);
            &&& version_in(answer, key) == Some(latest) && running@ == latest ==> line
                == i18n::interpolated(
                t.with_entry@,
                seq![name, hardware, running@, latest, t.up_to_date@],
            )
            &&& version_in(answer, key) == Some(latest) && running@ != latest ==> line
                == i18n::interpolated(
                t.with_entry@,
                seq![name, hardware, running@, latest, t.update_available@],
            )
            &&& version_in(answer, key) is None ==> line == i18n::interpolated(
                t.without_entry@,
                seq![name, hardware, running@],
            )
        }),
{
}

} // verus!
