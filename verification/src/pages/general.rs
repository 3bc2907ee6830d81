//! The general page and the list of joysticks: names, the banner and the details.

use crate::enumerate;
use crate::enumerate::{Controller, WinwingDevice};
use crate::i18n;
use crate::message;
use crate::message::Message;
use crate::model;
use crate::model::{ControllerConfig, DecodedField, DeviceConfig};
use crate::protocol;
use crate::text;
use vstd::prelude::*;

verus! {

/// The controller that gives a joystick its name: the grip, or else the first one.
pub open spec fn naming_controller(controllers: Seq<Controller>) -> Option<Controller> {
    match enumerate::first_of_family(controllers, protocol::FAMILY_GRIP) {
        Some(c) => Some(c),
        None => if controllers.len() > 0 {
            Some(controllers[0])
        } else {
            None
        },
    }
}

/// The name of the range that a joystick is listed by, before its translation.
pub open spec fn range_name(controllers: Seq<Controller>) -> Option<Seq<char>> {
    match naming_controller(controllers) {
        Some(c) => Some(
            protocol::commercial_name_of(protocol::model_or(c.device, c.family, "?")@),
        ),
        None => None,
    }
}

fn range_name_of(dev: &WinwingDevice) -> (r: Option<String>)
    ensures
        model::opt_view(r) == range_name(dev.controllers@),
{
    let c: Controller = match dev.controller_of_family(protocol::FAMILY_GRIP) {
        Some(c) => c,
        None => if dev.controllers.len() > 0 {
            dev.controllers[0]
        } else {
            return None;
        },
    };
    Some(protocol::commercial_name(c.model()))
}

/// The title of a joystick: the translated name of its range, unless there is none
/// or it is empty; then the name of the product.
pub open spec fn title_text(translated: Option<Seq<char>>, product: Seq<char>) -> Seq<char> {
    match translated {
        Some(t) => if t.len() > 0 {
            t
        } else {
            product
        },
        None => product,
    }
}

/// The title is the one with what the catalog answers for the name of the range.
pub open spec fn is_title(name: &'static str, t: String, dev: WinwingDevice, r: Seq<char>) -> bool {
    &&& range_name(dev.controllers@) == Some(name@)
    &&& call_ensures(i18n::tr, (name,), t)
    &&& r == title_text(Some(t@), dev.product@)
}

/// The title of a joystick, from the translation of the name of its range.
pub fn title_from(translated: Option<String>, dev: &WinwingDevice) -> (r: String)
    ensures
        r@ == title_text(model::opt_view(translated), dev.product@),
{
    match translated {
        Some(t) => if t.as_str().is_empty() {
            dev.product.as_str().to_string()
        } else {
            t
        },
        None => dev.product.as_str().to_string(),
    }
}

proof fn lemma_range_names_have_no_nul(model: Seq<char>)
    ensures
        i18n::no_nul(protocol::commercial_name_of(model)),
{
    reveal_strlit("URSA MINOR — Base");
    reveal_strlit("URSA MINOR Joystick (");
    reveal_strlit("left");
    reveal_strlit("right");
    reveal_strlit(")");
    reveal_strlit("URSA MINOR");
    match protocol::side_of(model) {
        Some(side) => {
            let a = "URSA MINOR Joystick ("@;
            let n = a + side@ + ")"@;
            assert forall|i: int| 0 <= i < n.len() implies #[trigger] n[i] != '\0' by {
                if i < a.len() {
                    assert(n[i] == a[i]);
                } else if i < a.len() + side@.len() {
                    assert(n[i] == side@[i - a.len()]);
                } else {
                    assert(n[i] == ')');
                }
            }
        },
        None => {},
    }
}

/// The title of a joystick in the list, in the user's language.
pub fn device_title(dev: &WinwingDevice) -> (r: String)
    ensures
        match range_name(dev.controllers@) {
            Some(_) => exists|name: &'static str, t: String| #[trigger]
                is_title(name, t, *dev, r@),
            None => r@ == dev.product@,
        },
{
    match range_name_of(dev) {
        Some(n) => {
            proof {
                let c = naming_controller(dev.controllers@)->0;
                lemma_range_names_have_no_nul(protocol::model_or(c.device, c.family, "?")@);
            }
            let name: &str = n.as_str();
            let t: String = i18n::tr(name);
            let ghost answer = t;
            let r: String = title_from(Some(t), dev);
            assert(is_title(name, answer, *dev, r@));
            r
        },
        None => title_from(None, dev),
    }
}

/// The endpoint of a joystick and its numbers, below its title.
pub fn device_subtitle(dev: &WinwingDevice) -> (r: String)
    ensures
        r@ == dev.hidraw@ + "  ("@ + text::hex_fill(dev.vid as nat, 4) + ":"@ + text::hex_fill(
            dev.pid as nat,
            4,
        ) + ")"@,
{
    let mut out: String = dev.hidraw.as_str().to_string();
    out.append("  (");
    out.append(text::hex_text(dev.vid as u64, 4).as_str());
    out.append(":");
    out.append(text::hex_text(dev.pid as u64, 4).as_str());
    out.append(")");
    out
}

/// Whether a joystick can be reached: the text of the status and the style of its
/// pill.
pub fn connection_status(readable: &[bool]) -> (r: (&'static str, &'static str))
    ensures
        r == if readable@.contains(true) {
            ("Connected", "success")
        } else {
            ("Disconnected", "neutral")
        },
{
    let mut i: usize = 0;
    while i < readable.len()
        invariant
            i <= readable.len(),
            forall|k: int| 0 <= k < i ==> !(#[trigger] readable@[k]),
        decreases readable.len() - i,
    {
        if readable[i] {
            return ("Connected", "success");
        }
        i += 1;
    }
    assert(!readable@.contains(true));
    ("Disconnected", "neutral")
}

// --- Banner -----------------------------------------------------------------------------------------

/// The first configuration of a family.
pub open spec fn first_config(controllers: Seq<ControllerConfig>, family: u8) -> Option<int>
    decreases controllers.len(),
{
    if controllers.len() == 0 {
        None
    } else {
        match first_config(controllers.drop_last(), family) {
            Some(i) => Some(i),
            None => if controllers.last().family == family {
                Some(controllers.len() - 1)
            } else {
                None
            },
        }
    }
}

proof fn lemma_first_config(controllers: Seq<ControllerConfig>, family: u8, n: nat)
    requires
        n <= controllers.len(),
        first_config(controllers.take(n as int), family) is Some,
    ensures
        first_config(controllers, family) == first_config(controllers.take(n as int), family),
    decreases controllers.len(),
{
    if n < controllers.len() {
        assert(controllers.drop_last().take(n as int) == controllers.take(n as int));
        lemma_first_config(controllers.drop_last(), family, n);
    } else {
        assert(controllers.take(n as int) == controllers);
    }
}

/// The place of the grip among the configurations.
pub fn grip_config(controllers: &Vec<ControllerConfig>) -> (r: Option<usize>)
    ensures
        match first_config(controllers@, protocol::FAMILY_GRIP) {
            Some(i) => r is Some && r->0 == i && 0 <= i < controllers@.len(),
            None => r is None,
        },
{
    let mut i: usize = 0;
    while i < controllers.len()
        invariant
            i <= controllers.len(),
            first_config(controllers@.take(i as int), protocol::FAMILY_GRIP) is None,
        decreases controllers.len() - i,
    {
        let ghost next = controllers@.take(i + 1);
        assert(next.drop_last() == controllers@.take(i as int));
        assert(next.last() == controllers@[i as int]);
        if controllers[i].family == protocol::FAMILY_GRIP {
            proof {
                lemma_first_config(controllers@, protocol::FAMILY_GRIP, (i + 1) as nat);
            }
            return Some(i);
        }
        i += 1;
    }
    assert(controllers@.take(i as int) == controllers@);
    None
}

/// The place of the configuration that identifies the joystick: the grip, or else
/// the first one.
pub fn identity_config(controllers: &Vec<ControllerConfig>) -> (r: Option<usize>)
    ensures
        match first_config(controllers@, protocol::FAMILY_GRIP) {
            Some(i) => r is Some && r->0 == i && 0 <= i < controllers@.len(),
            None => r == if controllers@.len() > 0 {
                Some(0usize)
            } else {
                None
            },
        },
{
    match grip_config(controllers) {
        Some(i) => Some(i),
        None => if controllers.len() > 0 {
            Some(0)
        } else {
            None
        },
    }
}

/// The mode of the twist that can be changed: that of the grip, when it was read.
pub fn twist_to_change(controllers: &Vec<ControllerConfig>) -> (r: Option<(u8, u8, u8)>)
    ensures
        r == match first_config(controllers@, protocol::FAMILY_GRIP) {
            Some(i) => match controllers@[i].twist_mode {
                Some(m) => Some((controllers@[i].device, controllers@[i].family, m)),
                None => None,
            },
            None => None,
        },
{
    match grip_config(controllers) {
        Some(i) => match controllers[i].twist_mode {
            Some(m) => Some((controllers[i].device, controllers[i].family, m)),
            None => None,
        },
        None => None,
    }
}

/// The place of the first field with a name.
pub open spec fn field_named(fields: Seq<DecodedField>, name: Seq<char>) -> Option<int>
    decreases fields.len(),
{
    if fields.len() == 0 {
        None
    } else {
        match field_named(fields.drop_last(), name) {
            Some(i) => Some(i),
            None => if fields.last().name@ == name {
                Some(fields.len() - 1)
            } else {
                None
            },
        }
    }
}

proof fn lemma_field_named(fields: Seq<DecodedField>, name: Seq<char>, n: nat)
    requires
        n <= fields.len(),
        field_named(fields.take(n as int), name) is Some,
    ensures
        field_named(fields, name) == field_named(fields.take(n as int), name),
    decreases fields.len(),
{
    if n < fields.len() {
        assert(fields.drop_last().take(n as int) == fields.take(n as int));
        lemma_field_named(fields.drop_last(), name, n);
    } else {
        assert(fields.take(n as int) == fields);
    }
}

/// What is shown of the first field with a name.
pub open spec fn human_named(fields: Seq<DecodedField>, name: Seq<char>) -> Option<Seq<char>> {
    match field_named(fields, name) {
        Some(i) => Some(fields[i].human@),
        None => None,
    }
}

/// What is shown of the first field with a name.
pub fn field_human(c: &ControllerConfig, name: &str) -> (r: Option<String>)
    ensures
        model::opt_view(r) == human_named(c.fields@, name@),
{
    let mut i: usize = 0;
    while i < c.fields.len()
        invariant
            i <= c.fields.len(),
            field_named(c.fields@.take(i as int), name@) is None,
        decreases c.fields.len() - i,
    {
        let ghost next = c.fields@.take(i + 1);
        assert(next.drop_last() == c.fields@.take(i as int));
        assert(next.last() == c.fields@[i as int]);
        if text::str_eq(c.fields[i].name, name) {
            proof {
                lemma_field_named(c.fields@, name@, (i + 1) as nat);
            }
            return Some(c.fields[i].human.as_str().to_string());
        }
        i += 1;
    }
    assert(c.fields@.take(i as int) == c.fields@);
    None
}

/// What the banner shows of a joystick.
#[derive(Debug, PartialEq, Eq)]
pub struct Banner {
    /// The photo is that of the left joystick.
    pub is_left: bool,
    /// Name of the range, before its translation.
    pub name: String,
    /// The beginning of the serial number.
    pub serial_short: String,
    /// Version of the hardware, when it was read.
    pub hardware: Option<String>,
    /// The firmware is complete.
    pub full_firmware: bool,
    /// Label of the mode of the twist, before its translation.
    pub yaw: Option<String>,
}

/// Some controller is of the left joystick.
pub open spec fn any_left(controllers: Seq<ControllerConfig>) -> bool {
    exists|i: int|
        0 <= i < controllers.len() && text::finishes_with(
            (#[trigger] controllers[i]).model@,
            "_L"@,
        )
}

fn is_left(controllers: &Vec<ControllerConfig>) -> (r: bool)
    ensures
        r == any_left(controllers@),
{
    let mut i: usize = 0;
    while i < controllers.len()
        invariant
            i <= controllers.len(),
            forall|k: int|
                0 <= k < i ==> !text::finishes_with((#[trigger] controllers@[k]).model@, "_L"@),
        decreases controllers.len() - i,
    {
        if text::str_ends_with(controllers[i].model, "_L") {
            return true;
        }
        i += 1;
    }
    false
}

/// At most the first eight characters.
pub open spec fn short(s: Seq<char>) -> Seq<char> {
    if s.len() <= 8 {
        s
    } else {
        s.take(8)
    }
}

fn short_text(s: &str) -> (r: String)
    ensures
        r@ == short(s@),
{
    let chars: Vec<char> = text::chars_of(s);
    if chars.len() <= 8 {
        s.to_string()
    } else {
        assert(chars@.subrange(0, 8) == s@.take(8));
        text::string_between(&chars, 0, 8)
    }
}

/// What the banner shows of a joystick, of which `ident` is the identifying
/// controller.
pub fn banner_card(ident: &ControllerConfig, cfg: &DeviceConfig) -> (r: Banner)
    ensures
        r.is_left == any_left(cfg.controllers@),
        r.name@ == protocol::commercial_name_of(ident.model@),
        r.serial_short@ == short(ident.serial@),
        model::opt_view(r.hardware) == human_named(ident.fields@, "hardware_version"@),
        r.full_firmware == (human_named(ident.fields@, "firmware_complete"@) == Some(
            "Firmware complete"@,
        )),
        model::opt_view(r.yaw) == match ident.twist_mode {
            Some(m) => Some(model::mode_text(m)),
            None => None,
        },
{
    let full_firmware: bool = match field_human(ident, "firmware_complete") {
        Some(h) => text::str_eq(h.as_str(), "Firmware complete"),
        None => false,
    };
    let yaw: Option<String> = match ident.twist_mode {
        Some(_) => Some(ident.twist_label()),
        None => None,
    };
    Banner {
        is_left: is_left(&cfg.controllers),
        name: protocol::commercial_name(ident.model),
        serial_short: short_text(ident.serial.as_str()),
        hardware: field_human(ident, "hardware_version"),
        full_firmware,
        yaw,
    }
}

/// What a controller is called: a grip, or else a base.
pub open spec fn part_name(family: u8, grip: Seq<char>, base: Seq<char>) -> Seq<char> {
    if family == protocol::FAMILY_GRIP {
        grip
    } else {
        base
    }
}

/// The parts of a joystick, one for each controller.
pub open spec fn part_names(
    controllers: Seq<ControllerConfig>,
    grip: Seq<char>,
    base: Seq<char>,
) -> Seq<Seq<char>> {
    Seq::new(controllers.len(), |i: int| part_name(controllers[i].family, grip, base))
}

/// The parts of a joystick in words, of which the two are given.
pub fn parts_text(controllers: &Vec<ControllerConfig>, grip: &str, base: &str) -> (r: String)
    ensures
        r@ == text::joined(part_names(controllers@, grip@, base@), " + "@),
{
    let ghost all = part_names(controllers@, grip@, base@);
    let mut parts: Vec<String> = Vec::new();
    let mut i: usize = 0;
    while i < controllers.len()
        invariant
            i <= controllers.len(),
            all == part_names(controllers@, grip@, base@),
            text::views(parts@) == all.take(i as int),
        decreases controllers.len() - i,
    {
        let ghost before = text::views(parts@);
        let part: &str = if controllers[i].family == protocol::FAMILY_GRIP {
            grip
        } else {
            base
        };
        parts.push(part.to_string());
        assert(text::views(parts@) =~= before.push(part@));
        i += 1;
        assert(text::views(parts@) =~= all.take(i as int));
    }
    assert(all.take(i as int) =~= all);
    text::join_text(&parts, " + ")
}

/// The line below the name: the parts and the beginning of the serial number.
pub fn banner_line(parts: &str, b: &Banner) -> (r: Message)
    ensures
        r@ == message::said("{} · serial no. {}…"@, seq![parts@, b.serial_short@]),
{
    proof {
        reveal_strlit("{} · serial no. {}…");
    }
    Message::about_both("{} · serial no. {}…", parts, b.serial_short.as_str())
}

// --- Details ----------------------------------------------------------------------------------------

/// The title of the details of a controller.
pub fn details_title(c: &ControllerConfig) -> (r: String)
    ensures
        r@ == c.model@ + " (dev "@ + text::hex_prefixed(c.device as nat, 2) + " / fam "@
            + text::hex_prefixed(c.family as nat, 2) + ")"@,
{
    let mut out: String = c.model.to_string();
    out.append(" (dev ");
    out.append(text::hex_prefixed_text(c.device as u64, 2).as_str());
    out.append(" / fam ");
    out.append(text::hex_prefixed_text(c.family as u64, 2).as_str());
    out.append(")");
    out
}

/// The offset of a field, and its bytes with what they mean.
pub fn details_row(f: &DecodedField) -> (r: (String, String))
    ensures
        r.0@ == text::hex_prefixed(f.offset as nat, 4),
        r.1@ == model::word_text(model::word_bytes(f.raw)) + "   "@ + f.human@,
{
    let mut value: String = f.hex();
    value.append("   ");
    value.append(f.human.as_str());
    (text::hex_prefixed_text(f.offset as u64, 4), value)
}

/// The configuration of a family is the first one of it.
pub proof fn law_first_configuration(controllers: Seq<ControllerConfig>, family: u8, i: int)
    requires
        0 <= i < controllers.len(),
        controllers[i].family == family,
        forall|j: int| 0 <= j < i ==> (#[trigger] controllers[j]).family != family,
    ensures
        first_config(controllers, family) == Some(i),
    decreases controllers.len(),
{
    let rest = controllers.drop_last();
    if i < rest.len() {
        assert(rest[i] == controllers[i]);
        assert forall|j: int| 0 <= j < i implies (#[trigger] rest[j]).family != family by {
            assert(rest[j] == controllers[j]);
        }
        law_first_configuration(rest, family, i);
    } else {
        lemma_no_config(rest, family);
    }
}

proof fn lemma_no_config(controllers: Seq<ControllerConfig>, family: u8)
    requires
        forall|j: int| 0 <= j < controllers.len() ==> (#[trigger] controllers[j]).family != family,
    ensures
        first_config(controllers, family) is None,
    decreases controllers.len(),
{
    if controllers.len() > 0 {
        let rest = controllers.drop_last();
        assert(controllers[controllers.len() - 1].family != family);
        assert forall|j: int| 0 <= j < rest.len() implies (#[trigger] rest[j]).family != family by {
            assert(rest[j] == controllers[j]);
        }
        lemma_no_config(rest, family);
    }
}

/// What is shown of a field is what the first field with its name shows.
pub proof fn law_first_field_of_a_name(fields: Seq<DecodedField>, name: Seq<char>, i: int)
    requires
        0 <= i < fields.len(),
        fields[i].name@ == name,
        forall|j: int| 0 <= j < i ==> (#[trigger] fields[j]).name@ != name,
    ensures
        human_named(fields, name) == Some(fields[i].human@),
{
    lemma_first_field(fields, name, i);
}

proof fn lemma_first_field(fields: Seq<DecodedField>, name: Seq<char>, i: int)
    requires
        0 <= i < fields.len(),
        fields[i].name@ == name,
        forall|j: int| 0 <= j < i ==> (#[trigger] fields[j]).name@ != name,
    ensures
        field_named(fields, name) == Some(i),
    decreases fields.len(),
{
    let rest = fields.drop_last();
    if i < rest.len() {
        assert(rest[i] == fields[i]);
        assert forall|j: int| 0 <= j < i implies (#[trigger] rest[j]).name@ != name by {
            assert(rest[j] == fields[j]);
        }
        lemma_first_field(rest, name, i);
    } else {
        lemma_no_field(rest, name);
    }
}

proof fn lemma_no_field(fields: Seq<DecodedField>, name: Seq<char>)
    requires
        forall|j: int| 0 <= j < fields.len() ==> (#[trigger] fields[j]).name@ != name,
    ensures
        field_named(fields, name) is None,
    decreases fields.len(),
{
    if fields.len() > 0 {
        let rest = fields.drop_last();
        assert(fields[fields.len() - 1].name@ != name);
        assert forall|j: int| 0 <= j < rest.len() implies (#[trigger] rest[j]).name@ != name by {
            assert(rest[j] == fields[j]);
        }
        lemma_no_field(rest, name);
    }
}

/// A joystick is named by its grip when it has one, and else by its first controller.
pub proof fn law_naming_controller(controllers: Seq<Controller>)
    ensures
        naming_controller(controllers) matches Some(c) ==> controllers.contains(c),
        naming_controller(controllers) is None <==> controllers.len() == 0,
        (exists|i: int| 0 <= i < controllers.len() && (#[trigger] controllers[i]).family == 0xBF)
            ==> naming_controller(controllers)->0.family == 0xBF,
{
    enumerate::law_first_of_a_family(controllers, 0xBF);
    if controllers.len() > 0 {
        assert(controllers.contains(controllers[0]));
    }
}

} // verus!
