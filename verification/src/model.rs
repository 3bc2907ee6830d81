//! The domain model: what the flash of a controller means, and the guarded
//! writes that change it.
//!
//! - decoding of the flash into readable values ([`humanize`], [`decode_field`]);
//! - the [`Transport`] that the readings and the writes go through;
//! - the writes: read, plan the change of the wanted bytes only, back up, write,
//!   read back.

use crate::enumerate::Controller;
use crate::protocol;
use crate::protocol::{FlashField, Frame, WriteGuardError};
use crate::text;
use vstd::prelude::*;

verus! {

/// Where a dump of the whole region ends.
pub const DEFAULT_DUMP_END: u32 = 0x200;

/// Offset of the mode of the twist axis of a grip.
pub const Z_AXIS_MODE_OFFSET: u32 = 0xD8;

// --- Transport ----------------------------------------------------------------------

/// Why an operation of the transport failed.
#[derive(Debug)]
pub enum TransportError {
    /// The write guard refused.
    Guard(WriteGuardError),
    /// The input or output failed; the text says how.
    Io(String),
}

impl TransportError {
    /// The text of the failure.
    pub open spec fn message(self) -> Seq<char> {
        match self {
            TransportError::Guard(e) => e.message(),
            TransportError::Io(e) => "erreur d'I/O : "@ + e@,
        }
    }

    /// The text of the failure.
    pub fn to_string(&self) -> (r: String)
        ensures
            r@ == self.message(),
    {
        match self {
            TransportError::Guard(e) => e.to_string(),
            TransportError::Io(e) => {
                let mut out: String = "erreur d'I/O : ".to_string();
                out.append(e.as_str());
                out
            },
        }
    }

    /// What failed, without the words that say where.
    pub open spec fn cause(self) -> Seq<char> {
        match self {
            TransportError::Guard(e) => e.message(),
            TransportError::Io(e) => e@,
        }
    }

    /// What failed, without the words that say where.
    pub fn reason(&self) -> (r: String)
        ensures
            r@ == self.cause(),
    {
        match self {
            TransportError::Guard(e) => e.to_string(),
            TransportError::Io(e) => e.as_str().to_string(),
        }
    }
}

impl From<WriteGuardError> for TransportError {
    fn from(e: WriteGuardError) -> (r: Self) {
        TransportError::Guard(e)
    }
}

impl vstd::std_specs::convert::FromSpecImpl<WriteGuardError> for TransportError {
    open spec fn obeys_from_spec() -> bool {
        true
    }

    open spec fn from_spec(e: WriteGuardError) -> TransportError {
        TransportError::Guard(e)
    }
}

/// One call on a transport, with what came back.
#[allow(inconsistent_fields)]
pub enum Call {
    /// The endpoint at a path was opened.
    Open { path: Seq<char> },
    /// Four bytes were read.
    Read { device: u8, family: u8, offset: u32, reply: Option<[u8; 4]> },
    /// The identity or the mode was asked for.
    Request { device: u8, family: u8, opcode: u8, reply: Option<Vec<u8>> },
    /// Four bytes were to be written.
    Write {
        device: u8,
        family: u8,
        offset: u32,
        data: [u8; 4],
        allow_identity: bool,
        reply: Result<(Frame, Option<Vec<u8>>), TransportError>,
    },
    /// The controller was told to restart.
    Restart { device: u8, family: u8 },
}

/// The reply to a write keeps the guard: where the guard refuses the offset, the
/// reply is that refusal.
pub open spec fn keeps_guard(
    offset: u32,
    allow_identity: bool,
    reply: Result<(Frame, Option<Vec<u8>>), TransportError>,
) -> bool {
    protocol::guard_verdict(offset, allow_identity) matches Err(e) ==> reply == Err::<
        (Frame, Option<Vec<u8>>),
        TransportError,
    >(TransportError::Guard(e))
}

/// An open endpoint. It carries several controllers, of which each call
/// addresses one by `(device, family)`.
///
/// The contracts of the methods say that the endpoint remembers the path that it
/// was opened at, the calls made on it and what came back. Of the replies they
/// promise one thing: a write that the guard refuses is answered with its refusal.
pub trait Transport: Sized {
    /// The calls made so far, in order: the account by which contracts speak of
    /// them. It does not exist when the program runs.
    closed spec fn calls(&self) -> Seq<Call> {
        Seq::empty()
    }

    /// Opens the endpoint at `path`.
    fn open(path: &str) -> (r: Result<Self, TransportError>)
        ensures
            r matches Ok(t) ==> t.calls() == seq![Call::Open { path: path@ }],
    ;

    /// Closes the endpoint.
    fn close(self);

    /// Reads four bytes of the flash at `offset`; `None` when nothing comes back.
    fn read_cfg(&mut self, device: u8, family: u8, offset: u32) -> (r: Option<[u8; 4]>)
        ensures
            final(self).calls() == old(self).calls().push(
                Call::Read { device, family, offset, reply: r },
            ),
    ;

    /// Asks for the identity or the mode (`REQUEST_DEVICE_*`).
    fn request(&mut self, device: u8, family: u8, opcode: u8) -> (r: Option<Vec<u8>>)
        ensures
            final(self).calls() == old(self).calls().push(
                Call::Request { device, family, opcode, reply: r },
            ),
    ;

    /// Writes four bytes at `offset`, behind [`protocol::guard_write`]. Gives the
    /// frame sent and the echo.
    fn write_cfg(
        &mut self,
        device: u8,
        family: u8,
        offset: u32,
        data: [u8; 4],
        allow_identity: bool,
    ) -> (r: Result<(Frame, Option<Vec<u8>>), TransportError>)
        ensures
            final(self).calls() == old(self).calls().push(
                Call::Write { device, family, offset, data, allow_identity, reply: r },
            ),
            keeps_guard(offset, allow_identity, r),
    ;

    /// Restarts the controller. Gives the frame sent and the echo.
    fn restart(&mut self, device: u8, family: u8) -> (r: (Frame, Option<Vec<u8>>))
        ensures
            final(self).calls() == old(self).calls().push(Call::Restart { device, family }),
    ;
}

// --- Decoding ----------------------------------------------------------------------

/// The bytes of a word that may be missing.
pub open spec fn word_bytes(raw: Option<[u8; 4]>) -> Option<Seq<u8>> {
    match raw {
        Some(w) => Some(w@),
        None => None,
    }
}

/// The number of a little-endian word of four bytes.
pub open spec fn le32(w: Seq<u8>) -> int {
    w[0] + 256 * w[1] + 65536 * w[2] + 16777216 * w[3]
}

/// Four bytes in hexadecimal, or dashes in their place.
pub open spec fn word_text(raw: Option<Seq<u8>>) -> Seq<char> {
    match raw {
        Some(w) => protocol::hex_dump(w),
        None => "-- -- -- --"@,
    }
}

pub(crate) fn word_to_text(raw: &Option<[u8; 4]>) -> (r: String)
    ensures
        r@ == word_text(word_bytes(*raw)),
{
    match raw {
        Some(w) => protocol::hx(w.as_slice()),
        None => "-- -- -- --".to_string(),
    }
}

/// A field of the flash that was read, with its readable value.
#[derive(Debug, Clone, PartialEq, Eq)]
pub struct DecodedField {
    pub offset: u32,
    /// Technical name of the field.
    pub name: &'static str,
    /// `None` when the offset did not answer.
    pub raw: Option<[u8; 4]>,
    /// The value as it is shown.
    pub human: String,
    pub identity: bool,
}

/// A decoded field as its plain values.
#[verifier::ext_equal]
pub struct FieldView {
    pub offset: u32,
    pub name: &'static str,
    pub raw: Option<[u8; 4]>,
    pub human: Seq<char>,
    pub identity: bool,
}

impl View for DecodedField {
    type V = FieldView;

    open spec fn view(&self) -> FieldView {
        FieldView {
            offset: self.offset,
            name: self.name,
            raw: self.raw,
            human: self.human@,
            identity: self.identity,
        }
    }
}

impl DecodedField {
    /// The four bytes in hexadecimal, or dashes when they are missing.
    pub fn hex(&self) -> (r: String)
        ensures
            r@ == word_text(word_bytes(self.raw)),
    {
        word_to_text(&self.raw)
    }
}

/// The label of a mode of the twist axis; an unknown one is shown by its number.
pub open spec fn mode_text(mode: u8) -> Seq<char> {
    match protocol::z_label_of(mode) {
        Some(l) => l@,
        None => "?("@ + text::hex_prefixed(mode as nat, 2) + ")"@,
    }
}

fn mode_to_text(mode: u8) -> (r: String)
    ensures
        r@ == mode_text(mode),
{
    match protocol::z_mode_label(mode) {
        Some(l) => l.to_string(),
        None => {
            let mut out: String = "?(".to_string();
            out.append(text::hex_prefixed_text(mode as u64, 2).as_str());
            out.append(")");
            out
        },
    }
}

/// The readable value of the field `name` with the bytes `raw`.
pub open spec fn human_text(name: Seq<char>, raw: Option<Seq<u8>>) -> Seq<char> {
    match raw {
        None => "(out of range / no response)"@,
        Some(w) => if name == "z_axis_mode"@ {
            "yaw = "@ + mode_text(w[0])
        } else if name == "firmware_complete"@ {
            if w[0] == 1 {
                "Firmware complete"@
            } else {
                "Incomplete"@
            }
        } else if name == "restore_default"@ {
            if w[0] == 0xFF {
                "Inactive"@
            } else {
                "Armed (reset on next restart)"@
            }
        } else if name == "hardware_version"@ {
            "HW "@ + text::hex_fill(w[1] as nat, 2) + "."@ + text::hex_fill(w[0] as nat, 2)
        } else {
            protocol::hex_dump(w)
        },
    }
}

/// The readable value of a field.
pub fn humanize(field: &FlashField, raw: Option<&[u8; 4]>) -> (r: String)
    ensures
        r@ == human_text(
            field.name@,
            match raw {
                Some(w) => Some(w@),
                None => None,
            },
        ),
{
    let w: &[u8; 4] = match raw {
        None => {
            return "(out of range / no response)".to_string();
        },
        Some(w) => w,
    };
    if text::str_eq(field.name, "z_axis_mode") {
        let mut out: String = "yaw = ".to_string();
        out.append(mode_to_text(w[0]).as_str());
        out
    } else if text::str_eq(field.name, "firmware_complete") {
        if w[0] == 1 {
            "Firmware complete".to_string()
        } else {
            "Incomplete".to_string()
        }
    } else if text::str_eq(field.name, "restore_default") {
        if w[0] == 0xFF {
            "Inactive".to_string()
        } else {
            "Armed (reset on next restart)".to_string()
        }
    } else if text::str_eq(field.name, "hardware_version") {
        let mut out: String = "HW ".to_string();
        out.append(text::hex_text(w[1] as u64, 2).as_str());
        out.append(".");
        out.append(text::hex_text(w[0] as u64, 2).as_str());
        out
    } else {
        protocol::hx(w.as_slice())
    }
}

/// The decoded field of the bytes `raw`.
pub open spec fn field_of(field: FlashField, raw: Option<[u8; 4]>) -> FieldView {
    FieldView {
        offset: field.offset,
        name: field.name,
        raw,
        human: human_text(field.name@, word_bytes(raw)),
        identity: field.identity,
    }
}

/// Decodes a field from its bytes.
pub fn decode_field(field: &FlashField, raw: Option<[u8; 4]>) -> (r: DecodedField)
    ensures
        r@ == field_of(*field, raw),
{
    let human: String = humanize(field, raw.as_ref());
    DecodedField { offset: field.offset, name: field.name, raw, human, identity: field.identity }
}

/// The configuration of a controller, decoded.
#[derive(Debug, Clone, Default, PartialEq, Eq)]
pub struct ControllerConfig {
    pub device: u8,
    pub family: u8,
    pub model: &'static str,
    pub fields: Vec<DecodedField>,
    pub product_name: String,
    pub serial: String,
    /// The byte of the mode of the twist axis, when it was read.
    pub twist_mode: Option<u8>,
}

/// The configuration of a controller as its plain values.
#[verifier::ext_equal]
pub struct ConfigView {
    pub device: u8,
    pub family: u8,
    pub model: &'static str,
    pub fields: Seq<FieldView>,
    pub product_name: Seq<char>,
    pub serial: Seq<char>,
    pub twist_mode: Option<u8>,
}

/// The decoded fields as their plain values.
pub open spec fn field_views(fields: Seq<DecodedField>) -> Seq<FieldView> {
    Seq::new(fields.len(), |i: int| fields[i]@)
}

impl View for ControllerConfig {
    type V = ConfigView;

    open spec fn view(&self) -> ConfigView {
        ConfigView {
            device: self.device,
            family: self.family,
            model: self.model,
            fields: field_views(self.fields@),
            product_name: self.product_name@,
            serial: self.serial@,
            twist_mode: self.twist_mode,
        }
    }
}

impl ControllerConfig {
    /// An empty configuration, with the model of the controller.
    pub fn new(device: u8, family: u8) -> (r: Self)
        ensures
            r@ == (ConfigView {
                device,
                family,
                model: protocol::model_or(device, family, "?"),
                fields: Seq::empty(),
                product_name: Seq::empty(),
                serial: Seq::empty(),
                twist_mode: None,
            }),
    {
        let model: &'static str = match protocol::controller_name(device, family) {
            Some(m) => m,
            None => "?",
        };
        let r: ControllerConfig = ControllerConfig {
            device,
            family,
            model,
            fields: Vec::new(),
            product_name: String::new(),
            serial: String::new(),
            twist_mode: None,
        };
        assert(field_views(r.fields@) == Seq::<FieldView>::empty());
        r
    }

    /// The label of the mode of the twist axis.
    pub fn twist_label(&self) -> (r: String)
        ensures
            r@ == match self.twist_mode {
                None => "unknown"@,
                Some(mode) => mode_text(mode),
            },
    {
        match self.twist_mode {
            None => "unknown".to_string(),
            Some(mode) => mode_to_text(mode),
        }
    }
}

/// The configuration of the controllers of an endpoint.
#[derive(Debug, Clone, Default, PartialEq, Eq)]
pub struct DeviceConfig {
    pub hidraw: String,
    pub controllers: Vec<ControllerConfig>,
}

/// The configurations as their plain values.
pub open spec fn config_views(configs: Seq<ControllerConfig>) -> Seq<ConfigView> {
    Seq::new(configs.len(), |i: int| configs[i]@)
}

/// One line of a dump: the offset and its four bytes.
pub open spec fn dump_line(row: (u32, Option<[u8; 4]>)) -> Seq<char> {
    text::hex_prefixed(row.0 as nat, 4) + ": "@ + word_text(word_bytes(row.1)) + "\n"@
}

/// The lines of a dump, one after the other.
pub open spec fn dump_text(rows: Seq<(u32, Option<[u8; 4]>)>) -> Seq<char>
    decreases rows.len(),
{
    if rows.len() == 0 {
        Seq::empty()
    } else {
        dump_text(rows.drop_last()) + dump_line(rows.last())
    }
}

/// The text of a dump: `0xNNNN: xx xx xx xx`, one line for each word.
pub fn format_dump(rows: &[(u32, Option<[u8; 4]>)]) -> (r: String)
    ensures
        r@ == dump_text(rows@),
{
    let mut out: String = String::new();
    let mut i: usize = 0;
    while i < rows.len()
        invariant
            i <= rows.len(),
            out@ == dump_text(rows@.take(i as int)),
        decreases rows.len() - i,
    {
        let ghost before = out@;
        out.append(text::hex_prefixed_text(rows[i].0 as u64, 4).as_str());
        out.append(": ");
        out.append(word_to_text(&rows[i].1).as_str());
        out.append("\n");
        proof {
            assert(out@ == before + dump_line(rows@[i as int]));
            assert(rows@.take(i + 1).drop_last() == rows@.take(i as int));
            assert(rows@.take(i + 1).last() == rows@[i as int]);
        }
        i += 1;
    }
    assert(rows@.take(i as int) == rows@);
    out
}

// --- Modes of the twist axis by name ---------------------------------------------------

/// Names of the modes of the twist axis.
pub const TWIST_MODES: [(&'static str, u8); 3] = [
    ("buttons", protocol::Z_MODE_BUTTONS_ONLY),
    ("axis+buttons", protocol::Z_MODE_AXIS_AND_BUTTONS),
    ("axis", protocol::Z_MODE_AXIS_ONLY),
];

/// The name of a mode of the twist axis, when it is a known one.
pub open spec fn twist_name_of(value: u8) -> Option<&'static str> {
    if value == protocol::Z_MODE_BUTTONS_ONLY {
        Some("buttons")
    } else if value == protocol::Z_MODE_AXIS_AND_BUTTONS {
        Some("axis+buttons")
    } else if value == protocol::Z_MODE_AXIS_ONLY {
        Some("axis")
    } else {
        None
    }
}

/// `value` is the mode of the twist axis whose name is `name`.
pub open spec fn names_twist(name: Seq<char>, value: u8) -> bool {
    match twist_name_of(value) {
        Some(n) => n@ == name,
        None => false,
    }
}

/// A name belongs to one mode of the twist axis only.
pub proof fn law_twist_names_are_distinct(name: Seq<char>, a: u8, b: u8)
    requires
        names_twist(name, a),
        names_twist(name, b),
    ensures
        a == b,
{
    reveal_strlit("buttons");
    reveal_strlit("axis+buttons");
    reveal_strlit("axis");
    assert("buttons"@.len() == 7 && "axis+buttons"@.len() == 12 && "axis"@.len() == 4);
}

/// The mode of the twist axis with the name, or `None`.
pub fn twist_mode_from_name(name: &str) -> (r: Option<u8>)
    ensures
        match r {
            Some(value) => names_twist(name@, value),
            None => forall|value: u8| !names_twist(name@, value),
        },
{
    let mut i: usize = 0;
    while i < TWIST_MODES.len()
        invariant
            i <= 3,
            forall|j: int| 0 <= j < i ==> (#[trigger] TWIST_MODES[j]).0@ != name@,
        decreases 3 - i,
    {
        if text::str_eq(TWIST_MODES[i].0, name) {
            return Some(TWIST_MODES[i].1);
        }
        i += 1;
    }
    assert(TWIST_MODES[0].0@ != name@ && TWIST_MODES[1].0@ != name@ && TWIST_MODES[2].0@ != name@);
    None
}

/// The name of a mode of the twist axis, or `None`.
pub fn twist_mode_name(value: u8) -> (r: Option<&'static str>)
    ensures
        r == twist_name_of(value),
{
    let mut i: usize = 0;
    while i < TWIST_MODES.len()
        invariant
            i <= 3,
            forall|j: int| 0 <= j < i ==> (#[trigger] TWIST_MODES[j]).1 != value,
        decreases 3 - i,
    {
        if TWIST_MODES[i].1 == value {
            return Some(TWIST_MODES[i].0);
        }
        i += 1;
    }
    assert(TWIST_MODES[0].1 != value && TWIST_MODES[1].1 != value && TWIST_MODES[2].1 != value);
    None
}

// --- Deadzones to show -------------------------------------------------------------------

/// The deadzone of an axis of the base to show; `None` when none is set (zero,
/// or out of range as the value of an unset one is).
pub fn base_deadzone_display(raw: Option<u32>) -> (r: Option<u32>)
    ensures
        r == match raw {
            Some(v) => if 1 <= v <= 65535 {
                Some(v)
            } else {
                None
            },
            None => None,
        },
{
    match raw {
        Some(v) => if 1 <= v && v <= 65535 {
            Some(v)
        } else {
            None
        },
        None => None,
    }
}

/// The deadzone of the twist to show; `None` when none is set.
pub fn twist_deadzone_display(raw: Option<u8>) -> (r: Option<u8>)
    ensures
        r == match raw {
            Some(v) => if 1 <= v <= protocol::DEADZONE_TWIST_MAX {
                Some(v)
            } else {
                None
            },
            None => None,
        },
{
    match raw {
        Some(v) => if 1 <= v && v <= protocol::DEADZONE_TWIST_MAX {
            Some(v)
        } else {
            None
        },
        None => None,
    }
}

// --- Reading --------------------------------------------------------------------------

/// The reads of consecutive words from `start`, with their replies.
pub open spec fn reads_from(device: u8, family: u8, start: int, replies: Seq<Option<[u8; 4]>>) -> Seq<
    Call,
> {
    Seq::new(
        replies.len(),
        |i: int|
            Call::Read { device, family, offset: (start + 4 * i) as u32, reply: replies[i] },
    )
}

/// The number of words from `start` to `end`, both of them read.
pub open spec fn word_count(start: int, end: int) -> int {
    if start > end {
        0
    } else {
        (end - start) / 4 + 1
    }
}

/// The replies are those of a region that is read up to the first word that does
/// not answer.
pub open spec fn answers_region(start: int, end: int, replies: Seq<Option<[u8; 4]>>) -> bool {
    &&& replies.len() <= word_count(start, end)
    &&& forall|i: int| 0 <= i < replies.len() - 1 ==> (#[trigger] replies[i]) is Some
    &&& replies.len() == word_count(start, end) || (replies.len() > 0 && replies.last() is None)
}

/// The bytes that the replies hold, in order.
pub open spec fn replied_bytes(replies: Seq<Option<[u8; 4]>>) -> Seq<u8>
    decreases replies.len(),
{
    if replies.len() == 0 {
        Seq::empty()
    } else {
        replied_bytes(replies.drop_last()) + match replies.last() {
            Some(w) => w@,
            None => Seq::empty(),
        }
    }
}

/// Reads the words from `start` to `end`, up to the first that does not answer.
fn read_region<T: Transport>(t: &mut T, device: u8, family: u8, start: u32, end: u32) -> (r: Vec<
    u8,
>)
    requires
        end <= u32::MAX - 4,
    ensures
        exists|replies: Seq<Option<[u8; 4]>>|
            {
                &&& answers_region(start as int, end as int, replies)
                &&& final(t).calls() == old(t).calls() + #[trigger] reads_from(
                    device,
                    family,
                    start as int,
                    replies,
                )
                &&& r@ == replied_bytes(replies)
            },
{
    let mut buf: Vec<u8> = Vec::new();
    let mut off: u32 = start;
    let ghost mut replies: Seq<Option<[u8; 4]>> = Seq::empty();
    let ghost before = t.calls();
    assert(t.calls() == before + reads_from(device, family, start as int, replies));
    while off <= end
        invariant_except_break
            off == start + 4 * replies.len(),
            replies.len() <= word_count(start as int, end as int),
            forall|i: int| 0 <= i < replies.len() ==> (#[trigger] replies[i]) is Some,
        invariant
            end <= u32::MAX - 4,
            before == old(t).calls(),
            t.calls() == before + reads_from(device, family, start as int, replies),
            buf@ == replied_bytes(replies),
        ensures
            answers_region(start as int, end as int, replies),
        decreases end + 4 - off,
    {
        let reply: Option<[u8; 4]> = t.read_cfg(device, family, off);
        let ghost next = replies.push(reply);
        proof {
            assert(next.drop_last() == replies);
            assert(reads_from(device, family, start as int, next) == reads_from(
                device,
                family,
                start as int,
                replies,
            ).push(Call::Read { device, family, offset: off, reply }));
            replies = next;
        }
        match reply {
            Some(v) => {
                buf.extend_from_slice(v.as_slice());
                assert(buf@ == replied_bytes(replies));
            },
            None => {
                assert(replied_bytes(replies) == replied_bytes(replies.drop_last()));
                break ;
            },
        }
        off += 4;
    }
    buf
}

/// The fields that are read on a controller of the family: those that only a grip
/// has are left out elsewhere.
pub open spec fn fields_for(family: u8) -> Seq<FlashField> {
    flash_fields_of(protocol::flash_table(), family)
}

/// The fields among `table` that are read on a controller of the family.
pub open spec fn flash_fields_of(table: Seq<FlashField>, family: u8) -> Seq<FlashField>
    decreases table.len(),
{
    if table.len() == 0 {
        Seq::empty()
    } else {
        let before = flash_fields_of(table.drop_last(), family);
        if table.last().grip_only && family != protocol::FAMILY_GRIP {
            before
        } else {
            before.push(table.last())
        }
    }
}

fn read_fields(family: u8) -> (r: Vec<FlashField>)
    ensures
        r@ == fields_for(family),
{
    let table: Vec<FlashField> = protocol::flash_fields();
    let mut out: Vec<FlashField> = Vec::new();
    let mut i: usize = 0;
    while i < table.len()
        invariant
            i <= table.len(),
            out@ == flash_fields_of(table@.take(i as int), family),
        decreases table.len() - i,
    {
        assert(table@.take(i + 1).drop_last() == table@.take(i as int));
        assert(table@.take(i + 1).last() == table[i as int]);
        if !(table[i].grip_only && family != protocol::FAMILY_GRIP) {
            out.push(table[i]);
        }
        i += 1;
    }
    assert(table@.take(i as int) == table@);
    out
}

/// What a controller replies when its configuration is read: one reply for each
/// field, then those of the product name and of the serial number.
pub struct ConfigReplies {
    pub fields: Seq<Option<[u8; 4]>>,
    pub name: Seq<Option<[u8; 4]>>,
    pub serial: Seq<Option<[u8; 4]>>,
}

/// First and last offset of the product name, and of the serial number.
pub const NAME_START: u32 = 0x5C;

pub const NAME_END: u32 = 0x84;

pub const SERIAL_START: u32 = 0x9C;

pub const SERIAL_END: u32 = 0xA4;

/// The replies are those of one reading of the configuration.
pub open spec fn answers_config(family: u8, a: ConfigReplies) -> bool {
    &&& a.fields.len() == fields_for(family).len()
    &&& answers_region(NAME_START as int, NAME_END as int, a.name)
    &&& answers_region(SERIAL_START as int, SERIAL_END as int, a.serial)
}

/// The reads of fields, with their replies.
pub open spec fn field_reads(
    device: u8,
    family: u8,
    fields: Seq<FlashField>,
    replies: Seq<Option<[u8; 4]>>,
) -> Seq<Call> {
    Seq::new(
        replies.len(),
        |i: int|
            Call::Read { device, family, offset: fields[i].offset, reply: replies[i] },
    )
}

/// The calls of one reading of the configuration: reads and nothing else.
pub open spec fn config_calls(device: u8, family: u8, a: ConfigReplies) -> Seq<Call> {
    field_reads(device, family, fields_for(family), a.fields) + reads_from(
        device,
        family,
        NAME_START as int,
        a.name,
    ) + reads_from(device, family, SERIAL_START as int, a.serial)
}

/// What stands before the first zero byte.
pub open spec fn before_zero(b: Seq<u8>) -> Seq<u8>
    decreases b.len(),
{
    if b.len() == 0 || b[0] == 0 {
        Seq::empty()
    } else {
        seq![b[0]] + before_zero(b.skip(1))
    }
}

/// The number of bytes before the first zero byte.
pub(crate) fn zero_position(b: &[u8]) -> (r: usize)
    ensures
        r <= b.len(),
        before_zero(b@) == b@.take(r as int),
{
    let mut i: usize = 0;
    assert(b@.skip(0) == b@);
    while i < b.len() && b[i] != 0
        invariant
            i <= b.len(),
            before_zero(b@) == b@.take(i as int) + before_zero(b@.skip(i as int)),
        decreases b.len() - i,
    {
        proof {
            let rest = b@.skip(i as int);
            assert(rest[0] == b@[i as int]);
            assert(rest.skip(1) == b@.skip(i + 1));
            assert(b@.take(i + 1) == b@.take(i as int).push(b@[i as int]));
            assert(b@.take(i as int) + (seq![rest[0]] + before_zero(rest.skip(1))) == b@.take(i + 1)
                + before_zero(b@.skip(i + 1)));
        }
        i += 1;
    }
    if i < b.len() {
        assert(b@.skip(i as int)[0] == b@[i as int]);
    }
    assert(before_zero(b@.skip(i as int)) == Seq::<u8>::empty());
    assert(b@.take(i as int) + Seq::<u8>::empty() == b@.take(i as int));
    i
}

/// The text that bytes up to the first zero byte hold.
pub(crate) fn text_before_zero(b: &[u8]) -> (r: String)
    ensures
        r@ == text::utf8_lossy(before_zero(b@)),
{
    let end: usize = zero_position(b);
    assert(b@.subrange(0, end as int) == b@.take(end as int));
    text::lossy_text(vstd::slice::slice_subrange(b, 0, end))
}

/// The product name that the bytes of the flash hold.
pub open spec fn product_name_of(b: Seq<u8>) -> Seq<char> {
    text::trim(text::utf8_lossy(before_zero(b)))
}

/// The serial number that the bytes of the flash hold, in hexadecimal.
pub open spec fn serial_text(b: Seq<u8>) -> Seq<char> {
    text::joined(protocol::hex_pairs(b), ""@)
}

/// The mode of the twist axis among the fields, when it answered.
pub open spec fn twist_from(fields: Seq<FlashField>, replies: Seq<Option<[u8; 4]>>) -> Option<u8>
    decreases fields.len(),
{
    if fields.len() == 0 {
        None
    } else {
        match replies[fields.len() - 1] {
            Some(w) => if fields.last().name@ == "z_axis_mode"@ {
                Some(w@[0])
            } else {
                twist_from(fields.drop_last(), replies)
            },
            None => twist_from(fields.drop_last(), replies),
        }
    }
}

/// The configuration that replies to the fields, a product name and a serial
/// number make.
pub open spec fn config_from(
    device: u8,
    family: u8,
    replies: Seq<Option<[u8; 4]>>,
    name: Seq<u8>,
    serial: Seq<u8>,
) -> ConfigView {
    let fields = fields_for(family);
    ConfigView {
        device,
        family,
        model: protocol::model_or(device, family, "?"),
        fields: Seq::new(fields.len(), |i: int| field_of(fields[i], replies[i])),
        product_name: product_name_of(name),
        serial: serial_text(serial),
        twist_mode: twist_from(fields, replies),
    }
}

/// The configuration that the replies of a controller make.
pub open spec fn config_of(device: u8, family: u8, a: ConfigReplies) -> ConfigView {
    config_from(device, family, a.fields, replied_bytes(a.name), replied_bytes(a.serial))
}

/// Decodes the configuration of a controller from the replies to its fields and
/// from the bytes of its product name and of its serial number.
pub fn decode_controller(
    device: u8,
    family: u8,
    replies: &Vec<Option<[u8; 4]>>,
    name: &[u8],
    serial: &[u8],
) -> (r: ControllerConfig)
    requires
        replies.len() == fields_for(family).len(),
    ensures
        r@ == config_from(device, family, replies@, name@, serial@),
{
    let mut cfg: ControllerConfig = ControllerConfig::new(device, family);
    let fields: Vec<FlashField> = read_fields(family);
    let ghost whole = config_from(device, family, replies@, name@, serial@);
    let mut i: usize = 0;
    assert(field_views(cfg.fields@) == whole.fields.take(0));
    while i < fields.len()
        invariant
            i <= fields.len(),
            fields@ == fields_for(family),
            replies.len() == fields.len(),
            whole == config_from(device, family, replies@, name@, serial@),
            cfg.device == device,
            cfg.family == family,
            cfg.model == whole.model,
            field_views(cfg.fields@) == whole.fields.take(i as int),
            cfg.twist_mode == twist_from(fields@.take(i as int), replies@),
        decreases fields.len() - i,
    {
        let raw: Option<[u8; 4]> = replies[i];
        proof {
            assert(fields@.take(i + 1).drop_last() == fields@.take(i as int));
            assert(fields@.take(i + 1).last() == fields[i as int]);
        }
        if let Some(w) = raw {
            if text::str_eq(fields[i].name, "z_axis_mode") {
                cfg.twist_mode = Some(w[0]);
            }
        }
        let ghost before = field_views(cfg.fields@);
        cfg.fields.push(decode_field(&fields[i], raw));
        assert(field_views(cfg.fields@) == before.push(field_of(fields[i as int], raw)));
        i += 1;
        assert(field_views(cfg.fields@) == whole.fields.take(i as int));
    }
    assert(fields@.take(i as int) == fields@);
    assert(whole.fields.take(i as int) == whole.fields);
    cfg.product_name = text::trim_text(text_before_zero(name).as_str());
    cfg.serial = text::join_text(&protocol::hex_pair_texts(serial), "");
    cfg
}

/// Reads the configuration of a controller and decodes it. Only reads.
pub fn read_controller<T: Transport>(t: &mut T, device: u8, family: u8) -> (r: ControllerConfig)
    ensures
        exists|a: ConfigReplies|
            {
                &&& answers_config(family, a)
                &&& final(t).calls() == old(t).calls() + #[trigger] config_calls(device, family, a)
                &&& r@ == config_of(device, family, a)
            },
{
    let fields: Vec<FlashField> = read_fields(family);
    let mut replies: Vec<Option<[u8; 4]>> = Vec::new();
    let ghost start = t.calls();
    let mut i: usize = 0;
    assert(t.calls() == start + field_reads(device, family, fields@, replies@));
    while i < fields.len()
        invariant
            i <= fields.len(),
            fields@ == fields_for(family),
            replies.len() == i,
            start == old(t).calls(),
            t.calls() == start + field_reads(device, family, fields@, replies@),
        decreases fields.len() - i,
    {
        let ghost before = replies@;
        let raw: Option<[u8; 4]> = t.read_cfg(device, family, fields[i].offset);
        replies.push(raw);
        assert(field_reads(device, family, fields@, replies@) == field_reads(
            device,
            family,
            fields@,
            before,
        ).push(Call::Read { device, family, offset: fields[i as int].offset, reply: raw }));
        i += 1;
    }
    let ghost c1 = t.calls();
    let name: Vec<u8> = read_region(t, device, family, NAME_START, NAME_END);
    let ghost n = choose|n: Seq<Option<[u8; 4]>>|
        {
            &&& answers_region(NAME_START as int, NAME_END as int, n)
            &&& t.calls() == c1 + #[trigger] reads_from(device, family, NAME_START as int, n)
            &&& name@ == replied_bytes(n)
        };
    let ghost c2 = t.calls();
    let serial: Vec<u8> = read_region(t, device, family, SERIAL_START, SERIAL_END);
    let ghost s = choose|s: Seq<Option<[u8; 4]>>|
        {
            &&& answers_region(SERIAL_START as int, SERIAL_END as int, s)
            &&& t.calls() == c2 + #[trigger] reads_from(device, family, SERIAL_START as int, s)
            &&& serial@ == replied_bytes(s)
        };
    let cfg: ControllerConfig = decode_controller(device, family, &replies, &name, &serial);
    proof {
        let a = ConfigReplies { fields: replies@, name: n, serial: s };
        assert(answers_config(family, a));
        assert(t.calls() == start + config_calls(device, family, a));
        assert(cfg@ == config_of(device, family, a));
    }
    cfg
}

/// The configurations of controllers, each from its own replies.
pub open spec fn configs_of(controllers: Seq<Controller>, a: Seq<ConfigReplies>) -> Seq<ConfigView> {
    Seq::new(
        controllers.len(),
        |i: int| config_of(controllers[i].device, controllers[i].family, a[i]),
    )
}

/// The replies are those of one reading of each controller.
pub open spec fn answers_configs(controllers: Seq<Controller>, a: Seq<ConfigReplies>) -> bool {
    &&& a.len() == controllers.len()
    &&& forall|i: int|
        0 <= i < a.len() ==> answers_config(controllers[i].family, #[trigger] a[i])
}

/// The endpoint at the path was opened as `o`, these calls were made on it, and then
/// it was closed as `t`.
pub open spec fn is_session<T: Transport>(path: &str, o: T, t: T, calls: Seq<Call>) -> bool {
    &&& call_ensures(T::open, (path,), Ok::<T, TransportError>(o))
    &&& t.calls() == o.calls() + calls
    &&& t.calls() == seq![Call::Open { path: path@ }] + calls
    &&& call_ensures(T::close, (t,), ())
}

/// The calls of reading the controllers, one after the other.
pub open spec fn configs_calls(controllers: Seq<Controller>, a: Seq<ConfigReplies>) -> Seq<Call>
    decreases controllers.len(),
{
    if controllers.len() == 0 {
        Seq::empty()
    } else {
        let c = controllers.last();
        configs_calls(controllers.drop_last(), a) + config_calls(
            c.device,
            c.family,
            a[controllers.len() - 1],
        )
    }
}

proof fn lemma_configs_calls(
    controllers: Seq<Controller>,
    a: Seq<ConfigReplies>,
    b: Seq<ConfigReplies>,
)
    requires
        controllers.len() <= a.len() <= b.len(),
        forall|i: int| 0 <= i < controllers.len() ==> a[i] == b[i],
    ensures
        configs_calls(controllers, a) == configs_calls(controllers, b),
    decreases controllers.len(),
{
    if controllers.len() > 0 {
        lemma_configs_calls(controllers.drop_last(), a, b);
    }
}

/// Reads the controllers of an open endpoint, one after the other. Only reads.
pub fn read_controllers<T: Transport>(t: &mut T, controllers: &[Controller]) -> (r: Vec<
    ControllerConfig,
>)
    ensures
        exists|a: Seq<ConfigReplies>|
            {
                &&& answers_configs(controllers@, a)
                &&& final(t).calls() == old(t).calls() + #[trigger] configs_calls(controllers@, a)
                &&& config_views(r@) == configs_of(controllers@, a)
            },
{
    let ghost start = t.calls();
    let mut out: Vec<ControllerConfig> = Vec::new();
    let ghost mut a: Seq<ConfigReplies> = Seq::empty();
    let mut i: usize = 0;
    assert(t.calls() =~= start + configs_calls(controllers@.take(0), a));
    while i < controllers.len()
        invariant
            i <= controllers.len(),
            a.len() == i,
            out.len() == i,
            t.calls() == start + configs_calls(controllers@.take(i as int), a),
            forall|j: int|
                0 <= j < i ==> answers_config(controllers[j].family, #[trigger] a[j]),
            forall|j: int|
                0 <= j < i ==> (#[trigger] out[j])@ == config_of(
                    controllers[j].device,
                    controllers[j].family,
                    a[j],
                ),
        decreases controllers.len() - i,
    {
        let ghost before = t.calls();
        let ghost olda = a;
        let cfg: ControllerConfig = read_controller(
            t,
            controllers[i].device,
            controllers[i].family,
        );
        proof {
            let c = controllers@[i as int];
            let one = choose|one: ConfigReplies|
                {
                    &&& answers_config(c.family, one)
                    &&& t.calls() == before + #[trigger] config_calls(c.device, c.family, one)
                    &&& cfg@ == config_of(c.device, c.family, one)
                };
            a = a.push(one);
            assert(controllers@.take(i + 1).drop_last() == controllers@.take(i as int));
            lemma_configs_calls(controllers@.take(i as int), olda, a);
            assert(t.calls() =~= start + configs_calls(controllers@.take(i + 1), a));
        }
        out.push(cfg);
        i += 1;
    }
    assert(controllers@.take(i as int) == controllers@);
    assert(config_views(out@) == configs_of(controllers@, a));
    assert(answers_configs(controllers@, a));
    out
}

/// Opens the endpoint once and reads each controller. It fails only when the
/// endpoint does not open, with that error.
pub fn read_device<T: Transport>(path: &str, controllers: &[Controller]) -> (r: Result<
    DeviceConfig,
    TransportError,
>)
    ensures
        match r {
            Ok(dc) => {
                &&& dc.hidraw@ == path@
                &&& exists|o: T, t: T, a: Seq<ConfigReplies>|
                    {
                        &&& #[trigger] is_session(path, o, t, configs_calls(controllers@, a))
                        &&& answers_configs(controllers@, a)
                        &&& config_views(dc.controllers@) == configs_of(controllers@, a)
                    }
            },
            Err(e) => call_ensures(T::open, (path,), Err::<T, TransportError>(e)),
        },
{
    let mut t: T = match T::open(path) {
        Ok(t) => t,
        Err(e) => {
            return Err(e);
        },
    };
    let ghost o = t;
    let read: Vec<ControllerConfig> = read_controllers(&mut t, controllers);
    let ghost done = t;
    let ghost a = choose|a: Seq<ConfigReplies>|
        {
            &&& answers_configs(controllers@, a)
            &&& t.calls() == o.calls() + #[trigger] configs_calls(controllers@, a)
            &&& config_views(read@) == configs_of(controllers@, a)
        };
    t.close();
    assert(is_session(path, o, done, configs_calls(controllers@, a)));
    Ok(DeviceConfig { hidraw: path.to_string(), controllers: read })
}

// --- Snapshot ---------------------------------------------------------------------------

/// The stored state of the light of the base; `None` where it was not read.
#[derive(Debug, Clone, Copy, Default, PartialEq, Eq, Structural)]
pub struct BaseLedState {
    /// Stored brightness; an unset one counts as zero.
    pub brightness: Option<u8>,
    /// Whether the light breathes.
    pub breathing: Option<bool>,
}

/// The state of the light that the two replies make.
pub open spec fn led_of(brightness: Option<[u8; 4]>, breathing: Option<[u8; 4]>) -> BaseLedState {
    BaseLedState {
        brightness: match brightness {
            Some(w) => Some(
                if w@[0] == 0xFF {
                    0
                } else {
                    w@[0]
                },
            ),
            None => None,
        },
        breathing: match breathing {
            Some(w) => Some(w@[0] == protocol::BREATHING_VALUE),
            None => None,
        },
    }
}

/// The state of the light from the two words that hold it.
pub fn decode_base_led(brightness: Option<[u8; 4]>, breathing: Option<[u8; 4]>) -> (r: BaseLedState)
    ensures
        r == led_of(brightness, breathing),
{
    BaseLedState {
        brightness: match brightness {
            Some(w) => Some(
                if w[0] == 0xFF {
                    0
                } else {
                    w[0]
                },
            ),
            None => None,
        },
        breathing: match breathing {
            Some(w) => Some(w[0] == protocol::BREATHING_VALUE),
            None => None,
        },
    }
}

/// Reads the stored state of the light of the base.
pub fn read_base_led<T: Transport>(t: &mut T, device: u8, family: u8) -> (r: BaseLedState)
    ensures
        exists|b: Option<[u8; 4]>, s: Option<[u8; 4]>|
            final(t).calls() == old(t).calls() + seq![
                Call::Read { device, family, offset: protocol::BASE_BACKLIGHT_OFFSET, reply: b },
                Call::Read { device, family, offset: protocol::BASE_BREATHING_OFFSET, reply: s },
            ] && r == #[trigger] led_of(b, s),
{
    let b: Option<[u8; 4]> = t.read_cfg(device, family, protocol::BASE_BACKLIGHT_OFFSET);
    let s: Option<[u8; 4]> = t.read_cfg(device, family, protocol::BASE_BREATHING_OFFSET);
    assert(t.calls() == old(t).calls() + seq![
        Call::Read { device, family, offset: protocol::BASE_BACKLIGHT_OFFSET, reply: b },
        Call::Read { device, family, offset: protocol::BASE_BREATHING_OFFSET, reply: s },
    ]);
    decode_base_led(b, s)
}

/// What can be calibrated on a controller, and what is stored of it.
#[derive(Debug, Clone, PartialEq, Eq)]
pub struct ControllerCalib {
    pub device: u8,
    pub family: u8,
    pub model: &'static str,
    /// Names of the axes that can be calibrated.
    pub axes: Vec<&'static str>,
    /// The words of the calibration region of a grip; empty for a base, where
    /// these offsets hold something else.
    pub region: Vec<(u32, Option<[u8; 4]>)>,
}

/// The calibration of a controller as its plain values.
#[verifier::ext_equal]
pub struct CalibView {
    pub device: u8,
    pub family: u8,
    pub model: &'static str,
    pub axes: Seq<&'static str>,
    pub region: Seq<(u32, Option<[u8; 4]>)>,
}

impl View for ControllerCalib {
    type V = CalibView;

    open spec fn view(&self) -> CalibView {
        CalibView {
            device: self.device,
            family: self.family,
            model: self.model,
            axes: self.axes@,
            region: self.region@,
        }
    }
}

/// The names of axis indexes; an index without a name is left out.
pub open spec fn axis_names(indexes: Seq<u8>) -> Seq<&'static str>
    decreases indexes.len(),
{
    if indexes.len() == 0 {
        Seq::empty()
    } else {
        let before = axis_names(indexes.drop_last());
        match protocol::axis_name_of(indexes.last()) {
            Some(n) => before.push(n),
            None => before,
        }
    }
}

/// Names of the axes that can be calibrated on a controller of the family.
pub fn calibrated_axis_names(family: u8) -> (r: Vec<&'static str>)
    ensures
        r@ == axis_names(protocol::calibrated_axes(family)),
{
    let indexes: Vec<u8> = protocol::calibration_indexes(family);
    let mut out: Vec<&'static str> = Vec::new();
    let mut i: usize = 0;
    while i < indexes.len()
        invariant
            i <= indexes.len(),
            out@ == axis_names(indexes@.take(i as int)),
        decreases indexes.len() - i,
    {
        assert(indexes@.take(i + 1).drop_last() == indexes@.take(i as int));
        assert(indexes@.take(i + 1).last() == indexes[i as int]);
        if let Some(n) = protocol::axis_index_name(indexes[i]) {
            out.push(n);
        }
        i += 1;
    }
    assert(indexes@.take(i as int) == indexes@);
    out
}

/// Words with their offsets.
pub open spec fn rows_from(start: int, replies: Seq<Option<[u8; 4]>>) -> Seq<
    (u32, Option<[u8; 4]>),
> {
    Seq::new(replies.len(), |i: int| ((start + 4 * i) as u32, replies[i]))
}

/// Reads `count` words from `start`, whether they answer or not.
fn read_rows<T: Transport>(t: &mut T, device: u8, family: u8, start: u32, count: usize) -> (r: Vec<
    (u32, Option<[u8; 4]>),
>)
    requires
        start + 4 * count <= u32::MAX,
    ensures
        exists|replies: Seq<Option<[u8; 4]>>|
            {
                &&& replies.len() == count
                &&& final(t).calls() == old(t).calls() + #[trigger] reads_from(
                    device,
                    family,
                    start as int,
                    replies,
                )
                &&& r@ == rows_from(start as int, replies)
            },
{
    let mut rows: Vec<(u32, Option<[u8; 4]>)> = Vec::new();
    let ghost mut replies: Seq<Option<[u8; 4]>> = Seq::empty();
    let ghost before = t.calls();
    let mut off: u32 = start;
    let mut i: usize = 0;
    assert(t.calls() == before + reads_from(device, family, start as int, replies));
    assert(rows@ == rows_from(start as int, replies));
    while i < count
        invariant
            i <= count,
            start + 4 * count <= u32::MAX,
            off == start + 4 * i,
            replies.len() == i,
            before == old(t).calls(),
            t.calls() == before + reads_from(device, family, start as int, replies),
            rows@ == rows_from(start as int, replies),
        decreases count - i,
    {
        let reply: Option<[u8; 4]> = t.read_cfg(device, family, off);
        proof {
            let next = replies.push(reply);
            assert(reads_from(device, family, start as int, next) == reads_from(
                device,
                family,
                start as int,
                replies,
            ).push(Call::Read { device, family, offset: off, reply }));
            assert(rows_from(start as int, next) == rows_from(start as int, replies).push(
                (off, reply),
            ));
            replies = next;
        }
        rows.push((off, reply));
        off += 4;
        i += 1;
    }
    rows
}

/// The number of words of the calibration region.
pub const CALIB_WORDS: usize = 13;

/// Reads the words of the calibration region. Only reads.
pub fn read_calib_region<T: Transport>(t: &mut T, device: u8, family: u8) -> (r: Vec<
    (u32, Option<[u8; 4]>),
>)
    ensures
        exists|replies: Seq<Option<[u8; 4]>>|
            {
                &&& replies.len() == CALIB_WORDS
                &&& final(t).calls() == old(t).calls() + #[trigger] reads_from(
                    device,
                    family,
                    protocol::CALIB_REGION_START as int,
                    replies,
                )
                &&& r@ == rows_from(protocol::CALIB_REGION_START as int, replies)
            },
{
    read_rows(t, device, family, protocol::CALIB_REGION_START, CALIB_WORDS)
}

/// The number of words that differ between two readings of a region.
pub open spec fn changed_words(
    before: Seq<(u32, Option<[u8; 4]>)>,
    after: Seq<(u32, Option<[u8; 4]>)>,
) -> nat
    decreases before.len(),
{
    if before.len() == 0 || after.len() == 0 {
        0
    } else {
        changed_words(before.skip(1), after.skip(1)) + if before[0].1 != after[0].1 {
            1nat
        } else {
            0
        }
    }
}

pub(crate) fn word_eq(a: &[u8; 4], b: &[u8; 4]) -> (r: bool)
    ensures
        r == (a == b),
        r == (a@ == b@),
{
    if a[0] == b[0] && a[1] == b[1] && a[2] == b[2] && a[3] == b[3] {
        assert(a@ == b@);
        assert(a =~= b);
        true
    } else {
        false
    }
}

fn reply_eq(a: &Option<[u8; 4]>, b: &Option<[u8; 4]>) -> (r: bool)
    ensures
        r == (a == b),
{
    match (a, b) {
        (Some(x), Some(y)) => word_eq(x, y),
        (None, None) => true,
        _ => false,
    }
}

/// Counts the words that differ between two readings of a region.
pub fn count_changed_words(
    before: &Vec<(u32, Option<[u8; 4]>)>,
    after: &Vec<(u32, Option<[u8; 4]>)>,
) -> (r: usize)
    ensures
        r == changed_words(before@, after@),
{
    let mut n: usize = 0;
    let mut i: usize = if before.len() < after.len() {
        before.len()
    } else {
        after.len()
    };
    assert(changed_words(before@.skip(i as int), after@.skip(i as int)) == 0);
    while i > 0
        invariant
            i <= before.len(),
            i <= after.len(),
            n <= before.len() - i,
            n == changed_words(before@.skip(i as int), after@.skip(i as int)),
        decreases i,
    {
        proof {
            assert(before@.skip(i - 1).skip(1) == before@.skip(i as int));
            assert(after@.skip(i - 1).skip(1) == after@.skip(i as int));
            assert(before@.skip(i - 1)[0] == before@[i - 1]);
            assert(after@.skip(i - 1)[0] == after@[i - 1]);
        }
        if !reply_eq(&before[i - 1].1, &after[i - 1].1) {
            n += 1;
        }
        i -= 1;
    }
    assert(before@.skip(0) == before@);
    assert(after@.skip(0) == after@);
    n
}

/// All that is shown of a device, read in one session.
#[derive(Debug, Clone, Default, PartialEq, Eq)]
pub struct DeviceSnapshot {
    pub config: DeviceConfig,
    /// State of the light, when there is a base.
    pub base_led: Option<BaseLedState>,
    /// One entry for each controller.
    pub calib: Vec<ControllerCalib>,
    /// The 4x32 mode of the base.
    pub base_4x32: Option<bool>,
    /// Deadzone of the X axis of the base.
    pub deadzone_x: Option<u32>,
    /// Deadzone of the Y axis of the base.
    pub deadzone_y: Option<u32>,
    /// Deadzone of the twist of the grip.
    pub twist_deadzone: Option<u8>,
}

/// What a controller replies when all of it is read: the configuration, then the
/// words of a base or those of a grip.
pub struct PartReplies {
    pub config: ConfigReplies,
    /// Base: brightness, state of the light, 4x32 mode, deadzones of X and Y.
    /// Grip: deadzone of the twist, then the words of the calibration region.
    pub words: Seq<Option<[u8; 4]>>,
}

/// The offsets that are read after the configuration.
pub open spec fn extra_offsets(family: u8) -> Seq<u32> {
    if family == protocol::FAMILY_BASE {
        seq![
            protocol::BASE_BACKLIGHT_OFFSET,
            protocol::BASE_BREATHING_OFFSET,
            protocol::BASE_4X32_OFFSET,
            protocol::BASE_DEADZONE_X_OFFSET,
            protocol::BASE_DEADZONE_Y_OFFSET,
        ]
    } else if family == protocol::FAMILY_GRIP {
        seq![protocol::GRIP_DEADZONE_TWIST_OFFSET] + protocol::calib_offsets()
    } else {
        Seq::empty()
    }
}

/// The replies are those of one reading of the whole controller.
pub open spec fn answers_part(family: u8, a: PartReplies) -> bool {
    &&& answers_config(family, a.config)
    &&& a.words.len() == extra_offsets(family).len()
}

/// The calls of one reading of the whole controller: reads and nothing else.
pub open spec fn part_calls(device: u8, family: u8, a: PartReplies) -> Seq<Call> {
    config_calls(device, family, a.config) + Seq::new(
        a.words.len(),
        |i: int|
            Call::Read { device, family, offset: extra_offsets(family)[i], reply: a.words[i] },
    )
}

/// The calibration that the replies of a controller make.
pub open spec fn calib_of(c: Controller, a: PartReplies) -> CalibView {
    CalibView {
        device: c.device,
        family: c.family,
        model: protocol::model_or(c.device, c.family, "?"),
        axes: axis_names(protocol::calibrated_axes(c.family)),
        region: if c.family == protocol::FAMILY_GRIP {
            rows_from(protocol::CALIB_REGION_START as int, a.words.skip(1))
        } else {
            Seq::empty()
        },
    }
}

/// The last controller of the family.
pub open spec fn last_of_family(controllers: Seq<Controller>, family: u8) -> Option<int>
    decreases controllers.len(),
{
    if controllers.len() == 0 {
        None
    } else if controllers.last().family == family {
        Some(controllers.len() - 1)
    } else {
        last_of_family(controllers.drop_last(), family)
    }
}

/// The number that a reply holds.
pub open spec fn reply_number(reply: Option<[u8; 4]>) -> Option<u32> {
    match reply {
        Some(w) => Some(le32(w@) as u32),
        None => None,
    }
}

/// One byte of a reply.
pub open spec fn reply_byte(reply: Option<[u8; 4]>, i: int) -> Option<u8> {
    match reply {
        Some(w) => Some(w@[i]),
        None => None,
    }
}

/// `s` is what the replies of the controllers make: of several bases, or several
/// grips, the last one counts.
pub open spec fn snapshot_of(
    s: DeviceSnapshot,
    path: Seq<char>,
    controllers: Seq<Controller>,
    a: Seq<PartReplies>,
) -> bool {
    &&& s.config.hidraw@ == path
    &&& config_views(s.config.controllers@) == Seq::new(
        controllers.len(),
        |i: int| config_of(controllers[i].device, controllers[i].family, a[i].config),
    )
    &&& s.calib.len() == controllers.len()
    &&& forall|i: int|
        0 <= i < controllers.len() ==> (#[trigger] s.calib[i])@ == calib_of(controllers[i], a[i])
    &&& match last_of_family(controllers, protocol::FAMILY_BASE) {
        Some(b) => {
            let w = a[b].words;
            &&& s.base_led == Some(led_of(w[0], w[1]))
            &&& s.base_4x32 == match w[2] {
                Some(x) => Some(x@[0] == 1),
                None => None,
            }
            &&& s.deadzone_x == reply_number(w[3])
            &&& s.deadzone_y == reply_number(w[4])
        },
        None => s.base_led is None && s.base_4x32 is None && s.deadzone_x is None && s.deadzone_y is None,
    }
    &&& s.twist_deadzone == match last_of_family(controllers, protocol::FAMILY_GRIP) {
        Some(g) => reply_byte(a[g].words[0], 2),
        None => None,
    }
}

/// The replies are those of one reading of each whole controller.
pub open spec fn answers_parts(controllers: Seq<Controller>, a: Seq<PartReplies>) -> bool {
    &&& a.len() == controllers.len()
    &&& forall|i: int| 0 <= i < a.len() ==> answers_part(controllers[i].family, #[trigger] a[i])
}

/// The words of a controller, read after its configuration.
struct Part {
    config: ControllerConfig,
    words: Vec<Option<[u8; 4]>>,
}

fn read_offsets(family: u8) -> (r: Vec<u32>)
    ensures
        r@ == extra_offsets(family),
{
    let mut out: Vec<u32> = Vec::new();
    if family == protocol::FAMILY_BASE {
        out.push(protocol::BASE_BACKLIGHT_OFFSET);
        out.push(protocol::BASE_BREATHING_OFFSET);
        out.push(protocol::BASE_4X32_OFFSET);
        out.push(protocol::BASE_DEADZONE_X_OFFSET);
        out.push(protocol::BASE_DEADZONE_Y_OFFSET);
    } else if family == protocol::FAMILY_GRIP {
        out.push(protocol::GRIP_DEADZONE_TWIST_OFFSET);
        let mut region: Vec<u32> = protocol::calib_region_offsets();
        out.append(&mut region);
    }
    assert(out@ == extra_offsets(family));
    out
}

fn read_part<T: Transport>(t: &mut T, c: Controller) -> (r: Part)
    ensures
        exists|a: PartReplies|
            {
                &&& answers_part(c.family, a)
                &&& final(t).calls() == old(t).calls() + #[trigger] part_calls(c.device, c.family, a)
                &&& r.config@ == config_of(c.device, c.family, a.config)
                &&& r.words@ == a.words
            },
{
    let ghost start = t.calls();
    let config: ControllerConfig = read_controller(t, c.device, c.family);
    let ghost ca = choose|ca: ConfigReplies|
        {
            &&& answers_config(c.family, ca)
            &&& t.calls() == start + #[trigger] config_calls(c.device, c.family, ca)
            &&& config@ == config_of(c.device, c.family, ca)
        };
    let offsets: Vec<u32> = read_offsets(c.family);
    let mut words: Vec<Option<[u8; 4]>> = Vec::new();
    let ghost mut a = PartReplies { config: ca, words: Seq::empty() };
    let mut i: usize = 0;
    assert(t.calls() == start + part_calls(c.device, c.family, a));
    while i < offsets.len()
        invariant
            i <= offsets.len(),
            offsets@ == extra_offsets(c.family),
            words.len() == i,
            a.config == ca,
            a.words == words@,
            start == old(t).calls(),
            t.calls() == start + part_calls(c.device, c.family, a),
        decreases offsets.len() - i,
    {
        let reply: Option<[u8; 4]> = t.read_cfg(c.device, c.family, offsets[i]);
        words.push(reply);
        proof {
            let next = PartReplies { config: ca, words: words@ };
            assert(part_calls(c.device, c.family, next) == part_calls(c.device, c.family, a).push(
                Call::Read {
                    device: c.device,
                    family: c.family,
                    offset: offsets[i as int],
                    reply,
                },
            ));
            a = next;
        }
        i += 1;
    }
    assert(answers_part(c.family, a));
    Part { config, words }
}

fn word_number(reply: &Option<[u8; 4]>) -> (r: Option<u32>)
    ensures
        r == reply_number(*reply),
{
    match reply {
        Some(w) => Some(
            w[0] as u32 + 256 * w[1] as u32 + 65536 * w[2] as u32 + 16777216 * w[3] as u32,
        ),
        None => None,
    }
}

/// The calls of reading all of the controllers, one after the other.
pub open spec fn parts_calls(controllers: Seq<Controller>, a: Seq<PartReplies>) -> Seq<Call>
    decreases controllers.len(),
{
    if controllers.len() == 0 {
        Seq::empty()
    } else {
        let c = controllers.last();
        parts_calls(controllers.drop_last(), a) + part_calls(
            c.device,
            c.family,
            a[controllers.len() - 1],
        )
    }
}

proof fn lemma_parts_calls(controllers: Seq<Controller>, a: Seq<PartReplies>, b: Seq<PartReplies>)
    requires
        controllers.len() <= a.len() <= b.len(),
        forall|i: int| 0 <= i < controllers.len() ==> a[i] == b[i],
    ensures
        parts_calls(controllers, a) == parts_calls(controllers, b),
    decreases controllers.len(),
{
    if controllers.len() > 0 {
        lemma_parts_calls(controllers.drop_last(), a, b);
    }
}

/// Opens the endpoint once and reads all that is shown of it. It fails only when
/// the endpoint does not open, with that error.
pub fn read_snapshot<T: Transport>(path: &str, controllers: &[Controller]) -> (r: Result<
    DeviceSnapshot,
    TransportError,
>)
    ensures
        match r {
            Ok(s) => exists|o: T, t: T, a: Seq<PartReplies>|
                {
                    &&& #[trigger] is_session(path, o, t, parts_calls(controllers@, a))
                    &&& answers_parts(controllers@, a)
                    &&& snapshot_of(s, path@, controllers@, a)
                },
            Err(e) => call_ensures(T::open, (path,), Err::<T, TransportError>(e)),
        },
{
    let mut t: T = match T::open(path) {
        Ok(t) => t,
        Err(e) => {
            return Err(e);
        },
    };
    let ghost o = t;
    let out: DeviceSnapshot = take_snapshot(&mut t, path, controllers);
    let ghost done = t;
    let ghost a = choose|a: Seq<PartReplies>|
        {
            &&& answers_parts(controllers@, a)
            &&& t.calls() == o.calls() + #[trigger] parts_calls(controllers@, a)
            &&& snapshot_of(out, path@, controllers@, a)
        };
    t.close();
    assert(is_session(path, o, done, parts_calls(controllers@, a)));
    Ok(out)
}

/// Reads all that is shown of an open endpoint. Only reads.
pub fn take_snapshot<T: Transport>(t: &mut T, path: &str, controllers: &[Controller]) -> (r:
    DeviceSnapshot)
    ensures
        exists|a: Seq<PartReplies>|
            {
                &&& answers_parts(controllers@, a)
                &&& final(t).calls() == old(t).calls() + #[trigger] parts_calls(controllers@, a)
                &&& snapshot_of(r, path@, controllers@, a)
            },
{
    let ghost start = t.calls();
    let mut out: DeviceSnapshot = DeviceSnapshot {
        config: DeviceConfig { hidraw: path.to_string(), controllers: Vec::new() },
        base_led: None,
        calib: Vec::new(),
        base_4x32: None,
        deadzone_x: None,
        deadzone_y: None,
        twist_deadzone: None,
    };
    let ghost mut a: Seq<PartReplies> = Seq::empty();
    let mut i: usize = 0;
    assert(config_views(out.config.controllers@) == Seq::new(
        controllers@.take(0).len(),
        |j: int|
            config_of(
                controllers@.take(0)[j].device,
                controllers@.take(0)[j].family,
                a[j].config,
            ),
    ));
    assert(snapshot_of(out, path@, controllers@.take(0), a));
    assert(t.calls() =~= start + parts_calls(controllers@.take(0), a));
    while i < controllers.len()
        invariant
            i <= controllers.len(),
            t.calls() == start + parts_calls(controllers@.take(i as int), a),
            answers_parts(controllers@.take(i as int), a),
            snapshot_of(out, path@, controllers@.take(i as int), a),
        decreases controllers.len() - i,
    {
        let c: Controller = controllers[i];
        let ghost calls = t.calls();
        let ghost was = out;
        let ghost done = controllers@.take(i as int);
        let ghost olda = a;
        let part: Part = read_part(t, c);
        proof {
            let one = choose|one: PartReplies|
                {
                    &&& answers_part(c.family, one)
                    &&& t.calls() == calls + #[trigger] part_calls(c.device, c.family, one)
                    &&& part.config@ == config_of(c.device, c.family, one.config)
                    &&& part.words@ == one.words
                };
            a = a.push(one);
            assert(controllers@.take(i + 1) == done.push(c));
            assert(done.push(c).drop_last() == done);
            lemma_parts_calls(done, olda, a);
            assert(t.calls() =~= start + parts_calls(done.push(c), a));
            assert(c.family == protocol::FAMILY_BASE ==> part.words@.len() == 5);
            assert(c.family == protocol::FAMILY_GRIP ==> part.words@.len() == 14);
        }
        if c.family == protocol::FAMILY_BASE {
            out.base_led = Some(decode_base_led(part.words[0], part.words[1]));
            out.base_4x32 = match part.words[2] {
                Some(w) => Some(w[0] == 1),
                None => None,
            };
            out.deadzone_x = word_number(&part.words[3]);
            out.deadzone_y = word_number(&part.words[4]);
        }
        let mut region: Vec<(u32, Option<[u8; 4]>)> = Vec::new();
        if c.family == protocol::FAMILY_GRIP {
            out.twist_deadzone = match part.words[0] {
                Some(w) => Some(w[2]),
                None => None,
            };
            let mut k: usize = 1;
            let ghost tail = part.words@.skip(1);
            while k < part.words.len()
                invariant
                    1 <= k <= part.words.len(),
                    part.words.len() == 14,
                    tail == part.words@.skip(1),
                    region@ == rows_from(protocol::CALIB_REGION_START as int, tail.take(k - 1)),
                decreases part.words.len() - k,
            {
                region.push((protocol::CALIB_REGION_START + 4 * (k as u32 - 1), part.words[k]));
                assert(region@ == rows_from(protocol::CALIB_REGION_START as int, tail.take(k as int)));
                k += 1;
            }
            assert(tail.take(13) == tail);
        }
        let calib: ControllerCalib = ControllerCalib {
            device: c.device,
            family: c.family,
            model: c.model(),
            axes: calibrated_axis_names(c.family),
            region,
        };
        assert(calib@ == calib_of(c, a[i as int]));
        out.calib.push(calib);
        out.config.controllers.push(part.config);
        proof {
            let now = controllers@.take(i + 1);
            assert(config_views(out.config.controllers@) == config_views(
                was.config.controllers@,
            ).push(part.config@));
            assert(config_views(out.config.controllers@) == Seq::new(
                now.len(),
                |j: int| config_of(now[j].device, now[j].family, a[j].config),
            )) by {
                assert forall|j: int| 0 <= j < now.len() implies config_views(
                    out.config.controllers@,
                )[j] == config_of(now[j].device, now[j].family, a[j].config) by {
                    if j < i {
                        assert(now[j] == done[j]);
                        assert(a[j] == olda[j]);
                        assert(config_views(was.config.controllers@)[j] == config_of(
                            done[j].device,
                            done[j].family,
                            olda[j].config,
                        ));
                    }
                }
            }
            assert forall|j: int| 0 <= j < now.len() implies (#[trigger] out.calib[j])@ == calib_of(
                now[j],
                a[j],
            ) by {
                if j < i {
                    assert(out.calib[j] == was.calib[j]);
                }
            }
            lemma_last_of_family(done, protocol::FAMILY_BASE);
            lemma_last_of_family(done, protocol::FAMILY_GRIP);
        }
        i += 1;
    }
    assert(controllers@.take(i as int) == controllers@);
    out
}

proof fn lemma_last_of_family(controllers: Seq<Controller>, family: u8)
    ensures
        match last_of_family(controllers, family) {
            Some(i) => 0 <= i < controllers.len(),
            None => true,
        },
    decreases controllers.len(),
{
    if controllers.len() > 0 && controllers.last().family != family {
        lemma_last_of_family(controllers.drop_last(), family);
    }
}

/// Reading a joystick only reads: no call of it writes or restarts.
pub proof fn law_reading_only_reads(controllers: Seq<Controller>, a: Seq<PartReplies>, k: int)
    requires
        answers_parts(controllers, a),
        0 <= k < parts_calls(controllers, a).len(),
    ensures
        parts_calls(controllers, a)[k] is Read,
        !changes_device(parts_calls(controllers, a)[k]),
    decreases controllers.len(),
{
    let before = controllers.drop_last();
    let n = parts_calls(before, a).len();
    let shorter = a.drop_last();
    lemma_parts_calls(before, shorter, a);
    if k < n {
        assert(answers_parts(before, shorter)) by {
            assert forall|i: int| 0 <= i < shorter.len() implies answers_part(
                before[i].family,
                #[trigger] shorter[i],
            ) by {
                assert(answers_part(controllers[i].family, a[i]));
            }
        }
        law_reading_only_reads(before, shorter, k);
    } else {
        let c = controllers.last();
        assert(parts_calls(controllers, a)[k] == part_calls(
            c.device,
            c.family,
            a[controllers.len() - 1],
        )[k - n]);
    }
}

// --- Backup ------------------------------------------------------------------------------

/// The directory of the backups, below the home of the user.
pub fn backups_dir(home: &str) -> (r: String)
    ensures
        r@ == text::below(home@, ".local/share/winctrl/backups"@),
{
    text::path_below(home, ".local/share/winctrl/backups")
}

/// The directories of the data of the user: the former one and the one in use.
pub fn data_dirs(home: &str) -> (r: (String, String))
    ensures
        r.0@ == text::below(home@, ".local/share/winwing"@),
        r.1@ == text::below(home@, ".local/share/winctrl"@),
{
    (
        text::path_below(home, ".local/share/winwing"),
        text::path_below(home, ".local/share/winctrl"),
    )
}

/// The renaming by which the data of the user are taken over: the former directory
/// takes the place of the one in use when it is there and the other is not.
pub fn migrate_legacy_data_dir(home: Option<&str>, old_is_dir: bool, new_exists: bool) -> (r: Option<
    (String, String),
>)
    ensures
        r is Some <==> home is Some && old_is_dir && !new_exists,
        r is Some ==> (r->0).0@ == text::below(home->0@, ".local/share/winwing"@) && (r->0).1@
            == text::below(home->0@, ".local/share/winctrl"@),
{
    match home {
        Some(h) => if old_is_dir && !new_exists {
            Some(data_dirs(h))
        } else {
            None
        },
        None => None,
    }
}

/// The number of words of a backup: 0x000 to 0x1dc.
pub const BACKUP_WORDS: usize = 120;

/// A backup of a controller, to be stored as a file.
#[derive(Debug, Clone)]
pub struct BackupFile {
    pub name: String,
    pub content: String,
}

/// The name of the file of a backup.
pub open spec fn backup_name(device: u8, family: u8, ts: Seq<char>) -> Seq<char> {
    protocol::model_or(device, family, "ctrl")@ + "-"@ + text::hex_fill(family as nat, 2)
        + text::hex_fill(device as nat, 2) + "-"@ + ts + ".txt"@
}

/// The reply to a read.
pub open spec fn reply_of(c: Call) -> Option<[u8; 4]> {
    match c {
        Call::Read { reply, .. } => reply,
        _ => None,
    }
}

/// The call reads the word at `offset`.
pub open spec fn reads_word(c: Call, device: u8, family: u8, offset: u32) -> bool {
    c == (Call::Read { device, family, offset, reply: reply_of(c) })
}

/// The calls read every word of a backup, in order.
pub open spec fn reads_backup(device: u8, family: u8, calls: Seq<Call>) -> bool {
    &&& calls.len() == BACKUP_WORDS
    &&& forall|i: int|
        0 <= i < calls.len() ==> reads_word(#[trigger] calls[i], device, family, (4 * i) as u32)
}

/// The text of the backup that the calls read.
pub open spec fn backup_text(calls: Seq<Call>) -> Seq<char> {
    dump_text(Seq::new(calls.len(), |i: int| ((4 * i) as u32, reply_of(calls[i]))))
}

/// Name of the file of a backup: model, address and time.
pub fn backup_file_name(device: u8, family: u8, ts: &str) -> (r: String)
    ensures
        r@ == backup_name(device, family, ts@),
{
    let model: &'static str = match protocol::controller_name(device, family) {
        Some(m) => m,
        None => "ctrl",
    };
    let mut out: String = model.to_string();
    out.append("-");
    out.append(text::hex_text(family as u64, 2).as_str());
    out.append(text::hex_text(device as u64, 2).as_str());
    out.append("-");
    out.append(ts);
    out.append(".txt");
    out
}

/// Reads the configuration of a controller (0x000 to 0x1dc) for a backup. `ts` is
/// the time that the caller gives.
pub fn backup_controller<T: Transport>(t: &mut T, device: u8, family: u8, ts: &str) -> (r:
    BackupFile)
    ensures
        ({
            let made = final(t).calls().skip(old(t).calls().len() as int);
            &&& final(t).calls() == old(t).calls() + made
            &&& reads_backup(device, family, made)
            &&& r.name@ == backup_name(device, family, ts@)
            &&& r.content@ == backup_text(made)
        }),
{
    let ghost start = t.calls();
    let rows: Vec<(u32, Option<[u8; 4]>)> = read_rows(t, device, family, 0, BACKUP_WORDS);
    proof {
        let replies = choose|replies: Seq<Option<[u8; 4]>>|
            {
                &&& replies.len() == BACKUP_WORDS
                &&& t.calls() == start + #[trigger] reads_from(device, family, 0, replies)
                &&& rows@ == rows_from(0, replies)
            };
        let made = t.calls().skip(start.len() as int);
        assert(made == reads_from(device, family, 0, replies));
        assert(rows@ == Seq::new(made.len(), |i: int| ((4 * i) as u32, reply_of(made[i]))));
    }
    BackupFile { name: backup_file_name(device, family, ts), content: format_dump(&rows) }
}

// --- Guarded writes ------------------------------------------------------------------------

/// What is left to do of a write for which a backup was asked: the backup is to
/// be stored, then [`finish_write`] sends the write.
#[derive(Debug, Clone)]
pub struct PendingWrite {
    pub device: u8,
    pub family: u8,
    /// The controller is to be restarted after the write.
    pub restart: bool,
    pub backup: BackupFile,
}

/// What became of a write, or what it would be.
#[derive(Debug, Clone)]
pub struct WriteOutcome {
    pub offset: u32,
    pub old: Option<[u8; 4]>,
    pub new: [u8; 4],
    /// The frame of the write.
    pub frame: Frame,
    /// The bytes differ from those that are there.
    pub changes: bool,
    pub dry_run: bool,
    /// The write was sent.
    pub emitted: bool,
    /// The write was echoed.
    pub echo_ok: bool,
    pub readback: Option<[u8; 4]>,
    /// What was read back is what was written, or there was nothing to write.
    pub verified: bool,
    /// The bytes were there already; nothing was sent.
    pub skipped: bool,
    /// Where the backup was stored.
    pub backup: Option<String>,
    /// The write waits for its backup.
    pub pending: Option<PendingWrite>,
}

/// The bytes that a write changes.
#[derive(Debug, Clone, Copy)]
pub enum Change {
    /// One byte of the word; the others keep their values.
    Byte { index: usize, value: u8 },
    /// The whole word.
    Word { data: [u8; 4] },
}

impl Change {
    /// The index of a byte is within the word.
    pub open spec fn valid(self) -> bool {
        match self {
            Change::Byte { index, .. } => index < 4,
            Change::Word { .. } => true,
        }
    }

    /// The word after the change.
    pub open spec fn applied(self, word: Seq<u8>) -> Seq<u8> {
        match self {
            Change::Byte { index, value } => word.update(index as int, value),
            Change::Word { data } => data@,
        }
    }

    fn apply(&self, word: [u8; 4]) -> (r: [u8; 4])
        requires
            self.valid(),
        ensures
            r@ == self.applied(word@),
    {
        match self {
            Change::Byte { index, value } => {
                let mut w: [u8; 4] = word;
                w[*index] = *value;
                w
            },
            Change::Word { data } => *data,
        }
    }
}

/// Where and how a write is to be made.
pub struct WriteOrder {
    pub device: u8,
    pub family: u8,
    pub offset: u32,
    pub change: Change,
    /// Restart the controller after a write that was sent.
    pub restart: bool,
    /// Send nothing.
    pub dry_run: bool,
}

/// The frame that writes the bytes.
pub open spec fn write_frame_of(device: u8, family: u8, offset: u32, data: Seq<u8>) -> Seq<u8> {
    protocol::frame_bytes(
        device,
        family,
        protocol::OP_WRITE_CFG_DATA,
        protocol::offset_le(offset) + data,
    )
}

/// The frame that writes four bytes at `offset`.
pub fn write_frame(device: u8, family: u8, offset: u32, data: [u8; 4]) -> (r: Frame)
    ensures
        r@ == write_frame_of(device, family, offset, data@),
{
    let o: [u8; 3] = protocol::offset_bytes(offset);
    let args: [u8; 7] = [o[0], o[1], o[2], data[0], data[1], data[2], data[3]];
    assert(args@ == protocol::offset_le(offset) + data@);
    protocol::build_frame(device, family, protocol::OP_WRITE_CFG_DATA, args.as_slice())
}

/// The outcome describes the write of `new` over `cur`.
pub open spec fn describes(out: WriteOutcome, o: WriteOrder, cur: [u8; 4], new: Seq<u8>) -> bool {
    &&& out.offset == o.offset
    &&& out.old == Some(cur)
    &&& out.new@ == new
    &&& out.frame@ == write_frame_of(o.device, o.family, o.offset, new)
    &&& out.changes == (new != cur@)
    &&& out.dry_run == o.dry_run
}

/// Nothing was sent.
pub open spec fn not_sent(out: WriteOutcome) -> bool {
    !out.emitted && !out.echo_ok && out.readback is None && out.backup is None
}

/// Both outcomes describe the same write.
pub open spec fn same_write(a: WriteOutcome, b: WriteOutcome) -> bool {
    &&& a.offset == b.offset
    &&& a.old == b.old
    &&& a.new == b.new
    &&& a.frame == b.frame
    &&& a.changes == b.changes
    &&& a.dry_run == b.dry_run
}

/// The text of the failure to read a word.
pub open spec fn unreadable(offset: u32) -> Seq<char> {
    "lecture de "@ + text::hex_prefixed(offset as nat, 2) + " impossible (pas d'écho)"@
}

/// The calls and the result of sending a planned write: the write, never with
/// leave to touch the identity; when the transport accepts it, the reading back;
/// then the restart, when it is asked for.
pub open spec fn sends(
    plan: WriteOutcome,
    device: u8,
    family: u8,
    restart: bool,
    backup: Option<Seq<char>>,
    calls: Seq<Call>,
    r: Result<WriteOutcome, TransportError>,
) -> bool {
    &&& calls.len() >= 1
    &&& match calls[0] {
        Call::Write { device: d, family: f, offset, data, allow_identity, reply } => {
            &&& d == device && f == family && offset == plan.offset
            &&& data == plan.new
            &&& !allow_identity
            &&& keeps_guard(offset, allow_identity, reply)
            &&& match reply {
                Err(e) => calls.len() == 1 && r == Err::<WriteOutcome, TransportError>(e),
                Ok(sent) => {
                    &&& calls.len() == (if restart {
                        3int
                    } else {
                        2
                    })
                    &&& reads_word(calls[1], device, family, plan.offset)
                    &&& restart ==> calls[2] == (Call::Restart { device, family })
                    &&& r matches Ok(out) && {
                        &&& same_write(out, plan)
                        &&& out.emitted
                        &&& out.echo_ok == sent.1 is Some
                        &&& out.readback == reply_of(calls[1])
                        &&& out.verified == (reply_of(calls[1]) == Some(plan.new))
                        &&& !out.skipped
                        &&& opt_view(out.backup) == backup
                        &&& out.pending is None
                    }
                },
            }
        },
        _ => false,
    }
}

/// The characters of a text that may be missing.
pub open spec fn opt_view(s: Option<String>) -> Option<Seq<char>> {
    match s {
        Some(x) => Some(x@),
        None => None,
    }
}

/// The characters of a text that may be missing.
pub open spec fn opt_str(s: Option<&str>) -> Option<Seq<char>> {
    match s {
        Some(x) => Some(x@),
        None => None,
    }
}

/// The calls and the result of a write order. The word is read first. A dry run,
/// or a word that is what it should be, ends there. Otherwise the write is sent,
/// or, when a backup is asked for with `ts`, the backup is read and the write
/// waits for it.
pub open spec fn carries_out(
    o: WriteOrder,
    ts: Option<Seq<char>>,
    calls: Seq<Call>,
    r: Result<WriteOutcome, TransportError>,
) -> bool {
    &&& calls.len() >= 1
    &&& reads_word(calls[0], o.device, o.family, o.offset)
    &&& match reply_of(calls[0]) {
        None => {
            &&& calls.len() == 1
            &&& r matches Err(TransportError::Io(m)) && m@ == unreadable(o.offset)
        },
        Some(cur) => {
            let new = o.change.applied(cur@);
            if o.dry_run || new == cur@ {
                &&& calls.len() == 1
                &&& r matches Ok(out) && {
                    &&& describes(out, o, cur, new)
                    &&& not_sent(out)
                    &&& out.verified == (new == cur@)
                    &&& out.skipped == !o.dry_run
                    &&& out.pending is None
                }
            } else {
                match ts {
                    None => exists|plan: WriteOutcome|
                        describes(plan, o, cur, new) && #[trigger] sends(
                            plan,
                            o.device,
                            o.family,
                            o.restart,
                            None,
                            calls.skip(1),
                            r,
                        ),
                    Some(time) => {
                        &&& reads_backup(o.device, o.family, calls.skip(1))
                        &&& r matches Ok(out) && {
                            &&& describes(out, o, cur, new)
                            &&& not_sent(out)
                            &&& !out.verified
                            &&& !out.skipped
                            &&& out.pending matches Some(p) && {
                                &&& p.device == o.device && p.family == o.family
                                &&& p.restart == o.restart
                                &&& p.backup.name@ == backup_name(o.device, o.family, time)
                                &&& p.backup.content@ == backup_text(calls.skip(1))
                            }
                        }
                    },
                }
            }
        },
    }
}

/// The calls that a function made.
pub open spec fn made(before: Seq<Call>, after: Seq<Call>) -> Seq<Call> {
    after.skip(before.len() as int)
}

/// The calls of before are still there.
pub open spec fn extends(before: Seq<Call>, after: Seq<Call>) -> bool {
    before.len() <= after.len() && after.take(before.len() as int) =~= before
}

fn send_write<T: Transport>(
    t: &mut T,
    device: u8,
    family: u8,
    restart: bool,
    plan: WriteOutcome,
    saved: Option<String>,
) -> (r: Result<WriteOutcome, TransportError>)
    ensures
        extends(old(t).calls(), final(t).calls()),
        sends(
            plan,
            device,
            family,
            restart,
            opt_view(saved),
            made(old(t).calls(), final(t).calls()),
            r,
        ),
{
    let ghost start = t.calls();
    let ghost backup = opt_view(saved);
    let mut out: WriteOutcome = plan;
    out.backup = saved;
    out.pending = None;
    let res: Result<(Frame, Option<Vec<u8>>), TransportError> = t.write_cfg(
        device,
        family,
        out.offset,
        out.new,
        false,
    );
    let ghost wrote = Call::Write {
        device,
        family,
        offset: out.offset,
        data: out.new,
        allow_identity: false,
        reply: res,
    };
    assert(made(start, t.calls()) == seq![wrote]);
    let echo: Option<Vec<u8>> = match res {
        Err(e) => {
            let r: Result<WriteOutcome, TransportError> = Err(e);
            assert(sends(plan, device, family, restart, backup, seq![wrote], r));
            return r;
        },
        Ok(sent) => sent.1,
    };
    out.emitted = true;
    out.echo_ok = echo.is_some();
    let rb: Option<[u8; 4]> = t.read_cfg(device, family, out.offset);
    let ghost back = Call::Read { device, family, offset: out.offset, reply: rb };
    assert(made(start, t.calls()) == seq![wrote, back]);
    out.readback = rb;
    out.verified = match rb {
        Some(w) => word_eq(&w, &out.new),
        None => false,
    };
    out.skipped = false;
    if restart {
        let _ = t.restart(device, family);
        assert(made(start, t.calls()) == seq![wrote, back, Call::Restart { device, family }]);
    }
    assert(extends(start, t.calls()));
    Ok(out)
}

fn unreadable_text(offset: u32) -> (r: String)
    ensures
        r@ == unreadable(offset),
{
    let mut out: String = "lecture de ".to_string();
    out.append(text::hex_prefixed_text(offset as u64, 2).as_str());
    out.append(" impossible (pas d'écho)");
    out
}

/// Carries out a write order.
fn write_word<T: Transport>(t: &mut T, o: &WriteOrder, ts: Option<&str>) -> (r: Result<
    WriteOutcome,
    TransportError,
>)
    requires
        o.change.valid(),
    ensures
        extends(old(t).calls(), final(t).calls()),
        carries_out(
            *o,
            opt_str(ts),
            made(old(t).calls(), final(t).calls()),
            r,
        ),
{
    let ghost start = t.calls();
    let old: Option<[u8; 4]> = t.read_cfg(o.device, o.family, o.offset);
    let ghost first = Call::Read { device: o.device, family: o.family, offset: o.offset, reply: old };
    assert(made(start, t.calls()) == seq![first]);
    let cur: [u8; 4] = match old {
        Some(w) => w,
        None => {
            return Err(TransportError::Io(unreadable_text(o.offset)));
        },
    };
    let new: [u8; 4] = o.change.apply(cur);
    let frame: Frame = write_frame(o.device, o.family, o.offset, new);
    let changes: bool = !word_eq(&cur, &new);
    let mut out: WriteOutcome = WriteOutcome {
        offset: o.offset,
        old,
        new,
        frame,
        changes,
        dry_run: o.dry_run,
        emitted: false,
        echo_ok: false,
        readback: None,
        verified: false,
        skipped: false,
        backup: None,
        pending: None,
    };
    if o.dry_run {
        out.verified = !changes;
        return Ok(out);
    }
    if !changes {
        out.skipped = true;
        out.verified = true;
        return Ok(out);
    }
    let ghost calls1 = t.calls();
    match ts {
        Some(time) => {
            let backup: BackupFile = backup_controller(t, o.device, o.family, time);
            proof {
                assert(made(start, t.calls()).skip(1) == made(calls1, t.calls()));
                assert(made(start, t.calls())[0] == first);
                assert(extends(start, t.calls()));
            }
            out.pending = Some(
                PendingWrite { device: o.device, family: o.family, restart: o.restart, backup },
            );
            Ok(out)
        },
        None => {
            let ghost plan = out;
            let r: Result<WriteOutcome, TransportError> = send_write(
                t,
                o.device,
                o.family,
                o.restart,
                out,
                None,
            );
            proof {
                assert(made(start, t.calls()).skip(1) == made(calls1, t.calls()));
                assert(made(start, t.calls())[0] == first) by {
                    assert(t.calls().take(calls1.len() as int)[start.len() as int] == first);
                }
                assert(extends(start, t.calls())) by {
                    assert(t.calls().take(start.len() as int) == t.calls().take(
                        calls1.len() as int,
                    ).take(start.len() as int));
                    assert(calls1.take(start.len() as int) == start);
                }
                assert(describes(plan, *o, cur, new@));
                assert(sends(
                    plan,
                    o.device,
                    o.family,
                    o.restart,
                    None,
                    made(start, t.calls()).skip(1),
                    r,
                ));
            }
            r
        },
    }
}

/// Sends a write that waited for its backup; `saved` says where the backup was
/// stored. Without a stored backup the write cannot be sent.
pub fn finish_write<T: Transport>(t: &mut T, out: WriteOutcome, saved: String) -> (r: Result<
    WriteOutcome,
    TransportError,
>)
    requires
        out.pending is Some,
    ensures
        extends(old(t).calls(), final(t).calls()),
        sends(
            out,
            out.pending->0.device,
            out.pending->0.family,
            out.pending->0.restart,
            Some(saved@),
            made(old(t).calls(), final(t).calls()),
            r,
        ),
{
    let (device, family, restart): (u8, u8, bool) = match &out.pending {
        Some(p) => (p.device, p.family, p.restart),
        None => (0, 0, false),
    };
    send_write(t, device, family, restart, out, Some(saved))
}

/// Writes one byte of the word at `offset`; the others keep their values.
/// `dry_run` sends nothing and gives the frame that would be sent; `ts` asks for a
/// backup, which [`finish_write`] waits for.
pub fn write_flash_byte<T: Transport>(
    t: &mut T,
    device: u8,
    family: u8,
    offset: u32,
    byte_index: usize,
    value: u8,
    dry_run: bool,
    ts: Option<&str>,
) -> (r: Result<WriteOutcome, TransportError>)
    requires
        byte_index < 4,
    ensures
        extends(old(t).calls(), final(t).calls()),
        carries_out(
            WriteOrder {
                device,
                family,
                offset,
                change: Change::Byte { index: byte_index, value },
                restart: false,
                dry_run,
            },
            opt_str(ts),
            made(old(t).calls(), final(t).calls()),
            r,
        ),
{
    let o: WriteOrder = WriteOrder {
        device,
        family,
        offset,
        change: Change::Byte { index: byte_index, value },
        restart: false,
        dry_run,
    };
    write_word(t, &o, ts)
}

/// Writes the word at `offset`.
pub fn write_flash_word<T: Transport>(
    t: &mut T,
    device: u8,
    family: u8,
    offset: u32,
    data: [u8; 4],
    dry_run: bool,
    ts: Option<&str>,
) -> (r: Result<WriteOutcome, TransportError>)
    ensures
        extends(old(t).calls(), final(t).calls()),
        carries_out(
            WriteOrder {
                device,
                family,
                offset,
                change: Change::Word { data },
                restart: false,
                dry_run,
            },
            opt_str(ts),
            made(old(t).calls(), final(t).calls()),
            r,
        ),
{
    let o: WriteOrder = WriteOrder {
        device,
        family,
        offset,
        change: Change::Word { data },
        restart: false,
        dry_run,
    };
    write_word(t, &o, ts)
}

/// The order to store a mode of the twist axis.
pub open spec fn twist_mode_order(device: u8, family: u8, mode: u8, dry_run: bool) -> WriteOrder {
    WriteOrder {
        device,
        family,
        offset: Z_AXIS_MODE_OFFSET,
        change: Change::Byte { index: 0, value: mode },
        restart: false,
        dry_run,
    }
}

/// The order to store the brightness of the base.
pub open spec fn backlight_order(device: u8, family: u8, value: u8, dry_run: bool) -> WriteOrder {
    WriteOrder {
        device,
        family,
        offset: protocol::BASE_BACKLIGHT_OFFSET,
        change: Change::Byte { index: 0, value },
        restart: false,
        dry_run,
    }
}

/// The order to store the state of the light.
pub open spec fn breathing_order(device: u8, family: u8, breathing_on: bool, dry_run: bool) -> WriteOrder {
    WriteOrder {
        device,
        family,
        offset: protocol::BASE_BREATHING_OFFSET,
        change: Change::Byte {
            index: 0,
            value: if breathing_on {
                protocol::BREATHING_VALUE
            } else {
                protocol::STATIC_VALUE
            },
        },
        restart: false,
        dry_run,
    }
}

/// The order to store the deadzone of an axis of the base, as the word `data`.
pub open spec fn deadzone_order(
    device: u8,
    family: u8,
    y_axis: bool,
    data: [u8; 4],
    dry_run: bool,
) -> WriteOrder {
    WriteOrder {
        device,
        family,
        offset: if y_axis {
            protocol::BASE_DEADZONE_Y_OFFSET
        } else {
            protocol::BASE_DEADZONE_X_OFFSET
        },
        change: Change::Word { data },
        restart: false,
        dry_run,
    }
}

/// The order to store the deadzone of the twist.
pub open spec fn twist_deadzone_order(device: u8, family: u8, value: u8, dry_run: bool) -> WriteOrder {
    WriteOrder {
        device,
        family,
        offset: protocol::GRIP_DEADZONE_TWIST_OFFSET,
        change: Change::Byte {
            index: 2,
            value: if value <= protocol::DEADZONE_TWIST_MAX {
                value
            } else {
                protocol::DEADZONE_TWIST_MAX
            },
        },
        restart: false,
        dry_run,
    }
}

/// The order to store the 4x32 mode of the base.
pub open spec fn mode_4x32_order(
    device: u8,
    family: u8,
    enabled: bool,
    restart: bool,
    dry_run: bool,
) -> WriteOrder {
    WriteOrder {
        device,
        family,
        offset: protocol::BASE_4X32_OFFSET,
        change: Change::Byte {
            index: 0,
            value: if enabled {
                1u8
            } else {
                0u8
            },
        },
        restart,
        dry_run,
    }
}

/// The order of a factory reset.
pub open spec fn reset_order(device: u8, family: u8, dry_run: bool) -> WriteOrder {
    WriteOrder {
        device,
        family,
        offset: protocol::RESTORE_DEFAULT_OFFSET,
        change: Change::Word { data: protocol::RESTORE_DEFAULT_DATA },
        restart: true,
        dry_run,
    }
}

/// Mode of the twist axis (`0xD8`, byte 0); the speed keeps its value.
pub fn set_twist_mode<T: Transport>(
    t: &mut T,
    device: u8,
    family: u8,
    mode: u8,
    dry_run: bool,
    ts: Option<&str>,
) -> (r: Result<WriteOutcome, TransportError>)
    ensures
        extends(old(t).calls(), final(t).calls()),
        carries_out(
            twist_mode_order(device, family, mode, dry_run),
            opt_str(ts),
            made(old(t).calls(), final(t).calls()),
            r,
        ),
{
    write_flash_byte(t, device, family, Z_AXIS_MODE_OFFSET, 0, mode, dry_run, ts)
}

/// Stored brightness of the base (`0xEC`, byte 0).
pub fn set_backlight_persist<T: Transport>(
    t: &mut T,
    device: u8,
    family: u8,
    value: u8,
    dry_run: bool,
    ts: Option<&str>,
) -> (r: Result<WriteOutcome, TransportError>)
    ensures
        extends(old(t).calls(), final(t).calls()),
        carries_out(
            backlight_order(device, family, value, dry_run),
            opt_str(ts),
            made(old(t).calls(), final(t).calls()),
            r,
        ),
{
    write_flash_byte(t, device, family, protocol::BASE_BACKLIGHT_OFFSET, 0, value, dry_run, ts)
}

/// State of the light (`0xF8`, byte 0): breathing or steady.
pub fn set_breathing<T: Transport>(
    t: &mut T,
    device: u8,
    family: u8,
    breathing_on: bool,
    dry_run: bool,
    ts: Option<&str>,
) -> (r: Result<WriteOutcome, TransportError>)
    ensures
        extends(old(t).calls(), final(t).calls()),
        carries_out(
            breathing_order(device, family, breathing_on, dry_run),
            opt_str(ts),
            made(old(t).calls(), final(t).calls()),
            r,
        ),
{
    let value: u8 = if breathing_on {
        protocol::BREATHING_VALUE
    } else {
        protocol::STATIC_VALUE
    };
    write_flash_byte(t, device, family, protocol::BASE_BREATHING_OFFSET, 0, value, dry_run, ts)
}

/// A number as a little-endian word.
pub(crate) fn le_word(value: u32) -> (r: [u8; 4])
    ensures
        le32(r@) == value,
{
    [
        (value % 256) as u8,
        (value / 256 % 256) as u8,
        (value / 65536 % 256) as u8,
        (value / 16777216) as u8,
    ]
}

/// Deadzone of an axis of the base, as a little-endian word: X at `0xD8`, Y at
/// `0xE8`.
pub fn set_deadzone_base<T: Transport>(
    t: &mut T,
    device: u8,
    family: u8,
    y_axis: bool,
    value: u32,
    dry_run: bool,
    ts: Option<&str>,
) -> (r: Result<WriteOutcome, TransportError>)
    ensures
        extends(old(t).calls(), final(t).calls()),
        exists|data: [u8; 4]|
            #[trigger] le32(data@) == value && carries_out(
                deadzone_order(device, family, y_axis, data, dry_run),
                opt_str(ts),
                made(old(t).calls(), final(t).calls()),
                r,
            ),
{
    let offset: u32 = if y_axis {
        protocol::BASE_DEADZONE_Y_OFFSET
    } else {
        protocol::BASE_DEADZONE_X_OFFSET
    };
    write_flash_word(t, device, family, offset, le_word(value), dry_run, ts)
}

/// Deadzone of the twist (`0x104`, byte 2), at most [`protocol::DEADZONE_TWIST_MAX`].
pub fn set_deadzone_twist<T: Transport>(
    t: &mut T,
    device: u8,
    family: u8,
    value: u8,
    dry_run: bool,
    ts: Option<&str>,
) -> (r: Result<WriteOutcome, TransportError>)
    ensures
        extends(old(t).calls(), final(t).calls()),
        carries_out(
            twist_deadzone_order(device, family, value, dry_run),
            opt_str(ts),
            made(old(t).calls(), final(t).calls()),
            r,
        ),
{
    let v: u8 = if value <= protocol::DEADZONE_TWIST_MAX {
        value
    } else {
        protocol::DEADZONE_TWIST_MAX
    };
    write_flash_byte(t, device, family, protocol::GRIP_DEADZONE_TWIST_OFFSET, 2, v, dry_run, ts)
}

/// The 4x32 mode of the base (`0xC8`, byte 0). It takes effect after a restart,
/// which `restart` asks for when the write was sent.
pub fn set_4x32<T: Transport>(
    t: &mut T,
    device: u8,
    family: u8,
    enabled: bool,
    restart: bool,
    dry_run: bool,
    ts: Option<&str>,
) -> (r: Result<WriteOutcome, TransportError>)
    ensures
        extends(old(t).calls(), final(t).calls()),
        carries_out(
            mode_4x32_order(device, family, enabled, restart, dry_run),
            opt_str(ts),
            made(old(t).calls(), final(t).calls()),
            r,
        ),
{
    let value: u8 = if enabled {
        1
    } else {
        0
    };
    let o: WriteOrder = WriteOrder {
        device,
        family,
        offset: protocol::BASE_4X32_OFFSET,
        change: Change::Byte { index: 0, value },
        restart,
        dry_run,
    };
    write_word(t, &o, ts)
}

/// Factory reset: writes the flag at `0xB4` and restarts the controller.
pub fn restore_default<T: Transport>(
    t: &mut T,
    device: u8,
    family: u8,
    dry_run: bool,
    ts: Option<&str>,
) -> (r: Result<WriteOutcome, TransportError>)
    ensures
        extends(old(t).calls(), final(t).calls()),
        carries_out(
            reset_order(device, family, dry_run),
            opt_str(ts),
            made(old(t).calls(), final(t).calls()),
            r,
        ),
{
    let o: WriteOrder = WriteOrder {
        device,
        family,
        offset: protocol::RESTORE_DEFAULT_OFFSET,
        change: Change::Word { data: protocol::RESTORE_DEFAULT_DATA },
        restart: true,
        dry_run,
    };
    write_word(t, &o, ts)
}

// --- Laws of the writes --------------------------------------------------------------------

/// The call changes the state of a controller.
pub open spec fn changes_device(c: Call) -> bool {
    c is Write || c is Restart
}

/// A dry run changes nothing on the device, whatever comes back.
pub proof fn law_dry_run_sends_nothing(
    o: WriteOrder,
    ts: Option<Seq<char>>,
    calls: Seq<Call>,
    r: Result<WriteOutcome, TransportError>,
    i: int,
)
    requires
        o.dry_run,
        carries_out(o, ts, calls, r),
        0 <= i < calls.len(),
    ensures
        !changes_device(calls[i]),
{
}

/// With a backup asked for, nothing changes on the device before the backup was
/// handed out: the order only reads.
pub proof fn law_backup_comes_first(
    o: WriteOrder,
    time: Seq<char>,
    calls: Seq<Call>,
    r: Result<WriteOutcome, TransportError>,
    i: int,
)
    requires
        carries_out(o, Some(time), calls, r),
        0 <= i < calls.len(),
    ensures
        !changes_device(calls[i]),
{
    if i > 0 {
        assert(calls[i] == calls.skip(1)[i - 1]);
    }
}

/// Every write that an order sends goes to the address of the order, without
/// leave to touch the identity, and carries the word that was read with the
/// wanted change and no other; a word that needs no change is not written.
pub proof fn law_writes_only_the_change(
    o: WriteOrder,
    ts: Option<Seq<char>>,
    calls: Seq<Call>,
    r: Result<WriteOutcome, TransportError>,
    i: int,
)
    requires
        carries_out(o, ts, calls, r),
        0 <= i < calls.len(),
        calls[i] is Write,
    ensures
        calls[i] matches Call::Write { device, family, offset, data, allow_identity, .. }
            && reply_of(calls[0]) matches Some(cur) && {
            &&& device == o.device && family == o.family && offset == o.offset
            &&& !allow_identity
            &&& data@ == o.change.applied(cur@)
            &&& data@ != cur@
        },
{
    assert(calls[i] == calls.skip(1)[i - 1]);
    if ts is Some {
        law_backup_comes_first(o, ts->0, calls, r, i);
    }
}

/// A planned write at an offset that the guard refuses ends with the refusal:
/// nothing is read back, and the controller is not restarted.
pub proof fn law_refused_write_ends_there(
    plan: WriteOutcome,
    device: u8,
    family: u8,
    restart: bool,
    backup: Option<Seq<char>>,
    calls: Seq<Call>,
    r: Result<WriteOutcome, TransportError>,
)
    requires
        sends(plan, device, family, restart, backup, calls, r),
        protocol::guard_verdict(plan.offset, false) is Err,
    ensures
        calls.len() == 1,
        calls[0] matches Call::Write { reply, .. } && reply is Err,
        protocol::guard_verdict(plan.offset, false) matches Err(e) && r == Err::<
            WriteOutcome,
            TransportError,
        >(TransportError::Guard(e)),
{
}

/// A write order at an offset that the guard refuses: where it comes to a write,
/// the refusal is the result, and nothing follows it.
pub proof fn law_refused_offset_is_not_written(
    o: WriteOrder,
    calls: Seq<Call>,
    r: Result<WriteOutcome, TransportError>,
    i: int,
)
    requires
        carries_out(o, None, calls, r),
        protocol::guard_verdict(o.offset, false) is Err,
        0 <= i < calls.len(),
        changes_device(calls[i]),
    ensures
        i == 1 && calls.len() == 2,
        calls[i] matches Call::Write { reply, .. } && reply is Err,
        protocol::guard_verdict(o.offset, false) matches Err(e) && r == Err::<
            WriteOutcome,
            TransportError,
        >(TransportError::Guard(e)),
{
    assert(calls.skip(1)[0] == calls[1]);
}

/// A change of one byte leaves the other three as they are.
pub proof fn law_byte_change_keeps_the_rest(index: usize, value: u8, word: Seq<u8>, k: int)
    requires
        index < 4,
        word.len() == 4,
        0 <= k < 4,
        k != index,
    ensures
        (Change::Byte { index, value }).applied(word)[k] == word[k],
        (Change::Byte { index, value }).applied(word)[index as int] == value,
{
}

/// A write that is reported as verified after it was sent was read back as it was
/// written, right after it was accepted.
pub proof fn law_verified_means_read_back(
    plan: WriteOutcome,
    device: u8,
    family: u8,
    restart: bool,
    backup: Option<Seq<char>>,
    calls: Seq<Call>,
    out: WriteOutcome,
)
    requires
        sends(
            plan,
            device,
            family,
            restart,
            backup,
            calls,
            Ok::<WriteOutcome, TransportError>(out),
        ),
        out.verified,
    ensures
        calls[0] matches Call::Write { offset, data, .. } && calls[1] == (Call::Read {
            device,
            family,
            offset,
            reply: Some(data),
        }),
{
}

// --- Laws of what is read and of what is stored ---------------------------------------------

/// What the flash of the controllers holds at `(device, family, offset)`; `None` where
/// nothing answers.
pub type Memory = spec_fn(u8, u8, u32) -> Option<[u8; 4]>;

/// Every read was answered with what the memory holds.
pub open spec fn answered_from(calls: Seq<Call>, memory: Memory) -> bool {
    forall|i: int|
        0 <= i < calls.len() ==> match #[trigger] calls[i] {
            Call::Read { device, family, offset, reply } => reply == memory(device, family, offset),
            _ => true,
        }
}

/// The snapshot was read from the memory.
pub open spec fn is_snapshot_of(
    s: DeviceSnapshot,
    path: Seq<char>,
    controllers: Seq<Controller>,
    a: Seq<PartReplies>,
    memory: Memory,
) -> bool {
    &&& answers_parts(controllers, a)
    &&& snapshot_of(s, path, controllers, a)
    &&& answered_from(parts_calls(controllers, a), memory)
}

/// The controller at `b` is of the family, and no later one is.
pub open spec fn is_last_of(controllers: Seq<Controller>, family: u8, b: int) -> bool {
    &&& 0 <= b < controllers.len()
    &&& controllers[b].family == family
    &&& forall|j: int| b < j < controllers.len() ==> (#[trigger] controllers[j]).family != family
}

proof fn lemma_is_last_of(controllers: Seq<Controller>, family: u8, b: int)
    requires
        is_last_of(controllers, family, b),
    ensures
        last_of_family(controllers, family) == Some(b),
    decreases controllers.len(),
{
    if b < controllers.len() - 1 {
        assert(controllers.last() == controllers[controllers.len() - 1]);
        lemma_is_last_of(controllers.drop_last(), family, b);
    }
}

proof fn lemma_none_of(controllers: Seq<Controller>, family: u8)
    requires
        forall|j: int| 0 <= j < controllers.len() ==> (#[trigger] controllers[j]).family != family,
    ensures
        last_of_family(controllers, family) is None,
    decreases controllers.len(),
{
    if controllers.len() > 0 {
        assert(controllers.last() == controllers[controllers.len() - 1]);
        lemma_none_of(controllers.drop_last(), family);
    }
}

proof fn lemma_part_answered(
    controllers: Seq<Controller>,
    a: Seq<PartReplies>,
    memory: Memory,
    i: int,
)
    requires
        controllers.len() <= a.len(),
        answered_from(parts_calls(controllers, a), memory),
        0 <= i < controllers.len(),
    ensures
        answered_from(part_calls(controllers[i].device, controllers[i].family, a[i]), memory),
    decreases controllers.len(),
{
    let before = parts_calls(controllers.drop_last(), a);
    let c = controllers.last();
    let last = part_calls(c.device, c.family, a[controllers.len() - 1]);
    let all = parts_calls(controllers, a);
    if i == controllers.len() - 1 {
        assert forall|k: int| 0 <= k < last.len() implies match #[trigger] last[k] {
            Call::Read { device, family, offset, reply } => reply == memory(device, family, offset),
            _ => true,
        } by {
            assert(all[before.len() + k] == last[k]);
        }
    } else {
        assert forall|k: int| 0 <= k < before.len() implies match #[trigger] before[k] {
            Call::Read { device, family, offset, reply } => reply == memory(device, family, offset),
            _ => true,
        } by {
            assert(all[k] == before[k]);
        }
        lemma_part_answered(controllers.drop_last(), a, memory, i);
    }
}

/// What a controller replied is what the memory holds where it was read.
proof fn lemma_replies_are_the_memory(device: u8, family: u8, a: PartReplies, memory: Memory)
    requires
        answers_part(family, a),
        answered_from(part_calls(device, family, a), memory),
    ensures
        forall|i: int|
            0 <= i < a.words.len() ==> #[trigger] a.words[i] == memory(
                device,
                family,
                extra_offsets(family)[i],
            ),
        forall|i: int|
            0 <= i < a.config.fields.len() ==> #[trigger] a.config.fields[i] == memory(
                device,
                family,
                fields_for(family)[i].offset,
            ),
        forall|i: int|
            0 <= i < a.config.name.len() ==> #[trigger] a.config.name[i] == memory(
                device,
                family,
                (NAME_START + 4 * i) as u32,
            ),
        forall|i: int|
            0 <= i < a.config.serial.len() ==> #[trigger] a.config.serial[i] == memory(
                device,
                family,
                (SERIAL_START + 4 * i) as u32,
            ),
{
    let all = part_calls(device, family, a);
    let nf = a.config.fields.len();
    let nn = a.config.name.len();
    let ns = a.config.serial.len();
    assert forall|i: int| 0 <= i < a.words.len() implies #[trigger] a.words[i] == memory(
        device,
        family,
        extra_offsets(family)[i],
    ) by {
        assert(all[nf + nn + ns + i] == (Call::Read {
            device,
            family,
            offset: extra_offsets(family)[i],
            reply: a.words[i],
        }));
    }
    assert forall|i: int| 0 <= i < nf implies #[trigger] a.config.fields[i] == memory(
        device,
        family,
        fields_for(family)[i].offset,
    ) by {
        assert(all[i] == (Call::Read {
            device,
            family,
            offset: fields_for(family)[i].offset,
            reply: a.config.fields[i],
        }));
    }
    assert forall|i: int| 0 <= i < nn implies #[trigger] a.config.name[i] == memory(
        device,
        family,
        (NAME_START + 4 * i) as u32,
    ) by {
        assert(all[nf + i] == (Call::Read {
            device,
            family,
            offset: (NAME_START + 4 * i) as u32,
            reply: a.config.name[i],
        }));
    }
    assert forall|i: int| 0 <= i < ns implies #[trigger] a.config.serial[i] == memory(
        device,
        family,
        (SERIAL_START + 4 * i) as u32,
    ) by {
        assert(all[nf + nn + i] == (Call::Read {
            device,
            family,
            offset: (SERIAL_START + 4 * i) as u32,
            reply: a.config.serial[i],
        }));
    }
}

/// A snapshot shows what the memory of the last base holds: the brightness, whose
/// unset value counts as none, the state of the light, the 4x32 mode, and the
/// deadzones of X and of Y as numbers, low byte first; each from its own offset.
pub proof fn law_snapshot_shows_the_base(
    s: DeviceSnapshot,
    path: Seq<char>,
    controllers: Seq<Controller>,
    a: Seq<PartReplies>,
    memory: Memory,
    b: int,
)
    requires
        is_snapshot_of(s, path, controllers, a, memory),
        is_last_of(controllers, 0xBB, b),
    ensures
        s.base_led is Some,
        match memory(controllers[b].device, 0xBB, 0xEC) {
            Some(w) => s.base_led->0.brightness == Some(
                if w@[0] == 255 {
                    0u8
                } else {
                    w@[0]
                },
            ),
            None => s.base_led->0.brightness is None,
        },
        match memory(controllers[b].device, 0xBB, 0xF8) {
            Some(w) => s.base_led->0.breathing == Some(w@[0] == 0),
            None => s.base_led->0.breathing is None,
        },
        match memory(controllers[b].device, 0xBB, 0xC8) {
            Some(w) => s.base_4x32 == Some(w@[0] == 1),
            None => s.base_4x32 is None,
        },
        match memory(controllers[b].device, 0xBB, 0xD8) {
            Some(w) => s.deadzone_x is Some && s.deadzone_x->0 == w@[0] + 256 * w@[1] + 65536
                * w@[2] + 16777216 * w@[3],
            None => s.deadzone_x is None,
        },
        match memory(controllers[b].device, 0xBB, 0xE8) {
            Some(w) => s.deadzone_y is Some && s.deadzone_y->0 == w@[0] + 256 * w@[1] + 65536
                * w@[2] + 16777216 * w@[3],
            None => s.deadzone_y is None,
        },
{
    lemma_is_last_of(controllers, 0xBB, b);
    lemma_part_answered(controllers, a, memory, b);
    assert(answers_part(controllers[b].family, a[b]));
    lemma_replies_are_the_memory(controllers[b].device, 0xBB, a[b], memory);
    assert(extra_offsets(0xBB)[0] == 0xEC && extra_offsets(0xBB)[1] == 0xF8 && extra_offsets(0xBB)[2]
        == 0xC8 && extra_offsets(0xBB)[3] == 0xD8 && extra_offsets(0xBB)[4] == 0xE8);
    assert(a[b].words[0] == memory(controllers[b].device, 0xBB, 0xEC));
    assert(a[b].words[1] == memory(controllers[b].device, 0xBB, 0xF8));
    assert(a[b].words[2] == memory(controllers[b].device, 0xBB, 0xC8));
    assert(a[b].words[3] == memory(controllers[b].device, 0xBB, 0xD8));
    assert(a[b].words[4] == memory(controllers[b].device, 0xBB, 0xE8));
}

/// Without a base a snapshot shows nothing of one, and without a grip no deadzone of
/// the twist.
pub proof fn law_snapshot_without_a_controller(
    s: DeviceSnapshot,
    path: Seq<char>,
    controllers: Seq<Controller>,
    a: Seq<PartReplies>,
)
    requires
        answers_parts(controllers, a),
        snapshot_of(s, path, controllers, a),
    ensures
        (forall|j: int| 0 <= j < controllers.len() ==> (#[trigger] controllers[j]).family != 0xBB)
            ==> s.base_led is None && s.base_4x32 is None && s.deadzone_x is None && s.deadzone_y
            is None,
        (forall|j: int| 0 <= j < controllers.len() ==> (#[trigger] controllers[j]).family != 0xBF)
            ==> s.twist_deadzone is None,
        s.config.controllers.len() == controllers.len(),
        s.calib.len() == controllers.len(),
        s.config.hidraw@ == path,
{
    if forall|j: int| 0 <= j < controllers.len() ==> (#[trigger] controllers[j]).family != 0xBB {
        lemma_none_of(controllers, 0xBB);
    }
    if forall|j: int| 0 <= j < controllers.len() ==> (#[trigger] controllers[j]).family != 0xBF {
        lemma_none_of(controllers, 0xBF);
    }
    assert(config_views(s.config.controllers@).len() == s.config.controllers.len());
}

/// A snapshot shows the deadzone of the twist that the memory of the last grip holds:
/// the third byte of its word.
pub proof fn law_snapshot_shows_the_grip(
    s: DeviceSnapshot,
    path: Seq<char>,
    controllers: Seq<Controller>,
    a: Seq<PartReplies>,
    memory: Memory,
    g: int,
)
    requires
        is_snapshot_of(s, path, controllers, a, memory),
        is_last_of(controllers, 0xBF, g),
    ensures
        match memory(controllers[g].device, 0xBF, 0x104) {
            Some(w) => s.twist_deadzone == Some(w@[2]),
            None => s.twist_deadzone is None,
        },
{
    lemma_is_last_of(controllers, 0xBF, g);
    lemma_part_answered(controllers, a, memory, g);
    assert(answers_part(controllers[g].family, a[g]));
    lemma_replies_are_the_memory(controllers[g].device, 0xBF, a[g], memory);
    assert(extra_offsets(0xBF)[0] == 0x104);
    assert(a[g].words[0] == memory(controllers[g].device, 0xBF, 0x104));
}

/// Of every controller a snapshot shows its address, each field with the word that
/// the memory holds at the offset of the field, and, of a grip, the words of the
/// calibration with their offsets; of others no such words.
pub proof fn law_snapshot_shows_each_controller(
    s: DeviceSnapshot,
    path: Seq<char>,
    controllers: Seq<Controller>,
    a: Seq<PartReplies>,
    memory: Memory,
    i: int,
    k: int,
)
    requires
        is_snapshot_of(s, path, controllers, a, memory),
        0 <= i < controllers.len(),
    ensures
        s.config.controllers[i].device == controllers[i].device,
        s.config.controllers[i].family == controllers[i].family,
        s.calib[i].device == controllers[i].device,
        s.calib[i].family == controllers[i].family,
        0 <= k < s.config.controllers[i].fields.len() ==> s.config.controllers[i].fields[k].raw
            == memory(
            controllers[i].device,
            controllers[i].family,
            s.config.controllers[i].fields[k].offset,
        ),
        s.calib[i].region.len() == (if controllers[i].family == 0xBF {
            13int
        } else {
            0
        }),
        0 <= k < s.calib[i].region.len() ==> s.calib[i].region[k].0 == 0xC8 + 4 * k
            && s.calib[i].region[k].1 == memory(
            controllers[i].device,
            0xBF,
            (0xC8 + 4 * k) as u32,
        ),
{
    let c = controllers[i];
    lemma_part_answered(controllers, a, memory, i);
    assert(answers_part(c.family, a[i]));
    lemma_replies_are_the_memory(c.device, c.family, a[i], memory);
    let cfg = s.config.controllers[i];
    let view = config_of(c.device, c.family, a[i].config);
    assert(config_views(s.config.controllers@).len() == controllers.len());
    assert(config_views(s.config.controllers@)[i] == view);
    assert(cfg@ == view);
    assert(field_views(cfg.fields@) == view.fields);
    if 0 <= k < cfg.fields.len() {
        assert(field_views(cfg.fields@)[k] == cfg.fields[k]@);
        assert(view.fields[k].raw == a[i].config.fields[k]);
    }
    assert(s.calib[i]@ == calib_of(c, a[i]));
    if c.family == 0xBF {
        let tail = a[i].words.skip(1);
        if 0 <= k < tail.len() {
            assert(tail[k] == a[i].words[k + 1]);
            assert(extra_offsets(0xBF)[k + 1] == protocol::calib_offsets()[k]);
        }
    }
}

/// The fields that are shown of a controller: each of the table once, in order;
/// those that only a grip has are not shown elsewhere.
pub proof fn law_fields_of_a_family(family: u8)
    ensures
        family == 0xBF ==> fields_for(family).len() == 11,
        family != 0xBF ==> fields_for(family).len() == 7,
        forall|i: int|
            0 <= i < fields_for(family).len() ==> #[trigger] fields_for(family)[i]
                == protocol::flash_table()[i],
{
    let t = protocol::flash_table();
    lemma_fields_prefix(t, family, 7);
    if family == 0xBF {
        lemma_fields_prefix(t, family, 11);
        assert(t.take(11) == t);
    } else {
        lemma_no_grip_fields(t, family, 11);
        assert(t.take(11) == t);
    }
}

proof fn lemma_fields_prefix(t: Seq<FlashField>, family: u8, n: int)
    requires
        0 <= n <= t.len(),
        forall|i: int| 0 <= i < n ==> !(#[trigger] t[i]).grip_only || family == 0xBF,
    ensures
        flash_fields_of(t.take(n), family) == t.take(n),
    decreases n,
{
    if n > 0 {
        lemma_fields_prefix(t, family, n - 1);
        assert(t.take(n).drop_last() == t.take(n - 1));
        assert(t.take(n).last() == t[n - 1]);
        assert(t.take(n - 1).push(t[n - 1]) == t.take(n));
    } else {
        assert(t.take(0) == Seq::<FlashField>::empty());
    }
}

proof fn lemma_no_grip_fields(t: Seq<FlashField>, family: u8, n: int)
    requires
        family != 0xBF,
        7 <= n <= t.len(),
        forall|i: int| 0 <= i < 7 ==> !(#[trigger] t[i]).grip_only,
        forall|i: int| 7 <= i < t.len() ==> (#[trigger] t[i]).grip_only,
    ensures
        flash_fields_of(t.take(n), family) == t.take(7),
    decreases n,
{
    if n == 7 {
        lemma_fields_prefix(t, family, 7);
    } else {
        lemma_no_grip_fields(t, family, n - 1);
        assert(t.take(n).drop_last() == t.take(n - 1));
        assert(t.take(n).last() == t[n - 1]);
    }
}

/// The mode of the twist axis that is shown of a grip is the first byte of the word
/// at 0xD8.
pub proof fn law_snapshot_shows_the_twist_mode(
    s: DeviceSnapshot,
    path: Seq<char>,
    controllers: Seq<Controller>,
    a: Seq<PartReplies>,
    memory: Memory,
    i: int,
)
    requires
        is_snapshot_of(s, path, controllers, a, memory),
        0 <= i < controllers.len(),
    ensures
        controllers[i].family == 0xBF ==> match memory(controllers[i].device, 0xBF, 0xD8) {
            Some(w) => s.config.controllers[i].twist_mode == Some(w@[0]),
            None => s.config.controllers[i].twist_mode is None,
        },
        controllers[i].family != 0xBF ==> s.config.controllers[i].twist_mode is None,
{
    let c = controllers[i];
    lemma_part_answered(controllers, a, memory, i);
    assert(answers_part(c.family, a[i]));
    lemma_replies_are_the_memory(c.device, c.family, a[i], memory);
    assert(config_views(s.config.controllers@).len() == controllers.len());
    assert(config_views(s.config.controllers@)[i] == config_of(c.device, c.family, a[i].config));
    assert(s.config.controllers[i]@ == config_of(c.device, c.family, a[i].config));
    law_fields_of_a_family(c.family);
    lemma_twist_from(c.family, a[i].config.fields);
    if c.family == 0xBF {
        assert(a[i].config.fields[9] == memory(c.device, 0xBF, fields_for(c.family)[9].offset));
    }
}

proof fn lemma_twist_from(family: u8, replies: Seq<Option<[u8; 4]>>)
    requires
        replies.len() == fields_for(family).len(),
    ensures
        family == 0xBF ==> twist_from(fields_for(family), replies) == (match replies[9] {
            Some(w) => Some(w@[0]),
            None => None,
        }),
        family != 0xBF ==> twist_from(fields_for(family), replies) is None,
{
    reveal_strlit("firmware_complete");
    reveal_strlit("type_id");
    reveal_strlit("device_family");
    reveal_strlit("product_name");
    reveal_strlit("serial");
    reveal_strlit("hardware_version");
    reveal_strlit("restore_default");
    reveal_strlit("cfg_c0");
    reveal_strlit("calibration");
    reveal_strlit("z_axis_mode");
    reveal_strlit("axis_xy_mode");
    law_fields_of_a_family(family);
    let f = fields_for(family);
    assert("calibration"@[0] != "z_axis_mode"@[0]);
    if family == 0xBF {
        lemma_no_twist(f, replies, 9);
        assert(f.take(11) == f);
        assert(f.take(11).drop_last() == f.take(10));
        assert(f.take(10).drop_last() == f.take(9));
        assert(f.take(11).last() == f[10]);
        assert(f.take(10).last() == f[9]);
        assert(f[9].name@ == "z_axis_mode"@);
        assert(f[10].name@.len() == 12 && "z_axis_mode"@.len() == 11);
        assert(twist_from(f, replies) == twist_from(f.take(10), replies));
        assert(twist_from(f.take(10), replies) == match replies[9] {
            Some(w) => Some(w@[0]),
            None => twist_from(f.take(9), replies),
        });
    } else {
        lemma_no_twist(f, replies, 7);
        assert(f.take(7) == f);
    }
}

proof fn lemma_no_twist(f: Seq<FlashField>, replies: Seq<Option<[u8; 4]>>, n: int)
    requires
        0 <= n <= f.len(),
        f.len() == replies.len(),
        forall|i: int| 0 <= i < n ==> (#[trigger] f[i]).name@ != "z_axis_mode"@,
    ensures
        twist_from(f.take(n), replies) is None,
    decreases n,
{
    if n > 0 {
        lemma_no_twist(f, replies, n - 1);
        assert(f.take(n).drop_last() == f.take(n - 1));
        assert(f.take(n).last() == f[n - 1]);
    }
}

/// What a write order has stored: the word of the memory at its address is the one
/// that was there with the change of the order.
pub open spec fn has_stored(o: WriteOrder, memory: Memory, was: [u8; 4]) -> bool {
    memory(o.device, o.family, o.offset) is Some && memory(o.device, o.family, o.offset)->0@
        == o.change.applied(was@)
}

/// The deadzone that was stored for an axis of the base is the one that is shown for
/// that axis.
pub proof fn law_stored_deadzone_is_shown(
    s: DeviceSnapshot,
    path: Seq<char>,
    controllers: Seq<Controller>,
    a: Seq<PartReplies>,
    memory: Memory,
    b: int,
    y_axis: bool,
    value: u32,
    data: [u8; 4],
    was: [u8; 4],
)
    requires
        is_snapshot_of(s, path, controllers, a, memory),
        is_last_of(controllers, 0xBB, b),
        le32(data@) == value,
        has_stored(
            deadzone_order(controllers[b].device, 0xBB, y_axis, data, false),
            memory,
            was,
        ),
    ensures
        y_axis ==> s.deadzone_y == Some(value),
        !y_axis ==> s.deadzone_x == Some(value),
{
    law_snapshot_shows_the_base(s, path, controllers, a, memory, b);
}

/// The light and the 4x32 mode are shown as they were stored; the brightness that
/// stands for an unset one is shown as none.
pub proof fn law_stored_base_settings_are_shown(
    s: DeviceSnapshot,
    path: Seq<char>,
    controllers: Seq<Controller>,
    a: Seq<PartReplies>,
    memory: Memory,
    b: int,
    value: u8,
    on: bool,
    restart: bool,
    was: [u8; 4],
)
    requires
        is_snapshot_of(s, path, controllers, a, memory),
        is_last_of(controllers, 0xBB, b),
    ensures
        has_stored(backlight_order(controllers[b].device, 0xBB, value, false), memory, was)
            && value != 255 ==> s.base_led->0.brightness == Some(value),
        has_stored(breathing_order(controllers[b].device, 0xBB, on, false), memory, was)
            ==> s.base_led->0.breathing == Some(on),
        has_stored(mode_4x32_order(controllers[b].device, 0xBB, on, restart, false), memory, was)
            ==> s.base_4x32 == Some(on),
{
    law_snapshot_shows_the_base(s, path, controllers, a, memory, b);
}

/// The mode of the twist axis is shown as it was stored, and its deadzone as well, up
/// to thirty; neither touches the other bytes of its word.
pub proof fn law_stored_twist_settings_are_shown(
    s: DeviceSnapshot,
    path: Seq<char>,
    controllers: Seq<Controller>,
    a: Seq<PartReplies>,
    memory: Memory,
    g: int,
    mode: u8,
    value: u8,
    was: [u8; 4],
)
    requires
        is_snapshot_of(s, path, controllers, a, memory),
        is_last_of(controllers, 0xBF, g),
    ensures
        has_stored(twist_mode_order(controllers[g].device, 0xBF, mode, false), memory, was)
            ==> s.config.controllers[g].twist_mode == Some(mode),
        has_stored(twist_deadzone_order(controllers[g].device, 0xBF, value, false), memory, was)
            ==> s.twist_deadzone == Some(
            if value <= 30 {
                value
            } else {
                30u8
            },
        ),
{
    law_snapshot_shows_the_grip(s, path, controllers, a, memory, g);
    law_snapshot_shows_the_twist_mode(s, path, controllers, a, memory, g);
}

/// Every setting goes to the controller that it is for and changes no more than its
/// own byte or word; only a factory reset, and the 4x32 mode when it is asked for,
/// restart the controller.
pub proof fn law_orders_change_what_they_are_for(
    device: u8,
    family: u8,
    v: u8,
    on: bool,
    restart: bool,
    dry_run: bool,
    data: [u8; 4],
    was: Seq<u8>,
    k: int,
)
    requires
        was.len() == 4,
        0 <= k < 4,
    ensures
        ({
            let o = twist_mode_order(device, family, v, dry_run);
            &&& o.device == device && o.family == family && o.offset == 0xD8
            &&& !o.restart && o.dry_run == dry_run
            &&& o.change.applied(was)[k] == (if k == 0 {
                v
            } else {
                was[k]
            })
        }),
        ({
            let o = backlight_order(device, family, v, dry_run);
            &&& o.device == device && o.family == family && o.offset == 0xEC
            &&& !o.restart && o.dry_run == dry_run
            &&& o.change.applied(was)[k] == (if k == 0 {
                v
            } else {
                was[k]
            })
        }),
        ({
            let o = breathing_order(device, family, on, dry_run);
            &&& o.device == device && o.family == family && o.offset == 0xF8
            &&& !o.restart && o.dry_run == dry_run
            &&& k > 0 ==> o.change.applied(was)[k] == was[k]
            &&& o.change.applied(was)[0] == 0 <==> on
            &&& o.change.applied(was)[0] == 1 <==> !on
        }),
        ({
            let o = twist_deadzone_order(device, family, v, dry_run);
            &&& o.device == device && o.family == family && o.offset == 0x104
            &&& !o.restart && o.dry_run == dry_run
            &&& k != 2 ==> o.change.applied(was)[k] == was[k]
            &&& o.change.applied(was)[2] <= 30
            &&& v <= 30 ==> o.change.applied(was)[2] == v
        }),
        ({
            let o = mode_4x32_order(device, family, on, restart, dry_run);
            &&& o.device == device && o.family == family && o.offset == 0xC8
            &&& o.restart == restart && o.dry_run == dry_run
            &&& k > 0 ==> o.change.applied(was)[k] == was[k]
            &&& o.change.applied(was)[0] == 1 <==> on
            &&& o.change.applied(was)[0] == 0 <==> !on
        }),
        ({
            let o = deadzone_order(device, family, on, data, dry_run);
            &&& o.device == device && o.family == family
            &&& o.offset == 0xE8 <==> on
            &&& o.offset == 0xD8 <==> !on
            &&& !o.restart && o.dry_run == dry_run
            &&& o.change.applied(was) == data@
        }),
        ({
            let o = reset_order(device, family, dry_run);
            &&& o.device == device && o.family == family && o.offset == 0xB4
            &&& o.restart && o.dry_run == dry_run
            &&& o.change.applied(was)[k] == (if k == 0 {
                1u8
            } else {
                0u8
            })
        }),
{
}

/// The bytes of a region are those of its words, one word after the other.
pub proof fn law_region_bytes_are_the_words(replies: Seq<Option<[u8; 4]>>, k: int, j: int)
    requires
        forall|i: int| 0 <= i < replies.len() ==> (#[trigger] replies[i]) is Some,
        0 <= k < replies.len(),
        0 <= j < 4,
    ensures
        replied_bytes(replies).len() == 4 * replies.len(),
        replied_bytes(replies)[4 * k + j] == replies[k]->0@[j],
    decreases replies.len(),
{
    let rest = replies.drop_last();
    assert(replies.last() == replies[replies.len() - 1]);
    assert(replies.last() is Some);
    assert forall|i: int| 0 <= i < rest.len() implies (#[trigger] rest[i]) is Some by {
        assert(rest[i] == replies[i]);
    }
    let word = replies.last()->0;
    assert(word@.len() == 4);
    assert(replied_bytes(replies) == replied_bytes(rest) + word@);
    if rest.len() > 0 {
        law_region_bytes_are_the_words(rest, 0, 0);
    } else {
        assert(replied_bytes(rest) == Seq::<u8>::empty());
    }
    if k < rest.len() {
        law_region_bytes_are_the_words(rest, k, j);
    }
}

/// A name ends where its first zero byte stands, or with the bytes.
pub proof fn law_name_ends_at_the_first_zero(b: Seq<u8>)
    ensures
        before_zero(b).len() <= b.len(),
        before_zero(b) == b.take(before_zero(b).len() as int),
        forall|i: int| 0 <= i < before_zero(b).len() ==> #[trigger] b[i] != 0,
        before_zero(b).len() < b.len() ==> b[before_zero(b).len() as int] == 0,
    decreases b.len(),
{
    if b.len() > 0 && b[0] != 0 {
        let rest = b.skip(1);
        law_name_ends_at_the_first_zero(rest);
        let n = before_zero(rest).len() as int;
        assert(before_zero(b) =~= b.take(n + 1)) by {
            assert(rest.take(n) =~= b.subrange(1, n + 1));
        }
        assert forall|i: int| 0 <= i < before_zero(b).len() implies #[trigger] b[i] != 0 by {
            if i > 0 {
                assert(rest[i - 1] == b[i]);
            }
        }
        if n < rest.len() {
            assert(rest[n] == b[n + 1]);
        }
    } else {
        assert(b.take(0) =~= before_zero(b));
    }
}

/// The product name that is shown of a controller is the text of the bytes from 0x5C
/// to 0x87, as far as its first zero byte, and its serial number those from 0x9C to
/// 0xA7 in hexadecimal, when all of them answer.
pub proof fn law_snapshot_shows_name_and_serial(
    s: DeviceSnapshot,
    path: Seq<char>,
    controllers: Seq<Controller>,
    a: Seq<PartReplies>,
    memory: Memory,
    i: int,
    name: Seq<u8>,
    serial: Seq<u8>,
)
    requires
        is_snapshot_of(s, path, controllers, a, memory),
        0 <= i < controllers.len(),
        name.len() == 44,
        serial.len() == 12,
        forall|k: int|
            0 <= k < 11 ==> #[trigger] memory(
                controllers[i].device,
                controllers[i].family,
                (0x5C + 4 * k) as u32,
            ) is Some && memory(
                controllers[i].device,
                controllers[i].family,
                (0x5C + 4 * k) as u32,
            )->0@ == name.subrange(4 * k, 4 * k + 4),
        forall|k: int|
            0 <= k < 3 ==> #[trigger] memory(
                controllers[i].device,
                controllers[i].family,
                (0x9C + 4 * k) as u32,
            ) is Some && memory(
                controllers[i].device,
                controllers[i].family,
                (0x9C + 4 * k) as u32,
            )->0@ == serial.subrange(4 * k, 4 * k + 4),
    ensures
        s.config.controllers[i].product_name@ == text::trim(text::utf8_lossy(before_zero(name))),
        s.config.controllers[i].serial@ == text::joined(protocol::hex_pairs(serial), ""@),
{
    let c = controllers[i];
    lemma_part_answered(controllers, a, memory, i);
    assert(answers_part(c.family, a[i]));
    lemma_replies_are_the_memory(c.device, c.family, a[i], memory);
    assert(config_views(s.config.controllers@).len() == controllers.len());
    assert(config_views(s.config.controllers@)[i] == config_of(c.device, c.family, a[i].config));
    assert(s.config.controllers[i]@ == config_of(c.device, c.family, a[i].config));
    let n = a[i].config.name;
    let t = a[i].config.serial;
    assert forall|k: int| 0 <= k < n.len() implies (#[trigger] n[k]) is Some by {
        assert(n[k] == memory(c.device, c.family, (0x5C + 4 * k) as u32));
    }
    assert forall|k: int| 0 <= k < t.len() implies (#[trigger] t[k]) is Some by {
        assert(t[k] == memory(c.device, c.family, (0x9C + 4 * k) as u32));
    }
    if n.len() > 0 {
        assert(n[n.len() - 1] is Some);
    }
    if t.len() > 0 {
        assert(t[t.len() - 1] is Some);
    }
    assert(n.len() == 11 && t.len() == 3);
    law_region_bytes_are_the_words(n, 0, 0);
    law_region_bytes_are_the_words(t, 0, 0);
    assert forall|x: int| 0 <= x < 44 implies replied_bytes(n)[x] == name[x] by {
        let k = x / 4;
        let j = x % 4;
        law_region_bytes_are_the_words(n, k, j);
        assert(n[k] == memory(c.device, c.family, (0x5C + 4 * k) as u32));
        assert(name.subrange(4 * k, 4 * k + 4)[j] == name[x]);
    }
    assert forall|x: int| 0 <= x < 12 implies replied_bytes(t)[x] == serial[x] by {
        let k = x / 4;
        let j = x % 4;
        law_region_bytes_are_the_words(t, k, j);
        assert(t[k] == memory(c.device, c.family, (0x9C + 4 * k) as u32));
        assert(serial.subrange(4 * k, 4 * k + 4)[j] == serial[x]);
    }
    assert(replied_bytes(n) =~= name);
    assert(replied_bytes(t) =~= serial);
}

/// Two readings of a region differ in no word exactly when none is counted.
pub proof fn law_no_changed_word(
    before: Seq<(u32, Option<[u8; 4]>)>,
    after: Seq<(u32, Option<[u8; 4]>)>,
)
    requires
        before.len() == after.len(),
    ensures
        changed_words(before, after) <= before.len(),
        changed_words(before, after) == 0 <==> (forall|i: int|
            0 <= i < before.len() ==> (#[trigger] before[i]).1 == after[i].1),
    decreases before.len(),
{
    if before.len() > 0 {
        let b = before.skip(1);
        let a = after.skip(1);
        law_no_changed_word(b, a);
        if forall|i: int| 0 <= i < before.len() ==> (#[trigger] before[i]).1 == after[i].1 {
            assert forall|i: int| 0 <= i < b.len() implies (#[trigger] b[i]).1 == a[i].1 by {
                assert(before[i + 1].1 == after[i + 1].1);
            }
            assert(before[0].1 == after[0].1);
        }
        if changed_words(before, after) == 0 {
            assert forall|i: int| 0 <= i < before.len() implies (#[trigger] before[i]).1
                == after[i].1 by {
                if i > 0 {
                    assert(b[i - 1].1 == a[i - 1].1);
                }
            }
        }
    }
}

/// One word more that differs counts one more, whatever the others are; one that is
/// the same counts nothing.
pub proof fn law_each_changed_word_counts(
    before: Seq<(u32, Option<[u8; 4]>)>,
    after: Seq<(u32, Option<[u8; 4]>)>,
    x: (u32, Option<[u8; 4]>),
    y: (u32, Option<[u8; 4]>),
)
    requires
        before.len() == after.len(),
    ensures
        x.1 != y.1 ==> changed_words(before.push(x), after.push(y)) == changed_words(before, after)
            + 1,
        x.1 == y.1 ==> changed_words(before.push(x), after.push(y)) == changed_words(before, after),
    decreases before.len(),
{
    let b = before.push(x);
    let a = after.push(y);
    assert(changed_words(b, a) == changed_words(b.skip(1), a.skip(1)) + if b[0].1 != a[0].1 {
        1nat
    } else {
        0
    });
    if before.len() == 0 {
        assert(b.skip(1).len() == 0);
        assert(changed_words(b.skip(1), a.skip(1)) == 0);
        assert(changed_words(before, after) == 0);
        assert(b[0] == x && a[0] == y);
    } else {
        assert(b[0] == before[0] && a[0] == after[0]);
        law_each_changed_word_counts(before.skip(1), after.skip(1), x, y);
        assert(b.skip(1) =~= before.skip(1).push(x));
        assert(a.skip(1) =~= after.skip(1).push(y));
    }
}

/// A backup holds what the memory of the controller holds: the words from zero up to
/// 0x1DC, in order, each with its offset.
pub proof fn law_backup_holds_the_memory(
    device: u8,
    family: u8,
    calls: Seq<Call>,
    memory: Memory,
)
    requires
        reads_backup(device, family, calls),
        answered_from(calls, memory),
    ensures
        calls.len() == 120,
        backup_text(calls) == dump_text(
            Seq::new(
                120,
                |i: int| ((4 * i) as u32, memory(device, family, (4 * i) as u32)),
            ),
        ),
{
    let rows = Seq::new(calls.len(), |i: int| ((4 * i) as u32, reply_of(calls[i])));
    assert forall|i: int| 0 <= i < 120 implies rows[i] == (
        (4 * i) as u32,
        memory(device, family, (4 * i) as u32),
    ) by {
        assert(reads_word(calls[i], device, family, (4 * i) as u32));
    }
    assert(rows =~= Seq::new(
        120,
        |i: int| ((4 * i) as u32, memory(device, family, (4 * i) as u32)),
    ));
}

/// The lines of a dump follow one another in the order of the words: a dump of more
/// words goes on where that of the first ones ends, and each line tells the offset
/// and the bytes of its word.
pub proof fn law_dump_goes_on(
    rows: Seq<(u32, Option<[u8; 4]>)>,
    offset: u32,
    word: [u8; 4],
)
    ensures
        dump_text(rows.push((offset, Some(word)))) == dump_text(rows) + text::hex_prefixed(
            offset as nat,
            4,
        ) + ": "@ + protocol::hex_dump(word@) + "\n"@,
        dump_text(rows.push((offset, None))) == dump_text(rows) + text::hex_prefixed(
            offset as nat,
            4,
        ) + ": -- -- -- --\n"@,
        dump_text(Seq::empty()).len() == 0,
{
    reveal_strlit(": ");
    reveal_strlit("-- -- -- --");
    reveal_strlit("\n");
    reveal_strlit(": -- -- -- --\n");
    assert(rows.push((offset, Some(word))).drop_last() =~= rows);
    assert(rows.push((offset, None::<[u8; 4]>)).drop_last() =~= rows);
    let h = text::hex_prefixed(offset as nat, 4);
    assert(dump_text(rows.push((offset, Some(word)))) =~= dump_text(rows) + h + ": "@
        + protocol::hex_dump(word@) + "\n"@);
    assert(": "@ + "-- -- -- --"@ + "\n"@ =~= ": -- -- -- --\n"@);
    assert(dump_text(rows.push((offset, None))) =~= dump_text(rows) + h + ": -- -- -- --\n"@);
}

/// A write that was sent is told as it was: sent, echoed when an echo came, and with
/// what was read back; the word, the frame and the offset are those of the plan.
pub proof fn law_outcome_tells_what_happened(
    plan: WriteOutcome,
    device: u8,
    family: u8,
    restart: bool,
    backup: Option<Seq<char>>,
    calls: Seq<Call>,
    out: WriteOutcome,
)
    requires
        sends(
            plan,
            device,
            family,
            restart,
            backup,
            calls,
            Ok::<WriteOutcome, TransportError>(out),
        ),
    ensures
        out.emitted && !out.skipped && out.pending is None,
        out.offset == plan.offset && out.new == plan.new && out.frame == plan.frame,
        calls[0] matches Call::Write { device: d, family: f, offset, data, allow_identity, reply }
            && d == device && f == family && offset == plan.offset && data == plan.new
            && !allow_identity && (out.echo_ok <==> (reply matches Ok(sent) && sent.1 is Some)),
        calls[1] matches Call::Read { device: d, family: f, offset, reply } && d == device && f
            == family && offset == plan.offset && out.readback == reply,
        out.verified <==> out.readback == Some(plan.new),
        calls.len() == 3 <==> restart,
{
}

/// What is shown of the fields whose words mean something: of the twist its mode, of
/// the firmware whether it is complete, of the reset whether it is armed, and of the
/// hardware its version, high part first.
pub proof fn law_what_fields_show(w: Seq<u8>)
    requires
        w.len() == 4,
    ensures
        human_text("z_axis_mode"@, Some(w)) == "yaw = "@ + mode_text(w[0]),
        w[0] == 1 ==> human_text("firmware_complete"@, Some(w)) == "Firmware complete"@,
        w[0] != 1 ==> human_text("firmware_complete"@, Some(w)) == "Incomplete"@,
        w[0] == 0xFF ==> human_text("restore_default"@, Some(w)) == "Inactive"@,
        w[0] != 0xFF ==> human_text("restore_default"@, Some(w))
            == "Armed (reset on next restart)"@,
        human_text("hardware_version"@, Some(w)) == "HW "@ + text::hex_fill(w[1] as nat, 2) + "."@
            + text::hex_fill(w[0] as nat, 2),
        human_text("type_id"@, Some(w)) == protocol::hex_dump(w),
        mode_text(0) == "Buttons only"@,
        mode_text(1) == "Axis and buttons"@,
        mode_text(255) == "Axis only"@,
{
    reveal_strlit("z_axis_mode");
    reveal_strlit("firmware_complete");
    reveal_strlit("restore_default");
    reveal_strlit("hardware_version");
    reveal_strlit("type_id");
    assert("z_axis_mode"@.len() == 11 && "firmware_complete"@.len() == 17
        && "restore_default"@.len() == 15 && "hardware_version"@.len() == 16 && "type_id"@.len()
        == 7);
}

/// Each field of a controller is shown with its own offset, its own name and what its
/// own bytes mean.
pub proof fn law_fields_are_shown_as_they_are(
    device: u8,
    family: u8,
    a: ConfigReplies,
    k: int,
)
    requires
        answers_config(family, a),
        0 <= k < fields_for(family).len(),
    ensures
        ({
            let f = config_of(device, family, a).fields[k];
            &&& f.offset == protocol::flash_table()[k].offset
            &&& f.name == protocol::flash_table()[k].name
            &&& f.identity == protocol::flash_table()[k].identity
            &&& f.raw == a.fields[k]
            &&& f.raw matches Some(w) ==> f.human == human_text(f.name@, Some(w@))
            &&& f.raw is None ==> f.human == "(out of range / no response)"@
        }),
        config_of(device, family, a).fields.len() == fields_for(family).len(),
        config_of(device, family, a).device == device,
        config_of(device, family, a).family == family,
{
    law_fields_of_a_family(family);
}

/// A write that waits for its backup is the one that was ordered: on the same
/// controller, with the same restart, for the word with the change, and the backup
/// is the dump of what was read.
pub proof fn law_waiting_write_is_the_ordered_one(
    o: WriteOrder,
    time: Seq<char>,
    calls: Seq<Call>,
    out: WriteOutcome,
)
    requires
        carries_out(o, Some(time), calls, Ok::<WriteOutcome, TransportError>(out)),
        out.pending is Some,
    ensures
        out.pending->0.device == o.device && out.pending->0.family == o.family,
        out.pending->0.restart == o.restart,
        out.offset == o.offset,
        reply_of(calls[0]) matches Some(w) && out.new@ == o.change.applied(w@) && out.new@ != w@,
        !out.emitted && !out.verified && !out.skipped && out.backup is None && !o.dry_run,
        out.frame@ == write_frame_of(o.device, o.family, o.offset, out.new@),
        calls.len() == 121,
        out.pending->0.backup.content@ == backup_text(calls.skip(1)),
        out.pending->0.backup.name@ == backup_name(o.device, o.family, time),
{
}

/// A write order that ends well without a backup and without a change to make sends
/// nothing and says so; one with a change that is no dry run waits exactly when a
/// backup is asked for.
pub proof fn law_writes_wait_for_a_backup(
    o: WriteOrder,
    ts: Option<Seq<char>>,
    calls: Seq<Call>,
    out: WriteOutcome,
)
    requires
        carries_out(o, ts, calls, Ok::<WriteOutcome, TransportError>(out)),
    ensures
        out.pending is Some <==> ts is Some && out.changes && !o.dry_run,
        out.emitted <==> ts is None && out.changes && !o.dry_run,
        out.skipped <==> !out.changes && !o.dry_run,
        out.dry_run == o.dry_run,
        reply_of(calls[0]) matches Some(w) && out.old == Some(w) && (out.changes
            <==> o.change.applied(w@) != w@),
{
}

/// Backups of one controller at different times have different names.
pub proof fn law_backups_do_not_meet(device: u8, family: u8, a: Seq<char>, b: Seq<char>)
    requires
        backup_name(device, family, a) == backup_name(device, family, b),
    ensures
        a == b,
{
    let x = backup_name(device, family, a);
    let head = protocol::model_or(device, family, "ctrl")@ + "-"@ + text::hex_fill(family as nat, 2)
        + text::hex_fill(device as nat, 2) + "-"@;
    assert(x == head + a + ".txt"@);
    assert(x == head + b + ".txt"@);
    assert(a.len() == b.len());
    assert(a =~= x.subrange(head.len() as int, (head.len() + a.len()) as int));
    assert(b =~= x.subrange(head.len() as int, (head.len() + b.len()) as int));
}

/// The modes of the twist axis by their names, and no others.
pub proof fn law_names_of_the_twist_modes(value: u8)
    ensures
        names_twist("buttons"@, 0),
        names_twist("axis+buttons"@, 1),
        names_twist("axis"@, 255),
        twist_name_of(value) is Some <==> value == 0 || value == 1 || value == 255,
{
}

/// The deadzone that is shown is the one that was read, unless it stands for none:
/// zero, or a number beyond the range.
pub proof fn law_shown_deadzones(
    raw: u32,
    twist: u8,
    shown: Option<u32>,
    shown_twist: Option<u8>,
)
    requires
        call_ensures(base_deadzone_display, (Some(raw),), shown),
        call_ensures(twist_deadzone_display, (Some(twist),), shown_twist),
    ensures
        0 < raw < 0x1_0000 ==> shown == Some(raw),
        raw == 0 || raw >= 0x1_0000 ==> shown is None,
        0 < twist <= 30 ==> shown_twist == Some(twist),
        twist == 0 || twist > 30 ==> shown_twist is None,
{
}

} // verus!
