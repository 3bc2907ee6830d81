//! The commands of the command line, and the texts that they print.
//!
//! No command writes to a joystick: the dry runs show the frames that would be sent.

use crate::enumerate::{Controller, WinwingDevice};
use crate::message;
use crate::message::Message;
use crate::model;
use crate::model::{
    Change,
    ControllerConfig,
    DecodedField,
    DeviceConfig,
    Transport,
    TransportError,
    WriteOrder,
    WriteOutcome,
};
use crate::pages::remapping;
use crate::protocol;
use crate::text;
use crate::transport;
use vstd::prelude::*;

verus! {

/// A command.
#[derive(Debug, PartialEq, Eq)]
pub enum Command {
    /// List the joysticks.
    List,
    /// Read an endpoint and print what it holds.
    Read(String),
    /// Show the frames that change the mode of the twist.
    TwistDryRun(String),
    /// Show the frames that change the light.
    BacklightDryRun(String),
    /// Say why there is no command.
    Refuse(Vec<Message>),
}

/// A command as its plain values.
pub enum Order {
    List,
    Read(Seq<char>),
    TwistDryRun(Seq<char>),
    BacklightDryRun(Seq<char>),
    Refuse(Seq<message::Saying>),
}

impl View for Command {
    type V = Order;

    open spec fn view(&self) -> Order {
        match self {
            Command::List => Order::List,
            Command::Read(p) => Order::Read(p@),
            Command::TwistDryRun(p) => Order::TwistDryRun(p@),
            Command::BacklightDryRun(p) => Order::BacklightDryRun(p@),
            Command::Refuse(m) => Order::Refuse(remapping::sayings(m@)),
        }
    }
}

/// The command of arguments, of which the first is the name of the program. A path
/// that is missing is asked for; without arguments the joysticks are listed.
pub open spec fn command_of(args: Seq<Seq<char>>) -> Order {
    if args.len() < 2 || args[1] == "--list"@ {
        Order::List
    } else if args[1] == "--read"@ {
        if args.len() > 2 {
            Order::Read(args[2])
        } else {
            Order::Refuse(
                seq![message::said("usage: wwctrl --read /dev/hidrawN"@, Seq::empty())],
            )
        }
    } else if args[1] == "--twist-dryrun"@ {
        if args.len() > 2 {
            Order::TwistDryRun(args[2])
        } else {
            Order::Refuse(
                seq![message::said("usage: wwctrl --twist-dryrun /dev/hidrawN"@, Seq::empty())],
            )
        }
    } else if args[1] == "--backlight-dryrun"@ {
        if args.len() > 2 {
            Order::BacklightDryRun(args[2])
        } else {
            Order::Refuse(
                seq![
                    message::said("usage: wwctrl --backlight-dryrun /dev/hidrawN"@, Seq::empty()),
                ],
            )
        }
    } else {
        Order::Refuse(
            seq![
                message::said("unknown argument: {}"@, seq![args[1]]),
                message::said(
                    "usage: wwctrl [--list | --read | --twist-dryrun | --backlight-dryrun /dev/hidrawN]"@,
                    Seq::empty(),
                ),
            ],
        )
    }
}

fn refuse(m: Message) -> (r: Command)
    ensures
        r@ == Order::Refuse(seq![m@]),
{
    let mut all: Vec<Message> = Vec::new();
    let ghost mv = m@;
    all.push(m);
    assert(remapping::sayings(all@) =~= seq![mv]);
    Command::Refuse(all)
}

/// The command of arguments, of which the first is the name of the program.
pub fn parse_command(args: &Vec<String>) -> (r: Command)
    ensures
        r@ == command_of(text::views(args@)),
{
    proof {
        reveal_strlit("usage: wwctrl --read /dev/hidrawN");
        reveal_strlit("usage: wwctrl --twist-dryrun /dev/hidrawN");
        reveal_strlit("usage: wwctrl --backlight-dryrun /dev/hidrawN");
        reveal_strlit("unknown argument: {}");
        reveal_strlit(
            "usage: wwctrl [--list | --read | --twist-dryrun | --backlight-dryrun /dev/hidrawN]",
        );
    }
    if args.len() < 2 {
        return Command::List;
    }
    let name: &str = args[1].as_str();
    assert(name@ == text::views(args@)[1]);
    if text::str_eq(name, "--list") {
        Command::List
    } else if text::str_eq(name, "--read") {
        if args.len() > 2 {
            Command::Read(args[2].as_str().to_string())
        } else {
            refuse(Message::plain("usage: wwctrl --read /dev/hidrawN"))
        }
    } else if text::str_eq(name, "--twist-dryrun") {
        if args.len() > 2 {
            Command::TwistDryRun(args[2].as_str().to_string())
        } else {
            refuse(Message::plain("usage: wwctrl --twist-dryrun /dev/hidrawN"))
        }
    } else if text::str_eq(name, "--backlight-dryrun") {
        if args.len() > 2 {
            Command::BacklightDryRun(args[2].as_str().to_string())
        } else {
            refuse(Message::plain("usage: wwctrl --backlight-dryrun /dev/hidrawN"))
        }
    } else {
        let mut all: Vec<Message> = Vec::new();
        let first: Message = Message::about("unknown argument: {}", name);
        let second: Message = Message::plain(
            "usage: wwctrl [--list | --read | --twist-dryrun | --backlight-dryrun /dev/hidrawN]",
        );
        let ghost fv = first@;
        let ghost sv = second@;
        all.push(first);
        all.push(second);
        assert(remapping::sayings(all@) =~= seq![fv, sv]);
        Command::Refuse(all)
    }
}

/// The place of the joystick at a path.
pub fn find_device(devices: &Vec<WinwingDevice>, path: &str) -> (r: Option<usize>)
    ensures
        r matches Some(i) ==> i < devices@.len() && devices@[i as int].hidraw@ == path@ && forall|
            k: int,
        |
            0 <= k < i ==> (#[trigger] devices@[k]).hidraw@ != path@,
        r is None ==> forall|k: int|
            0 <= k < devices@.len() ==> (#[trigger] devices@[k]).hidraw@ != path@,
{
    let mut i: usize = 0;
    while i < devices.len()
        invariant
            i <= devices.len(),
            forall|k: int| 0 <= k < i ==> (#[trigger] devices@[k]).hidraw@ != path@,
        decreases devices.len() - i,
    {
        if text::str_eq(devices[i].hidraw.as_str(), path) {
            return Some(i);
        }
        i += 1;
    }
    None
}

// --- What an endpoint holds -------------------------------------------------------------------------

/// The line of a field.
pub open spec fn field_line(f: DecodedField) -> Seq<char> {
    "  "@ + text::hex_prefixed(f.offset as nat, 4) + "  "@ + text::padded(f.name@, 18) + "  "@
        + model::word_text(model::word_bytes(f.raw)) + "   "@ + f.human@ + (if f.identity {
        " [protected identity]"@
    } else {
        Seq::empty()
    })
}

/// A line, when it applies.
pub open spec fn line_if(applies: bool, line: Seq<char>) -> Seq<Seq<char>> {
    if applies {
        seq![line]
    } else {
        Seq::empty()
    }
}

/// The lines of a controller.
pub open spec fn controller_lines(c: ControllerConfig) -> Seq<Seq<char>> {
    seq![
        "\n== "@ + c.model@ + " (dev "@ + text::hex_prefixed(c.device as nat, 2) + " / fam "@
            + text::hex_prefixed(c.family as nat, 2) + ") =="@,
    ] + line_if(c.product_name@.len() > 0, "  product : "@ + c.product_name@) + line_if(
        c.serial@.len() > 0,
        "  serial  : "@ + c.serial@,
    ) + line_if(
        c.twist_mode is Some,
        "  twist   : "@ + model::mode_text(c.twist_mode->0),
    ) + Seq::new(c.fields@.len(), |i: int| field_line(c.fields@[i]))
}

/// The lines of an endpoint.
pub open spec fn device_lines(hidraw: Seq<char>, controllers: Seq<ControllerConfig>) -> Seq<Seq<char>>
    decreases controllers.len(),
{
    if controllers.len() == 0 {
        seq!["Endpoint "@ + hidraw]
    } else {
        device_lines(hidraw, controllers.drop_last()) + controller_lines(controllers.last())
    }
}

fn push_text(lines: &mut Vec<String>, line: String)
    ensures
        text::views(final(lines)@) == text::views(old(lines)@) + seq![line@],
{
    let ghost lv = line@;
    lines.push(line);
    assert(text::views(lines@) =~= text::views(old(lines)@) + seq![lv]);
}

fn field_text(f: &DecodedField) -> (r: String)
    ensures
        r@ == field_line(*f),
{
    let mut out: String = "  ".to_string();
    out.append(text::hex_prefixed_text(f.offset as u64, 4).as_str());
    out.append("  ");
    out.append(text::padded_text(f.name, 18).as_str());
    out.append("  ");
    out.append(f.hex().as_str());
    out.append("   ");
    out.append(f.human.as_str());
    if f.identity {
        out.append(" [protected identity]");
    } else {
        assert(out@ + Seq::<char>::empty() =~= out@);
    }
    out
}

fn push_controller(lines: &mut Vec<String>, c: &ControllerConfig)
    ensures
        text::views(final(lines)@) == text::views(old(lines)@) + controller_lines(*c),
{
    let ghost start = text::views(lines@);
    let mut head: String = "\n== ".to_string();
    head.append(c.model);
    head.append(" (dev ");
    head.append(text::hex_prefixed_text(c.device as u64, 2).as_str());
    head.append(" / fam ");
    head.append(text::hex_prefixed_text(c.family as u64, 2).as_str());
    head.append(") ==");
    let ghost hv = head@;
    push_text(lines, head);
    let ghost a = line_if(c.product_name@.len() > 0, "  product : "@ + c.product_name@);
    if !c.product_name.as_str().is_empty() {
        let mut line: String = "  product : ".to_string();
        line.append(c.product_name.as_str());
        push_text(lines, line);
    }
    assert(text::views(lines@) =~= start + seq![hv] + a);
    let ghost b = line_if(c.serial@.len() > 0, "  serial  : "@ + c.serial@);
    if !c.serial.as_str().is_empty() {
        let mut line: String = "  serial  : ".to_string();
        line.append(c.serial.as_str());
        push_text(lines, line);
    }
    assert(text::views(lines@) =~= start + seq![hv] + a + b);
    let ghost d = line_if(
        c.twist_mode is Some,
        "  twist   : "@ + model::mode_text(c.twist_mode->0),
    );
    if c.twist_mode.is_some() {
        let mut line: String = "  twist   : ".to_string();
        line.append(c.twist_label().as_str());
        push_text(lines, line);
    }
    assert(text::views(lines@) =~= start + seq![hv] + a + b + d);
    let ghost before = text::views(lines@);
    let ghost rows = Seq::new(c.fields@.len(), |i: int| field_line(c.fields@[i]));
    let mut i: usize = 0;
    assert(before + rows.take(0) =~= before);
    while i < c.fields.len()
        invariant
            i <= c.fields.len(),
            rows == Seq::new(c.fields@.len(), |i: int| field_line(c.fields@[i])),
            text::views(lines@) == before + rows.take(i as int),
        decreases c.fields.len() - i,
    {
        push_text(lines, field_text(&c.fields[i]));
        i += 1;
        assert(text::views(lines@) =~= before + rows.take(i as int));
    }
    assert(rows.take(i as int) =~= rows);
    assert(text::views(lines@) =~= start + controller_lines(*c));
}

/// The lines that show what an endpoint holds.
pub fn print_device(cfg: &DeviceConfig) -> (r: Vec<String>)
    ensures
        text::views(r@) == device_lines(cfg.hidraw@, cfg.controllers@),
{
    let mut lines: Vec<String> = Vec::new();
    let mut first: String = "Endpoint ".to_string();
    first.append(cfg.hidraw.as_str());
    push_text(&mut lines, first);
    assert(text::views(lines@) =~= device_lines(cfg.hidraw@, cfg.controllers@.take(0)));
    let mut i: usize = 0;
    while i < cfg.controllers.len()
        invariant
            i <= cfg.controllers.len(),
            text::views(lines@) == device_lines(cfg.hidraw@, cfg.controllers@.take(i as int)),
        decreases cfg.controllers.len() - i,
    {
        assert(cfg.controllers@.take(i + 1).drop_last() == cfg.controllers@.take(i as int));
        push_controller(&mut lines, &cfg.controllers[i]);
        i += 1;
    }
    assert(cfg.controllers@.take(i as int) == cfg.controllers@);
    lines
}

// --- Dry runs ---------------------------------------------------------------------------------------

/// The order of a dry run on one byte.
pub open spec fn dry_order(c: Controller, offset: u32, value: u8) -> WriteOrder {
    WriteOrder {
        device: c.device,
        family: c.family,
        offset,
        change: Change::Byte { index: 0, value },
        restart: false,
        dry_run: true,
    }
}

/// One call was made for a dry run on one byte, with this result.
pub open spec fn is_dry_run(
    c: Controller,
    offset: u32,
    value: u8,
    call: model::Call,
    r: Result<WriteOutcome, TransportError>,
) -> bool {
    &&& model::carries_out(dry_order(c, offset, value), None, seq![call], r)
    &&& call is Read
}

proof fn lemma_dry_run(
    c: Controller,
    offset: u32,
    value: u8,
    before: Seq<model::Call>,
    after: Seq<model::Call>,
    r: Result<WriteOutcome, TransportError>,
)
    requires
        model::extends(before, after),
        model::carries_out(dry_order(c, offset, value), None, model::made(before, after), r),
    ensures
        after.len() == before.len() + 1,
        after == before.push(after.last()),
        is_dry_run(c, offset, value, after.last(), r),
{
    let m = model::made(before, after);
    assert(m.len() == 1);
    assert(m[0] == after.last());
    assert(m == seq![after.last()]);
    assert forall|k: int| 0 <= k < before.len() implies after[k] == before[k] by {
        assert(after.take(before.len() as int)[k] == before[k]);
    }
    assert(after == before.push(after.last()));
}

/// The line of a dry run on the twist.
pub open spec fn twist_line(
    name: Seq<char>,
    mode: u8,
    r: Result<WriteOutcome, TransportError>,
) -> Seq<char> {
    match r {
        Ok(out) => "  "@ + text::padded(name, 13) + " (mode "@ + text::hex_prefixed(
            mode as nat,
            2,
        ) + ") : old=["@ + (match out.old {
            Some(b) => protocol::hex_dump(b@),
            None => "----"@,
        }) + "]  new=["@ + protocol::hex_dump(out.new@) + "]  FRAME = "@ + protocol::hex_dump(
            out.frame@,
        ),
        Err(e) => "  "@ + text::padded(name, 13) + " : error — "@ + e.message(),
    }
}

/// The head of a dry run.
pub open spec fn dry_head(what: Seq<char>, c: Controller) -> Seq<char> {
    "DRY-RUN "@ + what + " — "@ + protocol::model_or(c.device, c.family, "?")@ + " (dev "@
        + text::hex_prefixed(c.device as nat, 2) + " / fam "@ + text::hex_prefixed(
        c.family as nat,
        2,
    ) + ") — NO write emitted"@
}

fn head_text(what: &str, c: &Controller) -> (r: String)
    ensures
        r@ == dry_head(what@, *c),
{
    let mut out: String = "DRY-RUN ".to_string();
    out.append(what);
    out.append(" — ");
    out.append(c.model());
    out.append(" (dev ");
    out.append(text::hex_prefixed_text(c.device as u64, 2).as_str());
    out.append(" / fam ");
    out.append(text::hex_prefixed_text(c.family as u64, 2).as_str());
    out.append(") — NO write emitted");
    out
}

fn twist_text(name: &str, mode: u8, r: &Result<WriteOutcome, TransportError>) -> (s: String)
    ensures
        s@ == twist_line(name@, mode, *r),
{
    let mut out: String = "  ".to_string();
    out.append(text::padded_text(name, 13).as_str());
    match r {
        Ok(o) => {
            out.append(" (mode ");
            out.append(text::hex_prefixed_text(mode as u64, 2).as_str());
            out.append(") : old=[");
            let old: String = match o.old {
                Some(b) => protocol::hx(b.as_slice()),
                None => "----".to_string(),
            };
            out.append(old.as_str());
            out.append("]  new=[");
            out.append(protocol::hx(o.new.as_slice()).as_str());
            out.append("]  FRAME = ");
            out.append(protocol::hx(o.frame.as_slice()).as_str());
        },
        Err(e) => {
            out.append(" : error — ");
            out.append(e.to_string().as_str());
        },
    }
    out
}

/// The lines of the dry run on the twist, one for each mode.
pub open spec fn twist_lines(
    c: Controller,
    results: Seq<Result<WriteOutcome, TransportError>>,
) -> Seq<Seq<char>> {
    seq![dry_head("twist 0xD8"@, c)] + Seq::new(
        results.len(),
        |i: int| twist_line(model::TWIST_MODES[i].0@, model::TWIST_MODES[i].1, results[i]),
    )
}

/// One call was made for each mode of the twist, with these results.
pub open spec fn are_twist_runs(
    c: Controller,
    calls: Seq<model::Call>,
    results: Seq<Result<WriteOutcome, TransportError>>,
) -> bool {
    &&& calls.len() == results.len()
    &&& forall|i: int|
        0 <= i < results.len() ==> is_dry_run(
            c,
            model::Z_AXIS_MODE_OFFSET,
            model::TWIST_MODES[i].1,
            calls[i],
            #[trigger] results[i],
        )
}

/// Shows the frames that would set each mode of the twist. The word is read once for
/// each mode, and nothing else is done.
pub fn twist_dryrun<T: Transport>(t: &mut T, c: &Controller) -> (r: Vec<String>)
    ensures
        exists|calls: Seq<model::Call>, results: Seq<Result<WriteOutcome, TransportError>>|
            {
                &&& final(t).calls() == old(t).calls() + calls
                &&& calls.len() == 3
                &&& #[trigger] are_twist_runs(*c, calls, results)
                &&& text::views(r@) == twist_lines(*c, results)
            },
{
    let ghost start = t.calls();
    let ghost mut calls: Seq<model::Call> = Seq::empty();
    let ghost mut results: Seq<Result<WriteOutcome, TransportError>> = Seq::empty();
    let mut lines: Vec<String> = Vec::new();
    push_text(&mut lines, head_text("twist 0xD8", c));
    assert(text::views(lines@) =~= twist_lines(*c, results));
    assert(t.calls() =~= start + calls);
    let mut i: usize = 0;
    while i < 3
        invariant
            i <= 3,
            results.len() == i,
            t.calls() == start + calls,
            are_twist_runs(*c, calls, results),
            text::views(lines@) == twist_lines(*c, results),
        decreases 3 - i,
    {
        let name: &'static str = model::TWIST_MODES[i].0;
        let mode: u8 = model::TWIST_MODES[i].1;
        let ghost before = t.calls();
        let out: Result<WriteOutcome, TransportError> = model::set_twist_mode(
            t,
            c.device,
            c.family,
            mode,
            true,
            None,
        );
        proof {
            lemma_dry_run(*c, model::Z_AXIS_MODE_OFFSET, mode, before, t.calls(), out);
            calls = calls.push(t.calls().last());
            results = results.push(out);
            assert(t.calls() =~= start + calls);
        }
        push_text(&mut lines, twist_text(name, mode, &out));
        i += 1;
        assert(text::views(lines@) =~= twist_lines(*c, results));
    }
    lines
}

/// The brightness of the dry run on the light.
pub const DRY_BRIGHTNESS: u8 = 128;

/// The line of the frame of the live light.
pub open spec fn live_line(c: Controller) -> Seq<char> {
    "  live 0x49 (val 128)   : FRAME = "@ + protocol::hex_dump(
        protocol::frame_bytes(
            c.device,
            c.family,
            protocol::OP_SET_LEDX,
            seq![protocol::LED_INDEX_BACKLIGHT, DRY_BRIGHTNESS],
        ),
    )
}

/// The line of the frame of the stored brightness; none when it could not be made.
pub open spec fn persist_lines(r: Result<WriteOutcome, TransportError>) -> Seq<Seq<char>> {
    match r {
        Ok(out) => seq![
            "  persist 0xEC (val 128) : new=["@ + protocol::hex_dump(out.new@) + "]  FRAME = "@
                + protocol::hex_dump(out.frame@),
        ],
        Err(_) => Seq::empty(),
    }
}

/// The line of the frame of a mode of the light; none when it could not be made.
pub open spec fn mode_lines(name: Seq<char>, r: Result<WriteOutcome, TransportError>) -> Seq<
    Seq<char>,
> {
    match r {
        Ok(out) => seq![
            "  mode "@ + text::padded(name, 11) + " 0xF8  : new=["@ + protocol::hex_dump(out.new@)
                + "]  TRAME = "@ + protocol::hex_dump(out.frame@),
        ],
        Err(_) => Seq::empty(),
    }
}

/// The lines of the dry run on the light.
pub open spec fn light_lines(
    c: Controller,
    stored: Result<WriteOutcome, TransportError>,
    breathing: Result<WriteOutcome, TransportError>,
    fixed: Result<WriteOutcome, TransportError>,
) -> Seq<Seq<char>> {
    seq![dry_head("backlight"@, c), live_line(c)] + persist_lines(stored) + mode_lines(
        "breathing"@,
        breathing,
    ) + mode_lines("static"@, fixed)
}

fn push_mode(lines: &mut Vec<String>, name: &str, r: &Result<WriteOutcome, TransportError>)
    ensures
        text::views(final(lines)@) == text::views(old(lines)@) + mode_lines(name@, *r),
{
    match r {
        Ok(out) => {
            let mut line: String = "  mode ".to_string();
            line.append(text::padded_text(name, 11).as_str());
            line.append(" 0xF8  : new=[");
            line.append(protocol::hx(out.new.as_slice()).as_str());
            line.append("]  TRAME = ");
            line.append(protocol::hx(out.frame.as_slice()).as_str());
            push_text(lines, line);
        },
        Err(_) => {
            assert(text::views(lines@) =~= text::views(lines@) + Seq::<Seq<char>>::empty());
        },
    }
}

fn push_persist(lines: &mut Vec<String>, r: &Result<WriteOutcome, TransportError>)
    ensures
        text::views(final(lines)@) == text::views(old(lines)@) + persist_lines(*r),
{
    match r {
        Ok(out) => {
            let mut line: String = "  persist 0xEC (val 128) : new=[".to_string();
            line.append(protocol::hx(out.new.as_slice()).as_str());
            line.append("]  FRAME = ");
            line.append(protocol::hx(out.frame.as_slice()).as_str());
            push_text(lines, line);
        },
        Err(_) => {
            assert(text::views(lines@) =~= text::views(lines@) + Seq::<Seq<char>>::empty());
        },
    }
}

/// One call was made for the brightness and for each mode of the light, with these
/// results.
pub open spec fn are_light_runs(
    c: Controller,
    calls: Seq<model::Call>,
    stored: Result<WriteOutcome, TransportError>,
    breathing: Result<WriteOutcome, TransportError>,
    fixed: Result<WriteOutcome, TransportError>,
) -> bool {
    &&& calls.len() == 3
    &&& is_dry_run(c, protocol::BASE_BACKLIGHT_OFFSET, DRY_BRIGHTNESS, calls[0], stored)
    &&& is_dry_run(
        c,
        protocol::BASE_BREATHING_OFFSET,
        protocol::BREATHING_VALUE,
        calls[1],
        breathing,
    )
    &&& is_dry_run(c, protocol::BASE_BREATHING_OFFSET, protocol::STATIC_VALUE, calls[2], fixed)
}

/// Shows the frames that would set the brightness and the modes of the light. The
/// word of each is read once, and nothing else is done.
pub fn backlight_dryrun<T: Transport>(t: &mut T, c: &Controller) -> (r: Vec<String>)
    ensures
        exists|
            calls: Seq<model::Call>,
            stored: Result<WriteOutcome, TransportError>,
            breathing: Result<WriteOutcome, TransportError>,
            fixed: Result<WriteOutcome, TransportError>,
        |
            {
                &&& final(t).calls() == old(t).calls() + calls
                &&& #[trigger] are_light_runs(*c, calls, stored, breathing, fixed)
                &&& text::views(r@) == light_lines(*c, stored, breathing, fixed)
            },
{
    let ghost c0 = t.calls();
    let mut lines: Vec<String> = Vec::new();
    push_text(&mut lines, head_text("backlight", c));
    let mut live: String = "  live 0x49 (val 128)   : FRAME = ".to_string();
    live.append(
        protocol::hx(
            transport::led_frame(
                c.device,
                c.family,
                protocol::LED_INDEX_BACKLIGHT,
                DRY_BRIGHTNESS,
            ).as_slice(),
        ).as_str(),
    );
    push_text(&mut lines, live);
    assert(text::views(lines@) =~= seq![dry_head("backlight"@, *c), live_line(*c)]);
    let stored: Result<WriteOutcome, TransportError> = model::set_backlight_persist(
        t,
        c.device,
        c.family,
        DRY_BRIGHTNESS,
        true,
        None,
    );
    let ghost c1 = t.calls();
    push_persist(&mut lines, &stored);
    let breathing: Result<WriteOutcome, TransportError> = model::set_breathing(
        t,
        c.device,
        c.family,
        true,
        true,
        None,
    );
    let ghost c2 = t.calls();
    push_mode(&mut lines, "breathing", &breathing);
    let fixed: Result<WriteOutcome, TransportError> = model::set_breathing(
        t,
        c.device,
        c.family,
        false,
        true,
        None,
    );
    let ghost c3 = t.calls();
    push_mode(&mut lines, "static", &fixed);
    proof {
        let light = protocol::BASE_BACKLIGHT_OFFSET;
        let mode = protocol::BASE_BREATHING_OFFSET;
        lemma_dry_run(*c, light, DRY_BRIGHTNESS, c0, c1, stored);
        lemma_dry_run(*c, mode, protocol::BREATHING_VALUE, c1, c2, breathing);
        lemma_dry_run(*c, mode, protocol::STATIC_VALUE, c2, c3, fixed);
        let calls = seq![c1.last(), c2.last(), c3.last()];
        assert(c3 =~= c0 + calls);
        assert(are_light_runs(*c, calls, stored, breathing, fixed));
        assert(text::views(lines@) == light_lines(*c, stored, breathing, fixed));
    }
    lines
}

/// What the arguments of the program mean: the joysticks are listed unless something
/// else is asked for, each other command takes the path that follows it, and without
/// the path it is refused.
pub proof fn law_commands(program: Seq<char>, path: Seq<char>)
    ensures
        command_of(seq![program]) == Order::List,
        command_of(seq![program, "--list"@]) == Order::List,
        command_of(seq![program, "--read"@, path]) == Order::Read(path),
        command_of(seq![program, "--twist-dryrun"@, path]) == Order::TwistDryRun(path),
        command_of(seq![program, "--backlight-dryrun"@, path]) == Order::BacklightDryRun(path),
        command_of(seq![program, "--read"@]) is Refuse,
        command_of(seq![program, "--twist-dryrun"@]) is Refuse,
        command_of(seq![program, "--backlight-dryrun"@]) is Refuse,
{
    reveal_strlit("--list");
    reveal_strlit("--read");
    reveal_strlit("--twist-dryrun");
    reveal_strlit("--backlight-dryrun");
    assert("--list"@.len() == 6 && "--read"@.len() == 6 && "--twist-dryrun"@.len() == 14
        && "--backlight-dryrun"@.len() == 18);
    assert("--list"@[2] == 'l' && "--read"@[2] == 'r');
}

/// A dry run on the light shows the frames for the brightness 128 and for both modes,
/// each of the word that is there with its first byte changed, and sends none.
pub proof fn law_light_dry_run(
    c: Controller,
    calls: Seq<model::Call>,
    stored: Result<WriteOutcome, TransportError>,
    breathing: Result<WriteOutcome, TransportError>,
    fixed: Result<WriteOutcome, TransportError>,
)
    requires
        are_light_runs(c, calls, stored, breathing, fixed),
    ensures
        calls.len() == 3,
        calls[0] is Read && calls[1] is Read && calls[2] is Read,
        stored matches Ok(o) ==> o.offset == 0xEC && o.new@[0] == 128 && !o.emitted,
        breathing matches Ok(o) ==> o.offset == 0xF8 && o.new@[0] == 0 && !o.emitted,
        fixed matches Ok(o) ==> o.offset == 0xF8 && o.new@[0] == 1 && !o.emitted,
{
}

/// A dry run on the twist shows the frame of each mode, of the word that is there with
/// its first byte changed, and sends none.
pub proof fn law_twist_dry_run(
    c: Controller,
    calls: Seq<model::Call>,
    results: Seq<Result<WriteOutcome, TransportError>>,
    i: int,
)
    requires
        are_twist_runs(c, calls, results),
        results.len() == 3,
        0 <= i < 3,
    ensures
        calls[i] is Read,
        results[i] matches Ok(o) ==> o.offset == 0xD8 && !o.emitted && o.new@[0] == (if i == 0 {
            0u8
        } else if i == 1 {
            1u8
        } else {
            255u8
        }),
{
    assert(is_dry_run(
        c,
        model::Z_AXIS_MODE_OFFSET,
        model::TWIST_MODES[i].1,
        calls[i],
        results[i],
    ));
}

} // verus!
