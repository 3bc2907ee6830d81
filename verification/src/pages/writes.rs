//! The writes that the pages offer, and what is said of their results.

use crate::enumerate;
use crate::enumerate::WinwingDevice;
use crate::message;
use crate::message::Message;
use crate::model;
use crate::model::{BaseLedState, Change, Transport, TransportError, WriteOrder, WriteOutcome};
use crate::protocol;
use crate::text;
use vstd::prelude::*;

verus! {

/// A write to the flash that a page offers, behind a confirmation.
#[derive(Debug, Clone, Copy, PartialEq, Eq, Structural)]
pub enum WriteAction {
    /// Deadzone of the X or Y axis of the base.
    DeadzoneBase { y_axis: bool, value: u32 },
    /// Deadzone of the twist.
    DeadzoneTwist(u8),
    /// The 4x32 mode of the base, with a restart.
    FourX32(bool),
    /// Factory reset, with a restart.
    RestoreDefault,
    /// Stored brightness of the base.
    Brightness(u8),
    /// Whether the light of the base breathes.
    Breathing(bool),
    /// Mode of the twist axis.
    Twist(u8),
}

/// The offset that an action writes.
pub open spec fn offset_of(action: WriteAction) -> u32 {
    match action {
        WriteAction::DeadzoneBase { y_axis, value } => if y_axis {
            protocol::BASE_DEADZONE_Y_OFFSET
        } else {
            protocol::BASE_DEADZONE_X_OFFSET
        },
        WriteAction::DeadzoneTwist(_) => protocol::GRIP_DEADZONE_TWIST_OFFSET,
        WriteAction::FourX32(_) => protocol::BASE_4X32_OFFSET,
        WriteAction::RestoreDefault => protocol::RESTORE_DEFAULT_OFFSET,
        WriteAction::Brightness(_) => protocol::BASE_BACKLIGHT_OFFSET,
        WriteAction::Breathing(_) => protocol::BASE_BREATHING_OFFSET,
        WriteAction::Twist(_) => model::Z_AXIS_MODE_OFFSET,
    }
}

/// The change is what an action asks for.
pub open spec fn is_change(action: WriteAction, change: Change) -> bool {
    match action {
        WriteAction::DeadzoneBase { y_axis, value } => change matches Change::Word { data }
            && model::le32(data@) == value,
        WriteAction::DeadzoneTwist(v) => change == Change::Byte {
            index: 2,
            value: if v <= protocol::DEADZONE_TWIST_MAX {
                v
            } else {
                protocol::DEADZONE_TWIST_MAX
            },
        },
        WriteAction::FourX32(on) => change == Change::Byte {
            index: 0,
            value: if on {
                1u8
            } else {
                0u8
            },
        },
        WriteAction::RestoreDefault => change == Change::Word {
            data: protocol::RESTORE_DEFAULT_DATA,
        },
        WriteAction::Brightness(v) => change == Change::Byte { index: 0, value: v },
        WriteAction::Breathing(on) => change == Change::Byte {
            index: 0,
            value: if on {
                protocol::BREATHING_VALUE
            } else {
                protocol::STATIC_VALUE
            },
        },
        WriteAction::Twist(mode) => change == Change::Byte { index: 0, value: mode },
    }
}

/// The order is what an action asks for on a controller. It is a real one, no dry
/// run.
pub open spec fn is_order(action: WriteAction, device: u8, family: u8, o: WriteOrder) -> bool {
    &&& o.device == device
    &&& o.family == family
    &&& o.offset == offset_of(action)
    &&& is_change(action, o.change)
    &&& o.restart == (action is FourX32 || action is RestoreDefault)
    &&& !o.dry_run
}

impl WriteAction {
    /// Prepares the write on a controller. What is there already is not written;
    /// else the backup is read, and the outcome waits for it to be stored: see
    /// [`model::finish_write`].
    pub fn run<T: Transport>(self, t: &mut T, device: u8, family: u8, ts: &str) -> (r: Result<
        WriteOutcome,
        TransportError,
    >)
        ensures
            model::extends(old(t).calls(), final(t).calls()),
            exists|o: WriteOrder| #[trigger]
                is_order(self, device, family, o) && model::carries_out(
                    o,
                    Some(ts@),
                    model::made(old(t).calls(), final(t).calls()),
                    r,
                ),
    {
        let ghost start = t.calls();
        match self {
            WriteAction::DeadzoneBase { y_axis, value } => {
                let r = model::set_deadzone_base(t, device, family, y_axis, value, false, Some(ts));
                proof {
                    let data = choose|data: [u8; 4]|
                        #[trigger] model::le32(data@) == value && model::carries_out(
                            WriteOrder {
                                device,
                                family,
                                offset: offset_of(self),
                                change: Change::Word { data },
                                restart: false,
                                dry_run: false,
                            },
                            Some(ts@),
                            model::made(start, t.calls()),
                            r,
                        );
                    assert(is_order(
                        self,
                        device,
                        family,
                        WriteOrder {
                            device,
                            family,
                            offset: offset_of(self),
                            change: Change::Word { data },
                            restart: false,
                            dry_run: false,
                        },
                    ));
                }
                r
            },
            WriteAction::DeadzoneTwist(v) => {
                let r = model::set_deadzone_twist(t, device, family, v, false, Some(ts));
                let ghost change = Change::Byte {
                    index: 2,
                    value: if v <= protocol::DEADZONE_TWIST_MAX {
                        v
                    } else {
                        protocol::DEADZONE_TWIST_MAX
                    },
                };
                assert(is_order(self, device, family, order(self, device, family, change)));
                r
            },
            WriteAction::FourX32(on) => {
                let r = model::set_4x32(t, device, family, on, true, false, Some(ts));
                let ghost change = Change::Byte {
                    index: 0,
                    value: if on {
                        1u8
                    } else {
                        0u8
                    },
                };
                assert(is_order(self, device, family, order(self, device, family, change)));
                r
            },
            WriteAction::RestoreDefault => {
                let r = model::restore_default(t, device, family, false, Some(ts));
                let ghost change = Change::Word { data: protocol::RESTORE_DEFAULT_DATA };
                assert(is_order(self, device, family, order(self, device, family, change)));
                r
            },
            WriteAction::Brightness(v) => {
                let r = model::set_backlight_persist(t, device, family, v, false, Some(ts));
                let ghost change = Change::Byte { index: 0, value: v };
                assert(is_order(self, device, family, order(self, device, family, change)));
                r
            },
            WriteAction::Breathing(on) => {
                let r = model::set_breathing(t, device, family, on, false, Some(ts));
                let ghost change = Change::Byte {
                    index: 0,
                    value: if on {
                        protocol::BREATHING_VALUE
                    } else {
                        protocol::STATIC_VALUE
                    },
                };
                assert(is_order(self, device, family, order(self, device, family, change)));
                r
            },
            WriteAction::Twist(mode) => {
                let r = model::set_twist_mode(t, device, family, mode, false, Some(ts));
                let ghost change = Change::Byte { index: 0, value: mode };
                assert(is_order(self, device, family, order(self, device, family, change)));
                r
            },
        }
    }
}

/// The order of a change.
pub open spec fn order(action: WriteAction, device: u8, family: u8, change: Change) -> WriteOrder {
    WriteOrder {
        device,
        family,
        offset: offset_of(action),
        change,
        restart: action is FourX32 || action is RestoreDefault,
        dry_run: false,
    }
}

/// No action of a page writes where the identity of the joystick is, nor where
/// writing is forbidden.
pub proof fn law_actions_pass_the_guard(action: WriteAction)
    ensures
        protocol::guard_verdict(offset_of(action), false) is Ok,
{
}

// --- Results --------------------------------------------------------------------------------------

/// What became of a write.
#[derive(Debug, Clone, Copy, PartialEq, Eq, Structural)]
pub enum Verdict {
    /// The value was there already.
    Unchanged,
    /// What was read back is what was written.
    Confirmed,
    /// It was sent, but not confirmed.
    Unconfirmed,
    /// Nothing was sent.
    Nothing,
}

/// What became of a write.
pub open spec fn verdict_of(out: WriteOutcome) -> Verdict {
    if out.skipped {
        Verdict::Unchanged
    } else if out.verified {
        Verdict::Confirmed
    } else if out.emitted {
        Verdict::Unconfirmed
    } else {
        Verdict::Nothing
    }
}

/// What became of a write.
pub fn verdict(out: &WriteOutcome) -> (r: Verdict)
    ensures
        r == verdict_of(*out),
{
    if out.skipped {
        Verdict::Unchanged
    } else if out.verified {
        Verdict::Confirmed
    } else if out.emitted {
        Verdict::Unconfirmed
    } else {
        Verdict::Nothing
    }
}

/// Whether the value is now the one that was asked for, so that the page may show
/// it.
pub fn takes_effect(out: &WriteOutcome) -> (r: bool)
    ensures
        r == (out.verified || out.skipped),
        r == (verdict_of(*out) is Unchanged || verdict_of(*out) is Confirmed),
{
    out.verified || out.skipped
}

/// What is said of the result of a write.
pub open spec fn result_text(v: Verdict) -> Seq<char> {
    match v {
        Verdict::Unchanged => "Already at this value — nothing to write"@,
        Verdict::Confirmed => "Written"@,
        Verdict::Unconfirmed => "Written but not confirmed"@,
        Verdict::Nothing => "Nothing written"@,
    }
}

/// What is said of the result of a write.
pub fn write_result_msg(out: &WriteOutcome) -> (r: Message)
    ensures
        r@ == message::said(result_text(verdict_of(*out)), Seq::empty()),
{
    proof {
        reveal_strlit("Already at this value — nothing to write");
        reveal_strlit("Written");
        reveal_strlit("Written but not confirmed");
        reveal_strlit("Nothing written");
    }
    Message::plain(
        match verdict(out) {
            Verdict::Unchanged => "Already at this value — nothing to write",
            Verdict::Confirmed => "Written",
            Verdict::Unconfirmed => "Written but not confirmed",
            Verdict::Nothing => "Nothing written",
        },
    )
}

/// What is said of the result of a write of the light.
pub fn light_result_msg(out: &WriteOutcome) -> (r: Message)
    ensures
        r@ == message::said(
            if verdict_of(*out) is Confirmed {
                "Setting written"@
            } else {
                result_text(verdict_of(*out))
            },
            Seq::empty(),
        ),
{
    match verdict(out) {
        Verdict::Confirmed => {
            proof {
                reveal_strlit("Setting written");
            }
            Message::plain("Setting written")
        },
        _ => write_result_msg(out),
    }
}

/// What is said of the result of a write of the twist mode.
pub open spec fn twist_result_text(v: Verdict) -> Seq<char> {
    match v {
        Verdict::Unchanged => "Already \"{}\" — nothing to write"@,
        Verdict::Confirmed => "Yaw mode written: {}"@,
        Verdict::Unconfirmed => "Written but not confirmed: {}"@,
        Verdict::Nothing => "Nothing written: {}"@,
    }
}

/// What is said of the result of a write of the twist mode, by its label.
pub fn twist_result_msg(out: &WriteOutcome, label: &str) -> (r: Message)
    ensures
        r@ == message::said(twist_result_text(verdict_of(*out)), seq![label@]),
{
    proof {
        reveal_strlit("Already \"{}\" — nothing to write");
        reveal_strlit("Yaw mode written: {}");
        reveal_strlit("Written but not confirmed: {}");
        reveal_strlit("Nothing written: {}");
    }
    Message::about(
        match verdict(out) {
            Verdict::Unchanged => "Already \"{}\" — nothing to write",
            Verdict::Confirmed => "Yaw mode written: {}",
            Verdict::Unconfirmed => "Written but not confirmed: {}",
            Verdict::Nothing => "Nothing written: {}",
        },
        label,
    )
}

/// The modes of the twist that can be chosen, with their labels.
pub fn twist_choices() -> (r: [(&'static str, u8); 3])
    ensures
        r@ == seq![
            ("Buttons", protocol::Z_MODE_BUTTONS_ONLY),
            ("Axis + buttons", protocol::Z_MODE_AXIS_AND_BUTTONS),
            ("Axis only", protocol::Z_MODE_AXIS_ONLY),
        ],
{
    let r: [(&'static str, u8); 3] = [
        ("Buttons", protocol::Z_MODE_BUTTONS_ONLY),
        ("Axis + buttons", protocol::Z_MODE_AXIS_AND_BUTTONS),
        ("Axis only", protocol::Z_MODE_AXIS_ONLY),
    ];
    assert(r@ =~= seq![
        ("Buttons", protocol::Z_MODE_BUTTONS_ONLY),
        ("Axis + buttons", protocol::Z_MODE_AXIS_AND_BUTTONS),
        ("Axis only", protocol::Z_MODE_AXIS_ONLY),
    ]);
    r
}

// --- Controllers and settings ---------------------------------------------------------------------

/// The address of the base: the one of the joystick, or the usual one.
pub fn base_ctrl(dev: &WinwingDevice) -> (r: (u8, u8))
    ensures
        r == match enumerate::first_of_family(dev.controllers@, protocol::FAMILY_BASE) {
            Some(c) => (c.device, c.family),
            None => (protocol::DEVICE_BASE, protocol::FAMILY_BASE),
        },
{
    match dev.controller_of_family(protocol::FAMILY_BASE) {
        Some(c) => (c.device, c.family),
        None => (protocol::DEVICE_BASE, protocol::FAMILY_BASE),
    }
}

/// The address of the grip, when the joystick has one.
pub fn grip_ctrl(dev: &WinwingDevice) -> (r: Option<(u8, u8)>)
    ensures
        r == match enumerate::first_of_family(dev.controllers@, protocol::FAMILY_GRIP) {
            Some(c) => Some((c.device, c.family)),
            None => None,
        },
{
    match dev.controller_of_family(protocol::FAMILY_GRIP) {
        Some(c) => Some((c.device, c.family)),
        None => None,
    }
}

/// What is said of a deadzone: its value, when it has one.
pub fn deadzone_subtitle(value: Option<u32>) -> (r: Message)
    ensures
        r@ == match value {
            Some(v) => message::said("Deadzone active: {}"@, seq![text::dec(v as nat)]),
            None => message::said("Disabled (no deadzone)"@, Seq::empty()),
        },
{
    proof {
        reveal_strlit("Deadzone active: {}");
        reveal_strlit("Disabled (no deadzone)");
    }
    match value {
        Some(v) => Message::about("Deadzone active: {}", text::dec_text(v as u64).as_str()),
        None => Message::plain("Disabled (no deadzone)"),
    }
}

/// The modes of the light.
#[derive(Debug, Clone, Copy, PartialEq, Eq, Structural)]
pub enum LightMode {
    Off,
    Breathing,
    Static,
}

/// The mode of the light: it is off at no brightness, or when the brightness is not
/// known.
pub fn light_mode(led: &BaseLedState) -> (r: LightMode)
    ensures
        r == if led.brightness is None || led.brightness == Some(0u8) {
            LightMode::Off
        } else if led.breathing == Some(true) {
            LightMode::Breathing
        } else {
            LightMode::Static
        },
{
    let v: u8 = match led.brightness {
        Some(v) => v,
        None => 0,
    };
    let breathes: bool = match led.breathing {
        Some(b) => b,
        None => false,
    };
    if v == 0 {
        LightMode::Off
    } else if breathes {
        LightMode::Breathing
    } else {
        LightMode::Static
    }
}

impl LightMode {
    /// The write that chooses the mode.
    pub fn action(self) -> (r: WriteAction)
        ensures
            r == match self {
                LightMode::Off => WriteAction::Brightness(0),
                LightMode::Breathing => WriteAction::Breathing(true),
                LightMode::Static => WriteAction::Breathing(false),
            },
    {
        match self {
            LightMode::Off => WriteAction::Brightness(0),
            LightMode::Breathing => WriteAction::Breathing(true),
            LightMode::Static => WriteAction::Breathing(false),
        }
    }

    /// The label of the mode, before its translation.
    pub fn label(self) -> (r: &'static str)
        ensures
            r@ == match self {
                LightMode::Off => "Off"@,
                LightMode::Breathing => "Breathing"@,
                LightMode::Static => "Static"@,
            },
    {
        match self {
            LightMode::Off => "Off",
            LightMode::Breathing => "Breathing",
            LightMode::Static => "Static",
        }
    }
}

/// What an action has stored is what a later snapshot shows: each value under its own
/// name.
pub proof fn law_stored_action_is_shown(
    action: WriteAction,
    o: WriteOrder,
    s: model::DeviceSnapshot,
    path: Seq<char>,
    controllers: Seq<enumerate::Controller>,
    a: Seq<model::PartReplies>,
    memory: model::Memory,
    b: int,
    was: [u8; 4],
)
    requires
        model::is_snapshot_of(s, path, controllers, a, memory),
        0 <= b < controllers.len(),
        model::is_last_of(controllers, controllers[b].family, b),
        is_order(action, controllers[b].device, controllers[b].family, o),
        model::has_stored(o, memory, was),
        controllers[b].family == (if action is Twist || action is DeadzoneTwist {
            0xBFu8
        } else {
            0xBBu8
        }),
    ensures
        action matches WriteAction::DeadzoneBase { y_axis, value } ==> (if y_axis {
            s.deadzone_y
        } else {
            s.deadzone_x
        }) == Some(value),
        action matches WriteAction::DeadzoneTwist(v) ==> (v <= 30 ==> s.twist_deadzone == Some(v)),
        action matches WriteAction::FourX32(on) ==> s.base_4x32 == Some(on),
        action matches WriteAction::Brightness(v) ==> (v != 255 ==> s.base_led->0.brightness
            == Some(v)),
        action matches WriteAction::Breathing(on) ==> s.base_led->0.breathing == Some(on),
        action matches WriteAction::Twist(mode) ==> s.config.controllers[b].twist_mode == Some(
            mode,
        ),
{
    if controllers[b].family == 0xBB {
        model::law_snapshot_shows_the_base(s, path, controllers, a, memory, b);
    } else {
        model::law_snapshot_shows_the_grip(s, path, controllers, a, memory, b);
        model::law_snapshot_shows_the_twist_mode(s, path, controllers, a, memory, b);
    }
}

/// An action goes to the controller that it is asked for on, never as a dry run; only
/// the 4x32 mode and the factory reset restart it, and the reset writes the flag that
/// the controller looks for.
pub proof fn law_actions_restart_where_needed(
    action: WriteAction,
    device: u8,
    family: u8,
    o: WriteOrder,
)
    requires
        is_order(action, device, family, o),
    ensures
        o.device == device && o.family == family && !o.dry_run,
        o.restart <==> action is FourX32 || action is RestoreDefault,
        action is RestoreDefault ==> o.offset == 0xB4 && (forall|w: Seq<u8>|
            #[trigger] o.change.applied(w) == protocol::RESTORE_DEFAULT_DATA@),
{
}

/// A write that was sent counts as confirmed exactly when the word that was read back
/// is the word that was written.
pub proof fn law_confirmed_means_read_back(
    plan: WriteOutcome,
    device: u8,
    family: u8,
    restart: bool,
    backup: Option<Seq<char>>,
    calls: Seq<model::Call>,
    out: WriteOutcome,
)
    requires
        model::sends(
            plan,
            device,
            family,
            restart,
            backup,
            calls,
            Ok::<WriteOutcome, TransportError>(out),
        ),
    ensures
        verdict_of(out) is Confirmed <==> model::reply_of(calls[1]) == Some(plan.new),
        verdict_of(out) is Unconfirmed <==> model::reply_of(calls[1]) != Some(plan.new),
{
}

/// A value that is there already is said to be there, and nothing is sent; a value
/// that differs is not said to be there.
pub proof fn law_unchanged_means_it_was_there(
    o: WriteOrder,
    ts: Option<Seq<char>>,
    calls: Seq<model::Call>,
    out: WriteOutcome,
)
    requires
        model::carries_out(o, ts, calls, Ok::<WriteOutcome, TransportError>(out)),
        !o.dry_run,
    ensures
        verdict_of(out) is Unchanged <==> (model::reply_of(calls[0]) matches Some(w)
            && o.change.applied(w@) == w@),
        verdict_of(out) is Unchanged ==> calls.len() == 1,
        ts is Some && !(verdict_of(out) is Unchanged) ==> verdict_of(out) is Nothing,
{
}

/// The mode of the light that is chosen is the one that is shown once its write is
/// stored, as long as the light is not off.
pub proof fn law_chosen_light_is_shown(
    mode: LightMode,
    action: WriteAction,
    led: &BaseLedState,
    shown: LightMode,
)
    requires
        call_ensures(LightMode::action, (mode,), action),
        call_ensures(light_mode, (led,), shown),
    ensures
        action matches WriteAction::Brightness(v) ==> (led.brightness == Some(v) ==> shown == mode),
        action matches WriteAction::Breathing(on) ==> (led.breathing == Some(on) && led.brightness
            is Some && led.brightness != Some(0u8) ==> shown == mode),
        action is Brightness || action is Breathing,
        led.brightness == Some(0u8) ==> shown is Off,
{
}

} // verus!
