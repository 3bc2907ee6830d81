//! The page of remapping: what is running, and what may be started or changed.
//!
//! One session runs at a time, since it captures the joystick.

use crate::enumerate::WinwingDevice;
use crate::message;
use crate::message::Message;
use crate::pages;
use crate::remap;
use crate::remap_store::RemapMapping;
use crate::text;
use vstd::prelude::*;

verus! {

/// What a session does.
#[derive(Debug, Clone, Copy, PartialEq, Eq, Structural)]
pub enum SessionMode {
    Split,
    Remap,
}

impl SessionMode {
    /// The name of the mode in a plan.
    pub fn plan_mode(self) -> (r: &'static str)
        ensures
            r@ == match self {
                SessionMode::Split => "split"@,
                SessionMode::Remap => "remap"@,
            },
    {
        match self {
            SessionMode::Split => "split",
            SessionMode::Remap => "remap",
        }
    }
}

/// The session that runs, if any: what it does, and on which endpoint.
#[derive(Debug)]
pub struct Session {
    pub mode: Option<SessionMode>,
    pub hidraw: Option<String>,
}

impl Default for Session {
    fn default() -> (r: Self)
        ensures
            r.mode is None,
            r.hidraw is None,
    {
        Session { mode: None, hidraw: None }
    }
}

impl Session {
    /// Whether a joystick that becomes the chosen one is the one that the session
    /// runs on. If not, the session ends.
    pub fn survives(&self, dev: &WinwingDevice) -> (r: bool)
        ensures
            r == pages::is_text(self.hidraw, dev.hidraw@),
    {
        !pages::must_reload(&self.hidraw, dev.hidraw.as_str())
    }

    /// Whether a session of this mode runs on this joystick.
    pub fn daemon_here(&self, dev: &WinwingDevice, mode: SessionMode) -> (r: bool)
        ensures
            r == (self.mode == Some(mode) && pages::is_text(self.hidraw, dev.hidraw@)),
    {
        match self.mode {
            Some(m) => m == mode && self.survives(dev),
            None => false,
        }
    }

    /// The session after it was started.
    pub fn started(dev: &WinwingDevice, mode: SessionMode) -> (r: Self)
        ensures
            r.mode == Some(mode),
            pages::is_text(r.hidraw, dev.hidraw@),
    {
        Session { mode: Some(mode), hidraw: Some(dev.hidraw.as_str().to_string()) }
    }

    /// What is said of the splitting.
    pub fn split_subtitle(&self, n_slots: u32) -> (r: Message)
        ensures
            r@ == if self.mode == Some(SessionMode::Split) {
                message::counted_as(
                    "active — {} 32-button controller"@,
                    "active — {} 32-button controllers"@,
                    n_slots,
                )
            } else {
                message::said("inactive"@, Seq::empty())
            },
    {
        proof {
            reveal_strlit("active — {} 32-button controller");
            reveal_strlit("active — {} 32-button controllers");
            reveal_strlit("inactive");
        }
        match self.mode {
            Some(SessionMode::Split) => Message::counted(
                "active — {} 32-button controller",
                "active — {} 32-button controllers",
                n_slots,
            ),
            _ => Message::plain("inactive"),
        }
    }

    /// What is said of the remapping, which has `n` entries.
    pub fn remap_subtitle(&self, n: u32) -> (r: Message)
        ensures
            r@ == if self.mode == Some(SessionMode::Remap) {
                message::counted_as(
                    "active — {} remapping"@,
                    "active — {} remappings"@,
                    n,
                )
            } else if n == 0 {
                message::said("inactive — no remapping"@, Seq::empty())
            } else {
                message::counted_as(
                    "inactive — {} saved remapping"@,
                    "inactive — {} saved remappings"@,
                    n,
                )
            },
    {
        proof {
            reveal_strlit("active — {} remapping");
            reveal_strlit("active — {} remappings");
            reveal_strlit("inactive — no remapping");
            reveal_strlit("inactive — {} saved remapping");
            reveal_strlit("inactive — {} saved remappings");
        }
        match self.mode {
            Some(SessionMode::Remap) => Message::counted(
                "active — {} remapping",
                "active — {} remappings",
                n,
            ),
            _ => if n == 0 {
                Message::plain("inactive — no remapping")
            } else {
                Message::counted(
                    "inactive — {} saved remapping",
                    "inactive — {} saved remappings",
                    n,
                )
            },
        }
    }
}

/// Why a session cannot be started, if so: the joystick has no input device, or
/// there is no remapping to follow.
pub fn start_refusal(dev: &WinwingDevice, mode: SessionMode, mapping: &RemapMapping) -> (r: Option<
    Message,
>)
    ensures
        r is Some <==> dev.evdev@.len() == 0 || (mode == SessionMode::Remap && mapping@
            == Map::<u32, u32>::empty()),
        r is Some ==> r->0@ == message::said(
            if dev.evdev@.len() == 0 {
                "Input device not found for this joystick"@
            } else {
                "No remapping — add some before enabling it"@
            },
            Seq::empty(),
        ),
{
    proof {
        reveal_strlit("Input device not found for this joystick");
        reveal_strlit("No remapping — add some before enabling it");
    }
    if dev.evdev.as_str().is_empty() {
        return Some(Message::plain("Input device not found for this joystick"));
    }
    match mode {
        SessionMode::Remap => if mapping.is_empty() {
            Some(Message::plain("No remapping — add some before enabling it"))
        } else {
            None
        },
        SessionMode::Split => None,
    }
}

/// What is said when a session has started.
pub fn started_msg(mode: SessionMode, n_slots: usize) -> (r: Message)
    ensures
        r@ == match mode {
            SessionMode::Split => message::said(
                "Splitting active — {} virtual controllers"@,
                seq![text::dec(n_slots as nat)],
            ),
            SessionMode::Remap => message::said(
                "Remapping active — virtual controller"@,
                Seq::empty(),
            ),
        },
{
    proof {
        reveal_strlit("Splitting active — {} virtual controllers");
        reveal_strlit("Remapping active — virtual controller");
    }
    match mode {
        SessionMode::Split => Message::about(
            "Splitting active — {} virtual controllers",
            text::dec_text(n_slots as u64).as_str(),
        ),
        SessionMode::Remap => Message::plain("Remapping active — virtual controller"),
    }
}

/// Why a button cannot be captured, if so: a session captures the joystick, it has
/// no input device, the device does not open, or it has no buttons. `buttons` is
/// the number of buttons of the opened device.
pub fn capture_refusal(running: bool, dev: &WinwingDevice, buttons: Option<usize>) -> (r: Option<
    Message,
>)
    ensures
        r is None <==> !running && dev.evdev@.len() > 0 && buttons is Some && buttons->0 > 0,
        r is Some ==> r->0@ == message::said(
            if running {
                "Stop splitting or remapping before assigning a button"@
            } else if dev.evdev@.len() == 0 {
                "Input device not found — use \"Enter…\""@
            } else if buttons is None {
                "Monitor unavailable — use \"Enter…\""@
            } else {
                "No button detected — use \"Enter…\""@
            },
            Seq::empty(),
        ),
{
    proof {
        reveal_strlit("Stop splitting or remapping before assigning a button");
        reveal_strlit("Input device not found — use \"Enter…\"");
        reveal_strlit("Monitor unavailable — use \"Enter…\"");
        reveal_strlit("No button detected — use \"Enter…\"");
    }
    if running {
        return Some(Message::plain("Stop splitting or remapping before assigning a button"));
    }
    if dev.evdev.as_str().is_empty() {
        return Some(Message::plain("Input device not found — use \"Enter…\""));
    }
    match buttons {
        None => Some(Message::plain("Monitor unavailable — use \"Enter…\"")),
        Some(n) => if n == 0 {
            Some(Message::plain("No button detected — use \"Enter…\""))
        } else {
            None
        },
    }
}

/// The highest number of a button that may be entered: that of the last button of
/// the opened device, at least one; without a device, that of the last output.
pub fn entry_limit(buttons: Option<u32>) -> (r: u32)
    ensures
        r == match buttons {
            Some(n) => if n == 0 {
                1u32
            } else {
                n
            },
            None => 80u32,
        },
        buttons is None ==> r == remap::MAX_OUTPUT_ORDINAL,
{
    match buttons {
        Some(n) => if n == 0 {
            1
        } else {
            n
        },
        None => remap::MAX_OUTPUT_ORDINAL as u32,
    }
}

/// Messages as their plain values.
pub open spec fn sayings(m: Seq<Message>) -> Seq<message::Saying> {
    Seq::new(m.len(), |i: int| m[i]@)
}

/// A running remapping does not follow a change until it is started again.
pub open spec fn restart_hint(running: Option<SessionMode>) -> Seq<message::Saying> {
    if running == Some(SessionMode::Remap) {
        seq![message::said("Restart remapping to apply it"@, Seq::empty())]
    } else {
        Seq::empty()
    }
}

fn push_hint(out: &mut Vec<Message>, running: Option<SessionMode>)
    ensures
        sayings(final(out)@) == sayings(old(out)@) + restart_hint(running),
{
    proof {
        reveal_strlit("Restart remapping to apply it");
    }
    match running {
        Some(SessionMode::Remap) => {
            out.push(Message::plain("Restart remapping to apply it"));
        },
        _ => {},
    }
    assert(sayings(out@) =~= sayings(old(out)@) + restart_hint(running));
}

/// What is said after a button was given an output: its own number removes the
/// remapping.
pub fn set_msgs(src: u32, dst: u32, running: Option<SessionMode>) -> (r: Vec<Message>)
    ensures
        sayings(r@) == if src == dst {
            seq![
                message::said(
                    "Remapping of button #{} removed (identity)"@,
                    seq![text::dec(src as nat)],
                ),
            ]
        } else {
            seq![
                message::said(
                    "Button #{} → #{} saved"@,
                    seq![text::dec(src as nat), text::dec(dst as nat)],
                ),
            ] + restart_hint(running)
        },
{
    proof {
        reveal_strlit("Remapping of button #{} removed (identity)");
        reveal_strlit("Button #{} → #{} saved");
    }
    let mut out: Vec<Message> = Vec::new();
    let s: String = text::dec_text(src as u64);
    if src == dst {
        let m: Message = Message::about("Remapping of button #{} removed (identity)", s.as_str());
        let ghost mv = m@;
        out.push(m);
        assert(sayings(out@) =~= seq![mv]);
    } else {
        let d: String = text::dec_text(dst as u64);
        let m: Message = Message::about_both("Button #{} → #{} saved", s.as_str(), d.as_str());
        let ghost mv = m@;
        out.push(m);
        assert(sayings(out@) =~= seq![mv]);
        push_hint(&mut out, running);
    }
    out
}

/// What is said after the remapping of a button was removed.
pub fn removed_msgs(src: u32, running: Option<SessionMode>) -> (r: Vec<Message>)
    ensures
        sayings(r@) == seq![
            message::said("Remapping of button #{} removed"@, seq![text::dec(src as nat)]),
        ] + restart_hint(running),
{
    proof {
        reveal_strlit("Remapping of button #{} removed");
    }
    let mut out: Vec<Message> = Vec::new();
    let s: String = text::dec_text(src as u64);
    let m: Message = Message::about("Remapping of button #{} removed", s.as_str());
    let ghost mv = m@;
    out.push(m);
    assert(sayings(out@) =~= seq![mv]);
    push_hint(&mut out, running);
    out
}

} // verus!
