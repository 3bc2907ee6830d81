//! The page of the live monitor.

use crate::enumerate::WinwingDevice;
use crate::livemon::AxisState;
use crate::message;
use crate::message::Message;
use vstd::prelude::*;

verus! {

/// Why the monitor of a joystick cannot be opened, if so: it has no input device,
/// or the device is not readable.
pub fn monitor_refusal(dev: &WinwingDevice, readable: bool) -> (r: Option<Message>)
    ensures
        r is Some <==> dev.evdev@.len() == 0 || !readable,
        r is Some ==> r->0@ == if dev.evdev@.len() == 0 {
            message::said("No input device associated with this joystick."@, Seq::empty())
        } else {
            message::said(
                "Input device not readable: {}\n(install the access rule)"@,
                seq![dev.evdev@],
            )
        },
{
    proof {
        reveal_strlit("No input device associated with this joystick.");
        reveal_strlit("Input device not readable: {}\n(install the access rule)");
    }
    if dev.evdev.as_str().is_empty() {
        Some(Message::plain("No input device associated with this joystick."))
    } else if !readable {
        Some(
            Message::about(
                "Input device not readable: {}\n(install the access rule)",
                dev.evdev.as_str(),
            ),
        )
    } else {
        None
    }
}

/// The title of an axis: its name, and its translated description when it has one.
pub fn axis_title(ax: &AxisState, description: &str, between: &str) -> (r: String)
    ensures
        r@ == if ax.desc@.len() == 0 {
            ax.name@
        } else {
            ax.name@ + between@ + description@
        },
{
    let mut out: String = ax.name.as_str().to_string();
    if !ax.desc.is_empty() {
        out.append(between);
        out.append(description);
    }
    out
}

} // verus!
