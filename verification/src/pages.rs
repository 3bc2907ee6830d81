//! The pages of the window: what each one shows and decides.
//!
//! A joystick is read once, when it is chosen; the pages share what was read.

pub mod axes;
pub mod buttons;
pub mod calibration;
pub mod general;
pub mod remapping;
pub mod writes;

use crate::enumerate::WinwingDevice;
use crate::message;
use crate::message::Message;
use crate::model::{DeviceSnapshot, TransportError};
use crate::text;
use std::rc::Rc;
use vstd::prelude::*;

verus! {

/// The pages, in the order of their tabs.
#[derive(Debug, Clone, Copy, PartialEq, Eq, Structural)]
pub enum PageKind {
    General,
    Backlight,
    Calibration,
    Vibration,
    Profiles,
    Buttons,
    Remap,
    Axes,
}

impl PageKind {
    pub open spec fn id(self) -> &'static str {
        match self {
            PageKind::General => "main",
            PageKind::Backlight => "backlight",
            PageKind::Calibration => "calibration",
            PageKind::Vibration => "vibration",
            PageKind::Profiles => "profiles",
            PageKind::Buttons => "buttons",
            PageKind::Remap => "remap",
            PageKind::Axes => "axes",
        }
    }

    /// The name of the page in the stack.
    pub fn stack_id(self) -> (r: &'static str)
        ensures
            r == self.id(),
    {
        match self {
            PageKind::General => "main",
            PageKind::Backlight => "backlight",
            PageKind::Calibration => "calibration",
            PageKind::Vibration => "vibration",
            PageKind::Profiles => "profiles",
            PageKind::Buttons => "buttons",
            PageKind::Remap => "remap",
            PageKind::Axes => "axes",
        }
    }

    /// The title of the tab, before its translation.
    pub fn title(self) -> (r: &'static str)
        ensures
            r@ == match self {
                PageKind::General => "General"@,
                PageKind::Backlight => "Backlight"@,
                PageKind::Calibration => "Calibration"@,
                PageKind::Vibration => "Vibration"@,
                PageKind::Profiles => "Profiles"@,
                PageKind::Buttons => "Buttons"@,
                PageKind::Remap => "Remap"@,
                PageKind::Axes => "Axes"@,
            },
    {
        match self {
            PageKind::General => "General",
            PageKind::Backlight => "Backlight",
            PageKind::Calibration => "Calibration",
            PageKind::Vibration => "Vibration",
            PageKind::Profiles => "Profiles",
            PageKind::Buttons => "Buttons",
            PageKind::Remap => "Remap",
            PageKind::Axes => "Axes",
        }
    }

    /// The name of the icon of the tab.
    pub fn icon_name(self) -> (r: &'static str)
        ensures
            r@ == match self {
                PageKind::General => "dialog-information-symbolic"@,
                PageKind::Backlight => "display-brightness-symbolic"@,
                PageKind::Calibration => "preferences-system-symbolic"@,
                PageKind::Vibration => "media-playback-start-symbolic"@,
                PageKind::Profiles => "document-save-symbolic"@,
                PageKind::Buttons => "input-gaming-symbolic"@,
                PageKind::Remap => "media-playlist-shuffle-symbolic"@,
                PageKind::Axes => "input-gaming-symbolic"@,
            },
    {
        match self {
            PageKind::General => "dialog-information-symbolic",
            PageKind::Backlight => "display-brightness-symbolic",
            PageKind::Calibration => "preferences-system-symbolic",
            PageKind::Vibration => "media-playback-start-symbolic",
            PageKind::Profiles => "document-save-symbolic",
            PageKind::Buttons => "input-gaming-symbolic",
            PageKind::Remap => "media-playlist-shuffle-symbolic",
            PageKind::Axes => "input-gaming-symbolic",
        }
    }
}

/// All pages, in the order of their tabs.
pub open spec fn page_order() -> Seq<PageKind> {
    seq![
        PageKind::General,
        PageKind::Backlight,
        PageKind::Calibration,
        PageKind::Vibration,
        PageKind::Profiles,
        PageKind::Buttons,
        PageKind::Remap,
        PageKind::Axes,
    ]
}

/// All pages, in the order of their tabs.
pub fn all_pages() -> (r: Vec<PageKind>)
    ensures
        r@ == page_order(),
{
    let r: Vec<PageKind> = vec![
        PageKind::General,
        PageKind::Backlight,
        PageKind::Calibration,
        PageKind::Vibration,
        PageKind::Profiles,
        PageKind::Buttons,
        PageKind::Remap,
        PageKind::Axes,
    ];
    assert(r@ =~= page_order());
    r
}

/// The names of the pages are distinct.
pub proof fn law_page_names_are_distinct(a: PageKind, b: PageKind)
    requires
        a.id()@ == b.id()@,
    ensures
        a == b,
{
    reveal_strlit("main");
    reveal_strlit("backlight");
    reveal_strlit("calibration");
    reveal_strlit("vibration");
    reveal_strlit("profiles");
    reveal_strlit("buttons");
    reveal_strlit("remap");
    reveal_strlit("axes");
    assert("main"@.len() == 4 && "axes"@.len() == 4 && "main"@[0] == 'm' && "axes"@[0] == 'a');
    assert("backlight"@.len() == 9 && "vibration"@.len() == 9 && "backlight"@[0] == 'b'
        && "vibration"@[0] == 'v');
    assert("calibration"@.len() == 11 && "profiles"@.len() == 8 && "buttons"@.len() == 7
        && "remap"@.len() == 5);
    assert(a.id()@.len() == b.id()@.len());
    assert(a.id()@[0] == b.id()@[0]);
}

/// The page with a name, when there is one.
pub fn page_named(name: &str) -> (r: Option<PageKind>)
    ensures
        r matches Some(p) ==> p.id()@ == name@,
        r is None ==> forall|p: PageKind| (#[trigger] p.id())@ != name@,
{
    let pages: Vec<PageKind> = all_pages();
    let mut i: usize = 0;
    while i < pages.len()
        invariant
            i <= pages.len(),
            pages@ == page_order(),
            forall|k: int| 0 <= k < i ==> (#[trigger] page_order()[k]).id()@ != name@,
        decreases pages.len() - i,
    {
        if text::str_eq(pages[i].stack_id(), name) {
            return Some(pages[i]);
        }
        i += 1;
    }
    assert forall|p: PageKind| (#[trigger] p.id())@ != name@ by {
        let at: int = match p {
            PageKind::General => 0,
            PageKind::Backlight => 1,
            PageKind::Calibration => 2,
            PageKind::Vibration => 3,
            PageKind::Profiles => 4,
            PageKind::Buttons => 5,
            PageKind::Remap => 6,
            PageKind::Axes => 7,
        };
        assert(page_order()[at] == p);
    }
    None
}

// --- State --------------------------------------------------------------------------------------

/// What the pages are about.
#[derive(Debug, Clone)]
pub enum PageState {
    /// No joystick is chosen.
    NoDevice,
    /// The joystick is being read.
    Loading(WinwingDevice),
    /// The joystick was read.
    Ready(WinwingDevice, Rc<DeviceSnapshot>),
    /// The joystick could not be read, and why.
    Error(WinwingDevice, String),
}

impl PageState {
    /// The joystick, when there is one.
    pub fn device(&self) -> (r: Option<&WinwingDevice>)
        ensures
            match *self {
                PageState::NoDevice => r is None,
                PageState::Loading(d) => r == Some(&d),
                PageState::Ready(d, s) => r == Some(&d),
                PageState::Error(d, m) => r == Some(&d),
            },
    {
        match self {
            PageState::NoDevice => None,
            PageState::Loading(d) => Some(d),
            PageState::Ready(d, _) => Some(d),
            PageState::Error(d, _) => Some(d),
        }
    }
}

/// What a failed reading is told as.
pub open spec fn failure_text(hidraw: Seq<char>, error: Seq<char>) -> Seq<char> {
    hidraw + " : "@ + error
}

/// The state after a reading.
pub fn after_reading(dev: WinwingDevice, read: Result<DeviceSnapshot, TransportError>) -> (r:
    PageState)
    ensures
        match read {
            Ok(s) => r matches PageState::Ready(d, snap) && d == dev && *snap == s,
            Err(e) => r matches PageState::Error(d, m) && d == dev && m@ == failure_text(
                dev.hidraw@,
                e.cause(),
            ),
        },
{
    match read {
        Ok(s) => PageState::Ready(dev, Rc::new(s)),
        Err(e) => {
            let mut m: String = dev.hidraw.as_str().to_string();
            m.append(" : ");
            m.append(e.reason().as_str());
            PageState::Error(dev, m)
        },
    }
}

/// What stands in the place of a page, when it cannot be shown.
pub open spec fn instead_of(page: PageKind, state: PageState) -> Option<message::Saying> {
    match state {
        PageState::NoDevice => Some(
            message::said("Select a joystick from the list."@, Seq::empty()),
        ),
        PageState::Loading(d) => match page {
            PageKind::General | PageKind::Backlight | PageKind::Calibration | PageKind::Axes => Some(
                message::said("Reading {} …"@, seq![d.hidraw@]),
            ),
            PageKind::Buttons => Some(message::said("Opening {} …"@, seq![d.hidraw@])),
            _ => None,
        },
        PageState::Error(d, m) => match page {
            PageKind::General => Some(
                message::said("Read failed: {}\n(is the access rule installed?)"@, seq![m@]),
            ),
            PageKind::Buttons => Some(
                message::said(
                    "Joystick unavailable: {}\n(is the access rule installed?)"@,
                    seq![m@],
                ),
            ),
            PageKind::Backlight | PageKind::Calibration | PageKind::Axes => Some(
                message::said("Read failed: {}"@, seq![m@]),
            ),
            _ => None,
        },
        PageState::Ready(d, s) => None,
    }
}

/// What stands in the place of a page, when it cannot be shown. The pages on
/// vibration, profiles and remapping do not need what is read: they show as soon as
/// a joystick is chosen.
pub fn placeholder(page: PageKind, state: &PageState) -> (r: Option<Message>)
    ensures
        match instead_of(page, *state) {
            Some(s) => r is Some && r->0@ == s,
            None => r is None,
        },
{
    proof {
        reveal_strlit("Select a joystick from the list.");
        reveal_strlit("Reading {} …");
        reveal_strlit("Opening {} …");
        reveal_strlit("Read failed: {}\n(is the access rule installed?)");
        reveal_strlit("Joystick unavailable: {}\n(is the access rule installed?)");
        reveal_strlit("Read failed: {}");
    }
    match state {
        PageState::NoDevice => Some(Message::plain("Select a joystick from the list.")),
        PageState::Loading(d) => match page {
            PageKind::General | PageKind::Backlight | PageKind::Calibration | PageKind::Axes => Some(
                Message::about("Reading {} …", d.hidraw.as_str()),
            ),
            PageKind::Buttons => Some(Message::about("Opening {} …", d.hidraw.as_str())),
            _ => None,
        },
        PageState::Error(_, m) => match page {
            PageKind::General => Some(
                Message::about(
                    "Read failed: {}\n(is the access rule installed?)",
                    m.as_str(),
                ),
            ),
            PageKind::Buttons => Some(
                Message::about(
                    "Joystick unavailable: {}\n(is the access rule installed?)",
                    m.as_str(),
                ),
            ),
            PageKind::Backlight | PageKind::Calibration | PageKind::Axes => Some(
                Message::about("Read failed: {}", m.as_str()),
            ),
            _ => None,
        },
        PageState::Ready(_, _) => None,
    }
}

// --- Choosing a joystick ------------------------------------------------------------------------

/// The joystick that is chosen, and the number of its reading.
#[derive(Debug)]
pub struct Selection {
    pub selected: Option<String>,
    pub generation: u64,
}

/// The text is the chosen endpoint.
pub open spec fn is_text(s: Option<String>, t: Seq<char>) -> bool {
    s is Some && s->0@ == t
}

fn opt_is(s: &Option<String>, t: &str) -> (r: bool)
    ensures
        r == is_text(*s, t@),
{
    match s {
        Some(x) => text::str_eq(x.as_str(), t),
        None => false,
    }
}

impl Default for Selection {
    fn default() -> (r: Self)
        ensures
            r.selected is None,
            r.generation == 0,
    {
        Selection { selected: None, generation: 0 }
    }
}

impl Selection {
    /// The choice of row `idx` starts a reading: the row exists, and its joystick is
    /// not the chosen one already.
    pub open spec fn starts(self, devices: Seq<WinwingDevice>, idx: int) -> bool {
        idx < devices.len() && !is_text(self.selected, devices[idx].hidraw@)
    }

    /// Chooses the joystick of row `idx`. Gives the number of the reading to start;
    /// nothing when the row does not exist or its joystick is chosen already.
    pub fn select(&mut self, devices: &[WinwingDevice], idx: usize) -> (r: Option<u64>)
        ensures
            old(self).starts(devices@, idx as int) ==> {
                &&& is_text(final(self).selected, devices@[idx as int].hidraw@)
                &&& final(self).generation == (old(self).generation + 1) % 0x1_0000_0000_0000_0000
                &&& r == Some(final(self).generation)
            },
            !old(self).starts(devices@, idx as int) ==> {
                &&& final(self).selected == old(self).selected
                &&& final(self).generation == old(self).generation
                &&& r is None
            },
    {
        if idx >= devices.len() {
            return None;
        }
        let dev: &WinwingDevice = &devices[idx];
        if opt_is(&self.selected, dev.hidraw.as_str()) {
            return None;
        }
        self.selected = Some(dev.hidraw.as_str().to_string());
        self.generation = if self.generation == u64::MAX {
            0
        } else {
            self.generation + 1
        };
        Some(self.generation)
    }

    /// Whether the result of a reading is still wanted.
    pub fn accepts(&self, generation: u64) -> (r: bool)
        ensures
            r == (self.generation == generation),
    {
        self.generation == generation
    }
}

/// Once another joystick is chosen, the reading that was wanted before is not
/// wanted any more.
pub proof fn law_newer_choice_wins(before: Selection, after: Selection)
    requires
        after.generation == (before.generation + 1) % 0x1_0000_0000_0000_0000,
    ensures
        after.generation != before.generation,
{
}

/// A page that keeps what is being edited is only loaded anew when another joystick
/// is chosen.
pub fn must_reload(shown: &Option<String>, key: &str) -> (r: bool)
    ensures
        r == !is_text(*shown, key@),
{
    !opt_is(shown, key)
}

/// A page shows what was read as soon as it was read, and asks for a joystick when
/// none is chosen. Vibration, profiles and remapping wait for nothing else.
pub proof fn law_when_a_page_shows(page: PageKind, state: PageState)
    ensures
        state is Ready ==> instead_of(page, state) is None,
        state is NoDevice ==> instead_of(page, state) is Some,
        page is Vibration || page is Profiles || page is Remap ==> (instead_of(page, state) is Some
            <==> state is NoDevice),
        page is General || page is Backlight || page is Calibration || page is Axes || page
            is Buttons ==> (instead_of(page, state) is None <==> state is Ready),
{
}

} // verus!
