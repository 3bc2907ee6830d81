//! Which WinWing joysticks are plugged in, from what the kernel says of them.
//!
//! The caller reads the files of `/sys`; here their texts are turned into
//! devices. Nothing here opens a device.

use crate::i18n;
use crate::protocol;
use crate::text;
use vstd::prelude::*;

verus! {

pub const VID_WINWING: u16 = 0x4098;

/// A controller that is addressed on an endpoint by `(device, family)`.
#[derive(Debug, Clone, Copy, PartialEq, Eq, Structural)]
pub struct Controller {
    pub device: u8,
    pub family: u8,
}

impl Controller {
    pub fn new(device: u8, family: u8) -> (r: Self)
        ensures
            r == (Controller { device, family }),
    {
        Controller { device, family }
    }

    /// Model name, or `?` when it is unknown.
    pub fn model(&self) -> (r: &'static str)
        ensures
            r == protocol::model_or(self.device, self.family, "?"),
    {
        match protocol::controller_name(self.device, self.family) {
            Some(m) => m,
            None => "?",
        }
    }

    /// The `pid` of the controller in the firmware catalog.
    pub fn pid_api(&self) -> (r: u16)
        ensures
            r == self.family * 256 + self.device,
    {
        protocol::controller_pid(self.device, self.family)
    }

    /// Model and address, as they are shown.
    pub open spec fn shown(self) -> Seq<char> {
        protocol::model_or(self.device, self.family, "?")@ + " (dev "@ + text::hex_prefixed(
            self.device as nat,
            2,
        ) + "/fam "@ + text::hex_prefixed(self.family as nat, 2) + ")"@
    }

    /// Model and address, as they are shown.
    pub fn to_string(&self) -> (r: String)
        ensures
            r@ == self.shown(),
    {
        let mut out: String = self.model().to_string();
        out.append(" (dev ");
        out.append(text::hex_prefixed_text(self.device as u64, 2).as_str());
        out.append("/fam ");
        out.append(text::hex_prefixed_text(self.family as u64, 2).as_str());
        out.append(")");
        out
    }
}

/// A WinWing device: one hidraw endpoint with its controllers.
#[derive(Debug, Clone, PartialEq, Eq)]
pub struct WinwingDevice {
    /// `/dev/hidrawN`.
    pub hidraw: String,
    pub vid: u16,
    pub pid: u16,
    pub product: String,
    pub serial: String,
    pub controllers: Vec<Controller>,
    /// `/dev/input/eventN` of the joystick, or empty.
    pub evdev: String,
}

/// A device as its plain values.
#[verifier::ext_equal]
pub struct DeviceView {
    pub hidraw: Seq<char>,
    pub vid: u16,
    pub pid: u16,
    pub product: Seq<char>,
    pub serial: Seq<char>,
    pub controllers: Seq<Controller>,
    pub evdev: Seq<char>,
}

impl View for WinwingDevice {
    type V = DeviceView;

    open spec fn view(&self) -> DeviceView {
        DeviceView {
            hidraw: self.hidraw@,
            vid: self.vid,
            pid: self.pid,
            product: self.product@,
            serial: self.serial@,
            controllers: self.controllers@,
            evdev: self.evdev@,
        }
    }
}

impl WinwingDevice {
    /// Whether the live monitor can be read: there is an event node, and the
    /// user may read it.
    pub fn live_readable(&self, accessible: bool) -> (r: bool)
        ensures
            r == (self.evdev@.len() > 0 && accessible),
    {
        !self.evdev.as_str().is_empty() && accessible
    }

    /// The first controller of the family, when there is one.
    pub fn controller_of_family(&self, family: u8) -> (r: Option<Controller>)
        ensures
            r == first_of_family(self.controllers@, family),
    {
        let mut i: usize = 0;
        assert(self.controllers@.skip(0) == self.controllers@);
        while i < self.controllers.len()
            invariant
                i <= self.controllers.len(),
                first_of_family(self.controllers@, family) == first_of_family(
                    self.controllers@.skip(i as int),
                    family,
                ),
            decreases self.controllers.len() - i,
        {
            assert(self.controllers@.skip(i as int)[0] == self.controllers[i as int]);
            if self.controllers[i].family == family {
                return Some(self.controllers[i]);
            }
            assert(self.controllers@.skip(i as int).skip(1) == self.controllers@.skip(i + 1));
            i += 1;
        }
        None
    }
}

/// The first controller of the family.
pub open spec fn first_of_family(controllers: Seq<Controller>, family: u8) -> Option<Controller>
    decreases controllers.len(),
{
    if controllers.len() == 0 {
        None
    } else if controllers[0].family == family {
        Some(controllers[0])
    } else {
        first_of_family(controllers.skip(1), family)
    }
}

// --- Texts of /sys ------------------------------------------------------------------

/// The value of the last line `key=value` among the lines.
pub open spec fn last_value(lines: Seq<Seq<char>>, key: Seq<char>) -> Option<Seq<char>>
    decreases lines.len(),
{
    if lines.len() == 0 {
        None
    } else {
        match text::split_at_first(lines.last(), '=') {
            Some(p) => if p.0 == key {
                Some(p.1)
            } else {
                last_value(lines.drop_last(), key)
            },
            None => last_value(lines.drop_last(), key),
        }
    }
}

/// Value of `key` in the text of a `uevent` file: of several lines with the key,
/// the last one counts.
pub fn uevent_value(uevent: &str, key: &str) -> (r: Option<String>)
    ensures
        match r {
            Some(v) => last_value(text::lines(uevent@), key@) == Some(v@),
            None => last_value(text::lines(uevent@), key@) is None,
        },
{
    let lines: Vec<String> = text::lines_of(uevent);
    let ghost all = text::views(lines@);
    let mut i: usize = lines.len();
    assert(all.take(i as int) == all);
    while i > 0
        invariant
            i <= lines.len(),
            all == text::views(lines@),
            all == text::lines(uevent@),
            last_value(all, key@) == last_value(all.take(i as int), key@),
        decreases i,
    {
        assert(all.take(i as int).last() == lines[i - 1]@);
        assert(all.take(i as int).drop_last() == all.take(i - 1));
        if let Some((k, v)) = text::split_once_text(lines[i - 1].as_str(), '=') {
            if text::str_eq(k.as_str(), key) {
                return Some(v);
            }
        }
        i -= 1;
    }
    None
}

/// The vendor and the product that a `HID_ID` such as `0003:00004098:0000BC2A`
/// names, by their low sixteen bits.
pub open spec fn hid_ids(hid_id: Seq<char>) -> Option<(u16, u16)> {
    let p = text::split_on(hid_id, ':');
    if p.len() == 3 {
        match (
            text::parsed(p[1], 16, u32::MAX as nat),
            text::parsed(p[2], 16, u32::MAX as nat),
        ) {
            (Some(v), Some(q)) => Some(((v % 65536) as u16, (q % 65536) as u16)),
            _ => None,
        }
    } else {
        None
    }
}

/// Vendor and product of a `HID_ID`.
pub fn parse_hid_id(hid_id: &str) -> (r: Option<(u16, u16)>)
    ensures
        r == hid_ids(hid_id@),
{
    let parts: Vec<String> = text::split_text(hid_id, ':');
    assert(text::views(parts@).len() == parts@.len());
    if parts.len() != 3 {
        return None;
    }
    assert(text::views(parts@)[1] == parts@[1]@);
    assert(text::views(parts@)[2] == parts@[2]@);
    let vid: Option<u128> = text::parse_number(parts[1].as_str(), 16, u32::MAX as u128);
    let pid: Option<u128> = text::parse_number(parts[2].as_str(), 16, u32::MAX as u128);
    match (vid, pid) {
        (Some(v), Some(q)) => Some(((v % 65536) as u16, (q % 65536) as u16)),
        _ => None,
    }
}

/// The number that the text of a `/sys` file stands for in hexadecimal.
pub open spec fn hex_file(content: Option<Seq<char>>, max: nat) -> Option<nat> {
    match content {
        Some(t) => text::parsed(text::trim(t), 16, max),
        None => None,
    }
}

/// The characters of a text that may be missing.
pub open spec fn opt_text(t: Option<String>) -> Option<Seq<char>> {
    match t {
        Some(s) => Some(s@),
        None => None,
    }
}

/// Number in the text of a `/sys` file, in hexadecimal; `None` when the file
/// could not be read or holds something else.
pub fn read_hex(content: &Option<String>) -> (r: Option<u32>)
    ensures
        match r {
            Some(n) => hex_file(opt_text(*content), u32::MAX as nat) == Some(n as nat),
            None => hex_file(opt_text(*content), u32::MAX as nat) is None,
        },
{
    match content {
        Some(t) => {
            let trimmed: String = text::trim_text(t.as_str());
            match text::parse_number(trimmed.as_str(), 16, u32::MAX as u128) {
                Some(n) => Some(n as u32),
                None => None,
            }
        },
        None => None,
    }
}

/// A node of `/sys/class/hidraw`: its name and the text of its `uevent`.
pub struct HidrawNode {
    pub name: String,
    pub uevent: String,
}

/// A node of `/sys/bus/usb/devices`: its name and the texts of `idVendor`,
/// `idProduct` and `serial`, where they can be read.
pub struct UsbNode {
    pub name: String,
    pub vendor: Option<String>,
    pub product: Option<String>,
    pub serial: Option<String>,
}

/// A node of `/sys/class/input`: its name and the texts of `id/vendor`,
/// `id/product` and `capabilities/abs`, where they can be read.
pub struct EventNode {
    pub name: String,
    pub vendor: Option<String>,
    pub product: Option<String>,
    pub abs: Option<String>,
}

/// A node of a directory of `/sys`, which has a name.
pub trait Named {
    /// The name of the node.
    spec fn key(&self) -> Seq<char>;

    /// The name of the node.
    fn node_name(&self) -> (r: String)
        ensures
            r@ == self.key(),
    ;
}

impl Named for HidrawNode {
    open spec fn key(&self) -> Seq<char> {
        self.name@
    }

    fn node_name(&self) -> (r: String) {
        self.name.clone()
    }
}

impl Named for UsbNode {
    open spec fn key(&self) -> Seq<char> {
        self.name@
    }

    fn node_name(&self) -> (r: String) {
        self.name.clone()
    }
}

impl Named for EventNode {
    open spec fn key(&self) -> Seq<char> {
        self.name@
    }

    fn node_name(&self) -> (r: String) {
        self.name.clone()
    }
}

/// The names of the nodes.
pub open spec fn node_names<N: Named>(nodes: Seq<N>) -> Seq<Seq<char>> {
    Seq::new(nodes.len(), |i: int| nodes[i].key())
}

/// The nodes in ascending order of their names.
pub open spec fn by_name<N: Named>(nodes: Seq<N>) -> Seq<N> {
    text::at_places(nodes, text::order_by_key(node_names(nodes)))
}

/// The places of the nodes in ascending order of their names.
fn places_by_name<N: Named>(nodes: &Vec<N>) -> (r: Vec<usize>)
    ensures
        text::is_order_of(r@, node_names(nodes@)),
        text::at_places(nodes@, r@) == by_name(nodes@),
{
    let mut names: Vec<String> = Vec::new();
    let mut i: usize = 0;
    while i < nodes.len()
        invariant
            i <= nodes.len(),
            names.len() == i,
            forall|j: int| 0 <= j < i ==> (#[trigger] names[j])@ == nodes[j].key(),
        decreases nodes.len() - i,
    {
        names.push(nodes[i].node_name());
        i += 1;
    }
    assert(text::views(names@) == node_names(nodes@));
    text::order_of(&names)
}

/// The texts name the vendor and the product.
pub open spec fn names_ids(vendor: Option<String>, product: Option<String>, vid: u16, pid: u16) -> bool {
    hex_file(opt_text(vendor), u32::MAX as nat) == Some(vid as nat) && hex_file(
        opt_text(product),
        u32::MAX as nat,
    ) == Some(pid as nat)
}

fn ids_match(vendor: &Option<String>, product: &Option<String>, vid: u16, pid: u16) -> (r: bool)
    ensures
        r == names_ids(*vendor, *product, vid, pid),
{
    let v: Option<u32> = read_hex(vendor);
    let p: Option<u32> = read_hex(product);
    match (v, p) {
        (Some(a), Some(b)) => a == vid as u32 && b == pid as u32,
        _ => false,
    }
}

/// The serial number of the first of the USB devices with the vendor and the
/// product whose serial can be read, without the whitespace around it; empty when
/// there is none.
pub open spec fn first_serial(usb: Seq<UsbNode>, vid: u16, pid: u16) -> Seq<char>
    decreases usb.len(),
{
    if usb.len() == 0 {
        Seq::empty()
    } else if names_ids(usb[0].vendor, usb[0].product, vid, pid) && usb[0].serial is Some {
        text::trim(usb[0].serial->0@)
    } else {
        first_serial(usb.skip(1), vid, pid)
    }
}

/// The serial number of the USB device: that of the first node by name which has
/// one.
pub open spec fn serial_of(usb: Seq<UsbNode>, vid: u16, pid: u16) -> Seq<char> {
    first_serial(by_name(usb), vid, pid)
}

/// Serial number of the USB device `(vid, pid)`.
pub fn usb_serial(usb: &Vec<UsbNode>, vid: u16, pid: u16) -> (r: String)
    ensures
        r@ == serial_of(usb@, vid, pid),
{
    let order: Vec<usize> = places_by_name(usb);
    let ghost sorted = by_name(usb@);
    let mut i: usize = 0;
    assert(sorted.skip(0) == sorted);
    while i < order.len()
        invariant
            i <= order.len(),
            sorted == text::at_places(usb@, order@),
            forall|j: int| 0 <= j < order.len() ==> (#[trigger] order[j]) < usb.len(),
            first_serial(sorted, vid, pid) == first_serial(sorted.skip(i as int), vid, pid),
            sorted == by_name(usb@),
        decreases order.len() - i,
    {
        let node: &UsbNode = &usb[order[i]];
        assert(sorted.skip(i as int)[0] == *node);
        assert(sorted.skip(i as int).skip(1) == sorted.skip(i + 1));
        if ids_match(&node.vendor, &node.product, vid, pid) {
            if let Some(s) = &node.serial {
                return text::trim_text(s.as_str());
            }
        }
        i += 1;
    }
    String::new()
}

/// The event node has absolute axes.
pub open spec fn has_axes(e: EventNode) -> bool {
    match hex_file(opt_text(e.abs), u128::MAX as nat) {
        Some(n) => n != 0,
        None => false,
    }
}

/// The path of an event node.
pub open spec fn event_path(e: EventNode) -> Seq<char> {
    "/dev/input/"@ + e.name@
}

/// The node is an event node of the device with the vendor and the product.
pub open spec fn is_event_of(e: EventNode, vid: u16, pid: u16) -> bool {
    text::begins_with(e.name@, "event"@) && names_ids(e.vendor, e.product, vid, pid)
}

/// The path of the first event node of the device, among those with axes or, with
/// `any`, among all of them.
pub open spec fn first_event(events: Seq<EventNode>, vid: u16, pid: u16, any: bool) -> Option<Seq<char>>
    decreases events.len(),
{
    if events.len() == 0 {
        None
    } else if is_event_of(events[0], vid, pid) && (any || has_axes(events[0])) {
        Some(event_path(events[0]))
    } else {
        first_event(events.skip(1), vid, pid, any)
    }
}

/// The path of the joystick's event node: by name the first one with axes, else
/// the first one; empty when there is none.
pub open spec fn event_node_of(events: Seq<EventNode>, vid: u16, pid: u16) -> Seq<char> {
    match first_event(by_name(events), vid, pid, false) {
        Some(p) => p,
        None => match first_event(by_name(events), vid, pid, true) {
            Some(p) => p,
            None => Seq::empty(),
        },
    }
}

fn node_has_axes(e: &EventNode) -> (r: bool)
    ensures
        r == has_axes(*e),
{
    match &e.abs {
        Some(t) => {
            let trimmed: String = text::trim_text(t.as_str());
            match text::parse_number(trimmed.as_str(), 16, u128::MAX) {
                Some(n) => n != 0,
                None => false,
            }
        },
        None => false,
    }
}

/// Path of the event node of the joystick `(vid, pid)`; empty when none is found.
pub fn find_event_node(events: &Vec<EventNode>, vid: u16, pid: u16) -> (r: String)
    ensures
        r@ == event_node_of(events@, vid, pid),
{
    let order: Vec<usize> = places_by_name(events);
    let ghost sorted = by_name(events@);
    let mut fallback: Option<String> = None;
    let mut i: usize = 0;
    assert(sorted.skip(0) == sorted);
    while i < order.len()
        invariant
            i <= order.len(),
            sorted == by_name(events@),
            sorted == text::at_places(events@, order@),
            forall|j: int| 0 <= j < order.len() ==> (#[trigger] order[j]) < events.len(),
            first_event(sorted, vid, pid, false) == first_event(
                sorted.skip(i as int),
                vid,
                pid,
                false,
            ),
            match fallback {
                Some(f) => first_event(sorted, vid, pid, true) == Some(f@),
                None => first_event(sorted, vid, pid, true) == first_event(
                    sorted.skip(i as int),
                    vid,
                    pid,
                    true,
                ),
            },
        decreases order.len() - i,
    {
        let event: &EventNode = &events[order[i]];
        assert(sorted.skip(i as int)[0] == *event);
        assert(sorted.skip(i as int).skip(1) == sorted.skip(i + 1));
        if text::str_starts_with(event.name.as_str(), "event") && ids_match(
            &event.vendor,
            &event.product,
            vid,
            pid,
        ) {
            let mut node: String = "/dev/input/".to_string();
            node.append(event.name.as_str());
            if node_has_axes(event) {
                return node;
            }
            if fallback.is_none() {
                fallback = Some(node);
            }
        }
        i += 1;
    }
    match fallback {
        Some(f) => f,
        None => String::new(),
    }
}

// --- Devices ----------------------------------------------------------------------

/// The controllers behind a product: its grip, when the model is known, and the
/// base.
pub open spec fn controllers_of(pid: u16) -> Seq<Controller> {
    let grip = pid % 256 - 0x20;
    let base = Controller { device: protocol::DEVICE_BASE, family: protocol::FAMILY_BASE };
    if 0 <= grip && protocol::model_of(grip as u8, protocol::FAMILY_GRIP) is Some {
        seq![Controller { device: grip as u8, family: protocol::FAMILY_GRIP }, base]
    } else {
        seq![base]
    }
}

/// Controllers to expect behind a product.
pub fn controllers_for(pid: u16) -> (r: Vec<Controller>)
    ensures
        r@ == controllers_of(pid),
{
    let mut out: Vec<Controller> = Vec::new();
    let grip: i32 = protocol::grip_device_from_pid(pid);
    if 0 <= grip && grip <= 0xFF && protocol::controller_name(
        grip as u8,
        protocol::FAMILY_GRIP,
    ).is_some() {
        out.push(Controller::new(grip as u8, protocol::FAMILY_GRIP));
    }
    out.push(Controller::new(protocol::DEVICE_BASE, protocol::FAMILY_BASE));
    assert(out@ == controllers_of(pid));
    out
}

/// The node is one of a hidraw endpoint.
pub open spec fn is_hidraw(node: HidrawNode) -> bool {
    text::begins_with(node.name@, "hidraw"@)
}

/// The device of a node, when it is the hidraw node of a WinWing one.
pub open spec fn device_of(node: HidrawNode, usb: Seq<UsbNode>, events: Seq<EventNode>) -> Option<
    DeviceView,
> {
    let lines = text::lines(node.uevent@);
    match last_value(lines, "HID_ID"@) {
        Some(id) => match hid_ids(id) {
            Some(ids) => if is_hidraw(node) && ids.0 == VID_WINWING {
                Some(
                    DeviceView {
                        hidraw: "/dev/"@ + node.name@,
                        vid: ids.0,
                        pid: ids.1,
                        product: match last_value(lines, "HID_NAME"@) {
                            Some(n) => n,
                            None => Seq::empty(),
                        },
                        serial: serial_of(usb, ids.0, ids.1),
                        controllers: controllers_of(ids.1),
                        evdev: event_node_of(events, ids.0, ids.1),
                    },
                )
            } else {
                None
            },
            None => None,
        },
        None => None,
    }
}

/// The WinWing devices among the nodes, in the order of the nodes.
pub open spec fn devices_of(nodes: Seq<HidrawNode>, usb: Seq<UsbNode>, events: Seq<EventNode>) -> Seq<
    DeviceView,
>
    decreases nodes.len(),
{
    if nodes.len() == 0 {
        Seq::empty()
    } else {
        let before = devices_of(nodes.drop_last(), usb, events);
        match device_of(nodes.last(), usb, events) {
            Some(d) => before.push(d),
            None => before,
        }
    }
}

/// The devices as their plain values.
pub open spec fn device_views(devices: Seq<WinwingDevice>) -> Seq<DeviceView> {
    Seq::new(devices.len(), |i: int| devices[i]@)
}

fn read_device_node(node: &HidrawNode, usb: &Vec<UsbNode>, events: &Vec<EventNode>) -> (r: Option<
    WinwingDevice,
>)
    ensures
        match r {
            Some(d) => device_of(*node, usb@, events@) == Some(d@),
            None => device_of(*node, usb@, events@) is None,
        },
{
    if !text::str_starts_with(node.name.as_str(), "hidraw") {
        return None;
    }
    let id: String = match uevent_value(node.uevent.as_str(), "HID_ID") {
        Some(v) => v,
        None => {
            return None;
        },
    };
    let (vid, pid): (u16, u16) = match parse_hid_id(id.as_str()) {
        Some(ids) => ids,
        None => {
            return None;
        },
    };
    if vid != VID_WINWING {
        return None;
    }
    let mut hidraw: String = "/dev/".to_string();
    hidraw.append(node.name.as_str());
    let product: String = match uevent_value(node.uevent.as_str(), "HID_NAME") {
        Some(v) => v,
        None => String::new(),
    };
    let d: WinwingDevice = WinwingDevice {
        hidraw,
        vid,
        pid,
        product,
        serial: usb_serial(usb, vid, pid),
        controllers: controllers_for(pid),
        evdev: find_event_node(events, vid, pid),
    };
    assert(device_of(*node, usb@, events@) =~~= Some(d@));
    Some(d)
}

/// The paths of the devices.
pub open spec fn device_paths(devices: Seq<DeviceView>) -> Seq<Seq<char>> {
    Seq::new(devices.len(), |i: int| devices[i].hidraw)
}

/// Every device comes from a hidraw node, and the devices stand in the order of
/// the nodes.
proof fn lemma_devices_follow_nodes(
    nodes: Seq<HidrawNode>,
    usb: Seq<UsbNode>,
    events: Seq<EventNode>,
)
    ensures
        ({
            let d = devices_of(nodes, usb, events);
            &&& forall|i: int|
                0 <= i < d.len() ==> exists|k: int|
                    0 <= k < nodes.len() && is_hidraw(nodes[k]) && (#[trigger] d[i]).hidraw
                        == "/dev/"@ + (#[trigger] nodes[k]).name@
            &&& text::is_ascending(node_names(nodes)) ==> text::is_ascending(device_paths(d))
            &&& text::is_increasing(node_names(nodes)) ==> text::is_increasing(device_paths(d))
        }),
    decreases nodes.len(),
{
    if nodes.len() > 0 {
        let before = nodes.drop_last();
        let d = devices_of(before, usb, events);
        lemma_devices_follow_nodes(before, usb, events);
        let all = devices_of(nodes, usb, events);
        let n = nodes.len() - 1;
        assert(node_names(before) == node_names(nodes).drop_last());
        assert forall|i: int| 0 <= i < all.len() implies exists|k: int|
            0 <= k < nodes.len() && is_hidraw(nodes[k]) && (#[trigger] all[i]).hidraw == "/dev/"@
                + (#[trigger] nodes[k]).name@ by {
            if i < d.len() {
                let k = choose|k: int|
                    0 <= k < before.len() && is_hidraw(before[k]) && d[i].hidraw == "/dev/"@
                        + before[k].name@;
                assert(nodes[k] == before[k]);
            } else {
                assert(is_hidraw(nodes[n]));
            }
        }
        if all.len() > d.len() {
            let names = node_names(nodes);
            let paths = device_paths(all);
            assert(device_paths(d) == paths.drop_last());
            assert forall|i: int| 0 <= i < d.len() implies {
                &&& text::is_ascending(names) ==> !text::precedes(
                    paths[d.len() as int],
                    #[trigger] paths[i],
                )
                &&& text::is_increasing(names) ==> text::precedes(paths[i], paths[d.len() as int])
            } by {
                let k = choose|k: int|
                    0 <= k < before.len() && is_hidraw(before[k]) && d[i].hidraw == "/dev/"@
                        + before[k].name@;
                assert(names[k] == before[k].name@);
                assert(names[n] == nodes[n].name@);
                assert(paths[i] == "/dev/"@ + names[k]);
                assert(paths[d.len() as int] == "/dev/"@ + names[n]);
                text::lemma_precedes_behind("/dev/"@, names[k], names[n]);
                text::lemma_precedes_behind("/dev/"@, names[n], names[k]);
            }
            assert forall|i: int, j: int|
                text::is_ascending(names) && 0 <= i < j < paths.len() implies !text::precedes(
                #[trigger] paths[j],
                #[trigger] paths[i],
            ) by {
                assert(paths[i] == device_paths(d)[i]);
                if j < d.len() {
                    assert(paths[j] == device_paths(d)[j]);
                }
            }
            assert forall|i: int, j: int|
                text::is_increasing(names) && 0 <= i < j < paths.len() implies text::precedes(
                #[trigger] paths[i],
                #[trigger] paths[j],
            ) by {
                assert(paths[i] == device_paths(d)[i]);
                if j < d.len() {
                    assert(paths[j] == device_paths(d)[j]);
                }
            }
        }
    }
}

/// The WinWing devices that are plugged in, from the nodes of `/sys`, by ascending
/// path. Only nodes whose name begins with `hidraw` count.
pub fn discover(nodes: &Vec<HidrawNode>, usb: &Vec<UsbNode>, events: &Vec<EventNode>) -> (r: Vec<
    WinwingDevice,
>)
    ensures
        device_views(r@) == devices_of(by_name(nodes@), usb@, events@),
        forall|i: int|
            0 <= i < r.len() ==> text::begins_with((#[trigger] r[i]).hidraw@, "/dev/hidraw"@),
        text::is_ascending(device_paths(device_views(r@))),
        node_names(nodes@).no_duplicates() ==> text::is_increasing(device_paths(device_views(r@))),
{
    let order: Vec<usize> = places_by_name(nodes);
    let ghost sorted = by_name(nodes@);
    let mut out: Vec<WinwingDevice> = Vec::new();
    let mut i: usize = 0;
    while i < order.len()
        invariant
            i <= order.len(),
            sorted == text::at_places(nodes@, order@),
            forall|j: int| 0 <= j < order.len() ==> (#[trigger] order[j]) < nodes.len(),
            device_views(out@) == devices_of(sorted.take(i as int), usb@, events@),
        decreases order.len() - i,
    {
        let node: &HidrawNode = &nodes[order[i]];
        assert(sorted.take(i + 1).drop_last() == sorted.take(i as int));
        assert(sorted.take(i + 1).last() == *node);
        if let Some(d) = read_device_node(node, usb, events) {
            let ghost before = device_views(out@);
            let ghost dv = d@;
            out.push(d);
            assert(device_views(out@) == before.push(dv));
        }
        i += 1;
    }
    proof {
        assert(sorted.take(i as int) == sorted);
        law_devices_stand_by_path(nodes@, usb@, events@);
        assert forall|j: int| 0 <= j < out.len() implies text::begins_with(
            (#[trigger] out[j]).hidraw@,
            "/dev/hidraw"@,
        ) by {
            assert(device_views(out@)[j].hidraw == out[j].hidraw@);
        }
    }
    out
}

/// The devices that are found are at paths that begin with `/dev/hidraw`, and stand
/// by ascending path; when no two nodes have the same name, no path occurs twice.
pub proof fn law_devices_stand_by_path(
    nodes: Seq<HidrawNode>,
    usb: Seq<UsbNode>,
    events: Seq<EventNode>,
)
    requires
        nodes.len() <= usize::MAX,
    ensures
        ({
            let d = devices_of(by_name(nodes), usb, events);
            &&& forall|i: int|
                0 <= i < d.len() ==> text::begins_with((#[trigger] d[i]).hidraw, "/dev/hidraw"@)
            &&& text::is_ascending(device_paths(d))
            &&& node_names(nodes).no_duplicates() ==> text::is_increasing(device_paths(d))
        }),
{
    let names = node_names(nodes);
    let sorted = by_name(nodes);
    let d = devices_of(sorted, usb, events);
    text::lemma_order_exists(names);
    text::lemma_keys_in_order(names);
    assert(node_names(sorted) == text::at_places(names, text::order_by_key(names)));
    lemma_devices_follow_nodes(sorted, usb, events);
    assert forall|i: int| 0 <= i < d.len() implies text::begins_with(
        (#[trigger] d[i]).hidraw,
        "/dev/hidraw"@,
    ) by {
        let k = choose|k: int|
            0 <= k < sorted.len() && is_hidraw(sorted[k]) && d[i].hidraw == "/dev/"@
                + sorted[k].name@;
        reveal_strlit("/dev/");
        reveal_strlit("hidraw");
        reveal_strlit("/dev/hidraw");
        let name = sorted[k].name@;
        assert("/dev/hidraw"@ == "/dev/"@ + "hidraw"@);
        assert(name.subrange(0, 6) == "hidraw"@);
        assert(("/dev/"@ + name).subrange(0, 11) == "/dev/"@ + name.subrange(0, 6));
    }
}

/// Every joystick is found: a node that is the hidraw node of a WinWing device
/// gives its device.
pub proof fn law_every_joystick_is_found(
    nodes: Seq<HidrawNode>,
    usb: Seq<UsbNode>,
    events: Seq<EventNode>,
    k: int,
)
    requires
        nodes.len() <= usize::MAX,
        0 <= k < nodes.len(),
        device_of(nodes[k], usb, events) is Some,
    ensures
        devices_of(by_name(nodes), usb, events).contains(device_of(nodes[k], usb, events)->0),
{
    let names = node_names(nodes);
    let order = text::order_by_key(names);
    text::lemma_order_exists(names);
    text::lemma_order_is_complete(order, names, k);
    let i = choose|i: int| 0 <= i < order.len() && order[i] == k;
    assert(by_name(nodes)[i] == nodes[k]);
    lemma_device_is_listed(by_name(nodes), usb, events, i);
}

proof fn lemma_device_is_listed(
    nodes: Seq<HidrawNode>,
    usb: Seq<UsbNode>,
    events: Seq<EventNode>,
    k: int,
)
    requires
        0 <= k < nodes.len(),
        device_of(nodes[k], usb, events) is Some,
    ensures
        devices_of(nodes, usb, events).contains(device_of(nodes[k], usb, events)->0),
    decreases nodes.len(),
{
    let all = devices_of(nodes, usb, events);
    let d = device_of(nodes[k], usb, events)->0;
    if k == nodes.len() - 1 {
        assert(all.last() == d);
    } else {
        let before = devices_of(nodes.drop_last(), usb, events);
        lemma_device_is_listed(nodes.drop_last(), usb, events, k);
        let i = choose|i: int| 0 <= i < before.len() && before[i] == d;
        assert(all[i] == d);
    }
}

/// Every device found is a WinWing one, and has a base as its last controller.
pub proof fn law_discovered_devices(
    nodes: Seq<HidrawNode>,
    usb: Seq<UsbNode>,
    events: Seq<EventNode>,
    i: int,
)
    requires
        0 <= i < devices_of(nodes, usb, events).len(),
    ensures
        devices_of(nodes, usb, events)[i].vid == VID_WINWING,
        devices_of(nodes, usb, events)[i].controllers.len() > 0,
        devices_of(nodes, usb, events)[i].controllers.last() == (Controller {
            device: protocol::DEVICE_BASE,
            family: protocol::FAMILY_BASE,
        }),
    decreases nodes.len(),
{
    let before = devices_of(nodes.drop_last(), usb, events);
    if i < before.len() {
        law_discovered_devices(nodes.drop_last(), usb, events, i);
    }
}

// --- List ---------------------------------------------------------------------------

/// The translated messages of the list of devices.
pub struct ListTexts {
    /// No device.
    pub none: String,
    /// The endpoint cannot be opened.
    pub not_accessible: String,
    /// The serial number, with a `{}` for it.
    pub usb_serial: String,
}

/// The lines of one device.
pub open spec fn device_lines(d: DeviceView, readable: bool, t: ListTexts) -> Seq<Seq<char>> {
    let access = if readable {
        Seq::empty()
    } else {
        "  ("@ + t.not_accessible@ + ")"@
    };
    let head = d.hidraw + "  "@ + text::hex_fill(d.vid as nat, 4) + ":"@ + text::hex_fill(
        d.pid as nat,
        4,
    ) + "  "@ + d.product + access;
    let serial = if d.serial.len() == 0 {
        Seq::empty()
    } else {
        seq!["    "@ + i18n::interpolated(t.usb_serial@, seq![d.serial])]
    };
    seq![head] + serial + Seq::new(d.controllers.len(), |i: int| "    • "@ + d.controllers[i].shown())
}

/// The lines of the devices, one after the other.
pub open spec fn list_lines(devices: Seq<DeviceView>, readable: Seq<bool>, t: ListTexts) -> Seq<
    Seq<char>,
>
    decreases devices.len(),
{
    if devices.len() == 0 {
        Seq::empty()
    } else {
        list_lines(devices.drop_last(), readable, t) + device_lines(
            devices.last(),
            readable[devices.len() - 1],
            t,
        )
    }
}

/// The list of the devices as text.
pub open spec fn list_text(devices: Seq<DeviceView>, readable: Seq<bool>, t: ListTexts) -> Seq<char> {
    if devices.len() == 0 {
        t.none@
    } else {
        text::joined(list_lines(devices, readable, t), "\n"@)
    }
}

fn push_line(lines: &mut Vec<String>, line: String)
    ensures
        text::views(final(lines)@) == text::views(old(lines)@).push(line@),
{
    lines.push(line);
    assert(text::views(lines@) == text::views(old(lines)@).push(line@));
}

fn push_device_lines(lines: &mut Vec<String>, d: &WinwingDevice, readable: bool, t: &ListTexts)
    ensures
        text::views(final(lines)@) == text::views(old(lines)@) + device_lines(d@, readable, *t),
{
    let ghost start = text::views(lines@);
    let mut head: String = d.hidraw.clone();
    head.append("  ");
    head.append(text::hex_text(d.vid as u64, 4).as_str());
    head.append(":");
    head.append(text::hex_text(d.pid as u64, 4).as_str());
    head.append("  ");
    head.append(d.product.as_str());
    if !readable {
        head.append("  (");
        head.append(t.not_accessible.as_str());
        head.append(")");
    }
    let ghost all = device_lines(d@, readable, *t);
    assert(head@ == all[0]);
    push_line(lines, head);
    let ghost mut done: int = 1;
    if !d.serial.as_str().is_empty() {
        let args: [&str; 1] = [d.serial.as_str()];
        let body: String = i18n::interpolate(t.usb_serial.clone(), args.as_slice());
        assert(i18n::arg_texts(args@) == seq![d.serial@]);
        let mut line: String = "    ".to_string();
        line.append(body.as_str());
        assert(line@ == all[1]);
        push_line(lines, line);
        proof {
            done = 2;
        }
    }
    assert(text::views(lines@) == start + all.take(done));
    let mut i: usize = 0;
    while i < d.controllers.len()
        invariant
            i <= d.controllers.len(),
            all == device_lines(d@, readable, *t),
            1 <= done <= 2,
            all.len() == done + d.controllers.len(),
            forall|j: int|
                0 <= j < d.controllers.len() ==> all[done + j] == "    • "@ + (
                #[trigger] d.controllers[j]).shown(),
            text::views(lines@) == start + all.take(done + i),
        decreases d.controllers.len() - i,
    {
        let mut line: String = "    • ".to_string();
        line.append(d.controllers[i].to_string().as_str());
        push_line(lines, line);
        assert(all[done + i] == "    • "@ + d.controllers[i as int].shown());
        i += 1;
        assert(text::views(lines@) == start + all.take(done + i));
    }
    assert(all.take(done + i) == all);
}

/// The devices as text, in the messages given. `readable` says of each device
/// whether its endpoint can be opened.
pub fn format_list_with(devices: &[WinwingDevice], readable: &[bool], t: &ListTexts) -> (r: String)
    requires
        devices.len() == readable.len(),
    ensures
        r@ == list_text(device_views(devices@), readable@, *t),
{
    if devices.is_empty() {
        return t.none.clone();
    }
    let ghost views = device_views(devices@);
    let mut lines: Vec<String> = Vec::new();
    let mut i: usize = 0;
    assert(text::views(lines@) == list_lines(views.take(0), readable@, *t));
    while i < devices.len()
        invariant
            i <= devices.len(),
            devices.len() == readable.len(),
            views == device_views(devices@),
            text::views(lines@) == list_lines(views.take(i as int), readable@, *t),
        decreases devices.len() - i,
    {
        push_device_lines(&mut lines, &devices[i], readable[i], t);
        proof {
            let next = views.take(i + 1);
            assert(next.drop_last() == views.take(i as int));
            assert(next.last() == devices[i as int]@);
        }
        i += 1;
    }
    assert(views.take(i as int) == views);
    text::join_text(&lines, "\n")
}

/// The messages of a list are what the catalog answers for them.
pub open spec fn are_list_texts(t: ListTexts) -> bool {
    &&& call_ensures(i18n::tr, ("No WinWing device detected.",), t.none)
    &&& call_ensures(i18n::tr, ("not accessible — install the access rule",), t.not_accessible)
    &&& call_ensures(i18n::tr, ("USB serial: {}",), t.usb_serial)
}

/// The devices as text, in the user's language.
pub fn format_list(devices: &[WinwingDevice], readable: &[bool]) -> (r: String)
    requires
        devices.len() == readable.len(),
    ensures
        exists|t: ListTexts|
            are_list_texts(t) && r@ == #[trigger] list_text(
                device_views(devices@),
                readable@,
                t,
            ),
{
    proof {
        reveal_strlit("No WinWing device detected.");
        reveal_strlit("not accessible — install the access rule");
        reveal_strlit("USB serial: {}");
    }
    let t: ListTexts = ListTexts {
        none: i18n::tr("No WinWing device detected."),
        not_accessible: i18n::tr("not accessible — install the access rule"),
        usb_serial: i18n::tr("USB serial: {}"),
    };
    let r: String = format_list_with(devices, readable, &t);
    assert(r@ == list_text(device_views(devices@), readable@, t));
    r
}

/// The grip of a joystick has the number of the product less 0x20, when it is a known
/// one; the base comes last, and there is nothing else.
pub proof fn law_controllers_of_a_product(pid: u16)
    ensures
        controllers_of(pid).len() == 1 || controllers_of(pid).len() == 2,
        controllers_of(pid).last() == (Controller { device: 0x20, family: 0xBB }),
        controllers_of(pid).len() == 2 ==> controllers_of(pid)[0].family == 0xBF
            && controllers_of(pid)[0].device == pid % 256 - 0x20,
        controllers_of(pid).len() == 2 <==> 0x27 <= pid % 256 <= 0x2C,
{
}

/// The controller of a family is the first one of it.
pub proof fn law_first_of_a_family(controllers: Seq<Controller>, family: u8)
    ensures
        match first_of_family(controllers, family) {
            Some(c) => exists|i: int|
                {
                    &&& 0 <= i < controllers.len()
                    &&& #[trigger] controllers[i] == c
                    &&& c.family == family
                    &&& forall|j: int| 0 <= j < i ==> (#[trigger] controllers[j]).family != family
                },
            None => forall|j: int|
                0 <= j < controllers.len() ==> (#[trigger] controllers[j]).family != family,
        },
    decreases controllers.len(),
{
    if controllers.len() > 0 {
        let rest = controllers.skip(1);
        law_first_of_a_family(rest, family);
        if controllers[0].family == family {
            assert(controllers[0] == first_of_family(controllers, family)->0);
        } else {
            match first_of_family(rest, family) {
                Some(c) => {
                    let i = choose|i: int|
                        {
                            &&& 0 <= i < rest.len()
                            &&& #[trigger] rest[i] == c
                            &&& c.family == family
                            &&& forall|j: int|
                                0 <= j < i ==> (#[trigger] rest[j]).family != family
                        };
                    assert(controllers[i + 1] == c);
                    assert forall|j: int| 0 <= j < i + 1 implies (
                    #[trigger] controllers[j]).family != family by {
                        if j > 0 {
                            assert(rest[j - 1] == controllers[j]);
                        }
                    }
                },
                None => {
                    assert forall|j: int| 0 <= j < controllers.len() implies (
                    #[trigger] controllers[j]).family != family by {
                        if j > 0 {
                            assert(rest[j - 1] == controllers[j]);
                        }
                    }
                },
            }
        }
    }
}

/// A hardware number names the vendor in its second part and the product in its
/// third, in hexadecimal; only the low sixteen bits of each count.
pub proof fn law_hid_number_parts(bus: Seq<char>, vendor: Seq<char>, product: Seq<char>)
    requires
        !bus.contains(':'),
        !vendor.contains(':'),
        !product.contains(':'),
    ensures
        ({
            let id = bus + seq![':'] + vendor + seq![':'] + product;
            let v = text::parsed(vendor, 16, 0xFFFF_FFFF);
            let p = text::parsed(product, 16, 0xFFFF_FFFF);
            &&& v is Some && p is Some ==> hid_ids(id) is Some && (hid_ids(id)->0).0 == v->0 % 65536
                && (hid_ids(id)->0).1 == p->0 % 65536
            &&& v is None || p is None ==> hid_ids(id) is None
        }),
{
    let id = bus + seq![':'] + vendor + seq![':'] + product;
    let rest = vendor + seq![':'] + product;
    assert(id =~= bus + seq![':'] + rest);
    lemma_first_piece(bus, rest);
    lemma_first_piece(vendor, product);
    lemma_only_piece(product);
    let p = text::split_on(id, ':');
    assert(p =~= seq![bus, vendor, product]);
    assert(p[1] == vendor && p[2] == product);
}

proof fn lemma_first_piece(a: Seq<char>, b: Seq<char>)
    requires
        !a.contains(':'),
    ensures
        text::split_on(a + seq![':'] + b, ':') == seq![a] + text::split_on(b, ':'),
{
    let s = a + seq![':'] + b;
    text::lemma_first_of(s, ':');
    let i = text::first_of(s, ':');
    let n = a.len() as int;
    assert(s[n] == ':');
    assert(i == n) by {
        if i < n {
            assert(s[i] == a[i]);
            assert(a.contains(a[i]));
        }
        if i > n {
            assert(s[n] != ':');
        }
    }
    assert(s.take(i) =~= a);
    assert(s.skip(i + 1) =~= b);
}

proof fn lemma_only_piece(a: Seq<char>)
    requires
        !a.contains(':'),
    ensures
        text::split_on(a, ':') == seq![a],
{
    text::lemma_first_of(a, ':');
    let i = text::first_of(a, ':');
    if i < a.len() {
        assert(a.contains(a[i]));
    }
}

/// Of several lines with a key the last one counts, and lines with other keys do not
/// matter.
pub proof fn law_last_line_of_a_key_counts(
    lines: Seq<Seq<char>>,
    key: Seq<char>,
    other: Seq<char>,
    value: Seq<char>,
)
    requires
        !key.contains('='),
        !other.contains('='),
        other != key,
    ensures
        last_value(lines.push(key + seq!['='] + value), key) == Some(value),
        last_value(lines.push(other + seq!['='] + value), key) == last_value(lines, key),
        last_value(lines.push(other), key) == last_value(lines, key),
{
    lemma_key_value(key, value);
    lemma_key_value(other, value);
    assert(lines.push(key + seq!['='] + value).drop_last() =~= lines);
    assert(lines.push(other + seq!['='] + value).drop_last() =~= lines);
    assert(lines.push(other).drop_last() =~= lines);
    text::lemma_first_of(other, '=');
    let i = text::first_of(other, '=');
    if i < other.len() {
        assert(other.contains(other[i]));
    }
}

proof fn lemma_key_value(key: Seq<char>, value: Seq<char>)
    requires
        !key.contains('='),
    ensures
        text::split_at_first(key + seq!['='] + value, '=') == Some((key, value)),
{
    let s = key + seq!['='] + value;
    text::lemma_first_of(s, '=');
    let i = text::first_of(s, '=');
    let n = key.len() as int;
    assert(s[n] == '=');
    assert(i == n) by {
        if i < n {
            assert(s[i] == key[i]);
            assert(key.contains(key[i]));
        }
        if i > n {
            assert(s[n] != '=');
        }
    }
    assert(s.take(i) =~= key);
    assert(s.skip(i + 1) =~= value);
}

} // verus!
