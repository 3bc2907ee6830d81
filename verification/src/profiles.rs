//! Profiles: what a joystick holds of its settings, captured for a file.
//!
//! A capture only reads, and only what may be written back: the identity of the
//! joystick is left out. Profiles are files of the user; see [`slug`] for their
//! names.

use crate::enumerate::Controller;
use crate::enumerate::WinwingDevice;
use crate::i18n;
use crate::model;
use crate::model::{Call, Transport, TransportError};
use crate::protocol;
use crate::remap_store;
use crate::text;
use crate::version;
use vstd::prelude::*;

verus! {

pub const PROFILE_FORMAT: &'static str = "winwing-profile";

pub const PROFILE_VERSION: u32 = 1;

/// The last offset of a capture.
pub const PROFILE_DUMP_END: u32 = 0x1DC;

/// The joystick that a profile was captured from.
#[derive(Debug, Clone, PartialEq, Eq)]
pub struct DeviceMeta {
    pub hidraw: String,
    pub pid: String,
    pub product_name: String,
    pub serial: String,
}

/// The settings of one controller: offsets with their bytes, in the order of their
/// texts.
#[derive(Debug, Clone, PartialEq, Eq)]
pub struct ProfileController {
    pub device: u8,
    pub family: u8,
    pub model: String,
    pub entries: Vec<(String, String)>,
}

/// A profile.
#[derive(Debug, Clone, PartialEq, Eq)]
pub struct Profile {
    pub format: String,
    pub version: u32,
    pub name: String,
    pub created: String,
    pub app_version: String,
    pub device: DeviceMeta,
    pub controllers: Vec<ProfileController>,
}

/// The number of entries of the first `n` controllers.
pub open spec fn entries_before(controllers: Seq<ProfileController>, n: nat) -> nat
    decreases n,
{
    if n == 0 {
        0
    } else {
        entries_before(controllers, (n - 1) as nat) + controllers[n - 1].entries@.len()
    }
}

impl Profile {
    /// The number of entries of the profile.
    pub open spec fn size(self) -> nat {
        entries_before(self.controllers@, self.controllers@.len())
    }

    /// The profile has the format, a version that is known, and controllers.
    pub open spec fn valid(self) -> bool {
        &&& self.format@ == PROFILE_FORMAT@
        &&& self.version <= PROFILE_VERSION
        &&& self.controllers@.len() > 0
    }

    /// Whether the profile can be used.
    pub fn is_valid(&self) -> (r: bool)
        ensures
            r == self.valid(),
    {
        text::str_eq(self.format.as_str(), PROFILE_FORMAT) && self.version <= PROFILE_VERSION
            && self.controllers.len() > 0
    }

    /// Number of entries of all controllers.
    pub fn entry_count(&self) -> (r: usize)
        requires
            self.size() <= usize::MAX,
        ensures
            r == self.size(),
    {
        let mut n: usize = 0;
        let mut i: usize = 0;
        while i < self.controllers.len()
            invariant
                i <= self.controllers.len(),
                n == entries_before(self.controllers@, i as nat),
                self.size() <= usize::MAX,
            decreases self.controllers.len() - i,
        {
            proof {
                lemma_entries_before(
                    self.controllers@,
                    (i + 1) as nat,
                    self.controllers@.len(),
                );
            }
            n += self.controllers[i].entries.len();
            i += 1;
        }
        n
    }
}

proof fn lemma_entries_before(controllers: Seq<ProfileController>, a: nat, b: nat)
    requires
        a <= b,
    ensures
        entries_before(controllers, a) <= entries_before(controllers, b),
    decreases b,
{
    if a < b {
        lemma_entries_before(controllers, a, (b - 1) as nat);
    }
}

// --- Capture ----------------------------------------------------------------------------------

/// The offsets below `4 * n` that a profile holds.
pub open spec fn offsets_below(n: nat) -> Seq<u32>
    decreases n,
{
    if n == 0 {
        Seq::empty()
    } else {
        let off = (4 * (n - 1)) as u32;
        let before = offsets_below((n - 1) as nat);
        if protocol::profile_writable(off) {
            before.push(off)
        } else {
            before
        }
    }
}

/// The offsets that a profile holds: those of the settings that may be written.
pub open spec fn profile_offsets() -> Seq<u32> {
    offsets_below(120)
}

/// The readings of offsets, with their replies.
pub open spec fn offset_reads(
    device: u8,
    family: u8,
    offsets: Seq<u32>,
    replies: Seq<Option<[u8; 4]>>,
) -> Seq<Call> {
    Seq::new(
        offsets.len(),
        |i: int| Call::Read { device, family, offset: offsets[i], reply: replies[i] },
    )
}

/// The entries of the offsets that answered: the offset and its bytes, in
/// hexadecimal.
pub open spec fn entries_of(offsets: Seq<u32>, replies: Seq<Option<[u8; 4]>>) -> Seq<
    (Seq<char>, Seq<char>),
>
    decreases offsets.len(),
{
    if offsets.len() == 0 {
        Seq::empty()
    } else {
        let before = entries_of(offsets.drop_last(), replies);
        match replies[offsets.len() - 1] {
            Some(w) => before.push(
                (text::hex_prefixed(offsets.last() as nat, 4), protocol::hex_dump(w@)),
            ),
            None => before,
        }
    }
}

/// The entries as their plain values.
pub open spec fn entry_views(entries: Seq<(String, String)>) -> Seq<(Seq<char>, Seq<char>)> {
    Seq::new(entries.len(), |i: int| (entries[i].0@, entries[i].1@))
}

/// Captures one controller. Only reads.
pub fn capture_controller<T: Transport>(t: &mut T, device: u8, family: u8) -> (r:
    ProfileController)
    ensures
        r.device == device,
        r.family == family,
        r.model@ == protocol::model_or(device, family, "")@,
        exists|a: Seq<Option<[u8; 4]>>|
            {
                &&& a.len() == profile_offsets().len()
                &&& final(t).calls() == old(t).calls() + #[trigger] offset_reads(
                    device,
                    family,
                    profile_offsets(),
                    a,
                )
                &&& entry_views(r.entries@) == entries_of(profile_offsets(), a)
            },
{
    let ghost start = t.calls();
    let ghost mut a: Seq<Option<[u8; 4]>> = Seq::empty();
    let mut entries: Vec<(String, String)> = Vec::new();
    let mut n: u32 = 0;
    assert(offset_reads(device, family, offsets_below(0), a) =~= Seq::<Call>::empty());
    assert(entry_views(entries@) =~= entries_of(offsets_below(0), a));
    assert(t.calls() =~= start + offset_reads(device, family, offsets_below(0), a));
    while 4 * n <= PROFILE_DUMP_END
        invariant
            n <= 120,
            a.len() == offsets_below(n as nat).len(),
            t.calls() == start + offset_reads(device, family, offsets_below(n as nat), a),
            entry_views(entries@) == entries_of(offsets_below(n as nat), a),
        decreases 120 - n,
    {
        let off: u32 = 4 * n;
        let ghost before = offsets_below(n as nat);
        let ghost next = offsets_below((n + 1) as nat);
        let ghost old_a = a;
        let ghost old_entries = entries@;
        if protocol::is_profile_writable(off) {
            let reply: Option<[u8; 4]> = t.read_cfg(device, family, off);
            proof {
                a = a.push(reply);
                assert(next.drop_last() == before);
                assert(offset_reads(device, family, next, a) =~= offset_reads(
                    device,
                    family,
                    before,
                    old_a,
                ).push(Call::Read { device, family, offset: off, reply }));
                lemma_entries_of(before, old_a, a);
            }
            if let Some(w) = reply {
                let key: String = text::hex_prefixed_text(off as u64, 4);
                let value: String = protocol::hx(w.as_slice());
                entries.push((key, value));
                assert(entry_views(entries@) =~= entry_views(old_entries).push((key@, value@)));
            }
        }
        n += 1;
    }
    assert(n == 120);
    assert(t.calls() == start + offset_reads(device, family, profile_offsets(), a));
    let model: String = match protocol::controller_name(device, family) {
        Some(m) => m.to_string(),
        None => "".to_string(),
    };
    ProfileController { device, family, model, entries }
}

proof fn lemma_entries_of(
    offsets: Seq<u32>,
    a: Seq<Option<[u8; 4]>>,
    b: Seq<Option<[u8; 4]>>,
)
    requires
        offsets.len() <= a.len() <= b.len(),
        forall|i: int| 0 <= i < offsets.len() ==> a[i] == b[i],
    ensures
        entries_of(offsets, a) == entries_of(offsets, b),
    decreases offsets.len(),
{
    if offsets.len() > 0 {
        lemma_entries_of(offsets.drop_last(), a, b);
    }
}

/// The controller was captured from the replies.
pub open spec fn is_capture(p: ProfileController, c: Controller, a: Seq<Option<[u8; 4]>>) -> bool {
    &&& p.device == c.device
    &&& p.family == c.family
    &&& p.model@ == protocol::model_or(c.device, c.family, "")@
    &&& a.len() == profile_offsets().len()
    &&& entry_views(p.entries@) == entries_of(profile_offsets(), a)
}

/// The controllers were captured from the replies, each from its own.
pub open spec fn are_captures(
    p: Seq<ProfileController>,
    controllers: Seq<Controller>,
    a: Seq<Seq<Option<[u8; 4]>>>,
) -> bool {
    &&& p.len() == controllers.len()
    &&& a.len() == controllers.len()
    &&& forall|i: int| 0 <= i < p.len() ==> is_capture(#[trigger] p[i], controllers[i], a[i])
}

/// The readings of a capture, controller after controller.
pub open spec fn capture_calls(
    controllers: Seq<Controller>,
    replies: Seq<Seq<Option<[u8; 4]>>>,
) -> Seq<Call>
    decreases controllers.len(),
{
    if controllers.len() == 0 {
        Seq::empty()
    } else {
        let c = controllers.last();
        capture_calls(controllers.drop_last(), replies) + offset_reads(
            c.device,
            c.family,
            profile_offsets(),
            replies[controllers.len() - 1],
        )
    }
}

/// Captures the controllers of an open joystick, one after the other. Only reads.
pub fn capture_controllers<T: Transport>(t: &mut T, controllers: &[Controller]) -> (r: Vec<
    ProfileController,
>)
    ensures
        exists|a: Seq<Seq<Option<[u8; 4]>>>|
            {
                &&& final(t).calls() == old(t).calls() + #[trigger] capture_calls(controllers@, a)
                &&& are_captures(r@, controllers@, a)
            },
{
    let ghost start = t.calls();
    let ghost mut a: Seq<Seq<Option<[u8; 4]>>> = Seq::empty();
    let mut out: Vec<ProfileController> = Vec::new();
    let mut i: usize = 0;
    assert(t.calls() =~= start + capture_calls(controllers@.take(0), a));
    while i < controllers.len()
        invariant
            i <= controllers.len(),
            a.len() == i,
            out.len() == i,
            t.calls() == start + capture_calls(controllers@.take(i as int), a),
            forall|k: int|
                0 <= k < i ==> is_capture(#[trigger] out@[k], controllers@[k], a[k]),
        decreases controllers.len() - i,
    {
        let ghost before = t.calls();
        let ghost old_a = a;
        let c: ProfileController = capture_controller(
            t,
            controllers[i].device,
            controllers[i].family,
        );
        proof {
            let d = controllers@[i as int];
            let one = choose|one: Seq<Option<[u8; 4]>>|
                {
                    &&& one.len() == profile_offsets().len()
                    &&& t.calls() == before + #[trigger] offset_reads(
                        d.device,
                        d.family,
                        profile_offsets(),
                        one,
                    )
                    &&& entry_views(c.entries@) == entries_of(profile_offsets(), one)
                };
            a = a.push(one);
            assert(controllers@.take(i + 1).drop_last() == controllers@.take(i as int));
            lemma_capture_calls(controllers@.take(i as int), old_a, a);
            assert(t.calls() =~= start + capture_calls(controllers@.take(i + 1), a));
            assert(is_capture(c, d, one));
        }
        out.push(c);
        i += 1;
    }
    assert(controllers@.take(i as int) == controllers@);
    assert(are_captures(out@, controllers@, a));
    out
}

proof fn lemma_capture_calls(
    controllers: Seq<Controller>,
    a: Seq<Seq<Option<[u8; 4]>>>,
    b: Seq<Seq<Option<[u8; 4]>>>,
)
    requires
        controllers.len() <= a.len() <= b.len(),
        forall|i: int| 0 <= i < controllers.len() ==> a[i] == b[i],
    ensures
        capture_calls(controllers, a) == capture_calls(controllers, b),
    decreases controllers.len(),
{
    if controllers.len() > 0 {
        lemma_capture_calls(controllers.drop_last(), a, b);
    }
}

/// A capture only reads: no call of it writes or restarts.
pub proof fn law_capture_only_reads(
    controllers: Seq<Controller>,
    replies: Seq<Seq<Option<[u8; 4]>>>,
    k: int,
)
    requires
        0 <= k < capture_calls(controllers, replies).len(),
    ensures
        capture_calls(controllers, replies)[k] is Read,
        !model::changes_device(capture_calls(controllers, replies)[k]),
    decreases controllers.len(),
{
    let n = capture_calls(controllers.drop_last(), replies).len();
    if k < n {
        law_capture_only_reads(controllers.drop_last(), replies, k);
    }
}

/// The profile of captured controllers.
pub fn profile_of(
    controllers: Vec<ProfileController>,
    name: &str,
    dev: &WinwingDevice,
    created: &str,
) -> (r: Profile)
    ensures
        r.format@ == PROFILE_FORMAT@,
        r.version == PROFILE_VERSION,
        r.name@ == name@,
        r.created@ == created@,
        r.app_version@ == version::APP_VERSION@,
        r.device.hidraw@ == dev.hidraw@,
        r.device.pid@ == text::hex_fill(dev.pid as nat, 4),
        r.device.product_name@ == dev.product@,
        r.device.serial@ == dev.serial@,
        r.controllers == controllers,
{
    Profile {
        format: PROFILE_FORMAT.to_string(),
        version: PROFILE_VERSION,
        name: name.to_string(),
        created: created.to_string(),
        app_version: version::APP_VERSION.to_string(),
        device: DeviceMeta {
            hidraw: dev.hidraw.as_str().to_string(),
            pid: text::hex_text(dev.pid as u64, 4),
            product_name: dev.product.as_str().to_string(),
            serial: dev.serial.as_str().to_string(),
        },
        controllers,
    }
}

/// Opens the joystick and captures its controllers as a profile. It fails only when
/// the joystick does not open, with that error.
pub fn capture_device<T: Transport>(
    path: &str,
    controllers: &[Controller],
    name: &str,
    dev: &WinwingDevice,
    created: &str,
) -> (r: Result<Profile, TransportError>)
    ensures
        match r {
            Ok(p) => {
                &&& p.format@ == PROFILE_FORMAT@
                &&& p.version == PROFILE_VERSION
                &&& p.name@ == name@
                &&& p.created@ == created@
                &&& p.app_version@ == version::APP_VERSION@
                &&& p.device.hidraw@ == dev.hidraw@
                &&& p.device.pid@ == text::hex_fill(dev.pid as nat, 4)
                &&& p.device.product_name@ == dev.product@
                &&& p.device.serial@ == dev.serial@
                &&& exists|o: T, t: T, a: Seq<Seq<Option<[u8; 4]>>>| #[trigger]
                    model::is_session(path, o, t, capture_calls(controllers@, a)) && are_captures(
                        p.controllers@,
                        controllers@,
                        a,
                    )
                &&& p.valid() == (controllers@.len() > 0)
            },
            Err(e) => call_ensures(T::open, (path,), Err::<T, TransportError>(e)),
        },
{
    let mut t: T = match T::open(path) {
        Ok(t) => t,
        Err(e) => {
            return Err(e);
        },
    };
    let ghost o = t;
    let captured: Vec<ProfileController> = capture_controllers(&mut t, controllers);
    let ghost done = t;
    let ghost a = choose|a: Seq<Seq<Option<[u8; 4]>>>|
        {
            &&& t.calls() == o.calls() + #[trigger] capture_calls(controllers@, a)
            &&& are_captures(captured@, controllers@, a)
        };
    t.close();
    assert(model::is_session(path, o, done, capture_calls(controllers@, a)));
    Ok(profile_of(captured, name, dev, created))
}

proof fn lemma_offsets_below(n: nat, i: int)
    requires
        n <= 120,
        0 <= i < offsets_below(n).len(),
    ensures
        offsets_below(n)[i] < 4 * n,
        offsets_below(n)[i] % 4 == 0,
        protocol::profile_writable(offsets_below(n)[i]),
        i > 0 ==> offsets_below(n)[i - 1] < offsets_below(n)[i],
    decreases n,
{
    let before = offsets_below((n - 1) as nat);
    if i < before.len() {
        lemma_offsets_below((n - 1) as nat, i);
    } else if i > 0 {
        lemma_offsets_below((n - 1) as nat, i - 1);
    }
}

/// A profile holds nothing of the identity and nothing that must not be written:
/// each offset that it was captured from passes the guard of writes.
pub proof fn law_profile_offsets_can_be_written(i: int)
    requires
        0 <= i < profile_offsets().len(),
    ensures
        profile_offsets()[i] <= PROFILE_DUMP_END,
        !protocol::touches_identity(profile_offsets()[i]),
        protocol::guard_verdict(profile_offsets()[i], false) is Ok,
        i > 0 ==> profile_offsets()[i - 1] < profile_offsets()[i],
{
    lemma_offsets_below(120, i);
    protocol::law_profile_passes_guard(profile_offsets()[i]);
}

proof fn lemma_offsets_cover(n: nat, off: u32)
    requires
        n <= 120,
        off < 4 * n,
        off % 4 == 0,
        protocol::profile_writable(off),
    ensures
        offsets_below(n).contains(off),
    decreases n,
{
    let all = offsets_below(n);
    let before = offsets_below((n - 1) as nat);
    if off == 4 * (n - 1) {
        assert(all[all.len() - 1] == off);
    } else {
        lemma_offsets_cover((n - 1) as nat, off);
        let i = choose|i: int| 0 <= i < before.len() && before[i] == off;
        assert(all[i] == off);
    }
}

/// A profile holds every setting up to the last offset that may be written back.
pub proof fn law_profile_offsets_are_complete(off: u32)
    requires
        off <= PROFILE_DUMP_END,
        off % 4 == 0,
        protocol::profile_writable(off),
    ensures
        profile_offsets().contains(off),
{
    lemma_offsets_cover(120, off);
}

proof fn lemma_entry_keys(n: nat, a: Seq<Option<[u8; 4]>>, offsets: Seq<u32>)
    requires
        offsets == profile_offsets().take(n as int),
        n <= profile_offsets().len(),
    ensures
        forall|i: int, j: int|
            0 <= i < j < entries_of(offsets, a).len() ==> text::precedes(
                (#[trigger] entries_of(offsets, a)[i]).0,
                (#[trigger] entries_of(offsets, a)[j]).0,
            ),
        forall|i: int|
            0 <= i < entries_of(offsets, a).len() ==> exists|k: int|
                0 <= k < n && (#[trigger] entries_of(offsets, a)[i]).0 == text::hex_prefixed(
                    #[trigger] profile_offsets()[k] as nat,
                    4,
                ),
    decreases n,
{
    if n > 0 {
        let before = offsets.drop_last();
        let all = profile_offsets();
        assert(before == all.take(n - 1));
        lemma_entry_keys((n - 1) as nat, a, before);
        let shorter = entries_of(before, a);
        let entries = entries_of(offsets, a);
        assert(offsets.last() == all[n - 1]);
        if a[n - 1] is Some {
            let key = text::hex_prefixed(all[n - 1] as nat, 4);
            assert(entries.last().0 == key);
            assert forall|i: int| 0 <= i < shorter.len() implies text::precedes(
                (#[trigger] shorter[i]).0,
                key,
            ) by {
                let k = choose|k: int|
                    0 <= k < n - 1 && shorter[i].0 == text::hex_prefixed(
                        #[trigger] all[k] as nat,
                        4,
                    );
                lemma_offsets_ascend(k, n - 1);
                lemma_offsets_below(120, n - 1);
                text::lemma_hex4_order(all[k] as nat, all[n - 1] as nat);
            }
            assert forall|i: int, j: int| 0 <= i < j < entries.len() implies text::precedes(
                (#[trigger] entries[i]).0,
                (#[trigger] entries[j]).0,
            ) by {
                assert(entries[i] == shorter[i]);
                if j < shorter.len() {
                    assert(entries[j] == shorter[j]);
                }
            }
            assert forall|i: int| 0 <= i < entries.len() implies exists|k: int|
                0 <= k < n && (#[trigger] entries[i]).0 == text::hex_prefixed(
                    #[trigger] all[k] as nat,
                    4,
                ) by {
                if i < shorter.len() {
                    assert(entries[i] == shorter[i]);
                } else {
                    assert(entries[i].0 == text::hex_prefixed(all[n - 1] as nat, 4));
                }
            }
        }
    }
}

proof fn lemma_offsets_ascend(i: int, j: int)
    requires
        0 <= i < j < profile_offsets().len(),
    ensures
        profile_offsets()[i] < profile_offsets()[j],
    decreases j,
{
    lemma_offsets_below(120, j);
    if i < j - 1 {
        lemma_offsets_ascend(i, j - 1);
    }
}

/// Whatever a controller replies, the entries of its capture stand in the order of
/// their texts, and none stands twice.
pub proof fn law_entries_ascend(a: Seq<Option<[u8; 4]>>, i: int, j: int)
    requires
        0 <= i < j < entries_of(profile_offsets(), a).len(),
    ensures
        text::precedes(
            entries_of(profile_offsets(), a)[i].0,
            entries_of(profile_offsets(), a)[j].0,
        ),
        entries_of(profile_offsets(), a)[i].0 != entries_of(profile_offsets(), a)[j].0,
{
    let all = profile_offsets();
    assert(all.take(all.len() as int) == all);
    lemma_entry_keys(all.len(), a, all);
    text::lemma_precedes_total(entries_of(all, a)[i].0, entries_of(all, a)[j].0);
}

// --- Files ------------------------------------------------------------------------------------

/// The directory of the profiles, below the home of the user.
pub fn profiles_dir(home: &str) -> (r: String)
    ensures
        r@ == text::below(home@, ".local/share/winctrl/profiles"@),
{
    text::path_below(home, ".local/share/winctrl/profiles")
}

/// The key of the joystick that the profiles are shown for.
pub fn page_key(dev: &WinwingDevice) -> (r: String)
    ensures
        r@ == text::hex_fill(dev.pid as nat, 4) + ":"@ + dev.hidraw@,
{
    let mut out: String = text::hex_text(dev.pid as u64, 4);
    out.append(":");
    out.append(dev.hidraw.as_str());
    out
}

/// The name of a captured profile: the one that was entered, unless it is blank.
pub fn chosen_name(entered: &str, fallback: String) -> (r: String)
    ensures
        r@ == if text::trim(entered@).len() == 0 {
            fallback@
        } else {
            entered@
        },
{
    if text::trim_text(entered).as_str().is_empty() {
        fallback
    } else {
        entered.to_string()
    }
}

/// The name of the file of a profile, without its extension.
pub fn slug(name: &str) -> (r: String)
    ensures
        r@ == remap_store::slug_of(name@, "profil"@),
{
    remap_store::slug_or(name, "profil")
}

/// The file of a profile.
pub fn profile_path(home: &str, name: &str) -> (r: String)
    ensures
        r@ == text::below(
            text::below(home@, ".local/share/winctrl/profiles"@),
            remap_store::slug_of(name@, "profil"@) + ".json"@,
        ),
{
    let mut file: String = slug(name);
    file.append(".json");
    text::path_below(profiles_dir(home).as_str(), file.as_str())
}

/// The extension of the name is `json`; a name that is nothing else has none.
pub open spec fn is_json_name(name: Seq<char>) -> bool {
    text::finishes_with(name, ".json"@) && name.len() > 5
}

/// Whether a file of the directory may hold a profile, by its name.
pub fn is_profile_file(name: &str) -> (r: bool)
    ensures
        r == is_json_name(name@),
{
    text::chars_of(name).len() > 5 && text::str_ends_with(name, ".json")
}

/// What `str::to_lowercase` makes of a text.
pub uninterp spec fn lowercase(s: Seq<char>) -> Seq<char>;

/// `str::to_lowercase`: the text in lower case, by the rules of Unicode.
#[verifier::external_body]
fn lowercase_text(s: &str) -> (r: String)
    ensures
        r@ == lowercase(s@),
{
    s.to_lowercase()
}

/// The found profiles that can be used, in the order in which they were found.
pub open spec fn usable(found: Seq<(String, Profile)>) -> Seq<(String, Profile)>
    decreases found.len(),
{
    if found.len() == 0 {
        Seq::empty()
    } else {
        let before = usable(found.drop_last());
        if found.last().1.valid() {
            before.push(found.last())
        } else {
            before
        }
    }
}

/// The keys by which found profiles are listed.
pub open spec fn listing_keys(found: Seq<(String, Profile)>) -> Seq<Seq<char>> {
    Seq::new(found.len(), |i: int| lowercase(found[i].1.name@))
}

/// The list holds the profiles in the order that `order` says.
pub open spec fn arranged(found: Seq<(String, Profile)>, order: Seq<usize>) -> Seq<
    (String, Profile),
> {
    Seq::new(order.len(), |i: int| found[order[i] as int])
}

/// Lists the profiles that were found, each with its path: those that can be used,
/// by their names without regard to case; of equal names, the one found first comes
/// first.
pub fn list_profiles(found: Vec<(String, Profile)>) -> (r: Vec<(String, Profile)>)
    ensures
        exists|order: Seq<usize>|
            {
                &&& text::is_order_of(order, listing_keys(usable(found@)))
                &&& r@ == #[trigger] arranged(usable(found@), order)
            },
{
    let ghost all = found@;
    let mut slots: Vec<Option<(String, Profile)>> = Vec::new();
    let mut keys: Vec<String> = Vec::new();
    for f in it: found
        invariant
            it.seq() == all,
            slots.len() == usable(all.take(it.index() as int)).len(),
            forall|k: int|
                0 <= k < slots.len() ==> #[trigger] slots@[k] == Some(
                    usable(all.take(it.index() as int))[k],
                ),
            text::views(keys@) == listing_keys(usable(all.take(it.index() as int))),
    {
        proof {
            let i = it.index() as int;
            assert(all.take(i + 1).drop_last() == all.take(i));
            assert(all.take(i + 1).last() == f);
        }
        let ghost before = text::views(keys@);
        if f.1.is_valid() {
            let key: String = lowercase_text(f.1.name.as_str());
            let ghost kv = key@;
            keys.push(key);
            slots.push(Some(f));
            assert(text::views(keys@) =~= before.push(kv));
        }
        assert(text::views(keys@) =~= listing_keys(usable(all.take(it.index() + 1))));
    }
    assert(all.take(all.len() as int) == all);
    let ghost kept = usable(all);
    let order: Vec<usize> = text::order_of(&keys);
    let mut out: Vec<(String, Profile)> = Vec::new();
    let mut i: usize = 0;
    while i < order.len()
        invariant
            i <= order.len(),
            order.len() == kept.len(),
            slots.len() == kept.len(),
            text::is_order_of(order@, listing_keys(kept)),
            out@ == arranged(kept, order@).take(i as int),
            forall|k: int|
                i <= k < order.len() ==> slots@[#[trigger] order@[k] as int] == Some(
                    kept[order@[k] as int],
                ),
        decreases order.len() - i,
    {
        let k: usize = order[i];
        assert(slots@[order@[i as int] as int] == Some(kept[k as int]));
        let slot: Option<(String, Profile)> = slots[k].take();
        proof {
            assert forall|j: int| i + 1 <= j < order.len() implies slots@[#[trigger] order@[j] as int]
                == Some(kept[order@[j] as int]) by {
                text::lemma_order_is_injective(order@, listing_keys(kept), i as int, j);
            }
        }
        if let Some(p) = slot {
            out.push(p);
        }
        i += 1;
        assert(out@ =~= arranged(kept, order@).take(i as int));
    }
    assert(out@ =~= arranged(kept, order@));
    out
}

/// The text that is shown for a text, or `other` when it is empty.
pub open spec fn shown_or(s: Seq<char>, other: Seq<char>) -> Seq<char> {
    if s.len() == 0 {
        other
    } else {
        s
    }
}

/// What a profile is described by: when it was captured, the joystick, and the
/// number of its entries.
pub open spec fn facts(p: Profile) -> Seq<Seq<char>> {
    seq![
        shown_or(p.created@, "—"@),
        shown_or(p.device.product_name@, "?"@),
        text::dec(p.size()),
    ]
}

/// The description of a profile, in the message given.
pub fn describe_with(template: String, p: &Profile) -> (r: String)
    requires
        p.size() <= usize::MAX,
    ensures
        r@ == i18n::interpolated(template@, facts(*p)),
{
    let count: String = text::dec_text(p.entry_count() as u64);
    let created: &str = if p.created.as_str().is_empty() {
        "—"
    } else {
        p.created.as_str()
    };
    let product: &str = if p.device.product_name.as_str().is_empty() {
        "?"
    } else {
        p.device.product_name.as_str()
    };
    let args: [&str; 3] = [created, product, count.as_str()];
    assert(i18n::arg_texts(args@) =~= facts(*p));
    i18n::interpolate(template, args.as_slice())
}

/// The description of a profile, in the user's language.
pub fn describe(p: &Profile) -> (r: String)
    requires
        p.size() <= usize::MAX,
    ensures
        exists|t: String| #[trigger]
            call_ensures(i18n::tr, ("{} · {} · {} settings",), t) && r@ == i18n::interpolated(
                t@,
                facts(*p),
            ),
{
    proof {
        reveal_strlit("{} · {} · {} settings");
    }
    let t: String = i18n::tr("{} · {} · {} settings");
    describe_with(t, p)
}

// --- Laws of captures and lists ------------------------------------------------------------------

proof fn lemma_entries_complete(offsets: Seq<u32>, a: Seq<Option<[u8; 4]>>, k: int)
    requires
        0 <= k < offsets.len() <= a.len(),
        a[k] is Some,
    ensures
        entries_of(offsets, a).contains(
            (text::hex_prefixed(offsets[k] as nat, 4), protocol::hex_dump(a[k]->0@)),
        ),
    decreases offsets.len(),
{
    let all = entries_of(offsets, a);
    let before = entries_of(offsets.drop_last(), a);
    let e = (text::hex_prefixed(offsets[k] as nat, 4), protocol::hex_dump(a[k]->0@));
    if k == offsets.len() - 1 {
        assert(all[all.len() - 1] == e);
    } else {
        assert(offsets.drop_last()[k] == offsets[k]);
        lemma_entries_complete(offsets.drop_last(), a, k);
        let i = choose|i: int| 0 <= i < before.len() && before[i] == e;
        assert(all[i] == e);
    }
}

proof fn lemma_entries_sound(offsets: Seq<u32>, a: Seq<Option<[u8; 4]>>, i: int) -> (k: int)
    requires
        offsets.len() <= a.len(),
        0 <= i < entries_of(offsets, a).len(),
    ensures
        0 <= k < offsets.len(),
        a[k] is Some,
        entries_of(offsets, a)[i] == (
            text::hex_prefixed(offsets[k] as nat, 4),
            protocol::hex_dump(a[k]->0@),
        ),
    decreases offsets.len(),
{
    let before = entries_of(offsets.drop_last(), a);
    if i < before.len() {
        let k = lemma_entries_sound(offsets.drop_last(), a, i);
        assert(offsets.drop_last()[k] == offsets[k]);
        k
    } else {
        offsets.len() - 1
    }
}

/// A capture holds what the memory of the controller holds: every word up to 0x1DC
/// that may be written back and that answered is an entry, under its offset.
pub proof fn law_capture_holds_the_memory(
    p: ProfileController,
    c: Controller,
    a: Seq<Option<[u8; 4]>>,
    memory: model::Memory,
    off: u32,
)
    requires
        is_capture(p, c, a),
        model::answered_from(offset_reads(c.device, c.family, profile_offsets(), a), memory),
        off <= 0x1DC,
        off % 4 == 0,
        protocol::profile_writable(off),
        memory(c.device, c.family, off) is Some,
    ensures
        p.device == c.device,
        p.family == c.family,
        entry_views(p.entries@).contains(
            (
                text::hex_prefixed(off as nat, 4),
                protocol::hex_dump(memory(c.device, c.family, off)->0@),
            ),
        ),
{
    law_profile_offsets_are_complete(off);
    let offsets = profile_offsets();
    let k = choose|k: int| 0 <= k < offsets.len() && offsets[k] == off;
    let reads = offset_reads(c.device, c.family, offsets, a);
    assert(reads[k] == (Call::Read {
        device: c.device,
        family: c.family,
        offset: off,
        reply: a[k],
    }));
    lemma_entries_complete(offsets, a, k);
}

/// A capture holds nothing else: each entry is a word that the memory holds, at an
/// offset that may be written back.
pub proof fn law_capture_holds_nothing_else(
    p: ProfileController,
    c: Controller,
    a: Seq<Option<[u8; 4]>>,
    memory: model::Memory,
    i: int,
)
    requires
        is_capture(p, c, a),
        model::answered_from(offset_reads(c.device, c.family, profile_offsets(), a), memory),
        0 <= i < p.entries@.len(),
    ensures
        exists|off: u32|
            {
                &&& #[trigger] protocol::profile_writable(off)
                &&& memory(c.device, c.family, off) is Some
                &&& p.entries@[i].0@ == text::hex_prefixed(off as nat, 4)
                &&& p.entries@[i].1@ == protocol::hex_dump(memory(c.device, c.family, off)->0@)
            },
{
    let offsets = profile_offsets();
    assert(entry_views(p.entries@)[i] == (p.entries@[i].0@, p.entries@[i].1@));
    let k = lemma_entries_sound(offsets, a, i);
    let off = offsets[k];
    lemma_offsets_below(120, k);
    let reads = offset_reads(c.device, c.family, offsets, a);
    assert(reads[k] == (Call::Read {
        device: c.device,
        family: c.family,
        offset: off,
        reply: a[k],
    }));
    assert(protocol::profile_writable(off));
}

/// Of the found profiles those are listed that can be used: all of them, and no
/// others.
pub proof fn law_only_usable_profiles_are_listed(found: Seq<(String, Profile)>, k: int)
    ensures
        0 <= k < found.len() && found[k].1.valid() ==> usable(found).contains(found[k]),
        0 <= k < usable(found).len() ==> usable(found)[k].1.valid() && found.contains(
            usable(found)[k],
        ),
    decreases found.len(),
{
    if found.len() > 0 {
        let rest = found.drop_last();
        let before = usable(rest);
        let all = usable(found);
        law_only_usable_profiles_are_listed(rest, k);
        if 0 <= k < found.len() && found[k].1.valid() {
            if k == found.len() - 1 {
                assert(all[all.len() - 1] == found[k]);
            } else {
                assert(rest[k] == found[k]);
                let i = choose|i: int| 0 <= i < before.len() && before[i] == found[k];
                assert(all[i] == found[k]);
            }
        }
        if 0 <= k < all.len() {
            if k < before.len() {
                let i = choose|i: int| 0 <= i < rest.len() && rest[i] == before[k];
                assert(found[i] == all[k]);
            } else {
                assert(found[found.len() - 1] == all[k]);
            }
        }
    }
}

/// A profile can be used when it says that it is one, of a version that is known,
/// and holds a controller.
pub proof fn law_usable_profiles(p: Profile)
    ensures
        p.valid() <==> p.format@ == "winwing-profile"@ && p.version <= 1 && p.controllers@.len()
            > 0,
{
}

/// The number of entries of a profile is that of all its controllers: one more
/// controller adds its own.
pub proof fn law_size_counts_every_controller(
    controllers: Seq<ProfileController>,
    c: ProfileController,
)
    ensures
        entries_before(controllers.push(c), controllers.len() + 1) == entries_before(
            controllers,
            controllers.len(),
        ) + c.entries@.len(),
        entries_before(controllers, 0) == 0,
{
    lemma_entries_of_first(controllers, controllers.push(c), controllers.len());
}

proof fn lemma_entries_of_first(a: Seq<ProfileController>, b: Seq<ProfileController>, n: nat)
    requires
        n <= a.len() <= b.len(),
        forall|i: int| 0 <= i < a.len() ==> a[i] == b[i],
    ensures
        entries_before(a, n) == entries_before(b, n),
    decreases n,
{
    if n > 0 {
        lemma_entries_of_first(a, b, (n - 1) as nat);
    }
}

} // verus!
