//! Mouse identity.
//!
//! Every event carries an index into this table rather than a handle, because
//! handles are not stable across replug and mean nothing after the session ends.
//! The table itself is stored in the session header, so that a dataset recorded
//! months ago still says which physical mouse produced it.

use vstd::prelude::*;

use std::collections::HashMap;

use crate::text::chars_of;
use crate::utf16::decode_until_zero;

verus! {

/// What can honestly be learnt about one physical mouse.
#[derive(Debug)]
pub struct DeviceInfo {
    /// Index used by `Event::dev`.
    pub index: u8,
    /// Device interface path, e.g. `\\?\HID#VID_046D&PID_C52B&...`. Stable across
    /// reboots for the same port and device, unlike the handle.
    pub name: String,
    /// Parsed out of `name` when present. USB vendor and product ids.
    pub vendor_id: Option<u16>,
    pub product_id: Option<u16>,
    /// Reported by Windows, not probed or guessed.
    pub buttons: u32,
    /// Device-reported sample rate in Hz. This is the driver's claim, which is
    /// frequently 0 or a nominal value rather than the true polling rate. The
    /// measured inter-event interval in the data is the authoritative number.
    pub reported_sample_rate: u32,
    pub has_horizontal_wheel: bool,
    /// True for the entry that absorbs events from devices that are not known.
    pub synthetic: bool,
}

impl DeviceInfo {
    /// Nothing known.
    pub open spec fn is_blank_but_name(&self, name: Seq<char>) -> bool {
        &&& self.index == 0
        &&& self.name@ == name
        &&& self.vendor_id is None
        &&& self.product_id is None
        &&& self.buttons == 0
        &&& self.reported_sample_rate == 0
        &&& !self.has_horizontal_wheel
    }

    /// The same information.
    pub fn copy(&self) -> (d: DeviceInfo)
        ensures
            d == *self,
    {
        DeviceInfo {
            index: self.index,
            name: self.name.clone(),
            vendor_id: self.vendor_id,
            product_id: self.product_id,
            buttons: self.buttons,
            reported_sample_rate: self.reported_sample_rate,
            has_horizontal_wheel: self.has_horizontal_wheel,
            synthetic: self.synthetic,
        }
    }
}

impl Clone for DeviceInfo {
    fn clone(&self) -> (d: Self)
        ensures
            d == *self,
    {
        self.copy()
    }
}

impl Default for DeviceInfo {
    fn default() -> (d: Self)
        ensures
            d.is_blank_but_name(seq![]),
            !d.synthetic,
    {
        DeviceInfo {
            index: 0,
            name: String::new(),
            vendor_id: None,
            product_id: None,
            buttons: 0,
            reported_sample_rate: 0,
            has_horizontal_wheel: false,
            synthetic: false,
        }
    }
}

/// A copy of the list.
pub fn copy_devices(list: &[DeviceInfo]) -> (v: Vec<DeviceInfo>)
    ensures
        v@ == list@,
{
    let mut v: Vec<DeviceInfo> = Vec::new();
    let mut i: usize = 0;
    while i < list.len()
        invariant
            i <= list@.len(),
            v@ == list@.take(i as int),
        decreases list@.len() - i,
    {
        v.push(list[i].copy());
        i = i + 1;
        assert(v@ =~= list@.take(i as int));
    }
    assert(list@.take(i as int) =~= list@);
    v
}

// ---- the table ----------------------------------------------------------------------

/// Index handed to events whose device is not known. Always present, so that an
/// unknown device can never cause an event to be dropped.
pub const UNKNOWN_DEVICE: u8 = 0;

/// How many devices an index can tell apart.
pub const MAX_DEVICES: usize = 255;

/// Devices seen in this session, and which handle stands for which now.
pub struct DeviceTable {
    devices: Vec<DeviceInfo>,
    by_handle: HashMap<isize, u8>,
}

/// The devices of a table and its handles.
#[verifier::ext_equal]
pub struct TableState {
    pub devices: Seq<DeviceInfo>,
    pub by_handle: Map<isize, u8>,
}

/// The device is a real one with that path.
pub open spec fn is_named(d: DeviceInfo, name: Seq<char>) -> bool {
    d.name@ == name && !d.synthetic
}

/// Where the first real device with that path stands, looking from `from` on.
pub open spec fn place_of(devices: Seq<DeviceInfo>, name: Seq<char>, from: int) -> Option<int>
    decreases devices.len() - from,
{
    if from < 0 || from >= devices.len() {
        None
    } else if is_named(devices[from], name) {
        Some(from)
    } else {
        place_of(devices, name, from + 1)
    }
}

impl TableState {
    /// Takes one device found into account: one known by its path keeps its index,
    /// another gets the next, as long as there is one.
    pub open spec fn with_found(self, handle: isize, info: DeviceInfo) -> TableState {
        match place_of(self.devices, info.name@, 0) {
            Some(pos) => TableState {
                by_handle: self.by_handle.insert(handle, self.devices[pos].index),
                ..self
            },
            None => if self.devices.len() >= MAX_DEVICES {
                self
            } else {
                let index = self.devices.len() as u8;
                TableState {
                    devices: self.devices.push(DeviceInfo { index, ..info }),
                    by_handle: self.by_handle.insert(handle, index),
                }
            },
        }
    }

    /// Takes all devices found into account, in the order found.
    pub open spec fn with_all(self, found: Seq<(isize, DeviceInfo)>) -> TableState
        decreases found.len(),
    {
        if found.len() == 0 {
            self
        } else {
            self.with_all(found.drop_last()).with_found(found.last().0, found.last().1)
        }
    }

    /// After the devices present now were found. Handles from before mean nothing.
    pub open spec fn refreshed(self, found: Seq<(isize, DeviceInfo)>) -> TableState {
        (TableState { by_handle: Map::empty(), ..self }).with_all(found)
    }

    /// Every index is the place of its device, the first place is for what is not
    /// known, and every handle stands for a device.
    pub open spec fn wf(self) -> bool {
        &&& 1 <= self.devices.len() <= MAX_DEVICES
        &&& forall|i: int| 0 <= i < self.devices.len() ==> (#[trigger] self.devices[i]).index == i
        &&& self.devices[0].synthetic
        &&& forall|h: isize| #[trigger]
            self.by_handle.contains_key(h) ==> self.by_handle[h] < self.devices.len()
    }
}

impl View for DeviceTable {
    type V = TableState;

    closed spec fn view(&self) -> TableState {
        TableState { devices: self.devices@, by_handle: self.by_handle@ }
    }
}

proof fn lemma_place(devices: Seq<DeviceInfo>, name: Seq<char>, from: int)
    requires
        0 <= from,
    ensures
        place_of(devices, name, from) matches Some(p) ==> from <= p < devices.len() && is_named(
            devices[p],
            name,
        ),
    decreases devices.len() - from,
{
    if from < devices.len() && !is_named(devices[from], name) {
        lemma_place(devices, name, from + 1);
    }
}

/// One device found keeps a table in order and takes nothing from it.
proof fn lemma_with_found(s: TableState, handle: isize, info: DeviceInfo)
    requires
        s.wf(),
    ensures
        s.with_found(handle, info).wf(),
        s.devices.is_prefix_of(s.with_found(handle, info).devices),
{
    lemma_place(s.devices, info.name@, 0);
}

impl DeviceTable {
    /// A table that knows no device but those found.
    pub fn new(found: Vec<(isize, DeviceInfo)>) -> (t: Self)
        ensures
            t@.wf(),
            exists|unknown: DeviceInfo| #[trigger]
                unknown.is_blank_but_name("<unknown>"@) && unknown.synthetic && t@ == (TableState {
                    devices: seq![unknown],
                    by_handle: Map::empty(),
                }).refreshed(found@),
    {
        let mut unknown = DeviceInfo::default();
        unknown.name = "<unknown>".to_owned();
        unknown.synthetic = true;
        let ghost u = unknown;
        let mut devices: Vec<DeviceInfo> = Vec::new();
        devices.push(unknown);
        let mut t = DeviceTable { devices, by_handle: HashMap::new() };
        assert(t@ =~= TableState { devices: seq![u], by_handle: Map::empty() });
        assert(u.is_blank_but_name("<unknown>"@));
        t.refresh(found);
        t
    }

    /// The index for a handle.
    ///
    /// A miss means that a device appeared without the notification having been
    /// seen yet; the event is still recorded, attributed to `UNKNOWN_DEVICE`, and
    /// the next refresh picks the device up properly.
    pub fn index_of(&self, handle: isize) -> (index: u8)
        ensures
            index == if self@.by_handle.contains_key(handle) {
                self@.by_handle[handle]
            } else {
                UNKNOWN_DEVICE
            },
    {
        match self.by_handle.get(&handle) {
            Some(i) => *i,
            None => UNKNOWN_DEVICE,
        }
    }

    pub fn devices(&self) -> (d: &[DeviceInfo])
        ensures
            d@ == self@.devices,
    {
        self.devices.as_slice()
    }

    /// Takes in what is plugged in now. Existing indices are preserved (matched by
    /// device path), so that events recorded before a replug still point at the
    /// same device. Returns whether a new device came up.
    pub fn refresh(&mut self, found: Vec<(isize, DeviceInfo)>) -> (changed: bool)
        requires
            old(self)@.wf(),
        ensures
            final(self)@.wf(),
            final(self)@ == old(self)@.refreshed(found@),
            changed == (final(self)@.devices.len() > old(self)@.devices.len()),
    {
        let mut changed = false;
        self.by_handle = HashMap::new();
        let ghost start = self@;
        assert(start =~= TableState { by_handle: Map::empty(), ..old(self)@ });
        let mut i: usize = 0;
        assert(found@.take(0) =~= seq![]);
        while i < found.len()
            invariant
                i <= found@.len(),
                start.wf(),
                self@.wf(),
                self@ == start.with_all(found@.take(i as int)),
                start.devices.len() <= self@.devices.len(),
                changed == (self@.devices.len() > start.devices.len()),
            decreases found@.len() - i,
        {
            let handle: isize = found[i].0;
            let info = &found[i].1;
            let ghost before = self@;
            proof {
                lemma_with_found(before, handle, *info);
                assert(found@.take(i + 1).drop_last() =~= found@.take(i as int));
            }
            match self.place(&info.name) {
                Some(pos) => {
                    let index: u8 = self.devices[pos].index;
                    self.by_handle.insert(handle, index);
                },
                None => {
                    if self.devices.len() < MAX_DEVICES {
                        let index: u8 = self.devices.len() as u8;
                        let mut added = info.copy();
                        added.index = index;
                        self.by_handle.insert(handle, index);
                        self.devices.push(added);
                        changed = true;
                    }
                },
            }
            assert(self@ =~= before.with_found(handle, *info));
            i = i + 1;
        }
        assert(found@.take(i as int) =~= found@);
        changed
    }

    /// Where the first real device with that path stands.
    fn place(&self, name: &String) -> (r: Option<usize>)
        ensures
            match r {
                Some(p) => place_of(self.devices@, name@, 0) == Some(p as int) && p
                    < self.devices@.len(),
                None => place_of(self.devices@, name@, 0) is None,
            },
    {
        let mut i: usize = 0;
        while i < self.devices.len()
            invariant
                i <= self.devices@.len(),
                place_of(self.devices@, name@, 0) == place_of(self.devices@, name@, i as int),
            decreases self.devices@.len() - i,
        {
            if self.devices[i].name == *name && !self.devices[i].synthetic {
                return Some(i);
            }
            i = i + 1;
        }
        None
    }
}

impl Default for DeviceTable {
    fn default() -> (t: Self)
        ensures
            t@.wf(),
            t@.devices.len() == 1,
            t@.by_handle == Map::<isize, u8>::empty(),
    {
        Self::new(Vec::new())
    }
}

// ---- what Windows reports of a device -------------------------------------------------

/// The kind of device that is a mouse.
pub const TYPE_MOUSE: u32 = 0;

/// The usage pair for a generic desktop mouse, used at registration.
pub const USAGE_PAGE_GENERIC: u16 = 0x01;

pub const USAGE_MOUSE: u16 = 0x02;

/// One device of the list.
pub struct DeviceReading {
    pub handle: isize,
    pub kind: u32,
    /// The path in 16-bit units, where it could be read.
    pub name: Option<Vec<u16>>,
    /// Buttons, sample rate and whether there is a horizontal wheel, where that
    /// could be read.
    pub caps: Option<(u32, u32, bool)>,
}

/// The path that was read, or none.
pub open spec fn path_text(name: Option<Vec<u16>>) -> Seq<char> {
    match name {
        Some(units) => crate::utf16::decoded(crate::utf16::until_zero(units@)),
        None => seq![],
    }
}

/// `info` is what is known of the device read.
pub open spec fn describes(info: DeviceInfo, reading: DeviceReading) -> bool {
    let name = path_text(reading.name);
    let caps = match reading.caps {
        Some(c) => c,
        None => (0, 0, false),
    };
    &&& info.index == 0
    &&& info.name@ == name
    &&& (info.vendor_id, info.product_id) == usb_ids(name)
    &&& info.buttons == caps.0
    &&& info.reported_sample_rate == caps.1
    &&& info.has_horizontal_wheel == caps.2
    &&& !info.synthetic
}

/// The readings that are of mice.
pub open spec fn of_mice(list: Seq<DeviceReading>) -> Seq<DeviceReading> {
    list.filter(|r: DeviceReading| r.kind == TYPE_MOUSE)
}

/// Room to make for a device path of that many units; nothing where it is empty
/// or implausibly long.
pub fn device_name_room(len: u32) -> (room: Option<usize>)
    ensures
        room == if len == 0 || len > 4096 {
            None
        } else {
            Some(len as usize)
        },
{
    if len == 0 || len > 4096 {
        None
    } else {
        Some(len as usize)
    }
}

/// The mice among the devices listed, with what is known of each.
pub fn describe_mice(list: &Vec<DeviceReading>) -> (out: Vec<(isize, DeviceInfo)>)
    ensures
        out@.len() == of_mice(list@).len(),
        forall|i: int|
            0 <= i < out@.len() ==> (#[trigger] out@[i]).0 == of_mice(list@)[i].handle && describes(
                out@[i].1,
                of_mice(list@)[i],
            ),
{
    let mut out: Vec<(isize, DeviceInfo)> = Vec::new();
    let mut i: usize = 0;
    assert(of_mice(list@.take(0)) =~= seq![]) by {
        assert(list@.take(0) =~= seq![]);
        reveal(Seq::filter);
    }
    while i < list.len()
        invariant
            i <= list@.len(),
            out@.len() == of_mice(list@.take(i as int)).len(),
            forall|k: int|
                0 <= k < out@.len() ==> (#[trigger] out@[k]).0 == of_mice(
                    list@.take(i as int),
                )[k].handle && describes(out@[k].1, of_mice(list@.take(i as int))[k]),
        decreases list@.len() - i,
    {
        let r = &list[i];
        let ghost before = of_mice(list@.take(i as int));
        proof {
            let next = list@.take(i + 1);
            assert(next.drop_last() =~= list@.take(i as int));
            assert(next.last() == *r);
            reveal(Seq::filter);
            assert(of_mice(next) =~= if r.kind == TYPE_MOUSE {
                before.push(*r)
            } else {
                before
            });
        }
        if r.kind == TYPE_MOUSE {
            let name = match &r.name {
                Some(units) => decode_until_zero(units.as_slice()),
                None => String::new(),
            };
            let (vendor_id, product_id) = parse_vid_pid(name.as_str());
            let (buttons, reported_sample_rate, has_horizontal_wheel) = match r.caps {
                Some(c) => c,
                None => (0u32, 0u32, false),
            };
            let info = DeviceInfo {
                index: 0,
                name,
                vendor_id,
                product_id,
                buttons,
                reported_sample_rate,
                has_horizontal_wheel,
                synthetic: false,
            };
            out.push((r.handle, info));
        }
        i = i + 1;
    }
    assert(list@.take(i as int) =~= list@);
    out
}

// ---- USB ids --------------------------------------------------------------------------

/// The letter in upper case, if it is one of a to z.
pub open spec fn ascii_upper(c: char) -> char {
    if 'a' <= c <= 'z' {
        (c as u32 - 32) as char
    } else {
        c
    }
}

/// The value of an upper-case hexadecimal digit.
pub open spec fn hex_value(c: char) -> Option<int> {
    if '0' <= c <= '9' {
        Some(c as int - '0' as int)
    } else if 'A' <= c <= 'F' {
        Some(c as int - 'A' as int + 10)
    } else {
        None
    }
}

/// `key` stands in `s` at `i`.
pub open spec fn stands_at(s: Seq<char>, key: Seq<char>, i: int) -> bool {
    i + key.len() <= s.len() && s.subrange(i, i + key.len()) == key
}

/// Behind the first `key` at or after `i`.
pub open spec fn behind_first(s: Seq<char>, key: Seq<char>, i: int) -> Option<int>
    decreases s.len() + 1 - i,
{
    if i < 0 || i + key.len() > s.len() {
        None
    } else if stands_at(s, key, i) {
        Some(i + key.len())
    } else {
        behind_first(s, key, i + 1)
    }
}

/// The number that the four hexadecimal digits at `i` give.
pub open spec fn hex4_at(s: Seq<char>, i: int) -> Option<u16> {
    if i + 4 > s.len() {
        None
    } else {
        match (hex_value(s[i]), hex_value(s[i + 1]), hex_value(s[i + 2]), hex_value(s[i + 3])) {
            (Some(a), Some(b), Some(c), Some(d)) => Some(
                (a * 4096 + b * 256 + c * 16 + d) as u16,
            ),
            _ => None,
        }
    }
}

/// The four-digit id that follows the first `key` in `s`.
pub open spec fn id_after(s: Seq<char>, key: Seq<char>) -> Option<u16> {
    match behind_first(s, key, 0) {
        Some(i) => hex4_at(s, i),
        None => None,
    }
}

/// Vendor and product id in a device path, whatever its case.
pub open spec fn usb_ids(name: Seq<char>) -> (Option<u16>, Option<u16>) {
    let upper = name.map_values(|c: char| ascii_upper(c));
    (
        id_after(upper, seq!['V', 'I', 'D', '_']),
        id_after(upper, seq!['P', 'I', 'D', '_']),
    )
}

/// The letter in upper case, if it is one of a to z.
fn upper(c: char) -> (u: char)
    ensures
        u == ascii_upper(c),
{
    if 'a' <= c && c <= 'z' {
        (c as u8 - 32) as char
    } else {
        c
    }
}

/// The value of an upper-case hexadecimal digit.
fn hex_digit_value(c: char) -> (v: Option<u16>)
    ensures
        match v {
            Some(d) => hex_value(c) == Some(d as int) && d < 16,
            None => hex_value(c) is None,
        },
{
    if '0' <= c && c <= '9' {
        Some((c as u32 - '0' as u32) as u16)
    } else if 'A' <= c && c <= 'F' {
        Some((c as u32 - 'A' as u32 + 10) as u16)
    } else {
        None
    }
}

/// The number that the four hexadecimal digits at `i` give.
fn read_hex4(s: &Vec<char>, i: usize) -> (v: Option<u16>)
    requires
        i <= s@.len(),
    ensures
        v == hex4_at(s@, i as int),
{
    if s.len() - i < 4 {
        return None;
    }
    match (
        hex_digit_value(s[i]),
        hex_digit_value(s[i + 1]),
        hex_digit_value(s[i + 2]),
        hex_digit_value(s[i + 3]),
    ) {
        (Some(a), Some(b), Some(c), Some(d)) => Some(a * 4096 + b * 256 + c * 16 + d),
        _ => None,
    }
}

/// The four-digit id that follows the first `key` in `s`.
fn field(s: &Vec<char>, key: &[char; 4]) -> (v: Option<u16>)
    ensures
        v == id_after(s@, key@),
{
    let mut i: usize = 0;
    let len: usize = s.len();
    while i <= len && len - i >= 4
        invariant
            i <= len + 1,
            len == s@.len(),
            key@.len() == 4,
            behind_first(s@, key@, 0) == behind_first(s@, key@, i as int),
        decreases len + 1 - i,
    {
        let here = s[i] == key[0] && s[i + 1] == key[1] && s[i + 2] == key[2] && s[i + 3] == key[3];
        proof {
            let sub = s@.subrange(i as int, i + 4);
            assert(sub[0] == s@[i as int] && sub[1] == s@[i + 1] && sub[2] == s@[i + 2] && sub[3]
                == s@[i + 3]);
            if here {
                assert(sub =~= key@);
            }
        }
        if here {
            return read_hex4(s, i + 4);
        }
        i = i + 1;
    }
    None
}

/// Pulls USB ids out of a device interface path.
///
/// `\\?\HID#VID_046D&PID_C52B&MI_01&Col01#7&1f2a...` gives 0x046D and 0xC52B.
/// Bluetooth and PS/2 devices legitimately have neither.
pub fn parse_vid_pid(name: &str) -> (ids: (Option<u16>, Option<u16>))
    ensures
        ids == usb_ids(name@),
{
    let chars = chars_of(name);
    let mut s: Vec<char> = Vec::new();
    let mut i: usize = 0;
    while i < chars.len()
        invariant
            i <= chars@.len(),
            s@ == chars@.take(i as int).map_values(|c: char| ascii_upper(c)),
        decreases chars@.len() - i,
    {
        s.push(upper(chars[i]));
        i = i + 1;
        assert(s@ =~= chars@.take(i as int).map_values(|c: char| ascii_upper(c)));
    }
    assert(chars@.take(i as int) =~= chars@);
    let vid: [char; 4] = ['V', 'I', 'D', '_'];
    let pid: [char; 4] = ['P', 'I', 'D', '_'];
    assert(vid@ =~= seq!['V', 'I', 'D', '_']);
    assert(pid@ =~= seq!['P', 'I', 'D', '_']);
    (field(&s, &vid), field(&s, &pid))
}

// ---- laws -----------------------------------------------------------------------------

/// Devices once seen keep their place and their index whatever is plugged in or
/// out, so that events recorded before still point at the same device.
pub proof fn law_refresh_keeps_known_devices(table: TableState, found: Seq<(isize, DeviceInfo)>)
    requires
        table.wf(),
    ensures
        table.refreshed(found).wf(),
        table.devices.is_prefix_of(table.refreshed(found).devices),
{
    let start = TableState { by_handle: Map::empty(), ..table };
    lemma_with_all(start, found);
}

proof fn lemma_with_all(s: TableState, found: Seq<(isize, DeviceInfo)>)
    requires
        s.wf(),
    ensures
        s.with_all(found).wf(),
        s.devices.is_prefix_of(s.with_all(found).devices),
    decreases found.len(),
{
    if found.len() > 0 {
        lemma_with_all(s, found.drop_last());
        lemma_with_found(s.with_all(found.drop_last()), found.last().0, found.last().1);
    }
}

/// A device that comes back after a replug, under whatever handle, gets the index
/// that it had.
pub proof fn law_replugged_device_keeps_its_index(
    table: TableState,
    known: int,
    handle: isize,
    info: DeviceInfo,
)
    requires
        table.wf(),
        0 <= known < table.devices.len(),
        place_of(table.devices, info.name@, 0) == Some(known),
    ensures
        table.refreshed(seq![(handle, info)]).devices == table.devices,
        table.refreshed(seq![(handle, info)]).by_handle == map![handle => table.devices[known].index],
{
    let start = TableState { by_handle: Map::empty(), ..table };
    let found = seq![(handle, info)];
    assert(found.drop_last() =~= seq![]);
    assert(start.with_all(found.drop_last()) == start);
    assert(start.with_all(found).by_handle =~= map![handle => table.devices[known].index]);
}

/// The table with nothing in it but what stands for unknown devices.
pub open spec fn bare_table(unknown: DeviceInfo) -> TableState {
    TableState { devices: seq![unknown], by_handle: Map::empty() }
}

/// The table after these lists of devices were found, one after another.
pub open spec fn table_after(
    unknown: DeviceInfo,
    lists: Seq<Seq<(isize, DeviceInfo)>>,
) -> TableState
    decreases lists.len(),
{
    if lists.len() == 0 {
        bare_table(unknown)
    } else {
        table_after(unknown, lists.drop_last()).refreshed(lists.last())
    }
}

/// All devices of the list are real ones.
pub open spec fn all_real(found: Seq<(isize, DeviceInfo)>) -> bool {
    forall|i: int| 0 <= i < found.len() ==> !(#[trigger] found[i]).1.synthetic
}

/// Only the first entry is synthetic, and it stands for unknown devices; the others have
/// paths of their own.
pub open spec fn is_orderly(s: TableState) -> bool {
    &&& s.wf()
    &&& s.devices[0].name@ == "<unknown>"@
    &&& forall|i: int| 1 <= i < s.devices.len() ==> !(#[trigger] s.devices[i]).synthetic
    &&& forall|i: int, j: int|
        1 <= i < j < s.devices.len() ==> (#[trigger] s.devices[i]).name@ != (
        #[trigger] s.devices[j]).name@
}

/// The handle stands for the device that the list has for it.
pub open spec fn stands_for(
    s: TableState,
    found: Seq<(isize, DeviceInfo)>,
    handle: isize,
) -> bool {
    exists|i: int|
        0 <= i < found.len() && (#[trigger] found[i]).0 == handle && is_named(
            s.devices[s.by_handle[handle] as int],
            found[i].1.name@,
        )
}

/// Every handle stands for the device found under it, and every handle found stands for
/// one, unless the table is full.
pub open spec fn follows_list(s: TableState, found: Seq<(isize, DeviceInfo)>) -> bool {
    &&& forall|h: isize| #[trigger] s.by_handle.contains_key(h) ==> stands_for(s, found, h)
    &&& forall|i: int|
        0 <= i < found.len() ==> s.by_handle.contains_key((#[trigger] found[i]).0)
            || s.devices.len() == MAX_DEVICES
}

proof fn lemma_no_place(devices: Seq<DeviceInfo>, name: Seq<char>, from: int, i: int)
    requires
        0 <= from <= i < devices.len(),
        place_of(devices, name, from) is None,
    ensures
        !is_named(devices[i], name),
    decreases i - from,
{
    if from < i {
        lemma_no_place(devices, name, from + 1, i);
    }
}

proof fn lemma_orderly_found(
    s: TableState,
    list: Seq<(isize, DeviceInfo)>,
    handle: isize,
    info: DeviceInfo,
)
    requires
        is_orderly(s),
        follows_list(s, list),
        !info.synthetic,
    ensures
        is_orderly(s.with_found(handle, info)),
        follows_list(s.with_found(handle, info), list.push((handle, info))),
{
    let t = s.with_found(handle, info);
    let longer = list.push((handle, info));
    lemma_with_found(s, handle, info);
    lemma_place(s.devices, info.name@, 0);
    if place_of(s.devices, info.name@, 0) is None {
        assert forall|i: int| 1 <= i < s.devices.len() implies s.devices[i].name@
            != info.name@ by {
            lemma_no_place(s.devices, info.name@, 0, i);
        }
        assert(is_orderly(t)) by {
            assert forall|i: int, j: int| 1 <= i < j < t.devices.len() implies (
            #[trigger] t.devices[i]).name@ != (#[trigger] t.devices[j]).name@ by {
                assert(t.devices[i] == s.devices[i]);
                if j < s.devices.len() {
                    assert(t.devices[j] == s.devices[j]);
                }
            }
        }
    }
    assert(longer[list.len() as int] == (handle, info));
    assert forall|h: isize| #[trigger] t.by_handle.contains_key(h) implies stands_for(
        t,
        longer,
        h,
    ) by {
        if h == handle && (place_of(s.devices, info.name@, 0) is Some || s.devices.len()
            < MAX_DEVICES) {
            assert(longer[list.len() as int].0 == h);
            assert(is_named(t.devices[t.by_handle[h] as int], info.name@));
        } else {
            assert(s.by_handle.contains_key(h));
            let i = choose|i: int|
                0 <= i < list.len() && (#[trigger] list[i]).0 == h && is_named(
                    s.devices[s.by_handle[h] as int],
                    list[i].1.name@,
                );
            assert(longer[i] == list[i]);
            assert(t.devices[s.by_handle[h] as int] == s.devices[s.by_handle[h] as int]);
        }
    }
    assert forall|i: int| 0 <= i < longer.len() implies t.by_handle.contains_key(
        (#[trigger] longer[i]).0,
    ) || t.devices.len() == MAX_DEVICES by {
        if i < list.len() {
            assert(longer[i] == list[i]);
        }
    }
}

proof fn lemma_orderly_all(s: TableState, found: Seq<(isize, DeviceInfo)>)
    requires
        is_orderly(s),
        s.by_handle == Map::<isize, u8>::empty(),
        all_real(found),
    ensures
        is_orderly(s.with_all(found)),
        follows_list(s.with_all(found), found),
    decreases found.len(),
{
    if found.len() > 0 {
        let earlier = found.drop_last();
        assert forall|i: int| 0 <= i < earlier.len() implies !(
        #[trigger] earlier[i]).1.synthetic by {
            assert(earlier[i] == found[i]);
        }
        lemma_orderly_all(s, earlier);
        assert(!found[found.len() - 1].1.synthetic);
        lemma_orderly_found(s.with_all(earlier), earlier, found.last().0, found.last().1);
        assert(earlier.push((found.last().0, found.last().1)) =~= found);
    }
}

/// Whatever was plugged in and out: the table has from 1 to 255 entries, each at the place
/// of its index; only the first is synthetic, and it is `<unknown>`; the others have
/// different paths; and a handle stands for the device found under it in the latest list,
/// and for nothing where it is not in that list.
pub proof fn law_device_table_stays_orderly(
    unknown: DeviceInfo,
    lists: Seq<Seq<(isize, DeviceInfo)>>,
)
    requires
        unknown.is_blank_but_name("<unknown>"@),
        unknown.synthetic,
        forall|i: int| 0 <= i < lists.len() ==> all_real(#[trigger] lists[i]),
    ensures
        is_orderly(table_after(unknown, lists)),
        lists.len() > 0 ==> follows_list(table_after(unknown, lists), lists.last()),
    decreases lists.len(),
{
    if lists.len() > 0 {
        let earlier = lists.drop_last();
        assert forall|i: int| 0 <= i < earlier.len() implies all_real(#[trigger] earlier[i]) by {
            assert(earlier[i] == lists[i]);
        }
        law_device_table_stays_orderly(unknown, earlier);
        assert(all_real(lists[lists.len() - 1]));
        let start = TableState { by_handle: Map::empty(), ..table_after(unknown, earlier) };
        lemma_orderly_all(start, lists.last());
    }
}

/// The four digits of an id, in capitals, read back as the id.
pub proof fn law_written_ids_read_back(s: Seq<char>, i: int, id: u16)
    requires
        0 <= i,
        i + 4 <= s.len(),
        s.subrange(i, i + 4) == crate::text::hex4(id, true),
    ensures
        hex4_at(s, i) == Some(id),
{
    let d = s.subrange(i, i + 4);
    assert(s[i] == d[0] && s[i + 1] == d[1] && s[i + 2] == d[2] && s[i + 3] == d[3]);
    let n = id as int;
    assert(n / 4096 < 16);
    assert(n == n / 4096 * 4096 + n / 256 % 16 * 256 + n / 16 % 16 * 16 + n % 16);
}

/// An id is read behind the first place where its key stands, and nowhere else.
pub proof fn law_an_id_stands_behind_its_first_key(s: Seq<char>, key: Seq<char>, i: int)
    requires
        0 <= i,
        stands_at(s, key, i),
        forall|k: int| 0 <= k < i ==> !#[trigger] stands_at(s, key, k),
    ensures
        id_after(s, key) == hex4_at(s, i + key.len()),
{
    lemma_first_key(s, key, 0, i);
}

proof fn lemma_first_key(s: Seq<char>, key: Seq<char>, from: int, i: int)
    requires
        0 <= from <= i,
        stands_at(s, key, i),
        forall|k: int| 0 <= k < i ==> !#[trigger] stands_at(s, key, k),
    ensures
        behind_first(s, key, from) == Some(i + key.len()),
    decreases i - from,
{
    if from < i {
        assert(!stands_at(s, key, from));
        lemma_first_key(s, key, from + 1, i);
    }
}

/// Small and capital letters make no difference to the ids.
pub proof fn law_case_makes_no_difference_to_ids(a: Seq<char>, b: Seq<char>)
    requires
        a.len() == b.len(),
        forall|i: int|
            0 <= i < a.len() ==> #[trigger] a[i] == b[i] || ('a' <= a[i] <= 'z' && a[i] as int - 32
                == b[i] as int),
    ensures
        usb_ids(a) == usb_ids(b),
{
    let x = a.map_values(|c: char| ascii_upper(c));
    let y = b.map_values(|c: char| ascii_upper(c));
    assert(x =~= y) by {
        assert forall|i: int| 0 <= i < x.len() implies x[i] == y[i] by {
            assert(a[i] == b[i] || ('a' <= a[i] <= 'z' && a[i] as int - 32 == b[i] as int));
        }
    }
}

/// A mouse that was not seen before gets the next index, as long as there is one, and its
/// handle then stands for it; one that was keeps the index that it has.
pub proof fn law_a_new_mouse_gets_the_next_index(t: TableState, handle: isize, info: DeviceInfo)
    ensures
        ({
            let next = t.with_found(handle, info);
            let known = place_of(t.devices, info.name@, 0);
            &&& known is None && t.devices.len() < 255 ==> {
                &&& next.devices.len() == t.devices.len() + 1
                &&& next.devices.last().name == info.name
                &&& next.devices.last().index == t.devices.len()
                &&& next.by_handle.contains_key(handle)
                &&& next.by_handle[handle] == t.devices.len()
            }
            &&& known is None && t.devices.len() >= 255 ==> next == t
            &&& known matches Some(i) ==> {
                &&& next.devices == t.devices
                &&& next.by_handle.contains_key(handle)
                &&& next.by_handle[handle] == t.devices[i].index
            }
        }),
{
}

/// A mouse is described by what was read of it, each reading in its own place.
pub proof fn law_a_mouse_is_described_by_its_reading(info: DeviceInfo, reading: DeviceReading)
    requires
        describes(info, reading),
    ensures
        reading.caps matches Some(c) ==> info.buttons == c.0 && info.reported_sample_rate == c.1
            && info.has_horizontal_wheel == c.2,
        reading.caps is None ==> info.buttons == 0 && info.reported_sample_rate == 0
            && !info.has_horizontal_wheel,
        !info.synthetic,
        info.name@ == path_text(reading.name),
        info.vendor_id == usb_ids(info.name@).0 && info.product_id == usb_ids(info.name@).1,
{
}

/// Only mice are described.
pub proof fn law_only_mice_are_taken(list: Seq<DeviceReading>, r: DeviceReading)
    ensures
        r.kind == 0 ==> of_mice(list.push(r)) == of_mice(list).push(r),
        r.kind != 0 ==> of_mice(list.push(r)) == of_mice(list),
{
    reveal(Seq::filter);
    assert(list.push(r).drop_last() =~= list);
}

/// A mouse is known by its path: it stands at the first place that holds a real mouse with
/// that path, and nowhere where there is none.
pub proof fn law_a_mouse_is_known_by_its_path(devices: Seq<DeviceInfo>, name: Seq<char>, from: int)
    requires
        0 <= from,
    ensures
        place_of(devices, name, from) matches Some(i) ==> {
            &&& from <= i < devices.len()
            &&& devices[i].name@ == name && !devices[i].synthetic
            &&& forall|k: int|
                from <= k < i ==> (#[trigger] devices[k]).name@ != name || devices[k].synthetic
        },
        place_of(devices, name, from) is None ==> forall|k: int|
            from <= k < devices.len() ==> (#[trigger] devices[k]).name@ != name
                || devices[k].synthetic,
    decreases devices.len() - from,
{
    if from < devices.len() {
        law_a_mouse_is_known_by_its_path(devices, name, from + 1);
    }
}

} // verus!
