//! The coordinator: owner of the device state cache, the listener table and
//! the pending-confirmation table, and the single writer of all three. Each
//! handler takes one event or request, already reduced to plain values, and
//! performs the state transition it calls for; the surrounding process
//! performs the side effects the results ask for.

use vstd::prelude::*;

use crate::device::BluetoothDevice;
use crate::device::ConnectionStatus;
use crate::device::DeviceProps;
use crate::device::DeviceUpdate;
use crate::device::DeviceView;
use crate::device::PropsView;
use crate::device::spec_apply_update;
use crate::device::spec_default_icon;
use crate::device::spec_device_from_props;
use crate::device::str_eq;

verus! {

/// Outbound events, consumed by the presentation layer.
pub enum WorkerEvent {
    /// The coordinator is set up; carries whether the adapter is powered.
    Ready(bool),
    /// Full snapshot of the device cache.
    DeviceMap(Vec<BluetoothDevice>),
    DeviceAdded(BluetoothDevice),
    DeviceRemoved(u64),
    ConnectFailed(u64),
    DeviceUpdate(u64, DeviceUpdate),
    Enabled(bool),
    Error(String),
    ConfirmCode(String, u64),
}

/// Inbound requests from the presentation layer.
pub enum WorkerRequest {
    SetDiscovery(bool),
    ConnectDevice(u64),
    DisconnectDevice(u64),
    CancelConnect(u64),
    SetEnabled(bool),
    ConfirmCode(u64, bool),
}

/// No two records share an address.
pub open spec fn distinct_addrs(s: Seq<BluetoothDevice>) -> bool {
    forall|i: int, j: int| 0 <= i < j < s.len() ==> s[i].address != s[j].address
}

/// No address occurs twice.
pub open spec fn distinct(s: Seq<u64>) -> bool {
    forall|i: int, j: int| 0 <= i < j < s.len() ==> s[i] != s[j]
}

/// The map a sequence of records stands for: each record under its address,
/// later records overriding earlier ones.
pub open spec fn dev_map(s: Seq<BluetoothDevice>) -> Map<u64, DeviceView>
    decreases s.len(),
{
    if s.len() == 0 {
        Map::empty()
    } else {
        dev_map(s.drop_last()).insert(s.last().address, s.last()@)
    }
}

/// Mathematical model of the coordinator's state.
#[verifier::ext_equal]
pub struct CoordinatorView {
    /// Whether a discovery stream is active.
    pub discovering: bool,
    /// The device state cache, keyed by address.
    pub devices: Map<u64, DeviceView>,
    /// Addresses with a running per-device listener task.
    pub listeners: Set<u64>,
    /// Addresses with a stored single-use pairing acceptor.
    pub pending: Set<u64>,
}

/// The coordinator's exclusive state.
pub struct Coordinator {
    discovering: bool,
    devices: Vec<BluetoothDevice>,
    listeners: Vec<u64>,
    pending: Vec<u64>,
}

impl View for Coordinator {
    type V = CoordinatorView;

    closed spec fn view(&self) -> CoordinatorView {
        CoordinatorView {
            discovering: self.discovering,
            devices: dev_map(self.devices@),
            listeners: self.listeners@.to_set(),
            pending: self.pending@.to_set(),
        }
    }
}

proof fn lemma_distinct_addrs_drop_last(s: Seq<BluetoothDevice>)
    requires
        distinct_addrs(s),
        s.len() > 0,
    ensures
        distinct_addrs(s.drop_last()),
{
    assert forall|i: int, j: int|
        0 <= i < j < s.drop_last().len() implies s.drop_last()[i].address != s.drop_last()[j].address by {
        assert(s.drop_last()[i] == s[i]);
        assert(s.drop_last()[j] == s[j]);
    }
}

/// An address is in the map exactly when some record carries it.
proof fn lemma_dev_map_dom(s: Seq<BluetoothDevice>, a: u64)
    ensures
        dev_map(s).dom().contains(a) <==> (exists|i: int| 0 <= i < s.len() && s[i].address == a),
    decreases s.len(),
{
    if s.len() > 0 {
        lemma_dev_map_dom(s.drop_last(), a);
        if a == s.last().address {
            assert(s[s.len() - 1].address == a);
        } else {
            if dev_map(s).dom().contains(a) {
                let i = choose|i: int|
                    0 <= i < s.drop_last().len() && s.drop_last()[i].address == a;
                assert(s[i].address == a);
            }
            if exists|i: int| 0 <= i < s.len() && s[i].address == a {
                let i = choose|i: int| 0 <= i < s.len() && s[i].address == a;
                assert(s.drop_last()[i].address == a);
            }
        }
    }
}

/// With distinct addresses, the map holds each record under its address.
proof fn lemma_dev_map_at(s: Seq<BluetoothDevice>, i: int)
    requires
        distinct_addrs(s),
        0 <= i < s.len(),
    ensures
        dev_map(s).dom().contains(s[i].address),
        dev_map(s)[s[i].address] == s[i]@,
    decreases s.len(),
{
    if i < s.len() - 1 {
        lemma_distinct_addrs_drop_last(s);
        assert(s.drop_last()[i] == s[i]);
        lemma_dev_map_at(s.drop_last(), i);
        assert(s.last().address != s[i].address);
    }
}

/// Replacing the record at `i` by one with the same address models a map
/// insert at that address.
proof fn lemma_dev_map_update(s: Seq<BluetoothDevice>, i: int, d: BluetoothDevice)
    requires
        distinct_addrs(s),
        0 <= i < s.len(),
        d.address == s[i].address,
    ensures
        dev_map(s.update(i, d)) == dev_map(s).insert(d.address, d@),
        distinct_addrs(s.update(i, d)),
    decreases s.len(),
{
    let t = s.update(i, d);
    assert forall|m: int, n: int| 0 <= m < n < t.len() implies t[m].address != t[n].address by {
        assert(s[m].address != s[n].address);
    }
    if i == s.len() - 1 {
        assert(t.drop_last() =~= s.drop_last());
        assert(t.last() == d);
        assert(dev_map(t) =~= dev_map(s).insert(d.address, d@));
    } else {
        lemma_distinct_addrs_drop_last(s);
        assert(s.drop_last()[i] == s[i]);
        lemma_dev_map_update(s.drop_last(), i, d);
        assert(t.drop_last() =~= s.drop_last().update(i, d));
        assert(t.last() == s.last());
        assert(s.last().address != d.address);
        assert(dev_map(t) =~= dev_map(s).insert(d.address, d@));
    }
}

/// Removing the record at `i` models a map remove at its address.
proof fn lemma_dev_map_remove(s: Seq<BluetoothDevice>, i: int)
    requires
        distinct_addrs(s),
        0 <= i < s.len(),
    ensures
        dev_map(s.remove(i)) == dev_map(s).remove(s[i].address),
        distinct_addrs(s.remove(i)),
    decreases s.len(),
{
    let a = s[i].address;
    let t = s.remove(i);
    assert forall|m: int, n: int| 0 <= m < n < t.len() implies t[m].address != t[n].address by {
        let m0 = if m < i {
            m
        } else {
            m + 1
        };
        let n0 = if n < i {
            n
        } else {
            n + 1
        };
        assert(t[m] == s[m0]);
        assert(t[n] == s[n0]);
        assert(s[m0].address != s[n0].address);
    }
    if i == s.len() - 1 {
        assert(t =~= s.drop_last());
        lemma_dev_map_dom(s.drop_last(), a);
        assert forall|j: int| 0 <= j < s.drop_last().len() implies s.drop_last()[j].address != a by {
            assert(s.drop_last()[j] == s[j]);
            assert(s[j].address != s[i].address);
        }
        assert(!dev_map(s.drop_last()).dom().contains(a));
        assert(dev_map(t) =~= dev_map(s).remove(a));
    } else {
        lemma_distinct_addrs_drop_last(s);
        assert(s.drop_last()[i] == s[i]);
        lemma_dev_map_remove(s.drop_last(), i);
        assert(t.drop_last() =~= s.drop_last().remove(i));
        assert(t.last() == s.last());
        assert(s.last().address != a);
        assert(dev_map(t) =~= dev_map(s).remove(a));
    }
}

/// Appending a record models a map insert at its address.
proof fn lemma_dev_map_push(s: Seq<BluetoothDevice>, d: BluetoothDevice)
    ensures
        dev_map(s.push(d)) == dev_map(s).insert(d.address, d@),
{
    assert(s.push(d).drop_last() =~= s);
    assert(s.push(d).last() == d);
}

/// Removing the address at `i` models a set remove.
proof fn lemma_addr_set_remove(s: Seq<u64>, i: int)
    requires
        distinct(s),
        0 <= i < s.len(),
    ensures
        s.remove(i).to_set() == s.to_set().remove(s[i]),
        distinct(s.remove(i)),
{
    let t = s.remove(i);
    assert forall|m: int, n: int| 0 <= m < n < t.len() implies t[m] != t[n] by {
        let m0 = if m < i {
            m
        } else {
            m + 1
        };
        let n0 = if n < i {
            n
        } else {
            n + 1
        };
        assert(t[m] == s[m0]);
        assert(t[n] == s[n0]);
        assert(s[m0] != s[n0]);
    }
    assert forall|a: u64| #[trigger] t.contains(a) implies s.contains(a) && a != s[i] by {
        let j = choose|j: int| 0 <= j < t.len() && t[j] == a;
        let j0 = if j < i {
            j
        } else {
            j + 1
        };
        assert(t[j] == s[j0]);
        assert(s[j0] != s[i]);
    }
    assert forall|a: u64| s.contains(a) && a != s[i] implies #[trigger] t.contains(a) by {
        let j = choose|j: int| 0 <= j < s.len() && s[j] == a;
        if j < i {
            assert(t[j] == a);
        } else {
            assert(t[j - 1] == a);
        }
    }
    assert(t.to_set() =~= s.to_set().remove(s[i]));
}

/// Appending an address models a set insert.
proof fn lemma_addr_set_push(s: Seq<u64>, x: u64)
    ensures
        s.push(x).to_set() == s.to_set().insert(x),
        distinct(s) && !s.contains(x) ==> distinct(s.push(x)),
{
    let t = s.push(x);
    assert forall|a: u64| #[trigger] t.contains(a) implies s.contains(a) || a == x by {
        let j = choose|j: int| 0 <= j < t.len() && t[j] == a;
        if j < s.len() {
            assert(s[j] == a);
        }
    }
    assert forall|a: u64| s.contains(a) implies #[trigger] t.contains(a) by {
        let j = choose|j: int| 0 <= j < s.len() && s[j] == a;
        assert(t[j] == a);
    }
    assert(t[s.len() as int] == x);
    assert(t.to_set() =~= s.to_set().insert(x));
    if distinct(s) && !s.contains(x) {
        assert forall|m: int, n: int| 0 <= m < n < t.len() implies t[m] != t[n] by {
            if n < s.len() {
                assert(s[m] != s[n]);
            } else {
                assert(t[m] == s[m]);
                assert(!s.contains(t[n]) ==> s[m] != t[n]);
            }
        }
    }
}

/// After one record is replaced by another with the same address and the
/// same display-code presence, well-formedness carries over.
proof fn lemma_wf_after_record_update(prev: Coordinator, cur: Coordinator, i: int)
    requires
        prev.wf(),
        0 <= i < prev.devices@.len(),
        cur.devices@ == prev.devices@.update(i, cur.devices@[i]),
        cur.devices@[i].address == prev.devices@[i].address,
        cur.devices@[i]@.display_code == prev.devices@[i]@.display_code,
        cur.listeners@ == prev.listeners@,
        cur.pending@ == prev.pending@,
    ensures
        cur.wf(),
{
    let old_devices = prev.devices@;
    assert forall|m: int, n: int|
        0 <= m < n < cur.devices@.len() implies cur.devices@[m].address
        != cur.devices@[n].address by {
        assert(old_devices[m].address != old_devices[n].address);
        assert(cur.devices@[m].address == old_devices[m].address);
        assert(cur.devices@[n].address == old_devices[n].address);
    }
    assert forall|a: u64| cur.listeners@.contains(a) implies dev_map(
        cur.devices@,
    ).dom().contains(a) by {
        lemma_dev_map_dom(old_devices, a);
        lemma_dev_map_dom(cur.devices@, a);
        let k = choose|k: int| 0 <= k < old_devices.len() && old_devices[k].address == a;
        assert(cur.devices@[k].address == a);
    }
    assert forall|k: int|
        0 <= k < cur.devices@.len() && cur.devices@[k]@.display_code is Some
        implies cur.pending@.contains(cur.devices@[k].address) by {
        if k != i {
            assert(cur.devices@[k] == old_devices[k]);
        }
        assert(old_devices[k]@.display_code is Some);
        assert(cur.devices@[k].address == old_devices[k].address);
    }
}

/// Finds the position of `addr` in a table of addresses.
fn find_addr(v: &Vec<u64>, addr: u64) -> (r: Option<usize>)
    ensures
        match r {
            Some(i) => i < v@.len() && v@[i as int] == addr,
            None => !v@.contains(addr),
        },
{
    let mut i: usize = 0;
    while i < v.len()
        invariant
            i <= v@.len(),
            forall|k: int| 0 <= k < i ==> v@[k] != addr,
        decreases v@.len() - i,
    {
        if v[i] == addr {
            return Some(i);
        }
        i = i + 1;
    }
    None
}

impl Coordinator {
    /// The tables are free of duplicates, every listener has a device
    /// record, and a displayed pairing code implies a stored acceptor.
    pub closed spec fn wf(self) -> bool {
        &&& distinct_addrs(self.devices@)
        &&& distinct(self.listeners@)
        &&& distinct(self.pending@)
        &&& forall|a: u64| self.listeners@.contains(a) ==> dev_map(self.devices@).dom().contains(a)
        &&& forall|i: int|
            0 <= i < self.devices@.len() && self.devices@[i]@.display_code is Some
                ==> self.pending@.contains(self.devices@[i].address)
    }

    /// A fresh coordinator: nothing known, nothing pending, not discovering.
    pub fn new() -> (r: Coordinator)
        ensures
            r.wf(),
            r@ == (CoordinatorView {
                discovering: false,
                devices: Map::empty(),
                listeners: Set::empty(),
                pending: Set::empty(),
            }),
    {
        let r = Coordinator {
            discovering: false,
            devices: Vec::new(),
            listeners: Vec::new(),
            pending: Vec::new(),
        };
        proof {
            assert(r.listeners@.to_set() =~= Set::<u64>::empty());
            assert(r.pending@.to_set() =~= Set::<u64>::empty());
        }
        r
    }

    /// Finds the position of the record for `addr` in the cache.
    fn find_device(&self, addr: u64) -> (r: Option<usize>)
        requires
            self.wf(),
        ensures
            match r {
                Some(i) => i < self.devices@.len() && self.devices@[i as int].address == addr,
                None => !dev_map(self.devices@).dom().contains(addr),
            },
            r is Some == self@.devices.dom().contains(addr),
    {
        let mut i: usize = 0;
        while i < self.devices.len()
            invariant
                i <= self.devices@.len(),
                forall|k: int| 0 <= k < i ==> self.devices@[k].address != addr,
            decreases self.devices@.len() - i,
        {
            if self.devices[i].address == addr {
                proof {
                    lemma_dev_map_dom(self.devices@, addr);
                }
                return Some(i);
            }
            i = i + 1;
        }
        proof {
            lemma_dev_map_dom(self.devices@, addr);
        }
        None
    }
}

/// One device found by a full enumeration: its address and its queried
/// property set.
pub struct DeviceEntry {
    pub address: u64,
    pub props: DeviceProps,
}

/// The enumeration reports each address at most once.
pub open spec fn distinct_entries(s: Seq<DeviceEntry>) -> bool {
    forall|i: int, j: int| 0 <= i < j < s.len() ==> s[i].address != s[j].address
}

/// Whether an enumerated device is kept: it must have a resolvable name or
/// a device type that maps to a real icon.
pub open spec fn spec_keep_entry(e: DeviceEntry) -> bool {
    e.props@.name is Some || spec_device_from_props(e.address, e.props@).icon
        != spec_default_icon()
}

/// The device map a full enumeration builds: a fresh record for every kept
/// entry, under its address.
pub open spec fn spec_rebuild_map(s: Seq<DeviceEntry>) -> Map<u64, DeviceView>
    decreases s.len(),
{
    if s.len() == 0 {
        Map::empty()
    } else if spec_keep_entry(s.last()) {
        spec_rebuild_map(s.drop_last()).insert(
            s.last().address,
            spec_device_from_props(s.last().address, s.last().props@),
        )
    } else {
        spec_rebuild_map(s.drop_last())
    }
}

/// The transition for a full re-enumeration: cache and listener table are
/// rebuilt from scratch from the kept entries; pending acceptors and the
/// discovery flag are untouched.
pub open spec fn spec_rebuild(s: CoordinatorView, entries: Seq<DeviceEntry>) -> CoordinatorView {
    CoordinatorView {
        devices: spec_rebuild_map(entries),
        listeners: spec_rebuild_map(entries).dom(),
        ..s
    }
}

/// Whether a device-added notification is acted on: the device must have a
/// resolvable name and no listener may exist for the address yet.
pub open spec fn spec_added_accepted(s: CoordinatorView, addr: u64, p: PropsView) -> bool {
    p.name is Some && !s.listeners.contains(addr)
}

/// The transition for a device-added notification: when accepted, a fresh
/// record enters the cache under its address and a listener is recorded;
/// otherwise nothing changes.
pub open spec fn spec_added(s: CoordinatorView, addr: u64, p: PropsView) -> CoordinatorView {
    if spec_added_accepted(s, addr, p) {
        CoordinatorView {
            devices: s.devices.insert(addr, spec_device_from_props(addr, p)),
            listeners: s.listeners.insert(addr),
            ..s
        }
    } else {
        s
    }
}

/// The transition for a device-removed notification: one that names an
/// address still present in the platform's device list is a no-op, as is
/// one with no listener; otherwise exactly the addressed record and its
/// listener go away. A pending acceptor is left in place.
pub open spec fn spec_removed(s: CoordinatorView, addr: u64, still_present: bool) -> CoordinatorView {
    if still_present || !s.listeners.contains(addr) {
        s
    } else {
        CoordinatorView {
            devices: s.devices.remove(addr),
            listeners: s.listeners.remove(addr),
            ..s
        }
    }
}

/// The transition for a forwarded property update: the addressed record
/// absorbs it; an unknown address changes nothing.
pub open spec fn spec_update(s: CoordinatorView, addr: u64, u: DeviceUpdate) -> CoordinatorView {
    if s.devices.dom().contains(addr) {
        CoordinatorView {
            devices: s.devices.insert(addr, spec_apply_update(s.devices[addr], u)),
            ..s
        }
    } else {
        s
    }
}

/// The transition that forces the addressed record's connection state; an
/// unknown address changes nothing.
pub open spec fn spec_set_status(s: CoordinatorView, addr: u64, st: ConnectionStatus) -> CoordinatorView {
    if s.devices.dom().contains(addr) {
        CoordinatorView {
            devices: s.devices.insert(addr, DeviceView { status: st, ..s.devices[addr] }),
            ..s
        }
    } else {
        s
    }
}

/// The transition for a discovery toggle: discovery runs afterwards exactly
/// when it was requested on and the adapter is powered.
pub open spec fn spec_set_discovery(s: CoordinatorView, enable: bool, powered: bool) -> CoordinatorView {
    CoordinatorView { discovering: enable && powered, ..s }
}

/// The transition for a completed disable: every listener is torn down; the
/// device cache is left untouched, stale until the next enable.
pub open spec fn spec_disable(s: CoordinatorView) -> CoordinatorView {
    CoordinatorView { listeners: Set::empty(), ..s }
}

/// The transition for a pairing challenge: the acceptor is recorded for the
/// address and the addressed record, if any, shows the display code.
pub open spec fn spec_challenge(s: CoordinatorView, addr: u64, code: Seq<char>) -> CoordinatorView {
    CoordinatorView {
        devices: if s.devices.dom().contains(addr) {
            s.devices.insert(addr, DeviceView { display_code: Some(code), ..s.devices[addr] })
        } else {
            s.devices
        },
        pending: s.pending.insert(addr),
        ..s
    }
}

/// The transition for a caller's answer to a challenge: a stored acceptor
/// is consumed and the record's display code cleared; with none stored the
/// answer is ignored.
pub open spec fn spec_answer(s: CoordinatorView, addr: u64) -> CoordinatorView {
    if s.pending.contains(addr) {
        CoordinatorView {
            devices: if s.devices.dom().contains(addr) {
                s.devices.insert(addr, DeviceView { display_code: None, ..s.devices[addr] })
            } else {
                s.devices
            },
            pending: s.pending.remove(addr),
            ..s
        }
    } else {
        s
    }
}

/// What an answer hands the stored acceptor: the caller's verdict when one
/// is stored, nothing otherwise.
pub open spec fn spec_answer_result(s: CoordinatorView, addr: u64, accept: bool) -> Option<bool> {
    if s.pending.contains(addr) {
        Some(accept)
    } else {
        None
    }
}

/// Applying one update touches exactly the addressed record, which then
/// reflects the reported value; every other record and every other table is
/// untouched.
pub proof fn lemma_update_targets_only(s: CoordinatorView, addr: u64, u: DeviceUpdate, other: u64)
    requires
        other != addr,
    ensures
        spec_update(s, addr, u).devices.dom() =~= s.devices.dom(),
        s.devices.dom().contains(addr) ==> spec_update(s, addr, u).devices[addr]
            == spec_apply_update(s.devices[addr], u),
        s.devices.dom().contains(other) ==> spec_update(s, addr, u).devices[other]
            == s.devices[other],
        spec_update(s, addr, u).listeners == s.listeners,
        spec_update(s, addr, u).pending == s.pending,
        spec_update(s, addr, u).discovering == s.discovering,
{
}

/// The removal disambiguation: a notification for an address the platform
/// still lists changes nothing; one for a vanished address with a listener
/// removes exactly that record and its listener. Either way any stored
/// pairing acceptor stays where it is.
pub proof fn lemma_removed_disambiguation(s: CoordinatorView, addr: u64)
    ensures
        spec_removed(s, addr, true) == s,
        !s.listeners.contains(addr) ==> spec_removed(s, addr, false) == s,
        s.listeners.contains(addr) ==> spec_removed(s, addr, false) == (CoordinatorView {
            devices: s.devices.remove(addr),
            listeners: s.listeners.remove(addr),
            ..s
        }),
        spec_removed(s, addr, false).pending == s.pending,
{
}

/// Applying the same device-added notification twice is idempotent: the
/// second application is a no-op, whatever the first did.
pub proof fn lemma_added_idempotent(s: CoordinatorView, addr: u64, p: PropsView)
    ensures
        spec_added(spec_added(s, addr, p), addr, p) == spec_added(s, addr, p),
{
    if spec_added_accepted(s, addr, p) {
        assert(spec_added(s, addr, p).listeners.contains(addr));
    }
}

/// The pairing round trip: after a challenge for an address, an answer for
/// it hands the stored acceptor exactly the caller's verdict; a second
/// answer finds nothing stored and is ignored; and removing the device's
/// record leaves the acceptor stored, never fulfilled by the removal.
pub proof fn lemma_pairing_round_trip(s: CoordinatorView, addr: u64, code: Seq<char>, accept: bool)
    ensures
        spec_answer_result(spec_challenge(s, addr, code), addr, true) == Some(true),
        spec_answer_result(
            spec_answer(spec_challenge(s, addr, code), addr),
            addr,
            accept,
        ) is None,
        spec_removed(spec_challenge(s, addr, code), addr, false).pending.contains(addr),
{
}

/// Discovery needs power: toggling while unpowered always leaves discovery
/// off and everything else untouched; toggling on while powered starts it.
pub proof fn lemma_discovery_requires_power(s: CoordinatorView, enable: bool)
    ensures
        spec_set_discovery(s, enable, false) == (CoordinatorView { discovering: false, ..s }),
        !spec_set_discovery(s, enable, false).discovering,
        spec_set_discovery(s, true, true).discovering,
        spec_set_discovery(s, enable, false).devices == s.devices,
        spec_set_discovery(s, enable, false).listeners == s.listeners,
        spec_set_discovery(s, enable, false).pending == s.pending,
{
}

impl Coordinator {
    /// A powered-state change is passed through as an event; no record is
    /// touched.
    pub fn handle_powered_changed(&mut self, powered: bool) -> (ev: WorkerEvent)
        requires
            old(self).wf(),
        ensures
            final(self).wf(),
            final(self)@ == old(self)@,
            ev == WorkerEvent::Enabled(powered),
    {
        WorkerEvent::Enabled(powered)
    }

    /// Handles a device-added notification, with the device's property set
    /// already queried. Returns the record to announce when the device is
    /// new; a nameless device or a duplicate notification returns nothing
    /// and changes nothing. For a returned record the caller must spawn the
    /// device's listener and emit a device-added event.
    pub fn handle_device_added(&mut self, addr: u64, props: &DeviceProps) -> (r: Option<
        BluetoothDevice,
    >)
        requires
            old(self).wf(),
        ensures
            final(self).wf(),
            final(self)@ == spec_added(old(self)@, addr, props@),
            r is Some == spec_added_accepted(old(self)@, addr, props@),
            r matches Some(d) ==> d@ == spec_device_from_props(addr, props@),
    {
        if props.name.is_none() {
            return None;
        }
        if let Some(_) = find_addr(&self.listeners, addr) {
            return None;
        }
        let di = self.find_device(addr);
        let record = BluetoothDevice::from_device(addr, props);
        let out = BluetoothDevice::from_device(addr, props);
        let ghost old_devices = self.devices@;
        match di {
            Some(i) => {
                self.devices[i] = record;
                proof {
                    lemma_dev_map_update(old_devices, i as int, self.devices@[i as int]);
                }
            },
            None => {
                self.devices.push(record);
                proof {
                    lemma_dev_map_push(old_devices, self.devices@.last());
                    lemma_dev_map_dom(old_devices, addr);
                    assert forall|m: int, n: int|
                        0 <= m < n < self.devices@.len() implies self.devices@[m].address
                        != self.devices@[n].address by {
                        if n < self.devices@.len() - 1 {
                            assert(old_devices[m].address != old_devices[n].address);
                        } else {
                            assert(old_devices[m].address != addr);
                        }
                    }
                }
            },
        }
        let ghost mid_listeners = self.listeners@;
        self.listeners.push(addr);
        proof {
            lemma_addr_set_push(mid_listeners, addr);
            assert forall|a: u64| self.listeners@.contains(a) implies dev_map(
                self.devices@,
            ).dom().contains(a) by {
                let j = choose|j: int| 0 <= j < self.listeners@.len() && self.listeners@[j] == a;
                if j < mid_listeners.len() {
                    assert(mid_listeners[j] == a);
                    assert(mid_listeners.contains(a));
                    lemma_dev_map_dom(old_devices, a);
                    lemma_dev_map_dom(self.devices@, a);
                    if a != addr {
                        let k = choose|k: int|
                            0 <= k < old_devices.len() && old_devices[k].address == a;
                        assert(self.devices@[k].address == a);
                    }
                } else {
                    assert(self.listeners@[j] == addr);
                }
            }
            assert forall|i: int|
                0 <= i < self.devices@.len() && self.devices@[i]@.display_code is Some
                implies self.pending@.contains(self.devices@[i].address) by {
                assert(old_devices.len() <= self.devices@.len());
                if i < old_devices.len() && self.devices@[i] == old_devices[i] {
                    assert(old_devices[i]@.display_code is Some);
                }
            }
            assert(final(self)@ =~= spec_added(old(self)@, addr, props@));
        }
        Some(out)
    }

    /// Handles a device-removed notification, already disambiguated: the
    /// caller re-checked whether the platform still lists the address and
    /// passes the outcome. Returns whether an actual removal happened; the
    /// caller must then abort the listener and emit a device-removed event.
    pub fn handle_device_removed(&mut self, addr: u64, still_present: bool) -> (removed: bool)
        requires
            old(self).wf(),
        ensures
            final(self).wf(),
            final(self)@ == spec_removed(old(self)@, addr, still_present),
            removed == (!still_present && old(self)@.listeners.contains(addr)),
    {
        if still_present {
            return false;
        }
        let li = match find_addr(&self.listeners, addr) {
            Some(li) => li,
            None => {
                return false;
            },
        };
        let di = self.find_device(addr);
        let ghost old_devices = self.devices@;
        let ghost old_listeners = self.listeners@;
        proof {
            assert(old(self)@.listeners.contains(addr));
        }
        let i = match di {
            Some(i) => i,
            None => {
                proof {
                    assert(false);
                }
                return false;
            },
        };
        self.devices.remove(i);
        self.listeners.remove(li);
        proof {
            lemma_dev_map_remove(old_devices, i as int);
            lemma_addr_set_remove(old_listeners, li as int);
            assert forall|a: u64| self.listeners@.contains(a) implies dev_map(
                self.devices@,
            ).dom().contains(a) by {
                let j = choose|j: int| 0 <= j < self.listeners@.len() && self.listeners@[j] == a;
                let j0 = if j < li {
                    j
                } else {
                    j + 1
                };
                assert(old_listeners[j0] == a);
                assert(old_listeners.contains(a));
                assert(old_listeners[li as int] == addr);
                assert(a != addr);
                lemma_dev_map_dom(old_devices, a);
                lemma_dev_map_dom(self.devices@, a);
                let k = choose|k: int| 0 <= k < old_devices.len() && old_devices[k].address == a;
                if k < i {
                    assert(self.devices@[k].address == a);
                } else {
                    assert(self.devices@[k - 1].address == a);
                }
            }
            assert forall|k: int|
                0 <= k < self.devices@.len() && self.devices@[k]@.display_code is Some
                implies self.pending@.contains(self.devices@[k].address) by {
                let k0 = if k < i {
                    k
                } else {
                    k + 1
                };
                assert(self.devices@[k] == old_devices[k0]);
            }
            assert(final(self)@ =~= spec_removed(old(self)@, addr, still_present));
        }
        true
    }
    /// Applies a listener-forwarded property update to the addressed record.
    /// Returns whether the address was known; an unknown address is a
    /// desynchronization the caller merely logs.
    pub fn apply_device_update(&mut self, addr: u64, update: DeviceUpdate) -> (known: bool)
        requires
            old(self).wf(),
        ensures
            final(self).wf(),
            final(self)@ == spec_update(old(self)@, addr, update),
            known == old(self)@.devices.dom().contains(addr),
    {
        let di = self.find_device(addr);
        let ghost old_devices = self.devices@;
        match di {
            Some(i) => {
                proof {
                    lemma_dev_map_at(old_devices, i as int);
                }
                self.devices[i].handle_device_updates(update);
                proof {
                    lemma_dev_map_update(old_devices, i as int, self.devices@[i as int]);
                    lemma_wf_after_record_update(*old(self), *self, i as int);
                    assert(final(self)@ =~= spec_update(old(self)@, addr, update));
                }
                true
            },
            None => false,
        }
    }

    /// Record dispatch of a connect request: the addressed record turns
    /// `Connecting` before the attempt runs. Returns whether the address
    /// was known; for an unknown one the request is dropped.
    pub fn handle_connect_request(&mut self, addr: u64) -> (known: bool)
        requires
            old(self).wf(),
        ensures
            final(self).wf(),
            final(self)@ == spec_set_status(old(self)@, addr, ConnectionStatus::Connecting),
            known == old(self)@.devices.dom().contains(addr),
    {
        self.force_status(addr, ConnectionStatus::Connecting)
    }

    /// Record dispatch of a disconnect request: the addressed record turns
    /// `Disconnecting` before the operation runs.
    pub fn handle_disconnect_request(&mut self, addr: u64) -> (known: bool)
        requires
            old(self).wf(),
        ensures
            final(self).wf(),
            final(self)@ == spec_set_status(old(self)@, addr, ConnectionStatus::Disconnecting),
            known == old(self)@.devices.dom().contains(addr),
    {
        self.force_status(addr, ConnectionStatus::Disconnecting)
    }

    /// A connect flow ended in failure or cancellation: the record is
    /// forced back to `Disconnected`; the caller emits a connect-failed
    /// event for the address.
    pub fn handle_connect_failed(&mut self, addr: u64) -> (known: bool)
        requires
            old(self).wf(),
        ensures
            final(self).wf(),
            final(self)@ == spec_set_status(old(self)@, addr, ConnectionStatus::Disconnected),
            known == old(self)@.devices.dom().contains(addr),
    {
        self.force_status(addr, ConnectionStatus::Disconnected)
    }

    /// Forces the connection state of the addressed record.
    fn force_status(&mut self, addr: u64, st: ConnectionStatus) -> (known: bool)
        requires
            old(self).wf(),
        ensures
            final(self).wf(),
            final(self)@ == spec_set_status(old(self)@, addr, st),
            known == old(self)@.devices.dom().contains(addr),
    {
        let di = self.find_device(addr);
        let ghost old_devices = self.devices@;
        match di {
            Some(i) => {
                proof {
                    lemma_dev_map_at(old_devices, i as int);
                }
                self.devices[i].set_status(st);
                proof {
                    lemma_dev_map_update(old_devices, i as int, self.devices@[i as int]);
                    lemma_wf_after_record_update(*old(self), *self, i as int);
                    assert(final(self)@ =~= spec_set_status(old(self)@, addr, st));
                }
                true
            },
            None => false,
        }
    }


    /// Toggles discovery: it starts only if requested on while the adapter
    /// is powered; requested off, or on while unpowered, it is stopped.
    /// Returns whether a discovery stream must now run; the caller starts
    /// or drops the actual stream accordingly.
    pub fn handle_set_discovery(&mut self, enable: bool, powered: bool) -> (started: bool)
        requires
            old(self).wf(),
        ensures
            final(self).wf(),
            final(self)@ == spec_set_discovery(old(self)@, enable, powered),
            started == (enable && powered),
    {
        self.discovering = enable && powered;
        proof {
            assert(final(self)@ =~= spec_set_discovery(old(self)@, enable, powered));
        }
        enable && powered
    }

    /// Tears the listener table down after a completed disable; the device
    /// cache is left in place, stale until the next enable. Returns the
    /// addresses whose listener tasks the caller must abort.
    pub fn handle_disabled(&mut self) -> (aborted: Vec<u64>)
        requires
            old(self).wf(),
        ensures
            final(self).wf(),
            final(self)@ == spec_disable(old(self)@),
            aborted@.to_set() == old(self)@.listeners,
            distinct(aborted@),
    {
        let mut aborted: Vec<u64> = Vec::new();
        let mut i: usize = 0;
        while i < self.listeners.len()
            invariant
                i <= self.listeners@.len(),
                aborted@ == self.listeners@.subrange(0, i as int),
            decreases self.listeners@.len() - i,
        {
            aborted.push(self.listeners[i]);
            proof {
                assert(aborted@ =~= self.listeners@.subrange(0, i + 1 as int));
            }
            i = i + 1;
        }
        proof {
            assert(aborted@ =~= self.listeners@);
        }
        self.listeners.clear();
        proof {
            assert(self.listeners@.to_set() =~= Set::<u64>::empty());
            assert(final(self)@ =~= spec_disable(old(self)@));
        }
        aborted
    }

    /// Records a pairing challenge: the single-use acceptor is kept under
    /// the peer's address and the addressed record, if any, shows the
    /// display code. The caller emits a confirm-code event.
    pub fn handle_pairing_challenge(&mut self, addr: u64, code: &str)
        requires
            old(self).wf(),
        ensures
            final(self).wf(),
            final(self)@ == spec_challenge(old(self)@, addr, code@),
    {
        let di = self.find_device(addr);
        let ghost old_devices = self.devices@;
        if let Some(i) = di {
            proof {
                lemma_dev_map_at(old_devices, i as int);
            }
            self.devices[i].set_display_code(code);
            proof {
                lemma_dev_map_update(old_devices, i as int, self.devices@[i as int]);
            }
        }
        let ghost mid_pending = self.pending@;
        let pos = find_addr(&self.pending, addr);
        if pos.is_none() {
            self.pending.push(addr);
            proof {
                lemma_addr_set_push(mid_pending, addr);
            }
        } else {
            proof {
                assert(mid_pending.contains(addr));
                assert(self.pending@.to_set() =~= old(self)@.pending.insert(addr));
            }
        }
        proof {
            assert forall|a: u64| self.listeners@.contains(a) implies dev_map(
                self.devices@,
            ).dom().contains(a) by {
                lemma_dev_map_dom(old_devices, a);
                lemma_dev_map_dom(self.devices@, a);
                let k = choose|k: int| 0 <= k < old_devices.len() && old_devices[k].address == a;
                assert(self.devices@[k].address == a);
            }
            assert forall|m: int, n: int|
                0 <= m < n < self.devices@.len() implies self.devices@[m].address
                != self.devices@[n].address by {
                assert(old_devices[m].address != old_devices[n].address);
            }
            assert forall|k: int|
                0 <= k < self.devices@.len() && self.devices@[k]@.display_code is Some
                implies self.pending@.contains(self.devices@[k].address) by {
                assert(self.pending@ == mid_pending || self.pending@ == mid_pending.push(addr));
                if self.devices@[k].address == addr {
                    if self.pending@ == mid_pending.push(addr) {
                        assert(self.pending@[mid_pending.len() as int] == addr);
                    }
                } else {
                    assert(self.devices@[k] == old_devices[k]);
                    assert(mid_pending.contains(self.devices@[k].address));
                    let j = choose|j: int|
                        0 <= j < mid_pending.len() && mid_pending[j] == self.devices@[k].address;
                    assert(self.pending@[j] == self.devices@[k].address);
                }
            }
            assert(final(self)@ =~= spec_challenge(old(self)@, addr, code@));
        }
    }

    /// Consumes the stored acceptor for an answered challenge and clears
    /// the record's display code. Returns what the acceptor must be handed
    /// (the caller's verdict), or nothing when no challenge was pending and
    /// the answer is ignored.
    pub fn handle_confirm_answer(&mut self, addr: u64, accept: bool) -> (r: Option<bool>)
        requires
            old(self).wf(),
        ensures
            final(self).wf(),
            final(self)@ == spec_answer(old(self)@, addr),
            r == spec_answer_result(old(self)@, addr, accept),
    {
        let pos = match find_addr(&self.pending, addr) {
            Some(p) => p,
            None => {
                return None;
            },
        };
        let di = self.find_device(addr);
        let ghost old_devices = self.devices@;
        let ghost old_pending = self.pending@;
        proof {
            assert(old_pending.contains(addr));
        }
        self.pending.remove(pos);
        proof {
            lemma_addr_set_remove(old_pending, pos as int);
        }
        if let Some(i) = di {
            proof {
                lemma_dev_map_at(old_devices, i as int);
            }
            self.devices[i].clear_display_code();
            proof {
                lemma_dev_map_update(old_devices, i as int, self.devices@[i as int]);
            }
        }
        proof {
            assert forall|a: u64| self.listeners@.contains(a) implies dev_map(
                self.devices@,
            ).dom().contains(a) by {
                lemma_dev_map_dom(old_devices, a);
                lemma_dev_map_dom(self.devices@, a);
                let k = choose|k: int| 0 <= k < old_devices.len() && old_devices[k].address == a;
                assert(self.devices@[k].address == a);
            }
            assert forall|m: int, n: int|
                0 <= m < n < self.devices@.len() implies self.devices@[m].address
                != self.devices@[n].address by {
                assert(old_devices[m].address != old_devices[n].address);
            }
            assert forall|k: int|
                0 <= k < self.devices@.len() && self.devices@[k]@.display_code is Some
                implies self.pending@.contains(self.devices@[k].address) by {
                let b = self.devices@[k].address;
                assert(self.devices@[k] == old_devices[k]);
                assert(old_pending.contains(b));
                match di {
                    Some(ii) => {
                        assert(old_devices[ii as int].address == addr);
                        assert(b != addr);
                    },
                    None => {
                        lemma_dev_map_dom(old_devices, addr);
                        assert(b != addr);
                    },
                }
                let j = choose|j: int| 0 <= j < old_pending.len() && old_pending[j] == b;
                if j < pos {
                    assert(self.pending@[j] == b);
                } else {
                    assert(old_pending[pos as int] == addr);
                    assert(self.pending@[j - 1] == b);
                }
            }
            assert(final(self)@ =~= spec_answer(old(self)@, addr));
        }
        Some(accept)
    }

    /// Rebuilds the whole device set from a full enumeration, replacing the
    /// cache and the listener table; pending acceptors stay. Returns the
    /// snapshot to announce; the caller replaces every listener task (one
    /// per returned record) and emits a device-map event.
    pub fn rebuild(&mut self, entries: &Vec<DeviceEntry>) -> (snapshot: Vec<BluetoothDevice>)
        requires
            old(self).wf(),
            distinct_entries(entries@),
        ensures
            final(self).wf(),
            final(self)@ == spec_rebuild(old(self)@, entries@),
            dev_map(snapshot@) == spec_rebuild_map(entries@),
            distinct_addrs(snapshot@),
    {
        let mut devices: Vec<BluetoothDevice> = Vec::new();
        let mut listeners: Vec<u64> = Vec::new();
        let mut snapshot: Vec<BluetoothDevice> = Vec::new();
        let mut i: usize = 0;
        proof {
            assert(entries@.subrange(0, 0) =~= Seq::<DeviceEntry>::empty());
        }
        while i < entries.len()
            invariant
                i <= entries@.len(),
                distinct_entries(entries@),
                dev_map(devices@) == spec_rebuild_map(entries@.subrange(0, i as int)),
                dev_map(snapshot@) == dev_map(devices@),
                distinct_addrs(devices@),
                listeners@.len() == devices@.len(),
                forall|k: int| 0 <= k < devices@.len() ==> listeners@[k] == devices@[k].address,
                snapshot@.len() == devices@.len(),
                forall|k: int|
                    0 <= k < devices@.len() ==> snapshot@[k].address == devices@[k].address,
                forall|k: int| 0 <= k < devices@.len() ==> devices@[k]@.display_code is None,
                forall|m: int|
                    0 <= m < devices@.len() ==> exists|j: int|
                        0 <= j < i && (#[trigger] devices@[m]).address == entries@[j].address,
            decreases entries@.len() - i,
        {
            let e = &entries[i];
            let d = BluetoothDevice::from_device(e.address, &e.props);
            let keep = if e.props.name.is_some() {
                true
            } else {
                !str_eq(d.icon.as_str(), "bluetooth-symbolic")
            };
            proof {
                assert(keep == spec_keep_entry(entries@[i as int]));
                assert(entries@.subrange(0, i + 1 as int).drop_last() =~= entries@.subrange(
                    0,
                    i as int,
                ));
                assert(entries@.subrange(0, i + 1 as int).last() == entries@[i as int]);
            }
            if keep {
                let d2 = BluetoothDevice::from_device(e.address, &e.props);
                let ghost prev_devices = devices@;
                let ghost prev_snapshot = snapshot@;
                proof {
                    assert forall|m: int| 0 <= m < prev_devices.len() implies prev_devices[m].address
                        != e.address by {
                        let j = choose|j: int|
                            0 <= j < i && prev_devices[m].address == entries@[j].address;
                        assert(entries@[j].address != entries@[i as int].address);
                    }
                }
                devices.push(d);
                listeners.push(e.address);
                snapshot.push(d2);
                proof {
                    lemma_dev_map_push(prev_devices, devices@.last());
                    lemma_dev_map_push(prev_snapshot, snapshot@.last());
                    assert forall|m: int, n: int|
                        0 <= m < n < devices@.len() implies devices@[m].address
                        != devices@[n].address by {
                        if n < devices@.len() - 1 {
                            assert(prev_devices[m].address != prev_devices[n].address);
                        }
                    }
                    assert forall|m: int|
                        0 <= m < devices@.len() implies exists|j: int|
                            0 <= j < i + 1 && (#[trigger] devices@[m]).address
                                == entries@[j].address by {
                        if m < devices@.len() - 1 {
                            let j = choose|j: int|
                                0 <= j < i && prev_devices[m].address == entries@[j].address;
                            assert(0 <= j < i + 1 && devices@[m].address == entries@[j].address);
                        } else {
                            assert(devices@[m].address == entries@[i as int].address);
                        }
                    }
                }
            }
            i = i + 1;
        }
        proof {
            assert(entries@.subrange(0, i as int) =~= entries@);
        }
        self.devices = devices;
        self.listeners = listeners;
        proof {
            assert forall|m: int, n: int|
                0 <= m < n < self.listeners@.len() implies self.listeners@[m]
                != self.listeners@[n] by {
                assert(self.devices@[m].address != self.devices@[n].address);
            }
            assert forall|a: u64| self.listeners@.contains(a) implies dev_map(
                self.devices@,
            ).dom().contains(a) by {
                let j = choose|j: int| 0 <= j < self.listeners@.len() && self.listeners@[j] == a;
                assert(self.devices@[j].address == a);
                lemma_dev_map_dom(self.devices@, a);
            }
            assert forall|a: u64| dev_map(self.devices@).dom().contains(a)
                implies self.listeners@.to_set().contains(a) by {
                lemma_dev_map_dom(self.devices@, a);
                let k = choose|k: int|
                    0 <= k < self.devices@.len() && self.devices@[k].address == a;
                assert(self.listeners@[k] == a);
            }
            assert(self.listeners@.to_set() =~= dev_map(self.devices@).dom());
            assert forall|m: int, n: int|
                0 <= m < n < snapshot@.len() implies snapshot@[m].address
                != snapshot@[n].address by {
                assert(self.devices@[m].address != self.devices@[n].address);
            }
            assert(final(self)@ =~= spec_rebuild(old(self)@, entries@));
        }
        snapshot
    }

    /// The cached record for an address, if one exists.
    pub fn get_device(&self, addr: u64) -> (r: Option<&BluetoothDevice>)
        requires
            self.wf(),
        ensures
            match r {
                Some(d) => self@.devices.dom().contains(addr) && d@ == self@.devices[addr]
                    && d.address == addr,
                None => !self@.devices.dom().contains(addr),
            },
    {
        match self.find_device(addr) {
            Some(i) => {
                proof {
                    lemma_dev_map_at(self.devices@, i as int);
                }
                Some(&self.devices[i])
            },
            None => None,
        }
    }

    /// Whether a discovery stream is currently supposed to run.
    pub fn is_discovering(&self) -> (r: bool)
        ensures
            r == self@.discovering,
    {
        self.discovering
    }

    /// Whether a pairing acceptor is stored for the address.
    pub fn has_pending(&self, addr: u64) -> (r: bool)
        ensures
            r == self@.pending.contains(addr),
    {
        match find_addr(&self.pending, addr) {
            Some(i) => {
                proof {
                    assert(self.pending@.contains(addr));
                }
                true
            },
            None => false,
        }
    }

    /// Whether a listener task is recorded for the address.
    pub fn has_listener(&self, addr: u64) -> (r: bool)
        ensures
            r == self@.listeners.contains(addr),
    {
        match find_addr(&self.listeners, addr) {
            Some(i) => {
                proof {
                    assert(self.listeners@.contains(addr));
                }
                true
            },
            None => false,
        }
    }
}

} // verus!
