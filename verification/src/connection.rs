//! The object/interface registry of compositor-advertised globals and the
//! connection handshake state machine.  The caller owns the transport: every
//! request comes back as bytes to transmit, and received bytes are handed in
//! for parsing and dispatch.

use vstd::prelude::*;
use vstd::bytes::*;
use crate::codec::{lemma_str_wire_len, new_id_wire, pad4, str_wire, Argument, Error, NewId, Object};
use crate::display::WlDisplay;
use crate::event::{
    spec_demux, EventMessage, EventV, ObjectKind, ObjectTable,
};
use crate::header::{header_wire, Header};
use crate::registry::WlRegistry;
use crate::session_lock::{SessionLock, SessionLockManager};
use vstd::utf8::encode_utf8;

verus! {

/// One advertised global: its name, interface and version.
#[derive(Debug, Clone)]
pub struct Global {
    pub name: u32,
    pub interface: String,
    pub version: u32,
}

/// The registry of advertised globals, keyed by name; announcing a name
/// again replaces its entry.
#[derive(Debug)]
pub struct InterfaceMap {
    pub entries: Vec<Global>,
}

/// The map described by the entries, later entries overriding earlier ones.
pub open spec fn interface_map(s: Seq<Global>) -> Map<u32, (Seq<char>, u32)>
    decreases s.len(),
{
    if s.len() == 0 {
        Map::empty()
    } else {
        interface_map(s.drop_last()).insert(
            s.last().name,
            (s.last().interface@, s.last().version),
        )
    }
}

/// Some advertised global offers the given interface.
pub open spec fn has_interface(m: Map<u32, (Seq<char>, u32)>, iface: Seq<char>) -> bool {
    exists|n: u32| #[trigger] m.dom().contains(n) && m[n].0 == iface
}

/// The most recently announced global offering the given interface.
pub open spec fn latest_global(s: Seq<Global>, iface: Seq<char>) -> Option<Global>
    decreases s.len(),
{
    if s.len() == 0 {
        None
    } else if s.last().interface@ == iface {
        Some(s.last())
    } else {
        latest_global(s.drop_last(), iface)
    }
}

impl View for InterfaceMap {
    type V = Map<u32, (Seq<char>, u32)>;

    open spec fn view(&self) -> Map<u32, (Seq<char>, u32)> {
        interface_map(self.entries@)
    }
}

impl InterfaceMap {
    /// Names are unique across the entries: each global is stored once.
    pub open spec fn wf(&self) -> bool {
        forall|i: int, j: int|
            0 <= i < j < self.entries@.len() ==> self.entries@[i].name != self.entries@[j].name
    }

    /// An empty registry: nothing advertised yet.
    pub fn new() -> (r: Self)
        ensures
            r@ == Map::<u32, (Seq<char>, u32)>::empty(),
            r.wf(),
    {
        InterfaceMap { entries: Vec::new() }
    }

    /// Record an announced global, replacing any previous announcement of the
    /// same name.
    pub fn insert(&mut self, name: u32, interface: String, version: u32)
        requires
            old(self).wf(),
        ensures
            final(self)@ == old(self)@.insert(name, (interface@, version)),
            final(self).wf(),
    {
        let mut i: usize = 0;
        while i < self.entries.len()
            invariant
                i <= self.entries@.len(),
                forall|j: int| 0 <= j < i ==> self.entries@[j].name != name,
                self.entries@ == old(self).entries@,
                old(self).wf(),
            decreases self.entries@.len() - i,
        {
            if self.entries[i].name == name {
                self.entries.set(i, Global { name, interface, version });
                proof {
                    let s = old(self).entries@;
                    let t = self.entries@;
                    assert(forall|j1: int, j2: int|
                        0 <= j1 < j2 < s.len() ==> s[j1].name != s[j2].name) by {
                        assert(old(self).wf());
                    }
                    lemma_interface_map_update(s, i as int, t[i as int]);
                    assert forall|j1: int, j2: int|
                        0 <= j1 < j2 < t.len() implies t[j1].name != t[j2].name by {
                        assert(t[j1].name == s[j1].name || j1 == i);
                        assert(t[j2].name == s[j2].name || j2 == i);
                        assert(s[j1].name != s[j2].name);
                    }
                }
                return ;
            }
            i = i + 1;
        }
        self.entries.push(Global { name, interface, version });
        proof {
            assert(self.entries@.drop_last() =~= old(self).entries@);
        }
    }

    /// Look a global up by its name.
    pub fn get(&self, name: u32) -> (r: Option<(String, u32)>)
        ensures
            r matches Some(v) ==> self@.dom().contains(name) && self@[name].0 == v.0@
                && self@[name].1 == v.1,
            r is None ==> !self@.dom().contains(name),
    {
        let mut i = self.entries.len();
        while i > 0
            invariant
                i <= self.entries@.len(),
                forall|j: int| i <= j < self.entries@.len() ==> self.entries@[j].name != name,
            decreases i,
        {
            i = i - 1;
            if self.entries[i].name == name {
                proof {
                    lemma_interface_map_last(self.entries@, i as int, name);
                }
                let g = &self.entries[i];
                return Some((g.interface.clone(), g.version));
            }
        }
        proof {
            lemma_interface_map_absent(self.entries@, name);
        }
        None
    }

    /// Find the most recent global offering an interface, as an entry index.
    pub fn find(&self, interface: &String) -> (r: Option<usize>)
        requires
            self.wf(),
        ensures
            r matches Some(i) ==> 0 <= i < self.entries@.len() && latest_global(
                self.entries@,
                interface@,
            ) == Some(self.entries@[i as int]),
            r is None <==> !has_interface(self@, interface@),
    {
        let mut i = self.entries.len();
        while i > 0
            invariant
                i <= self.entries@.len(),
                self.wf(),
                forall|j: int|
                    i <= j < self.entries@.len() ==> self.entries@[j].interface@ != interface@,
            decreases i,
        {
            i = i - 1;
            if self.entries[i].interface == *interface {
                proof {
                    lemma_latest_global_at(self.entries@, i as int, interface@);
                    let s = self.entries@;
                    assert forall|j: int| i < j < s.len() implies s[j].name != s[
                        i as int
                    ].name by {
                        assert(0 <= i < j < s.len());
                        assert(self.wf());
                    }
                    lemma_interface_map_last(self.entries@, i as int, self.entries@[i as int].name);
                    assert(has_interface(self@, interface@)) by {
                        assert(self@.dom().contains(self.entries@[i as int].name));
                    }
                }
                return Some(i);
            }
        }
        proof {
            lemma_no_interface(self.entries@, interface@);
        }
        None
    }
}

/// Updating the entry that holds a name rewrites the map at that name.
proof fn lemma_interface_map_update(s: Seq<Global>, i: int, g: Global)
    requires
        0 <= i < s.len(),
        s[i].name == g.name,
        forall|j1: int, j2: int| 0 <= j1 < j2 < s.len() ==> s[j1].name != s[j2].name,
    ensures
        interface_map(s.update(i, g)) == interface_map(s).insert(g.name, (g.interface@, g.version)),
    decreases s.len(),
{
    let t = s.update(i, g);
    if i == s.len() - 1 {
        assert(t.drop_last() =~= s.drop_last());
        assert(interface_map(t) =~= interface_map(s).insert(g.name, (g.interface@, g.version)));
    } else {
        assert(t.drop_last() =~= s.drop_last().update(i, g));
        lemma_interface_map_update(s.drop_last(), i, g);
        assert(s.last().name != g.name);
        assert(interface_map(t) =~= interface_map(s).insert(g.name, (g.interface@, g.version)));
    }
}

/// An entry whose name never recurs later decides the map at that name.
proof fn lemma_interface_map_last(s: Seq<Global>, i: int, name: u32)
    requires
        0 <= i < s.len(),
        s[i].name == name,
        forall|j: int| i < j < s.len() ==> s[j].name != name,
    ensures
        interface_map(s).dom().contains(name),
        interface_map(s)[name] == (s[i].interface@, s[i].version),
    decreases s.len(),
{
    if i < s.len() - 1 {
        lemma_interface_map_last(s.drop_last(), i, name);
    }
}

/// A name on no entry at all is not in the map.
proof fn lemma_interface_map_absent(s: Seq<Global>, name: u32)
    requires
        forall|j: int| 0 <= j < s.len() ==> s[j].name != name,
    ensures
        !interface_map(s).dom().contains(name),
    decreases s.len(),
{
    if s.len() > 0 {
        lemma_interface_map_absent(s.drop_last(), name);
    }
}

/// An entry offering the interface, with none later, is the latest global.
proof fn lemma_latest_global_at(s: Seq<Global>, i: int, iface: Seq<char>)
    requires
        0 <= i < s.len(),
        s[i].interface@ == iface,
        forall|j: int| i < j < s.len() ==> s[j].interface@ != iface,
    ensures
        latest_global(s, iface) == Some(s[i]),
    decreases s.len(),
{
    if i < s.len() - 1 {
        lemma_latest_global_at(s.drop_last(), i, iface);
    }
}

/// How one event changes the registry map and the handshake flag: a global
/// announcement updates the map, a callback done event completes the
/// handshake, everything else changes nothing.
pub open spec fn apply_one(
    reg: Map<u32, (Seq<char>, u32)>,
    setup: bool,
    e: EventV,
) -> (Map<u32, (Seq<char>, u32)>, bool) {
    match e {
        EventV::Interface { id, name, version } => (reg.insert(id, (name, version)), setup),
        EventV::Callback { .. } => (reg, true),
        _ => (reg, setup),
    }
}

/// Folding `apply_one` over a batch of events in arrival order.
pub open spec fn apply_events(
    reg: Map<u32, (Seq<char>, u32)>,
    setup: bool,
    evs: Seq<EventV>,
) -> (Map<u32, (Seq<char>, u32)>, bool)
    decreases evs.len(),
{
    if evs.len() == 0 {
        (reg, setup)
    } else {
        let step = apply_one(reg, setup, evs[0]);
        apply_events(step.0, step.1, evs.drop_first())
    }
}

/// Applying one more event at the end of a batch is one more `apply_one`.
proof fn lemma_apply_events_snoc(
    reg: Map<u32, (Seq<char>, u32)>,
    setup: bool,
    evs: Seq<EventV>,
    e: EventV,
)
    ensures
        apply_events(reg, setup, evs.push(e)).0 == apply_one(
            apply_events(reg, setup, evs).0,
            apply_events(reg, setup, evs).1,
            e,
        ).0,
        apply_events(reg, setup, evs.push(e)).1 == apply_one(
            apply_events(reg, setup, evs).0,
            apply_events(reg, setup, evs).1,
            e,
        ).1,
    decreases evs.len(),
{
    reveal_with_fuel(apply_events, 3);
    if evs.len() == 0 {
        assert(evs.push(e)[0] == e);
        assert(evs.push(e).drop_first() =~= Seq::<EventV>::empty());
    } else {
        assert(evs.push(e)[0] == evs[0]);
        assert(evs.push(e).drop_first() =~= evs.drop_first().push(e));
        let step = apply_one(reg, setup, evs[0]);
        lemma_apply_events_snoc(step.0, step.1, evs.drop_first(), e);
    }
}

/// Applying events never unsets the handshake flag and never removes a name
/// from the registry map.
proof fn lemma_apply_preserves(reg: Map<u32, (Seq<char>, u32)>, setup: bool, evs: Seq<EventV>)
    ensures
        setup ==> apply_events(reg, setup, evs).1,
        forall|id: u32|
            reg.dom().contains(id) ==> apply_events(reg, setup, evs).0.dom().contains(id),
    decreases evs.len(),
{
    if evs.len() > 0 {
        let step = apply_one(reg, setup, evs[0]);
        assert(forall|id: u32| reg.dom().contains(id) ==> step.0.dom().contains(id));
        lemma_apply_preserves(step.0, step.1, evs.drop_first());
    }
}

/// Events that never announce a given name leave the registry map unchanged
/// at that name.
proof fn lemma_apply_untouched(
    reg: Map<u32, (Seq<char>, u32)>,
    setup: bool,
    evs: Seq<EventV>,
    id: u32,
)
    requires
        forall|j: int|
            0 <= j < evs.len() ==> !(evs[j] is Interface && evs[j]->Interface_id == id),
    ensures
        apply_events(reg, setup, evs).0.dom().contains(id) == reg.dom().contains(id),
        reg.dom().contains(id) ==> apply_events(reg, setup, evs).0[id] == reg[id],
    decreases evs.len(),
{
    if evs.len() > 0 {
        let step = apply_one(reg, setup, evs[0]);
        lemma_apply_untouched(step.0, step.1, evs.drop_first(), id);
    }
}

/// Law: global announcements strictly update the registry map.  After a
/// batch, a name whose last announcement stands at position `j` maps to
/// exactly the interface and version announced there.
pub proof fn lemma_last_announcement_wins(
    reg: Map<u32, (Seq<char>, u32)>,
    setup: bool,
    evs: Seq<EventV>,
    j: int,
)
    requires
        0 <= j < evs.len(),
        evs[j] is Interface,
        forall|j2: int|
            j < j2 < evs.len() ==> !(evs[j2] is Interface && evs[j2]->Interface_id
                == evs[j]->Interface_id),
    ensures
        apply_events(reg, setup, evs).0.dom().contains(evs[j]->Interface_id),
        apply_events(reg, setup, evs).0[evs[j]->Interface_id] == (
            evs[j]->Interface_name,
            evs[j]->Interface_version,
        ),
    decreases evs.len(),
{
    let step = apply_one(reg, setup, evs[0]);
    if j == 0 {
        lemma_apply_untouched(step.0, step.1, evs.drop_first(), evs[0]->Interface_id);
    } else {
        lemma_last_announcement_wins(step.0, step.1, evs.drop_first(), j - 1);
    }
}

/// Law: when a batch holds global announcements followed by a matching done
/// event, every global announced before the done event is in the registry
/// map once the batch is applied, and the handshake is complete.
pub proof fn lemma_sync_ordering(
    reg: Map<u32, (Seq<char>, u32)>,
    setup: bool,
    evs: Seq<EventV>,
    k: int,
)
    requires
        0 <= k < evs.len(),
        evs[k] is Callback,
        forall|j: int| 0 <= j < k ==> evs[j] is Interface,
    ensures
        apply_events(reg, setup, evs).1,
        forall|j: int|
            0 <= j < k ==> apply_events(reg, setup, evs).0.dom().contains(evs[j]->Interface_id),
    decreases evs.len(),
{
    let step = apply_one(reg, setup, evs[0]);
    if k == 0 {
        lemma_apply_preserves(step.0, step.1, evs.drop_first());
    } else {
        lemma_sync_ordering(step.0, step.1, evs.drop_first(), k - 1);
        lemma_apply_preserves(step.0, step.1, evs.drop_first());
        assert forall|j: int| 0 <= j < k implies apply_events(
            reg,
            setup,
            evs,
        ).0.dom().contains(evs[j]->Interface_id) by {
            if j > 0 {
                assert(evs.drop_first()[j - 1] == evs[j]);
            } else {
                assert(step.0.dom().contains(evs[0]->Interface_id));
            }
        }
    }
}

/// When no entry offers the interface, no map value does either.
proof fn lemma_no_interface(s: Seq<Global>, iface: Seq<char>)
    requires
        forall|j: int| 0 <= j < s.len() ==> s[j].interface@ != iface,
    ensures
        !has_interface(interface_map(s), iface),
    decreases s.len(),
{
    if s.len() > 0 {
        lemma_no_interface(s.drop_last(), iface);
        let m = interface_map(s);
        let m0 = interface_map(s.drop_last());
        assert forall|n: u32| #[trigger] m.dom().contains(n) implies m[n].0 != iface by {
            if n == s.last().name {
            } else {
                assert(m0.dom().contains(n) && m0[n] == m[n]);
                assert(!(m0.dom().contains(n) && m0[n].0 == iface));
            }
        }
    }
}

/// The payload length of a bind request for an interface: global name,
/// string length field, string bytes with terminator and padding, version,
/// new object id.
pub open spec fn bind_payload_len(iface: Seq<char>) -> int {
    17 + encode_utf8(iface).len() + pad4(encode_utf8(iface).len() as int + 5)
}

/// A bind request for the interface fits the header's 16-bit size field.
pub open spec fn bind_fits(iface: Seq<char>) -> bool {
    8 + bind_payload_len(iface) <= 0xFFFF
}

/// The complete wire form of a bind request against a registry object.
pub open spec fn bind_request_wire(registry_id: Object, g: Global, new_id: u32) -> Seq<u8> {
    header_wire(
        Header {
            opcode: 0,
            object_id: registry_id,
            size: (8 + bind_payload_len(g.interface@)) as u16,
        },
    ) + spec_u32_to_le_bytes(g.name) + new_id_wire(encode_utf8(g.interface@), g.version, new_id)
}

/// The connection state: protocol object handles, the monotone id allocator,
/// the registry of advertised globals, the table of live objects, and the
/// bytes of a partial trailing frame awaiting the next read.
#[derive(Debug)]
pub struct Wayland {
    pub display: WlDisplay,
    pub registry: Option<WlRegistry>,
    pub session_lock_manager: Option<SessionLockManager>,
    pub session_lock: Option<SessionLock>,
    pub is_setup: bool,
    pub next_id: u32,
    pub interface_map: InterfaceMap,
    pub objects: ObjectTable,
    pub pending: Vec<u8>,
}

impl Wayland {
    /// The registry of globals keeps one entry per name.
    pub open spec fn wf(&self) -> bool {
        self.interface_map.wf()
    }

    /// Fresh connection state: the display object exists implicitly at id 1,
    /// ids from 2 on are allocated monotonically, nothing else is live.
    pub fn new() -> (r: Self)
        ensures
            r.display.0 == Object(1),
            r.registry is None,
            r.session_lock_manager is None,
            r.session_lock is None,
            !r.is_setup,
            r.next_id == 2,
            r.interface_map@ == Map::<u32, (Seq<char>, u32)>::empty(),
            r.objects@ == Map::<u32, ObjectKind>::empty().insert(1, ObjectKind::Display),
            r.pending@ == Seq::<u8>::empty(),
            r.wf(),
    {
        let mut objects = ObjectTable::new();
        objects.register(1, ObjectKind::Display);
        Wayland {
            display: WlDisplay::new(Object::new(1)),
            registry: None,
            session_lock_manager: None,
            session_lock: None,
            is_setup: false,
            next_id: 2,
            interface_map: InterfaceMap::new(),
            objects,
            pending: Vec::new(),
        }
    }

    /// The sync request against the display: allocates the callback object id
    /// and registers its event decoder; the returned bytes are transmitted by
    /// the caller.
    pub fn sync(&mut self) -> (r: Vec<u8>)
        requires
            old(self).next_id < 0xFFFF_FFFFu32,
        ensures
            final(self).next_id == old(self).next_id + 1,
            final(self).objects@ == old(self).objects@.insert(
                old(self).next_id,
                ObjectKind::Callback,
            ),
            final(self).display == old(self).display,
            final(self).registry == old(self).registry,
            final(self).session_lock_manager == old(self).session_lock_manager,
            final(self).session_lock == old(self).session_lock,
            final(self).is_setup == old(self).is_setup,
            final(self).interface_map == old(self).interface_map,
            final(self).pending == old(self).pending,
            r@ == header_wire((Header { opcode: 0, object_id: old(self).display.0, size: 12 }))
                + spec_u32_to_le_bytes(old(self).next_id),
    {
        let id = self.next_id;
        self.next_id = self.next_id + 1;
        let msg = self.display.sync(id);
        self.objects.register(id, ObjectKind::Callback);
        match msg.to_vec() {
            Ok(v) => v,
            Err(_) => Vec::new(),
        }
    }

    /// The handshake requests: get-registry followed by sync.  Allocates the
    /// registry object id and the callback id, records both decoders and the
    /// registry handle; the caller transmits the bytes, then feeds received
    /// buffers to `read_messages` until `is_setup` holds.
    pub fn setup(&mut self) -> (r: Vec<u8>)
        requires
            old(self).next_id < 0xFFFF_FFFEu32,
        ensures
            final(self).next_id == old(self).next_id + 2,
            final(self).registry == Some(WlRegistry(Object(old(self).next_id))),
            final(self).objects@ == old(self).objects@.insert(
                old(self).next_id,
                ObjectKind::Registry,
            ).insert((old(self).next_id + 1) as u32, ObjectKind::Callback),
            final(self).display == old(self).display,
            final(self).session_lock_manager == old(self).session_lock_manager,
            final(self).session_lock == old(self).session_lock,
            final(self).is_setup == old(self).is_setup,
            final(self).interface_map == old(self).interface_map,
            final(self).pending == old(self).pending,
            r@ == header_wire((Header { opcode: 1, object_id: old(self).display.0, size: 12 }))
                + spec_u32_to_le_bytes(old(self).next_id) + header_wire(
                (Header { opcode: 0, object_id: old(self).display.0, size: 12 }),
            ) + spec_u32_to_le_bytes((old(self).next_id + 1) as u32),
    {
        let id = self.next_id;
        self.next_id = self.next_id + 1;
        let msg = self.display.get_registry(id);
        self.registry = Some(WlRegistry::new(Object::new(id)));
        self.objects.register(id, ObjectKind::Registry);
        let mut bytes = match msg.to_vec() {
            Ok(v) => v,
            Err(_) => Vec::new(),
        };
        let mut sync_bytes = self.sync();
        bytes.append(&mut sync_bytes);
        bytes
    }

    /// Bind the most recently announced global offering `interface`:
    /// allocates the new object id and, when the interface is the
    /// session-lock manager's, records the manager handle (the extension type
    /// is selected by the requested interface name, not by the registry).  An
    /// interface never advertised is a typed error, and no object id is
    /// consumed; likewise when no registry object exists yet, or when the
    /// interface name cannot fit a request frame.  The bound object gets no
    /// entry in the object table: the exercised protocol subset defines no
    /// events for it, so its frames classify as unhandled and are consumed
    /// without effect.
    pub fn bind(&mut self, interface: String) -> (r: Result<Vec<u8>, Error>)
        requires
            old(self).wf(),
            old(self).next_id < 0xFFFF_FFFFu32,
        ensures
            final(self).wf(),
            !has_interface(old(self).interface_map@, interface@) ==> r == Err::<Vec<u8>, Error>(
                Error::UnsupportedInterface,
            ) && *final(self) == *old(self),
            has_interface(old(self).interface_map@, interface@) && old(self).registry is None
                ==> r == Err::<Vec<u8>, Error>(Error::NotBound) && *final(self) == *old(self),
            has_interface(old(self).interface_map@, interface@) && old(self).registry is Some
                ==> (latest_global(old(self).interface_map.entries@, interface@) matches Some(g)
                && {
                if bind_fits(g.interface@) {
                    &&& r is Ok
                    &&& r->Ok_0@ == bind_request_wire(
                        old(self).registry->Some_0.0,
                        g,
                        old(self).next_id,
                    )
                    &&& final(self).next_id == old(self).next_id + 1
                    &&& final(self).session_lock_manager == (if g.interface@
                        == "ext_session_lock_manager_v1"@ {
                        Some(SessionLockManager(Object(old(self).next_id)))
                    } else {
                        old(self).session_lock_manager
                    })
                    &&& final(self).display == old(self).display
                    &&& final(self).registry == old(self).registry
                    &&& final(self).session_lock == old(self).session_lock
                    &&& final(self).is_setup == old(self).is_setup
                    &&& final(self).interface_map == old(self).interface_map
                    &&& final(self).objects == old(self).objects
                    &&& final(self).pending == old(self).pending
                } else {
                    r == Err::<Vec<u8>, Error>(Error::InvalidArgument) && *final(self) == *old(self)
                }
            }),
    {
        let idx = match self.interface_map.find(&interface) {
            Some(i) => i,
            None => {
                return Err(Error::UnsupportedInterface);
            },
        };
        let registry = match self.registry {
            Some(reg) => reg,
            None => {
                return Err(Error::NotBound);
            },
        };
        let name = self.interface_map.entries[idx].name;
        let version = self.interface_map.entries[idx].version;
        let iface = self.interface_map.entries[idx].interface.clone();
        let iface_bytes = iface.as_str().as_bytes_vec();
        let n = iface_bytes.len();
        proof {
            assert(n == encode_utf8(iface@).len());
        }
        if n > 0xFFFF {
            proof {
                assert(!bind_fits(iface@));
            }
            return Err(Error::InvalidArgument);
        }
        let rem = (n + 5) % 4;
        let pad = if rem == 0 {
            0
        } else {
            4 - rem
        };
        proof {
            assert(pad == pad4(encode_utf8(iface@).len() as int + 5));
        }
        if 25 + n + pad > 0xFFFF {
            return Err(Error::InvalidArgument);
        }
        let id = self.next_id;
        self.next_id = self.next_id + 1;
        let new_id = Object::new(id);
        let is_lock_manager = iface == "ext_session_lock_manager_v1".to_owned();
        let nid = NewId::new((iface, version), new_id);
        proof {
            lemma_auto_spec_u32_to_from_le_bytes();
            lemma_str_wire_len(encode_utf8(nid.0@));
            assert(nid.wire().len() == str_wire(encode_utf8(nid.0@)).len() + 8);
        }
        let msg = registry.bind(name, nid);
        if is_lock_manager {
            self.session_lock_manager = Some(SessionLockManager::new(new_id));
        }
        let bytes = match msg.to_vec() {
            Ok(v) => v,
            Err(_) => Vec::new(),
        };
        proof {
            assert(bytes@ =~= bind_request_wire(registry.0, latest_global(
                old(self).interface_map.entries@,
                interface@,
            )->Some_0, id));
        }
        Ok(bytes)
    }

    /// The lock request against the bound session-lock manager: allocates the
    /// lock object id and records the handle.  Without a bound manager this
    /// is a typed error and consumes nothing.  The lock object gets no entry
    /// in the object table: the exercised protocol subset defines no events
    /// for it, so its frames classify as unhandled and are consumed without
    /// effect.
    pub fn lock(&mut self) -> (r: Result<Vec<u8>, Error>)
        requires
            old(self).next_id < 0xFFFF_FFFFu32,
        ensures
            old(self).session_lock_manager is None ==> r == Err::<Vec<u8>, Error>(Error::NotBound)
                && *final(self) == *old(self),
            old(self).session_lock_manager matches Some(mgr) ==> {
                &&& r is Ok
                &&& r->Ok_0@ == header_wire((Header { opcode: 1, object_id: mgr.0, size: 12 }))
                    + spec_u32_to_le_bytes(old(self).next_id)
                &&& final(self).next_id == old(self).next_id + 1
                &&& final(self).session_lock == Some(SessionLock(Object(old(self).next_id)))
                &&& final(self).display == old(self).display
                &&& final(self).registry == old(self).registry
                &&& final(self).session_lock_manager == old(self).session_lock_manager
                &&& final(self).is_setup == old(self).is_setup
                &&& final(self).interface_map == old(self).interface_map
                &&& final(self).objects == old(self).objects
                &&& final(self).pending == old(self).pending
            },
    {
        let manager = match self.session_lock_manager {
            Some(mgr) => mgr,
            None => {
                return Err(Error::NotBound);
            },
        };
        let id = self.next_id;
        self.next_id = self.next_id + 1;
        let msg = manager.lock(id);
        self.session_lock = Some(SessionLock::new(Object::new(id)));
        match msg.to_vec() {
            Ok(v) => Ok(v),
            Err(_) => Ok(Vec::new()),
        }
    }

    /// The unlock-and-destroy request against the lock object.  Without a
    /// lock object this is a typed error; the state is unchanged either way.
    pub fn unlock(&mut self) -> (r: Result<Vec<u8>, Error>)
        ensures
            *final(self) == *old(self),
            old(self).session_lock is None ==> r == Err::<Vec<u8>, Error>(Error::NotBound),
            old(self).session_lock matches Some(l) ==> r is Ok && r->Ok_0@ == header_wire(
                (Header { opcode: 2, object_id: l.0, size: 8 }),
            ),
    {
        let lock = match self.session_lock {
            Some(l) => l,
            None => {
                return Err(Error::NotBound);
            },
        };
        let msg = lock.unlock_and_destroy();
        match msg.to_vec() {
            Ok(v) => Ok(v),
            Err(_) => Ok(Vec::new()),
        }
    }

    /// Apply one parsed event: a global announcement updates the registry of
    /// globals, a callback done event completes the handshake, anything else
    /// changes nothing.
    pub fn handle_message(&mut self, message: &EventMessage)
        requires
            old(self).wf(),
        ensures
            final(self).wf(),
            final(self).interface_map@ == apply_one(
                old(self).interface_map@,
                old(self).is_setup,
                message.payload@,
            ).0,
            final(self).is_setup == apply_one(
                old(self).interface_map@,
                old(self).is_setup,
                message.payload@,
            ).1,
            final(self).display == old(self).display,
            final(self).registry == old(self).registry,
            final(self).session_lock_manager == old(self).session_lock_manager,
            final(self).session_lock == old(self).session_lock,
            final(self).next_id == old(self).next_id,
            final(self).objects == old(self).objects,
            final(self).pending == old(self).pending,
    {
        if message.is_global() {
            match message.payload.get_global() {
                Some(g) => self.interface_map.insert(g.0, g.1, g.2),
                None => {},
            }
        } else if message.is_callback_done() {
            self.is_setup = true;
        }
    }

    /// Parse and dispatch one batch of received bytes.  The bytes are
    /// appended to the unconsumed remainder of the previous read; complete
    /// frames are cut, classified and applied in arrival order, and a partial
    /// trailing frame is kept for the next call.
    pub fn read_messages(&mut self, bytes: &[u8]) -> (r: Result<Vec<EventMessage>, Error>)
        requires
            old(self).wf(),
        ensures
            final(self).wf(),
            final(self).display == old(self).display,
            final(self).registry == old(self).registry,
            final(self).session_lock_manager == old(self).session_lock_manager,
            final(self).session_lock == old(self).session_lock,
            final(self).next_id == old(self).next_id,
            final(self).objects == old(self).objects,
            r matches Ok(msgs) ==> {
                &&& spec_demux(old(self).pending@ + bytes@, old(self).objects@) matches Ok(sv)
                &&& msgs@.len() == sv.0.len()
                &&& (forall|i: int|
                    0 <= i < sv.0.len() ==> msgs@[i].header == sv.0[i].0 && msgs@[i].payload@
                        == sv.0[i].1)
                &&& final(self).pending@ == sv.1
                &&& final(self).interface_map@ == apply_events(
                    old(self).interface_map@,
                    old(self).is_setup,
                    sv.0.map(|i: int, t: (Header, EventV)| t.1),
                ).0
                &&& final(self).is_setup == apply_events(
                    old(self).interface_map@,
                    old(self).is_setup,
                    sv.0.map(|i: int, t: (Header, EventV)| t.1),
                ).1
            },
            r matches Err(e) ==> {
                &&& spec_demux(old(self).pending@ + bytes@, old(self).objects@) == Err::<
                    (Seq<(Header, EventV)>, Seq<u8>),
                    Error,
                >(e)
                &&& final(self).pending == old(self).pending
                &&& final(self).interface_map == old(self).interface_map
                &&& final(self).is_setup == old(self).is_setup
            },
    {
        let mut buffer = vstd::slice::slice_to_vec(self.pending.as_slice());
        let mut tail = vstd::slice::slice_to_vec(bytes);
        buffer.append(&mut tail);
        let (messages, remainder) = match EventMessage::parse_messages(
            buffer.as_slice(),
            &self.objects,
        ) {
            Ok(v) => v,
            Err(e) => {
                return Err(e);
            },
        };
        self.pending = remainder;
        let ghost sv = spec_demux(old(self).pending@ + bytes@, old(self).objects@)->Ok_0;
        let ghost views = sv.0.map(|i: int, t: (Header, EventV)| t.1);
        let ghost reg0 = old(self).interface_map@;
        let ghost setup0 = old(self).is_setup;
        let mut i: usize = 0;
        while i < messages.len()
            invariant
                i <= messages@.len(),
                messages@.len() == views.len(),
                forall|j: int|
                    0 <= j < views.len() ==> #[trigger] messages@[j].payload@ == views[j],
                self.wf(),
                self.interface_map@ == apply_events(reg0, setup0, views.take(i as int)).0,
                self.is_setup == apply_events(reg0, setup0, views.take(i as int)).1,
                self.display == old(self).display,
                self.registry == old(self).registry,
                self.session_lock_manager == old(self).session_lock_manager,
                self.session_lock == old(self).session_lock,
                self.next_id == old(self).next_id,
                self.objects == old(self).objects,
                self.pending == remainder,
            decreases messages@.len() - i,
        {
            proof {
                lemma_apply_events_snoc(reg0, setup0, views.take(i as int), views[i as int]);
                assert(views.take(i as int + 1) =~= views.take(i as int).push(views[i as int]));
            }
            self.handle_message(&messages[i]);
            i = i + 1;
        }
        proof {
            assert(views.take(messages@.len() as int) =~= views);
        }
        Ok(messages)
    }
}

} // verus!
