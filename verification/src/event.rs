//! Incoming events: classification of frames by (object id, opcode) through
//! an explicit table of live objects, and the demultiplexer that cuts a read
//! buffer into typed events while preserving a partial trailing frame.

use vstd::prelude::*;
use vstd::bytes::*;
use vstd::utf8::*;
use crate::codec::{
    lemma_encode_utf8_no_nul, lemma_mod4_shift, lemma_str_wire_decode, lemma_str_wire_len,
    spec_decode_u16, spec_decode_u32, spec_str_content, spec_str_end, str_wire, Argument, Error,
    Object,
};
use crate::header::{header_wire, Header};

verus! {

/// The kind of protocol object a live object id refers to; it selects the
/// event decoder for frames addressed to that object.
#[derive(Debug, Clone, Copy, PartialEq, Eq, Structural)]
pub enum ObjectKind {
    Display,
    Registry,
    Callback,
}

/// The registry of live object references, mapping each to its interface's
/// event decoder.  Entries are appended when objects are created; the most
/// recent entry for an id wins.
#[derive(Debug)]
pub struct ObjectTable {
    pub entries: Vec<(u32, ObjectKind)>,
}

/// The map described by a table's entries, later entries overriding earlier
/// ones.
pub open spec fn table_map(s: Seq<(u32, ObjectKind)>) -> Map<u32, ObjectKind>
    decreases s.len(),
{
    if s.len() == 0 {
        Map::empty()
    } else {
        table_map(s.drop_last()).insert(s.last().0, s.last().1)
    }
}

impl View for ObjectTable {
    type V = Map<u32, ObjectKind>;

    open spec fn view(&self) -> Map<u32, ObjectKind> {
        table_map(self.entries@)
    }
}

/// An entry whose id never recurs later in the table decides the map at that
/// id.
proof fn lemma_table_map_last(s: Seq<(u32, ObjectKind)>, i: int, id: u32)
    requires
        0 <= i < s.len(),
        s[i].0 == id,
        forall|j: int| i < j < s.len() ==> s[j].0 != id,
    ensures
        table_map(s).dom().contains(id),
        table_map(s)[id] == s[i].1,
    decreases s.len(),
{
    if i < s.len() - 1 {
        lemma_table_map_last(s.drop_last(), i, id);
    }
}

/// An id on no entry at all is not in the map.
proof fn lemma_table_map_absent(s: Seq<(u32, ObjectKind)>, id: u32)
    requires
        forall|j: int| 0 <= j < s.len() ==> s[j].0 != id,
    ensures
        !table_map(s).dom().contains(id),
    decreases s.len(),
{
    if s.len() > 0 {
        lemma_table_map_absent(s.drop_last(), id);
    }
}

impl ObjectTable {
    /// An empty table: no live objects.
    pub fn new() -> (r: Self)
        ensures
            r@ == Map::<u32, ObjectKind>::empty(),
    {
        ObjectTable { entries: Vec::new() }
    }

    /// Record a newly created object's decoder.
    pub fn register(&mut self, id: u32, kind: ObjectKind)
        ensures
            final(self)@ == old(self)@.insert(id, kind),
    {
        self.entries.push((id, kind));
        proof {
            assert(self.entries@.drop_last() =~= old(self).entries@);
        }
    }

    /// Find the decoder for an object id: the most recent registration wins.
    pub fn lookup(&self, id: u32) -> (r: Option<ObjectKind>)
        ensures
            r == if self@.dom().contains(id) {
                Some(self@[id])
            } else {
                None::<ObjectKind>
            },
    {
        let mut i = self.entries.len();
        while i > 0
            invariant
                i <= self.entries@.len(),
                forall|j: int| i <= j < self.entries@.len() ==> self.entries@[j].0 != id,
            decreases i,
        {
            i = i - 1;
            if self.entries[i].0 == id {
                proof {
                    lemma_table_map_last(self.entries@, i as int, id);
                }
                return Some(self.entries[i].1);
            }
        }
        proof {
            lemma_table_map_absent(self.entries@, id);
        }
        None
    }
}

/// A typed incoming event.
#[derive(Debug)]
pub enum Event {
    /// The compositor reports a fatal error against an object.
    Error { object_id: u32, code: u32, message: String },
    /// The compositor retires an object id.
    DeleteId { id: u32 },
    /// The registry announces a global: name, interface, version.
    Interface { id: u32, name: String, version: u32 },
    /// A one-shot callback object fires its done event.
    Callback { callback_data: u32 },
    /// A frame for an unregistered (object, opcode) pair: consumed, not fatal.
    Other,
}

/// The mathematical view of an event: strings as character sequences.
pub enum EventV {
    Error { object_id: u32, code: u32, message: Seq<char> },
    DeleteId { id: u32 },
    Interface { id: u32, name: Seq<char>, version: u32 },
    Callback { callback_data: u32 },
    Other,
}

impl View for Event {
    type V = EventV;

    open spec fn view(&self) -> EventV {
        match self {
            Event::Error { object_id, code, message } => EventV::Error {
                object_id: *object_id,
                code: *code,
                message: message@,
            },
            Event::DeleteId { id } => EventV::DeleteId { id: *id },
            Event::Interface { id, name, version } => EventV::Interface {
                id: *id,
                name: name@,
                version: *version,
            },
            Event::Callback { callback_data } => EventV::Callback {
                callback_data: *callback_data,
            },
            Event::Other => EventV::Other,
        }
    }
}

/// What parsing an event payload yields, given the object's kind (None when
/// the object id is not in the table) and the opcode.  Unknown combinations
/// classify as Other; malformed bytes within a recognized frame are errors.
pub open spec fn spec_parse_event(kind: Option<ObjectKind>, opcode: u16, payload: Seq<u8>) -> Result<
    EventV,
    Error,
> {
    match kind {
        Some(ObjectKind::Display) => {
            if opcode == 0 {
                match spec_decode_u32(payload, 0) {
                    Ok((object_id, p1)) => match spec_decode_u32(payload, p1) {
                        Ok((code, p2)) => {
                            if p2 + 4 > payload.len() {
                                Err(Error::UnexpectedEndOfBuffer)
                            } else {
                                let content = spec_str_content(payload, p2);
                                if valid_utf8(content) {
                                    Ok(
                                        EventV::Error {
                                            object_id,
                                            code,
                                            message: decode_utf8(content),
                                        },
                                    )
                                } else {
                                    Err(Error::Utf8)
                                }
                            }
                        },
                        Err(e) => Err(e),
                    },
                    Err(e) => Err(e),
                }
            } else if opcode == 1 {
                match spec_decode_u32(payload, 0) {
                    Ok((id, _p1)) => Ok(EventV::DeleteId { id }),
                    Err(e) => Err(e),
                }
            } else {
                Ok(EventV::Other)
            }
        },
        Some(ObjectKind::Registry) => {
            if opcode == 0 {
                match spec_decode_u32(payload, 0) {
                    Ok((id, p1)) => {
                        if p1 + 4 > payload.len() {
                            Err(Error::UnexpectedEndOfBuffer)
                        } else {
                            let content = spec_str_content(payload, p1);
                            if valid_utf8(content) {
                                let p2 = spec_str_end(payload, p1);
                                match spec_decode_u32(payload, p2) {
                                    Ok((version, _p3)) => Ok(
                                        EventV::Interface { id, name: decode_utf8(content), version },
                                    ),
                                    Err(e) => Err(e),
                                }
                            } else {
                                Err(Error::Utf8)
                            }
                        }
                    },
                    Err(e) => Err(e),
                }
            } else {
                Ok(EventV::Other)
            }
        },
        Some(ObjectKind::Callback) => {
            if opcode == 0 {
                match spec_decode_u32(payload, 0) {
                    Ok((callback_data, _p1)) => Ok(EventV::Callback { callback_data }),
                    Err(e) => Err(e),
                }
            } else {
                Ok(EventV::Other)
            }
        },
        None => Ok(EventV::Other),
    }
}

impl Event {
    /// Parse one event's payload, classified by the object's decoder kind
    /// from the table and by the opcode.
    pub fn parse(kind: Option<ObjectKind>, opcode: u16, payload: &[u8]) -> (r: Result<Event, Error>)
        ensures
            r is Ok ==> spec_parse_event(kind, opcode, payload@) is Ok && r->Ok_0@
                == spec_parse_event(kind, opcode, payload@)->Ok_0,
            r is Err ==> spec_parse_event(kind, opcode, payload@) == Err::<EventV, Error>(
                r->Err_0,
            ),
    {
        match kind {
            Some(ObjectKind::Display) => {
                if opcode == 0 {
                    let (object_id, p1) = match <u32 as Argument>::decode(payload, 0) {
                        Ok(v) => v,
                        Err(e) => {
                            return Err(e);
                        },
                    };
                    let (code, p2) = match <u32 as Argument>::decode(payload, p1) {
                        Ok(v) => v,
                        Err(e) => {
                            return Err(e);
                        },
                    };
                    let (message, _p3) = match <String as Argument>::decode(payload, p2) {
                        Ok(v) => v,
                        Err(e) => {
                            return Err(e);
                        },
                    };
                    Ok(Event::Error { object_id, code, message })
                } else if opcode == 1 {
                    match <u32 as Argument>::decode(payload, 0) {
                        Ok((id, _p1)) => Ok(Event::DeleteId { id }),
                        Err(e) => Err(e),
                    }
                } else {
                    Ok(Event::Other)
                }
            },
            Some(ObjectKind::Registry) => {
                if opcode == 0 {
                    let (id, p1) = match <u32 as Argument>::decode(payload, 0) {
                        Ok(v) => v,
                        Err(e) => {
                            return Err(e);
                        },
                    };
                    let (name, p2) = match <String as Argument>::decode(payload, p1) {
                        Ok(v) => v,
                        Err(e) => {
                            return Err(e);
                        },
                    };
                    let (version, _p3) = match <u32 as Argument>::decode(payload, p2) {
                        Ok(v) => v,
                        Err(e) => {
                            return Err(e);
                        },
                    };
                    Ok(Event::Interface { id, name, version })
                } else {
                    Ok(Event::Other)
                }
            },
            Some(ObjectKind::Callback) => {
                if opcode == 0 {
                    match <u32 as Argument>::decode(payload, 0) {
                        Ok((callback_data, _p1)) => Ok(Event::Callback { callback_data }),
                        Err(e) => Err(e),
                    }
                } else {
                    Ok(Event::Other)
                }
            },
            None => Ok(Event::Other),
        }
    }

    /// The global announcement carried by this event, if it is one.
    pub fn get_global(&self) -> (r: Option<(u32, String, u32)>)
        ensures
            r is Some <==> self@ is Interface,
            r matches Some(g) ==> g.0 == self@->Interface_id && g.1@ == self@->Interface_name
                && g.2 == self@->Interface_version,
    {
        match self {
            Event::Interface { id, name, version } => Some((*id, name.clone(), *version)),
            _ => None,
        }
    }
}

/// One parsed frame: its header and the typed event it carries.
#[derive(Debug)]
pub struct EventMessage {
    pub header: Header,
    pub payload: Event,
}

/// What parsing one frame at `pos` yields: the header, the typed event, and
/// the position of the next frame.  A size below 8 or off the 4-byte grid is
/// structurally malformed and rejected, never guessed at.
pub open spec fn spec_parse_message(data: Seq<u8>, pos: int, m: Map<u32, ObjectKind>) -> Result<
    ((Header, EventV), int),
    Error,
> {
    match spec_decode_u32(data, pos) {
        Ok((oid, p1)) => match spec_decode_u16(data, p1) {
            Ok((opcode, p2)) => match spec_decode_u16(data, p2) {
                Ok((size, _p3)) => {
                    if size < 8 || size % 4 != 0 {
                        Err(Error::ParseError)
                    } else if pos + size > data.len() {
                        Err(Error::UnexpectedEndOfBuffer)
                    } else {
                        let kind = if m.dom().contains(oid) {
                            Some(m[oid])
                        } else {
                            None::<ObjectKind>
                        };
                        match spec_parse_event(kind, opcode, data.subrange(pos + 8, pos + size)) {
                            Ok(ev) => Ok(
                                ((Header { opcode, object_id: Object(oid), size }, ev), pos + size),
                            ),
                            Err(e) => Err(e),
                        }
                    }
                },
                Err(e) => Err(e),
            },
            Err(e) => Err(e),
        },
        Err(e) => Err(e),
    }
}

/// What demultiplexing a buffer from `pos` on yields: the parsed frames and
/// the unconsumed tail (empty, or one partial trailing frame to be prefixed
/// to the next read).
pub open spec fn spec_demux_at(data: Seq<u8>, pos: int, m: Map<u32, ObjectKind>) -> Result<
    (Seq<(Header, EventV)>, Seq<u8>),
    Error,
>
    decreases data.len() - pos,
{
    if !(0 <= pos <= data.len()) {
        Ok((Seq::empty(), Seq::empty()))
    } else if data.len() - pos < 8 {
        Ok((Seq::empty(), data.skip(pos)))
    } else {
        match spec_decode_u16(data, pos + 6) {
            Ok((size, _)) => {
                if size < 8 || size % 4 != 0 {
                    Err(Error::ParseError)
                } else if pos + size > data.len() {
                    Ok((Seq::empty(), data.skip(pos)))
                } else {
                    match spec_parse_message(data, pos, m) {
                        Ok((mv, _end)) => match spec_demux_at(data, pos + size, m) {
                            Ok((rest, rem)) => Ok((seq![mv] + rest, rem)),
                            Err(e) => Err(e),
                        },
                        Err(e) => Err(e),
                    }
                }
            },
            Err(e) => Err(e),
        }
    }
}

/// What demultiplexing a whole buffer yields.
pub open spec fn spec_demux(data: Seq<u8>, m: Map<u32, ObjectKind>) -> Result<
    (Seq<(Header, EventV)>, Seq<u8>),
    Error,
> {
    spec_demux_at(data, 0, m)
}

impl EventMessage {
    /// Parse one frame at `pos`: header, then the payload cut to the size the
    /// header declares and classified through the table.
    pub fn parse(data: &[u8], pos: usize, table: &ObjectTable) -> (r: Result<
        (EventMessage, usize),
        Error,
    >)
        requires
            pos <= data@.len(),
        ensures
            r matches Ok(v) ==> spec_parse_message(data@, pos as int, table@) matches Ok(sv)
                && v.0.header == sv.0.0 && v.0.payload@ == sv.0.1 && v.1 == sv.1,
            r is Err ==> spec_parse_message(data@, pos as int, table@) == Err::<
                ((Header, EventV), int),
                Error,
            >(r->Err_0),
    {
        let (object_id, p1) = match <u32 as Argument>::decode(data, pos) {
            Ok(v) => v,
            Err(e) => {
                return Err(e);
            },
        };
        let (opcode, p2) = match <u16 as Argument>::decode(data, p1) {
            Ok(v) => v,
            Err(e) => {
                return Err(e);
            },
        };
        let (message_size, _p3) = match <u16 as Argument>::decode(data, p2) {
            Ok(v) => v,
            Err(e) => {
                return Err(e);
            },
        };
        if message_size < 8 || message_size % 4 != 0 {
            return Err(Error::ParseError);
        }
        let size = message_size as usize;
        if size > data.len() - pos {
            return Err(Error::UnexpectedEndOfBuffer);
        }
        let header = Header::new(Object::new(object_id), opcode, message_size);
        let payload_slice = vstd::slice::slice_subrange(data, pos + 8, pos + size);
        let kind = table.lookup(object_id);
        let payload = match Event::parse(kind, opcode, payload_slice) {
            Ok(ev) => ev,
            Err(e) => {
                return Err(e);
            },
        };
        Ok((EventMessage { header, payload }, pos + size))
    }

    /// Cut a received buffer into complete frames and classify each one.  A
    /// partial trailing frame (fewer than 8 bytes, or a payload shorter than
    /// the declared size) is returned as the remainder, to be prefixed to the
    /// next read; a malformed recognized frame is a hard error.
    pub fn parse_messages(buffer: &[u8], table: &ObjectTable) -> (r: Result<
        (Vec<EventMessage>, Vec<u8>),
        Error,
    >)
        ensures
            r matches Ok(v) ==> spec_demux(buffer@, table@) matches Ok(sv) && v.0@.len()
                == sv.0.len() && (forall|i: int|
                0 <= i < sv.0.len() ==> v.0@[i].header == sv.0[i].0 && v.0@[i].payload@
                    == sv.0[i].1) && v.1@ == sv.1,
            r is Err ==> spec_demux(buffer@, table@) == Err::<
                (Seq<(Header, EventV)>, Seq<u8>),
                Error,
            >(r->Err_0),
    {
        let ghost m = table@;
        let mut messages: Vec<EventMessage> = Vec::new();
        let mut off: usize = 0;
        let ghost mut gmsgs: Seq<(Header, EventV)> = Seq::empty();
        loop
            invariant_except_break
                off <= buffer@.len(),
                messages@.len() == gmsgs.len(),
                forall|i: int|
                    0 <= i < gmsgs.len() ==> messages@[i].header == gmsgs[i].0
                        && messages@[i].payload@ == gmsgs[i].1,
                table@ == m,
                match spec_demux_at(buffer@, off as int, m) {
                    Ok(t) => spec_demux(buffer@, m) == Ok::<
                        (Seq<(Header, EventV)>, Seq<u8>),
                        Error,
                    >((gmsgs + t.0, t.1)),
                    Err(e) => spec_demux(buffer@, m) == Err::<
                        (Seq<(Header, EventV)>, Seq<u8>),
                        Error,
                    >(e),
                },
            ensures
                off <= buffer@.len(),
                messages@.len() == gmsgs.len(),
                forall|i: int|
                    0 <= i < gmsgs.len() ==> messages@[i].header == gmsgs[i].0
                        && messages@[i].payload@ == gmsgs[i].1,
                spec_demux(buffer@, m) == Ok::<(Seq<(Header, EventV)>, Seq<u8>), Error>(
                    (gmsgs, buffer@.skip(off as int)),
                ),
            decreases buffer@.len() - off,
        {
            if buffer.len() - off < 8 {
                proof {
                    assert(gmsgs + Seq::<(Header, EventV)>::empty() =~= gmsgs);
                }
                break;
            }
            let (message_size, _) = match <u16 as Argument>::decode(buffer, off + 6) {
                Ok(v) => v,
                Err(e) => {
                    return Err(e);
                },
            };
            if message_size < 8 || message_size % 4 != 0 {
                return Err(Error::ParseError);
            }
            let size = message_size as usize;
            if size > buffer.len() - off {
                proof {
                    assert(gmsgs + Seq::<(Header, EventV)>::empty() =~= gmsgs);
                }
                break;
            }
            let (msg, next) = match Self::parse(buffer, off, table) {
                Ok(v) => v,
                Err(e) => {
                    return Err(e);
                },
            };
            messages.push(msg);
            proof {
                let mv = spec_parse_message(buffer@, off as int, m)->Ok_0.0;
                let old_gmsgs = gmsgs;
                gmsgs = gmsgs.push(mv);
                match spec_demux_at(buffer@, off as int + size as int, m) {
                    Ok(t) => {
                        assert(old_gmsgs + (seq![mv] + t.0) =~= gmsgs + t.0);
                    },
                    Err(_e) => {},
                }
            }
            off = next;
        }
        let rem_slice = vstd::slice::slice_subrange(buffer, off, buffer.len());
        let remainder = vstd::slice::slice_to_vec(rem_slice);
        proof {
            assert(remainder@ =~= buffer@.skip(off as int));
        }
        Ok((messages, remainder))
    }

    /// Whether this frame announces a global.
    pub fn is_global(&self) -> (r: bool)
        ensures
            r == (self.payload@ is Interface),
    {
        match &self.payload {
            Event::Interface { id: _, name: _, version: _ } => true,
            _ => false,
        }
    }

    /// Whether this frame is a callback's done event.
    pub fn is_callback_done(&self) -> (r: bool)
        ensures
            r == (self.payload@ is Callback),
    {
        match &self.payload {
            Event::Callback { callback_data: _ } => true,
            _ => false,
        }
    }
}

/// The payload bytes from which a registered event is decoded: the wire
/// forms of its arguments in order.
pub open spec fn event_payload_wire(e: EventV) -> Seq<u8> {
    match e {
        EventV::Error { object_id, code, message } => spec_u32_to_le_bytes(object_id)
            + spec_u32_to_le_bytes(code) + str_wire(encode_utf8(message)),
        EventV::DeleteId { id } => spec_u32_to_le_bytes(id),
        EventV::Interface { id, name, version } => spec_u32_to_le_bytes(id) + str_wire(
            encode_utf8(name),
        ) + spec_u32_to_le_bytes(version),
        EventV::Callback { callback_data } => spec_u32_to_le_bytes(callback_data),
        EventV::Other => Seq::empty(),
    }
}

/// The (decoder kind, opcode) pair under which an event is registered, or
/// None for the unhandled classification.
pub open spec fn event_kind_opcode(e: EventV) -> Option<(ObjectKind, u16)> {
    match e {
        EventV::Error { .. } => Some((ObjectKind::Display, 0u16)),
        EventV::DeleteId { .. } => Some((ObjectKind::Display, 1u16)),
        EventV::Interface { .. } => Some((ObjectKind::Registry, 0u16)),
        EventV::Callback { .. } => Some((ObjectKind::Callback, 0u16)),
        EventV::Other => None::<(ObjectKind, u16)>,
    }
}

/// The event's strings can stand on the wire: no NUL characters, which
/// the wire uses as the string terminator.
pub open spec fn event_strings_ok(e: EventV) -> bool {
    match e {
        EventV::Error { message, .. } => !message.contains('\0'),
        EventV::Interface { name, .. } => !name.contains('\0'),
        _ => true,
    }
}

/// Law: a well-formed frame assembled from a header and an event's own
/// payload wire form is cut and classified back to exactly that event by
/// the demultiplexer, when the object id is registered under the event's
/// decoder kind, with nothing left over.
pub proof fn lemma_demux_round_trip(e: EventV, oid: u32, m: Map<u32, ObjectKind>)
    requires
        event_kind_opcode(e) is Some,
        m.dom().contains(oid),
        m[oid] == event_kind_opcode(e)->Some_0.0,
        event_strings_ok(e),
        8 + event_payload_wire(e).len() <= 0xFFFF,
    ensures
        ({
            let h = (Header {
                opcode: event_kind_opcode(e)->Some_0.1,
                object_id: Object(oid),
                size: (8 + event_payload_wire(e).len()) as u16,
            });
            spec_demux(header_wire(h) + event_payload_wire(e), m) == Ok::<
                (Seq<(Header, EventV)>, Seq<u8>),
                Error,
            >((seq![(h, e)], Seq::<u8>::empty()))
        }),
{
    lemma_auto_spec_u32_to_from_le_bytes();
    lemma_auto_spec_u16_to_from_le_bytes();
    broadcast use encode_utf8_valid_utf8, encode_utf8_decode_utf8;

    let payload = event_payload_wire(e);
    let plen = payload.len() as int;
    let opcode = event_kind_opcode(e)->Some_0.1;
    let size_u16 = (8 + payload.len()) as u16;
    let h = Header { opcode, object_id: Object(oid), size: size_u16 };
    let data = header_wire(h) + payload;
    assert(data.len() == 8 + plen);
    match e {
        EventV::Error { object_id, code, message } => {
            let b = encode_utf8(message);
            lemma_str_wire_len(b);
            lemma_mod4_shift(8, str_wire(b).len() as int);
        },
        EventV::Interface { id, name, version } => {
            let b = encode_utf8(name);
            lemma_str_wire_len(b);
            lemma_mod4_shift(8, str_wire(b).len() as int);
        },
        _ => {},
    }
    assert(plen % 4 == 0);
    lemma_mod4_shift(8, plen);
    assert((8 + plen) % 4 == 0);
    assert(size_u16 % 4 == 0 && size_u16 == 8 + plen);
    assert(data.subrange(0, 4) =~= spec_u32_to_le_bytes(oid));
    assert(data.subrange(4, 6) =~= spec_u16_to_le_bytes(opcode));
    assert(data.subrange(6, 8) =~= spec_u16_to_le_bytes(size_u16));
    let frame = data.subrange(8, 8 + plen);
    assert(frame =~= payload);
    match e {
        EventV::Error { object_id, code, message } => {
            let b = encode_utf8(message);
            let wlen = str_wire(b).len() as int;
            lemma_encode_utf8_no_nul(message);
            assert(b.len() + 9 <= 0xFFFF_FFFF);
            assert(payload.subrange(0, 4) =~= spec_u32_to_le_bytes(object_id));
            assert(payload.subrange(4, 8) =~= spec_u32_to_le_bytes(code));
            assert(payload.subrange(8, 8 + wlen) =~= str_wire(b));
            lemma_str_wire_decode(payload, 8, b);
            assert(spec_parse_event(Some(ObjectKind::Display), 0u16, payload) == Ok::<
                EventV,
                Error,
            >(e));
        },
        EventV::DeleteId { id } => {
            assert(payload.subrange(0, 4) =~= spec_u32_to_le_bytes(id));
        },
        EventV::Interface { id, name, version } => {
            let b = encode_utf8(name);
            let wlen = str_wire(b).len() as int;
            lemma_encode_utf8_no_nul(name);
            assert(b.len() + 9 <= 0xFFFF_FFFF);
            assert(payload.subrange(0, 4) =~= spec_u32_to_le_bytes(id));
            assert(payload.subrange(4, 4 + wlen) =~= str_wire(b));
            lemma_str_wire_decode(payload, 4, b);
            assert(spec_str_end(payload, 4) == 4 + wlen);
            assert(payload.subrange(4 + wlen, 4 + wlen + 4) =~= spec_u32_to_le_bytes(version));
            assert(spec_parse_event(Some(ObjectKind::Registry), 0u16, payload) == Ok::<
                EventV,
                Error,
            >(e));
        },
        EventV::Callback { callback_data } => {
            assert(payload.subrange(0, 4) =~= spec_u32_to_le_bytes(callback_data));
        },
        EventV::Other => {},
    }
    assert(spec_parse_message(data, 0, m) == Ok::<((Header, EventV), int), Error>(
        ((h, e), 8 + plen),
    ));
    assert(spec_decode_u16(data, 6) == Ok::<(u16, int), Error>((size_u16, 8)));
    assert(data.skip(8 + plen) =~= Seq::<u8>::empty());
    assert(spec_demux_at(data, 8 + plen, m) == Ok::<(Seq<(Header, EventV)>, Seq<u8>), Error>(
        (Seq::empty(), Seq::<u8>::empty()),
    ));
    assert(seq![(h, e)] + Seq::<(Header, EventV)>::empty() =~= seq![(h, e)]);
    assert(spec_demux_at(data, 0, m) == Ok::<(Seq<(Header, EventV)>, Seq<u8>), Error>(
        (seq![(h, e)], Seq::<u8>::empty()),
    ));
}

} // verus!
