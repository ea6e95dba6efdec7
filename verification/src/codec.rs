//! Wire codec: lossless, alignment-correct transformation between wire bytes
//! and typed argument values.
//!
//! Every value on the wire is little-endian.  Strings are encoded as a 4-byte
//! length field (byte length + 1), the bytes themselves, a NUL terminator and
//! zero padding up to the next 4-byte boundary.  On decode the length field is
//! read but recomputed from the NUL terminator, matching the protocol's actual
//! on-wire convention.

use vstd::prelude::*;
use vstd::bytes::*;
use vstd::utf8::*;

verus! {

/// Failure of decoding or of a protocol-level operation.
#[derive(Debug, Clone, Copy, PartialEq, Eq, Structural)]
pub enum Error {
    /// A frame or argument is structurally malformed.
    ParseError,
    /// An I/O failure reported by the caller who owns the transport.
    Io,
    /// A string argument is not valid UTF-8.
    Utf8,
    /// Fewer bytes remain than the argument needs.
    UnexpectedEndOfBuffer,
    /// An argument value cannot be represented on the wire.
    InvalidArgument,
    /// The compositor never advertised the requested interface.
    UnsupportedInterface,
    /// A request was issued against an object that was never created.
    NotBound,
}

pub type WaylandResult<T> = Result<T, Error>;

/// Zero padding needed to grow a buffer of length `n` to a 4-byte boundary.
pub open spec fn pad4(n: int) -> int {
    if n % 4 == 0 {
        0
    } else {
        4 - n % 4
    }
}

/// Position of the first NUL byte at or after `pos`, or the end of the buffer
/// if there is none.
pub open spec fn scan_nul(data: Seq<u8>, pos: int) -> int
    decreases data.len() - pos,
{
    if pos < 0 || pos >= data.len() {
        data.len() as int
    } else if data[pos] == 0 {
        pos
    } else {
        scan_nul(data, pos + 1)
    }
}

/// What decoding an unsigned 32-bit value at `pos` yields.
pub open spec fn spec_decode_u32(data: Seq<u8>, pos: int) -> Result<(u32, int), Error> {
    if pos + 4 <= data.len() {
        Ok((spec_u32_from_le_bytes(data.subrange(pos, pos + 4)), pos + 4))
    } else {
        Err(Error::UnexpectedEndOfBuffer)
    }
}

/// What decoding an unsigned 16-bit value at `pos` yields.
pub open spec fn spec_decode_u16(data: Seq<u8>, pos: int) -> Result<(u16, int), Error> {
    if pos + 2 <= data.len() {
        Ok((spec_u16_from_le_bytes(data.subrange(pos, pos + 2)), pos + 2))
    } else {
        Err(Error::UnexpectedEndOfBuffer)
    }
}

/// The raw bytes of the string argument starting at `pos`: everything between
/// the length field and the NUL terminator (or the end of the buffer).
pub open spec fn spec_str_content(data: Seq<u8>, pos: int) -> Seq<u8> {
    data.subrange(pos + 4, scan_nul(data, pos + 4))
}

/// The cursor position after decoding the string argument at `pos`: one past
/// the NUL terminator, rounded up to a 4-byte boundary, capped at the end of
/// the buffer.
pub open spec fn spec_str_end(data: Seq<u8>, pos: int) -> int {
    let nul = scan_nul(data, pos + 4);
    let after = if nul < data.len() {
        nul + 1
    } else {
        nul
    };
    let padded = after + pad4(after);
    if padded > data.len() {
        data.len() as int
    } else {
        padded
    }
}

/// The wire form of a string whose UTF-8 bytes are `b`: length field, bytes,
/// NUL terminator, zero padding to a 4-byte boundary.
pub open spec fn str_wire(b: Seq<u8>) -> Seq<u8> {
    spec_u32_to_le_bytes((b.len() + 1) as u32) + b + seq![0u8] + Seq::new(
        pad4(b.len() as int + 5) as nat,
        |i: int| 0u8,
    )
}

/// The wire form of a new-id argument: interface string, version, object id.
pub open spec fn new_id_wire(interface: Seq<u8>, version: u32, id: u32) -> Seq<u8> {
    str_wire(interface) + spec_u32_to_le_bytes(version) + spec_u32_to_le_bytes(id)
}

/// A typed wire argument: its byte representation, and decoding from a
/// buffer position.
pub trait Argument: Sized {
    /// The byte representation of this value on the wire.
    spec fn wire(&self) -> Seq<u8>;

    /// The value is small enough to encode (machine limits only).
    spec fn wire_ok(&self) -> bool;

    /// Exactly what `decode` returns when applied to `data` at `pos`.
    spec fn decodes_to(data: Seq<u8>, pos: int, r: Result<(Self, usize), Error>) -> bool;

    /// Decode one value at `pos`, returning it with the next cursor position.
    fn decode(data: &[u8], pos: usize) -> (r: Result<(Self, usize), Error>)
        requires
            pos <= data@.len(),
        ensures
            Self::decodes_to(data@, pos as int, r),
    ;

    /// Encode this value as fresh wire bytes.  Encoding never fails for
    /// well-formed in-memory values.
    fn encode(&self) -> (r: Result<Vec<u8>, Error>)
        requires
            self.wire_ok(),
        ensures
            r is Ok,
            r->Ok_0@ == self.wire(),
    ;

    /// Append this value's wire bytes to `buffer`.
    fn encode_extend(&self, buffer: Vec<u8>) -> (r: Result<Vec<u8>, Error>)
        requires
            self.wire_ok(),
        ensures
            r is Ok,
            r->Ok_0@ == buffer@ + self.wire(),
    ;
}

impl Argument for u32 {
    open spec fn wire(&self) -> Seq<u8> {
        spec_u32_to_le_bytes(*self)
    }

    open spec fn wire_ok(&self) -> bool {
        true
    }

    open spec fn decodes_to(data: Seq<u8>, pos: int, r: Result<(u32, usize), Error>) -> bool {
        match spec_decode_u32(data, pos) {
            Ok(v) => r is Ok && r->Ok_0.0 == v.0 && r->Ok_0.1 == v.1,
            Err(e) => r == Err::<(u32, usize), Error>(e),
        }
    }

    fn decode(data: &[u8], pos: usize) -> (r: Result<(Self, usize), Error>) {
        if data.len() - pos < 4 {
            Err(Error::UnexpectedEndOfBuffer)
        } else {
            let bytes = vstd::slice::slice_subrange(data, pos, pos + 4);
            Ok((u32_from_le_bytes(bytes), pos + 4))
        }
    }

    fn encode(&self) -> (r: Result<Vec<u8>, Error>) {
        Ok(u32_to_le_bytes(*self))
    }

    fn encode_extend(&self, buffer: Vec<u8>) -> (r: Result<Vec<u8>, Error>) {
        let mut buffer = buffer;
        let mut tail = u32_to_le_bytes(*self);
        buffer.append(&mut tail);
        Ok(buffer)
    }
}

impl Argument for u16 {
    open spec fn wire(&self) -> Seq<u8> {
        spec_u16_to_le_bytes(*self)
    }

    open spec fn wire_ok(&self) -> bool {
        true
    }

    open spec fn decodes_to(data: Seq<u8>, pos: int, r: Result<(u16, usize), Error>) -> bool {
        match spec_decode_u16(data, pos) {
            Ok(v) => r is Ok && r->Ok_0.0 == v.0 && r->Ok_0.1 == v.1,
            Err(e) => r == Err::<(u16, usize), Error>(e),
        }
    }

    fn decode(data: &[u8], pos: usize) -> (r: Result<(Self, usize), Error>) {
        if data.len() - pos < 2 {
            Err(Error::UnexpectedEndOfBuffer)
        } else {
            let bytes = vstd::slice::slice_subrange(data, pos, pos + 2);
            Ok((u16_from_le_bytes(bytes), pos + 2))
        }
    }

    fn encode(&self) -> (r: Result<Vec<u8>, Error>) {
        Ok(u16_to_le_bytes(*self))
    }

    fn encode_extend(&self, buffer: Vec<u8>) -> (r: Result<Vec<u8>, Error>) {
        let mut buffer = buffer;
        let mut tail = u16_to_le_bytes(*self);
        buffer.append(&mut tail);
        Ok(buffer)
    }
}

/// An opaque non-zero identifier naming a protocol object; zero denotes
/// "no object" in argument positions.
#[derive(Debug, Clone, Copy, PartialEq, Eq, Structural)]
pub struct Object(pub u32);

impl Object {
    /// The raw 32-bit identifier.
    pub fn inner(&self) -> (r: u32)
        ensures
            r == self.0,
    {
        self.0
    }

    pub fn new(id: u32) -> (r: Self)
        ensures
            r.0 == id,
    {
        Object(id)
    }

    /// The wire length of an object reference.
    pub fn len(&self) -> (r: usize)
        ensures
            r == 4,
            r == self.wire().len(),
    {
        proof {
            lemma_auto_spec_u32_to_from_le_bytes();
        }
        4
    }
}

impl Argument for Object {
    open spec fn wire(&self) -> Seq<u8> {
        spec_u32_to_le_bytes(self.0)
    }

    open spec fn wire_ok(&self) -> bool {
        true
    }

    open spec fn decodes_to(data: Seq<u8>, pos: int, r: Result<(Object, usize), Error>) -> bool {
        match spec_decode_u32(data, pos) {
            Ok(v) => r is Ok && r->Ok_0.0 == Object(v.0) && r->Ok_0.1 == v.1,
            Err(e) => r == Err::<(Object, usize), Error>(e),
        }
    }

    fn decode(data: &[u8], pos: usize) -> (r: Result<(Self, usize), Error>) {
        match u32::decode(data, pos) {
            Ok((v, end)) => Ok((Object(v), end)),
            Err(e) => Err(e),
        }
    }

    fn encode(&self) -> (r: Result<Vec<u8>, Error>) {
        Ok(u32_to_le_bytes(self.0))
    }

    fn encode_extend(&self, buffer: Vec<u8>) -> (r: Result<Vec<u8>, Error>) {
        let mut buffer = buffer;
        let mut tail = u32_to_le_bytes(self.0);
        buffer.append(&mut tail);
        Ok(buffer)
    }
}

/// Relies on std's String::from_utf8: it returns Ok exactly when the bytes
/// are valid UTF-8, and then the string's characters are the UTF-8 decoding
/// of those bytes.
#[verifier::external_body]
fn bytes_to_string(bytes: Vec<u8>) -> (r: Result<String, Error>)
    ensures
        valid_utf8(bytes@) ==> r is Ok,
        !valid_utf8(bytes@) ==> r is Err,
        r is Ok ==> r->Ok_0@ == decode_utf8(bytes@),
        r is Err ==> r->Err_0 == Error::Utf8,
{
    match String::from_utf8(bytes) {
        Ok(s) => Ok(s),
        Err(_) => Err(Error::Utf8),
    }
}

impl Argument for String {
    open spec fn wire(&self) -> Seq<u8> {
        str_wire(encode_utf8(self@))
    }

    open spec fn wire_ok(&self) -> bool {
        encode_utf8(self@).len() + 9 <= 0xFFFF_FFFF
    }

    open spec fn decodes_to(data: Seq<u8>, pos: int, r: Result<(String, usize), Error>) -> bool {
        if pos + 4 > data.len() {
            r == Err::<(String, usize), Error>(Error::UnexpectedEndOfBuffer)
        } else {
            let content = spec_str_content(data, pos);
            if valid_utf8(content) {
                &&& r is Ok
                &&& r->Ok_0.0@ == decode_utf8(content)
                &&& r->Ok_0.1 == spec_str_end(data, pos)
            } else {
                r == Err::<(String, usize), Error>(Error::Utf8)
            }
        }
    }

    fn decode(data: &[u8], pos: usize) -> (r: Result<(Self, usize), Error>) {
        let start = match <u32 as Argument>::decode(data, pos) {
            Ok((_len_field, p)) => p,
            Err(e) => {
                return Err(e);
            },
        };
        let mut p = start;
        let mut content: Vec<u8> = Vec::new();
        while p < data.len() && *vstd::slice::slice_index_get(data, p) != 0
            invariant
                start <= p <= data@.len(),
                content@ == data@.subrange(start as int, p as int),
                forall|i: int| start <= i < p ==> data@[i] != 0,
            decreases data@.len() - p,
        {
            let b = *vstd::slice::slice_index_get(data, p);
            content.push(b);
            p = p + 1;
            proof {
                assert(content@ =~= data@.subrange(start as int, p as int));
            }
        }
        proof {
            lemma_scan_nul_found(data@, start as int, p as int);
            assert(content@ == spec_str_content(data@, pos as int));
        }
        if p < data.len() {
            p = p + 1;
        }
        let ghost after = p as int;
        let rem = p % 4;
        let pad = if rem == 0 {
            0
        } else {
            4 - rem
        };
        proof {
            assert(pad == pad4(after));
        }
        let end = if data.len() - p < pad {
            data.len()
        } else {
            p + pad
        };
        proof {
            assert(end as int == spec_str_end(data@, pos as int));
        }
        match bytes_to_string(content) {
            Ok(s) => Ok((s, end)),
            Err(e) => Err(e),
        }
    }

    fn encode(&self) -> (r: Result<Vec<u8>, Error>) {
        let n = self.as_str().len();
        let mut buffer = u32_to_le_bytes((n as u32) + 1);
        let mut content = self.as_str().as_bytes_vec();
        buffer.append(&mut content);
        buffer.push(0);
        let ghost base = buffer@;
        let rem = buffer.len() % 4;
        let pad = if rem == 0 {
            0usize
        } else {
            4 - rem
        };
        let mut i: usize = 0;
        while i < pad
            invariant
                i <= pad,
                pad == pad4(base.len() as int),
                buffer@ == base + Seq::new(i as nat, |j: int| 0u8),
            decreases pad - i,
        {
            buffer.push(0);
            i = i + 1;
            proof {
                assert(buffer@ =~= base + Seq::new(i as nat, |j: int| 0u8));
            }
        }
        proof {
            assert(buffer@ =~= self.wire());
        }
        Ok(buffer)
    }

    fn encode_extend(&self, buffer: Vec<u8>) -> (r: Result<Vec<u8>, Error>) {
        let mut buffer = buffer;
        let mut tail = match self.encode() {
            Ok(v) => v,
            Err(e) => {
                return Err(e);
            },
        };
        buffer.append(&mut tail);
        Ok(buffer)
    }
}

/// The compound argument of a request that asks the server to instantiate an
/// object: interface name, interface version, newly allocated object id.
#[derive(Debug, Clone)]
pub struct NewId(pub String, pub u32, pub Object);

impl NewId {
    pub fn new(interface: (String, u32), new_id: Object) -> (r: Self)
        ensures
            r.0@ == interface.0@,
            r.1 == interface.1,
            r.2 == new_id,
    {
        NewId(interface.0, interface.1, new_id)
    }

    /// The exact byte length of this argument's wire form: the string's
    /// length field, bytes, terminator and padding, plus the version and the
    /// object reference.
    pub fn len(&self) -> (r: usize)
        requires
            self.wire().len() <= usize::MAX,
        ensures
            r == self.wire().len(),
    {
        proof {
            lemma_auto_spec_u32_to_from_le_bytes();
            lemma_str_wire_len(encode_utf8(self.0@));
        }
        let bytes = self.0.as_str().as_bytes_vec();
        let n = bytes.len();
        let rem = (n + 5) % 4;
        let pad = if rem == 0 {
            0
        } else {
            4 - rem
        };
        n + 13 + pad
    }
}

impl Argument for NewId {
    open spec fn wire(&self) -> Seq<u8> {
        new_id_wire(encode_utf8(self.0@), self.1, self.2.0)
    }

    open spec fn wire_ok(&self) -> bool {
        self.0.wire_ok()
    }

    open spec fn decodes_to(data: Seq<u8>, pos: int, r: Result<(NewId, usize), Error>) -> bool {
        if pos + 4 > data.len() {
            r == Err::<(NewId, usize), Error>(Error::UnexpectedEndOfBuffer)
        } else {
            let content = spec_str_content(data, pos);
            if valid_utf8(content) {
                let p1 = spec_str_end(data, pos);
                match spec_decode_u32(data, p1) {
                    Ok((version, p2)) => match spec_decode_u32(data, p2) {
                        Ok((id, p3)) => {
                            &&& r is Ok
                            &&& r->Ok_0.0.0@ == decode_utf8(content)
                            &&& r->Ok_0.0.1 == version
                            &&& r->Ok_0.0.2 == Object(id)
                            &&& r->Ok_0.1 == p3
                        },
                        Err(e) => r == Err::<(NewId, usize), Error>(e),
                    },
                    Err(e) => r == Err::<(NewId, usize), Error>(e),
                }
            } else {
                r == Err::<(NewId, usize), Error>(Error::Utf8)
            }
        }
    }

    fn decode(data: &[u8], pos: usize) -> (r: Result<(Self, usize), Error>) {
        let (interface, p1) = match <String as Argument>::decode(data, pos) {
            Ok(v) => v,
            Err(e) => {
                return Err(e);
            },
        };
        let (version, p2) = match <u32 as Argument>::decode(data, p1) {
            Ok(v) => v,
            Err(e) => {
                return Err(e);
            },
        };
        let (new_id, p3) = match <Object as Argument>::decode(data, p2) {
            Ok(v) => v,
            Err(e) => {
                return Err(e);
            },
        };
        Ok((NewId(interface, version, new_id), p3))
    }

    fn encode(&self) -> (r: Result<Vec<u8>, Error>) {
        let buffer = match self.0.encode_extend(Vec::new()) {
            Ok(v) => v,
            Err(e) => {
                return Err(e);
            },
        };
        let buffer = match self.1.encode_extend(buffer) {
            Ok(v) => v,
            Err(e) => {
                return Err(e);
            },
        };
        let buffer = match self.2.encode_extend(buffer) {
            Ok(v) => v,
            Err(e) => {
                return Err(e);
            },
        };
        proof {
            assert(buffer@ =~= self.wire());
        }
        Ok(buffer)
    }

    fn encode_extend(&self, buffer: Vec<u8>) -> (r: Result<Vec<u8>, Error>) {
        let mut buffer = buffer;
        let mut tail = match self.encode() {
            Ok(v) => v,
            Err(e) => {
                return Err(e);
            },
        };
        buffer.append(&mut tail);
        Ok(buffer)
    }
}

/// Shifting by a multiple of four does not change a remainder modulo four.
pub(crate) proof fn lemma_mod4_shift(a: int, x: int)
    requires
        a % 4 == 0,
        a >= 0,
        x >= 0,
    ensures
        (a + x) % 4 == x % 4,
{
    vstd::arithmetic::div_mod::lemma_add_mod_noop(a, x, 4);
}

/// The UTF-8 encoding of a non-NUL scalar contains no zero byte.
proof fn lemma_encode_scalar_no_nul(v: u32)
    requires
        is_scalar(v),
        v != 0,
    ensures
        forall|i: int| 0 <= i < encode_scalar(v).len() ==> encode_scalar(v)[i] != 0,
{
    if has_width_1_encoding(v) {
        assert(v != 0 && v <= 0x7F ==> (v & 0x7F) as u8 != 0) by (bit_vector);
    } else if has_width_2_encoding(v) {
        assert(0xC0u8 | ((v >> 6) & 0x1F) as u8 != 0) by (bit_vector);
        assert(0x80u8 | (v & 0x3F) as u8 != 0) by (bit_vector);
    } else if has_width_3_encoding(v) {
        assert(0xE0u8 | ((v >> 12) & 0x0F) as u8 != 0) by (bit_vector);
        assert(0x80u8 | ((v >> 6) & 0x3F) as u8 != 0) by (bit_vector);
        assert(0x80u8 | (v & 0x3F) as u8 != 0) by (bit_vector);
    } else {
        assert(0xF0u8 | ((v >> 18) & 0x7) as u8 != 0) by (bit_vector);
        assert(0x80u8 | ((v >> 12) & 0x3F) as u8 != 0) by (bit_vector);
        assert(0x80u8 | ((v >> 6) & 0x3F) as u8 != 0) by (bit_vector);
        assert(0x80u8 | (v & 0x3F) as u8 != 0) by (bit_vector);
    }
}

/// The UTF-8 encoding of a string without NUL characters contains no zero
/// byte.
pub(crate) proof fn lemma_encode_utf8_no_nul(chars: Seq<char>)
    requires
        !chars.contains('\0'),
    ensures
        forall|i: int| 0 <= i < encode_utf8(chars).len() ==> encode_utf8(chars)[i] != 0,
    decreases chars.len(),
{
    if chars.len() > 0 {
        let c = chars[0];
        assert(c != '\0') by {
            if c == '\0' {
                assert(chars.contains('\0'));
            }
        }
        char_is_scalar(c);
        assert(c as u32 != 0) by {
            if c as u32 == 0 {
                char_u32_cast(c, 0u32);
                char_u32_cast('\0', '\0' as u32);
            }
        }
        lemma_encode_scalar_no_nul(c as u32);
        assert(!chars.drop_first().contains('\0')) by {
            if chars.drop_first().contains('\0') {
                let i = choose|i: int|
                    0 <= i < chars.drop_first().len() && chars.drop_first()[i] == '\0';
                assert(chars[i + 1] == '\0');
                assert(chars.contains('\0'));
            }
        }
        lemma_encode_utf8_no_nul(chars.drop_first());
        let e = encode_utf8(chars);
        let head = encode_scalar(c as u32);
        let tail = encode_utf8(chars.drop_first());
        assert(e == head + tail);
        assert forall|i: int| 0 <= i < e.len() implies e[i] != 0 by {
            if i < head.len() {
                assert(e[i] == head[i]);
            } else {
                assert(e[i] == tail[i - head.len()]);
            }
        }
    }
}

/// The length and alignment of a string's wire form.
pub proof fn lemma_str_wire_len(b: Seq<u8>)
    ensures
        str_wire(b).len() == 5 + b.len() + pad4(b.len() as int + 5),
        str_wire(b).len() % 4 == 0,
{
    lemma_auto_spec_u32_to_from_le_bytes();
}

/// Decoding a string argument laid down at a 4-byte-aligned position of a
/// larger buffer recovers exactly its content bytes and consumes exactly its
/// wire form.
pub(crate) proof fn lemma_str_wire_decode(data: Seq<u8>, pos: int, b: Seq<u8>)
    requires
        0 <= pos,
        pos % 4 == 0,
        b.len() + 9 <= 0xFFFF_FFFF,
        forall|i: int| 0 <= i < b.len() ==> b[i] != 0,
        pos + str_wire(b).len() <= data.len(),
        data.subrange(pos, pos + str_wire(b).len() as int) == str_wire(b),
    ensures
        spec_str_content(data, pos) == b,
        spec_str_end(data, pos) == pos + str_wire(b).len(),
{
    lemma_str_wire_len(b);
    let w = str_wire(b);
    let wlen = w.len() as int;
    assert forall|i: int| pos <= i < pos + wlen implies data[i] == w[i - pos] by {
        assert(data.subrange(pos, pos + wlen)[i - pos] == w[i - pos]);
    }
    let nul = pos + 4 + b.len() as int;
    assert(forall|i: int| 0 <= i < b.len() ==> w[4 + i] == b[i]);
    assert(w[4 + b.len() as int] == 0);
    assert(data[nul] == 0);
    lemma_scan_nul_found(data, pos + 4, nul);
    assert(spec_str_content(data, pos) =~= b);
    let after = nul + 1;
    lemma_mod4_shift(pos, b.len() as int + 5);
    assert(after + pad4(after) == pos + wlen) by {
        assert(after == pos + (b.len() as int + 5));
        assert(after % 4 == (b.len() as int + 5) % 4);
    }
}

/// Law: decoding an encoded string yields the original string and consumes
/// its whole wire form, whose length is a multiple of four.  Strings holding
/// a NUL character are excluded: NUL is the wire terminator.
pub proof fn lemma_string_round_trip(s: String, r: Result<(String, usize), Error>)
    requires
        s.wire_ok(),
        !s@.contains('\0'),
        <String as Argument>::decodes_to(s.wire(), 0, r),
    ensures
        r is Ok,
        r->Ok_0.0@ == s@,
        r->Ok_0.1 == s.wire().len(),
        s.wire().len() % 4 == 0,
{
    let b = encode_utf8(s@);
    lemma_encode_utf8_no_nul(s@);
    lemma_str_wire_len(b);
    assert(s.wire().subrange(0, s.wire().len() as int) =~= s.wire());
    lemma_str_wire_decode(s.wire(), 0, b);
    broadcast use encode_utf8_valid_utf8, encode_utf8_decode_utf8;

    assert(r->Ok_0.0@ == decode_utf8(b));
}

/// Law: decoding an encoded new-id argument yields the original (interface,
/// version, object id) triple and consumes its whole wire form.
pub proof fn lemma_new_id_round_trip(n: NewId, r: Result<(NewId, usize), Error>)
    requires
        n.wire_ok(),
        !n.0@.contains('\0'),
        NewId::decodes_to(n.wire(), 0, r),
    ensures
        r is Ok,
        r->Ok_0.0.0@ == n.0@,
        r->Ok_0.0.1 == n.1,
        r->Ok_0.0.2 == n.2,
        r->Ok_0.1 == n.wire().len(),
        n.wire().len() % 4 == 0,
{
    let b = encode_utf8(n.0@);
    let data = n.wire();
    let sw = str_wire(b);
    let swlen = sw.len() as int;
    lemma_encode_utf8_no_nul(n.0@);
    lemma_str_wire_len(b);
    lemma_auto_spec_u32_to_from_le_bytes();
    assert(data.subrange(0, swlen) =~= sw);
    lemma_str_wire_decode(data, 0, b);
    broadcast use encode_utf8_valid_utf8, encode_utf8_decode_utf8;

    assert(data.subrange(swlen, swlen + 4) =~= spec_u32_to_le_bytes(n.1));
    assert(data.subrange(swlen + 4, swlen + 8) =~= spec_u32_to_le_bytes(n.2.0));
}

/// `scan_nul` finds exactly the boundary `end` when everything before it is
/// non-NUL and `end` is a NUL byte or the end of the buffer.
proof fn lemma_scan_nul_found(data: Seq<u8>, start: int, end: int)
    requires
        0 <= start <= end <= data.len(),
        forall|i: int| start <= i < end ==> data[i] != 0,
        end == data.len() || data[end] == 0,
    ensures
        scan_nul(data, start) == end,
    decreases end - start,
{
    if start < end {
        lemma_scan_nul_found(data, start + 1, end);
    }
}

} // verus!
