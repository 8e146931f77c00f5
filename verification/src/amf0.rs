use core::time::Duration;

use vstd::prelude::*;
use vstd::utf8::{decode_utf8, encode_utf8, valid_utf8};

use crate::amf::Pair;
use crate::amf3::{amf3_bytes, amf3_decode, amf3_encodable, copy_opt_string, opt_chars, Amf3Model, Amf3Value};
use crate::bytes::{
    be16, be32, be64, read_u16, read_u32, read_u64, read_u8, read_utf8, u16_be, u32_be, u64_be,
    write_bytes, write_u16, write_u32, write_u64, write_u8,
};
use crate::error::{Error, ErrorKind};
use crate::float64::{nat_to_bits, Float64};
use crate::rtmp_timestamp::{duration_as_millis, duration_from_millis, duration_millis, duration_of_millis};

verus! {

/// Marker of a number.
pub const MARKER_NUMBER: u8 = 0x00;
/// Marker of a boolean.
pub const MARKER_BOOLEAN: u8 = 0x01;
/// Marker of a string of at most 65535 bytes.
pub const MARKER_STRING: u8 = 0x02;
/// Marker of an anonymous object.
pub const MARKER_OBJECT: u8 = 0x03;
/// Marker of a movie clip (not supported).
pub const MARKER_MOVIECLIP: u8 = 0x04;
/// Marker of `null`.
pub const MARKER_NULL: u8 = 0x05;
/// Marker of `undefined`.
pub const MARKER_UNDEFINED: u8 = 0x06;
/// Marker of a reference to an earlier complex value.
pub const MARKER_REFERENCE: u8 = 0x07;
/// Marker of an ECMA array.
pub const MARKER_ECMA_ARRAY: u8 = 0x08;
/// Marker that ends the members of an object.
pub const MARKER_OBJECT_END_MARKER: u8 = 0x09;
/// Marker of a strict array.
pub const MARKER_STRICT_ARRAY: u8 = 0x0A;
/// Marker of a date.
pub const MARKER_DATE: u8 = 0x0B;
/// Marker of a long string.
pub const MARKER_LONG_STRING: u8 = 0x0C;
/// Marker of an unsupported value.
pub const MARKER_UNSUPPORTED: u8 = 0x0D;
/// Marker of a record set (not supported).
pub const MARKER_RECORDSET: u8 = 0x0E;
/// Marker of an XML document.
pub const MARKER_XML_DOCUMENT: u8 = 0x0F;
/// Marker of a typed object.
pub const MARKER_TYPED_OBJECT: u8 = 0x10;
/// Marker of a switch to AMF3.
pub const MARKER_AVMPLUS_OBJECT: u8 = 0x11;

/// An AMF0 value.
#[derive(Debug, PartialEq)]
pub enum Amf0Value {
    /// A number.
    Number(Float64),
    /// A boolean.
    Boolean(bool),
    /// A string.
    String(String),
    /// An object.
    Object {
        /// The class name; `None` for an anonymous object.
        class_name: Option<String>,
        /// The members.
        entries: Vec<Pair<String, Amf0Value>>,
    },
    /// `null`.
    Null,
    /// `undefined`.
    Undefined,
    /// An ECMA array.
    EcmaArray {
        /// The members.
        entries: Vec<Pair<String, Amf0Value>>,
    },
    /// A strict array.
    Array {
        /// The entries.
        entries: Vec<Amf0Value>,
    },
    /// A date, as the time since the Unix epoch.
    Date {
        /// Time since the Unix epoch.
        unix_time: Duration,
    },
    /// An XML document.
    XmlDocument(String),
    /// An AMF3 value.
    AvmPlus(Amf3Value),
}

/// The mathematical value of an AMF0 value: strings as characters, numbers as bit
/// patterns, dates as durations.
pub enum Amf0Model {
    Number(u64),
    Boolean(bool),
    String(Seq<char>),
    Object { class_name: Option<Seq<char>>, entries: Seq<(Seq<char>, Amf0Model)> },
    Null,
    Undefined,
    EcmaArray { entries: Seq<(Seq<char>, Amf0Model)> },
    Array { entries: Seq<Amf0Model> },
    Date { unix_time: Duration },
    XmlDocument(Seq<char>),
    AvmPlus(Amf3Model),
}

/// The model of an AMF0 value.
pub open spec fn amf0_view(v: Amf0Value) -> Amf0Model
    decreases v,
{
    match v {
        Amf0Value::Number(n) => Amf0Model::Number(n.0),
        Amf0Value::Boolean(b) => Amf0Model::Boolean(b),
        Amf0Value::String(s) => Amf0Model::String(s@),
        Amf0Value::Object { class_name, entries } => Amf0Model::Object {
            class_name: opt_chars(class_name),
            entries: Seq::new(
                entries@.len(),
                |i: int|
                    if 0 <= i < entries@.len() {
                        (entries@[i].key@, amf0_view(entries@[i].value))
                    } else {
                        (Seq::<char>::empty(), Amf0Model::Null)
                    },
            ),
        },
        Amf0Value::Null => Amf0Model::Null,
        Amf0Value::Undefined => Amf0Model::Undefined,
        Amf0Value::EcmaArray { entries } => Amf0Model::EcmaArray {
            entries: Seq::new(
                entries@.len(),
                |i: int|
                    if 0 <= i < entries@.len() {
                        (entries@[i].key@, amf0_view(entries@[i].value))
                    } else {
                        (Seq::<char>::empty(), Amf0Model::Null)
                    },
            ),
        },
        Amf0Value::Array { entries } => Amf0Model::Array {
            entries: Seq::new(
                entries@.len(),
                |i: int|
                    if 0 <= i < entries@.len() {
                        amf0_view(entries@[i])
                    } else {
                        Amf0Model::Null
                    },
            ),
        },
        Amf0Value::Date { unix_time } => Amf0Model::Date { unix_time },
        Amf0Value::XmlDocument(s) => Amf0Model::XmlDocument(s@),
        Amf0Value::AvmPlus(v) => Amf0Model::AvmPlus(v@),
    }
}

impl View for Amf0Value {
    type V = Amf0Model;

    open spec fn view(&self) -> Amf0Model {
        amf0_view(*self)
    }
}

/// The models of each value.
pub open spec fn values0_view(v: Seq<Amf0Value>) -> Seq<Amf0Model> {
    Seq::new(v.len(), |i: int| v[i]@)
}

/// The models of each member.
pub open spec fn pairs0_view(v: Seq<Pair<String, Amf0Value>>) -> Seq<(Seq<char>, Amf0Model)> {
    Seq::new(v.len(), |i: int| (v[i].key@, v[i].value@))
}

// ---------------------------------------------------------------------------------------
// Encoding
// ---------------------------------------------------------------------------------------

/// The bytes of a string value: short form up to 65535 bytes, long form beyond.
pub open spec fn string0_bytes(s: Seq<char>) -> Seq<u8> {
    let b = encode_utf8(s);
    if b.len() <= 0xFFFF {
        seq![MARKER_STRING] + u16_be(b.len() as int) + b
    } else {
        seq![MARKER_LONG_STRING] + u32_be((b.len() as u32) as int) + b
    }
}

/// The bytes of a key: its length in 16 bits and its UTF-8 bytes.
pub open spec fn key0_bytes(s: Seq<char>) -> Seq<u8> {
    u16_be((encode_utf8(s).len() as u16) as int) + encode_utf8(s)
}

/// The bytes that end the members of an object.
pub open spec fn object_end_bytes() -> Seq<u8> {
    seq![0u8, 0u8, MARKER_OBJECT_END_MARKER]
}

/// The bytes of an AMF0 value.
pub open spec fn amf0_bytes(m: Amf0Model) -> Seq<u8>
    decreases m, 0int,
{
    match m {
        Amf0Model::Number(n) => seq![MARKER_NUMBER] + u64_be(n as int),
        Amf0Model::Boolean(b) => seq![MARKER_BOOLEAN, if b { 1u8 } else { 0u8 }],
        Amf0Model::String(s) => string0_bytes(s),
        Amf0Model::Object { class_name, entries } => match class_name {
            None => seq![MARKER_OBJECT] + amf0_pairs_bytes(entries, entries.len() as int)
                + object_end_bytes(),
            Some(c) => seq![MARKER_TYPED_OBJECT] + key0_bytes(c) + amf0_pairs_bytes(
                entries,
                entries.len() as int,
            ) + object_end_bytes(),
        },
        Amf0Model::Null => seq![MARKER_NULL],
        Amf0Model::Undefined => seq![MARKER_UNDEFINED],
        Amf0Model::EcmaArray { entries } => seq![MARKER_ECMA_ARRAY] + u32_be((entries.len() as u32) as int)
            + amf0_pairs_bytes(entries, entries.len() as int) + object_end_bytes(),
        Amf0Model::Array { entries } => seq![MARKER_STRICT_ARRAY] + u32_be((entries.len() as u32) as int)
            + amf0_seq_bytes(entries, entries.len() as int),
        Amf0Model::Date { unix_time } => seq![MARKER_DATE] + u64_be(
            nat_to_bits(duration_as_millis(unix_time) as nat) as int,
        ) + seq![0u8, 0u8],
        Amf0Model::XmlDocument(s) => seq![MARKER_XML_DOCUMENT] + u32_be((encode_utf8(s).len() as u32) as int)
            + encode_utf8(s),
        Amf0Model::AvmPlus(v) => seq![MARKER_AVMPLUS_OBJECT] + amf3_bytes(v),
    }
}

/// The bytes of the first `n` values, one after the other.
pub open spec fn amf0_seq_bytes(s: Seq<Amf0Model>, n: int) -> Seq<u8>
    decreases s, n,
{
    if n <= 0 || n > s.len() {
        Seq::empty()
    } else {
        amf0_seq_bytes(s, n - 1) + amf0_bytes(s[n - 1])
    }
}

/// The bytes of the first `n` members, keys and values, without the end marker.
pub open spec fn amf0_pairs_bytes(s: Seq<(Seq<char>, Amf0Model)>, n: int) -> Seq<u8>
    decreases s, n,
{
    if n <= 0 || n > s.len() {
        Seq::empty()
    } else {
        amf0_pairs_bytes(s, n - 1) + key0_bytes(s[n - 1].0) + amf0_bytes(s[n - 1].1)
    }
}

/// Whether every AMF3 value inside `m` can be encoded.
pub open spec fn amf0_encodable(m: Amf0Model) -> bool
    decreases m,
{
    match m {
        Amf0Model::Object { entries, .. } => forall|i: int|
            0 <= i < entries.len() ==> amf0_encodable(#[trigger] entries[i].1),
        Amf0Model::EcmaArray { entries } => forall|i: int|
            0 <= i < entries.len() ==> amf0_encodable(#[trigger] entries[i].1),
        Amf0Model::Array { entries } => forall|i: int|
            0 <= i < entries.len() ==> amf0_encodable(#[trigger] entries[i]),
        Amf0Model::AvmPlus(v) => amf3_encodable(v),
        _ => true,
    }
}

// ---------------------------------------------------------------------------------------
// Copying
// ---------------------------------------------------------------------------------------

impl Amf0Value {
    /// A deep copy with the same model.
    pub fn duplicate(&self) -> (r: Self)
        ensures
            r@ == self@,
        decreases self,
    {
        match self {
            Amf0Value::Number(n) => Amf0Value::Number(*n),
            Amf0Value::Boolean(b) => Amf0Value::Boolean(*b),
            Amf0Value::String(s) => Amf0Value::String(s.clone()),
            Amf0Value::Object { class_name, entries } => {
                let e = copy_pairs0(entries, self);
                let r = Amf0Value::Object { class_name: copy_opt_string(class_name), entries: e };
                proof {
                    assert(amf0_view(r)->Object_entries =~= amf0_view(*self)->Object_entries);
                }
                r
            },
            Amf0Value::Null => Amf0Value::Null,
            Amf0Value::Undefined => Amf0Value::Undefined,
            Amf0Value::EcmaArray { entries } => {
                let e = copy_pairs0(entries, self);
                let r = Amf0Value::EcmaArray { entries: e };
                proof {
                    assert(amf0_view(r)->EcmaArray_entries =~= amf0_view(*self)->EcmaArray_entries);
                }
                r
            },
            Amf0Value::Array { entries } => {
                let mut out: Vec<Amf0Value> = Vec::new();
                let mut i: usize = 0;
                while i < entries.len()
                    invariant
                        i <= entries@.len(),
                        out@.len() == i,
                        forall|j: int| 0 <= j < i ==> amf0_view(#[trigger] out@[j]) == amf0_view(entries@[j]),
                        *self == (Amf0Value::Array { entries: *entries }),
                    decreases entries.len() - i,
                {
                    proof {
                        assert(decreases_to!(*self => (*self)->Array_entries));
                        assert(decreases_to!(*entries => entries@));
                        assert(decreases_to!(entries@ => entries@[i as int]));
                    }
                    out.push(entries[i].duplicate());
                    i = i + 1;
                }
                let r = Amf0Value::Array { entries: out };
                proof {
                    assert(amf0_view(r)->Array_entries =~= amf0_view(*self)->Array_entries);
                }
                r
            },
            Amf0Value::Date { unix_time } => Amf0Value::Date { unix_time: *unix_time },
            Amf0Value::XmlDocument(s) => Amf0Value::XmlDocument(s.clone()),
            Amf0Value::AvmPlus(v) => Amf0Value::AvmPlus(v.duplicate()),
        }
    }
}

/// Copies the members of `parent`.
fn copy_pairs0(entries: &Vec<Pair<String, Amf0Value>>, parent: &Amf0Value) -> (r: Vec<Pair<String, Amf0Value>>)
    requires
        (parent is Object && parent->Object_entries == *entries)
            || (parent is EcmaArray && parent->EcmaArray_entries == *entries),
    ensures
        r@.len() == entries@.len(),
        forall|j: int|
            0 <= j < entries@.len() ==> (#[trigger] r@[j]).key@ == entries@[j].key@ && amf0_view(r@[j].value)
                == amf0_view(entries@[j].value),
    decreases parent, 0nat,
{
    let mut out: Vec<Pair<String, Amf0Value>> = Vec::new();
    let mut i: usize = 0;
    while i < entries.len()
        invariant
            i <= entries@.len(),
            out@.len() == i,
            forall|j: int|
                0 <= j < i ==> (#[trigger] out@[j]).key@ == entries@[j].key@ && amf0_view(out@[j].value)
                    == amf0_view(entries@[j].value),
            (parent is Object && parent->Object_entries == *entries)
                || (parent is EcmaArray && parent->EcmaArray_entries == *entries),
        decreases entries.len() - i,
    {
        proof {
            if parent is Object {
                assert(decreases_to!(*parent => parent->Object_entries));
            } else {
                assert(decreases_to!(*parent => parent->EcmaArray_entries));
            }
            assert(decreases_to!(*entries => entries@));
            assert(decreases_to!(entries@ => entries@[i as int]));
            assert(decreases_to!(entries@[i as int] => entries@[i as int].value));
        }
        let k = entries[i].key.clone();
        let v = entries[i].value.duplicate();
        out.push(Pair { key: k, value: v });
        i = i + 1;
    }
    out
}

// ---------------------------------------------------------------------------------------
// Encoder
// ---------------------------------------------------------------------------------------

/// Appends a string value.
fn encode_string0(buf: &mut Vec<u8>, s: &str)
    ensures
        final(buf)@ == old(buf)@ + string0_bytes(s@),
{
    let b = s.as_bytes();
    if b.len() <= 0xFFFF {
        write_u8(buf, MARKER_STRING);
        write_u16(buf, b.len() as u16);
    } else {
        write_u8(buf, MARKER_LONG_STRING);
        write_u32(buf, b.len() as u32);
    }
    write_bytes(buf, b);
    assert(buf@ =~= old(buf)@ + string0_bytes(s@));
}

/// Appends a key.
fn encode_key0(buf: &mut Vec<u8>, s: &str)
    ensures
        final(buf)@ == old(buf)@ + key0_bytes(s@),
{
    let b = s.as_bytes();
    write_u16(buf, b.len() as u16);
    write_bytes(buf, b);
    assert(buf@ =~= old(buf)@ + key0_bytes(s@));
}

impl Amf0Value {
    /// Appends the encoding of this value.
    pub fn encode(&self, buf: &mut Vec<u8>)
        requires
            amf0_encodable(self@),
        ensures
            final(buf)@ == old(buf)@ + amf0_bytes(self@),
    {
        encode0_value(buf, self);
    }
}

/// Appends the encoding of `v`.
#[verifier::rlimit(40)]
fn encode0_value(buf: &mut Vec<u8>, v: &Amf0Value)
    requires
        amf0_encodable(v@),
    ensures
        final(buf)@ == old(buf)@ + amf0_bytes(v@),
    decreases v, 2nat,
{
    let ghost start = buf@;
    match v {
        Amf0Value::Number(n) => {
            write_u8(buf, MARKER_NUMBER);
            write_u64(buf, n.0);
        },
        Amf0Value::Boolean(b) => {
            write_u8(buf, MARKER_BOOLEAN);
            write_u8(buf, if *b { 1 } else { 0 });
        },
        Amf0Value::String(s) => encode_string0(buf, s.as_str()),
        Amf0Value::Object { class_name, entries } => {
            match class_name {
                None => write_u8(buf, MARKER_OBJECT),
                Some(c) => {
                    write_u8(buf, MARKER_TYPED_OBJECT);
                    encode_key0(buf, c.as_str());
                },
            }
            encode_pairs0(buf, entries, v);
        },
        Amf0Value::Null => write_u8(buf, MARKER_NULL),
        Amf0Value::Undefined => write_u8(buf, MARKER_UNDEFINED),
        Amf0Value::EcmaArray { entries } => {
            write_u8(buf, MARKER_ECMA_ARRAY);
            write_u32(buf, entries.len() as u32);
            encode_pairs0(buf, entries, v);
        },
        Amf0Value::Array { .. } => encode_array0(buf, v),
        Amf0Value::Date { unix_time } => {
            write_u8(buf, MARKER_DATE);
            let f = Float64::from_u128(duration_millis(*unix_time));
            write_u64(buf, f.0);
            write_u16(buf, 0);
        },
        Amf0Value::XmlDocument(s) => {
            write_u8(buf, MARKER_XML_DOCUMENT);
            let b = s.as_str().as_bytes();
            write_u32(buf, b.len() as u32);
            write_bytes(buf, b);
        },
        Amf0Value::AvmPlus(x) => {
            write_u8(buf, MARKER_AVMPLUS_OBJECT);
            x.encode(buf);
        },
    }
    assert(buf@ =~= start + amf0_bytes(v@));
}

/// Appends a strict array.
fn encode_array0(buf: &mut Vec<u8>, v: &Amf0Value)
    requires
        v is Array,
        amf0_encodable(v@),
    ensures
        final(buf)@ == old(buf)@ + amf0_bytes(v@),
    decreases v, 1nat,
{
    let ghost start = buf@;
    match v {
        Amf0Value::Array { entries } => {
            write_u8(buf, MARKER_STRICT_ARRAY);
            write_u32(buf, entries.len() as u32);
            let ghost ms = amf0_view(*v)->Array_entries;
            let ghost mid = buf@;
            let mut i: usize = 0;
            while i < entries.len()
                invariant
                    i <= entries@.len(),
                    ms == amf0_view(*v)->Array_entries,
                    *v == (Amf0Value::Array { entries: *entries }),
                    amf0_encodable(v@),
                    buf@ == mid + amf0_seq_bytes(ms, i as int),
                decreases entries.len() - i,
            {
                proof {
                    assert(decreases_to!(*v => (*v)->Array_entries));
                    assert(decreases_to!(*entries => entries@));
                    assert(decreases_to!(entries@ => entries@[i as int]));
                    assert(ms[i as int] == amf0_view(entries@[i as int]));
                    assert(amf0_encodable(ms[i as int]));
                }
                encode0_value(buf, &entries[i]);
                i = i + 1;
            }
        },
        _ => {},
    }
    assert(buf@ =~= start + amf0_bytes(v@));
}

/// The member list of an object or ECMA array.
pub open spec fn pairs0_model(v: Amf0Value) -> Seq<(Seq<char>, Amf0Model)> {
    match amf0_view(v) {
        Amf0Model::Object { entries, .. } => entries,
        Amf0Model::EcmaArray { entries } => entries,
        _ => Seq::empty(),
    }
}

/// Appends the members of `parent` and the end marker.
fn encode_pairs0(buf: &mut Vec<u8>, entries: &Vec<Pair<String, Amf0Value>>, parent: &Amf0Value)
    requires
        (parent is Object && parent->Object_entries == *entries)
            || (parent is EcmaArray && parent->EcmaArray_entries == *entries),
        amf0_encodable(parent@),
    ensures
        final(buf)@ == old(buf)@ + amf0_pairs_bytes(pairs0_model(*parent), entries@.len() as int)
            + object_end_bytes(),
    decreases parent, 1nat,
{
    let ghost ms = pairs0_model(*parent);
    let ghost start = buf@;
    let mut i: usize = 0;
    while i < entries.len()
        invariant
            i <= entries@.len(),
            ms == pairs0_model(*parent),
            (parent is Object && parent->Object_entries == *entries)
                || (parent is EcmaArray && parent->EcmaArray_entries == *entries),
            amf0_encodable(parent@),
            buf@ == start + amf0_pairs_bytes(ms, i as int),
        decreases entries.len() - i,
    {
        proof {
            if parent is Object {
                assert(decreases_to!(*parent => parent->Object_entries));
            } else {
                assert(decreases_to!(*parent => parent->EcmaArray_entries));
            }
            assert(decreases_to!(*entries => entries@));
            assert(decreases_to!(entries@ => entries@[i as int]));
            assert(decreases_to!(entries@[i as int] => entries@[i as int].value));
            assert(ms[i as int] == (entries@[i as int].key@, amf0_view(entries@[i as int].value)));
            assert(amf0_encodable(ms[i as int].1));
        }
        encode_key0(buf, entries[i].key.as_str());
        encode0_value(buf, &entries[i].value);
        i = i + 1;
    }
    write_u16(buf, 0);
    write_u8(buf, MARKER_OBJECT_END_MARKER);
    assert(buf@ =~= start + amf0_pairs_bytes(ms, entries@.len() as int) + object_end_bytes());
}

// ---------------------------------------------------------------------------------------
// Decoding: the specification
// ---------------------------------------------------------------------------------------

/// UTF-8 text of `len` bytes at `p`.
pub open spec fn parse_text(b: Seq<u8>, p: int, len: int) -> Result<(int, Seq<char>), ErrorKind> {
    if p + len > b.len() {
        Err(ErrorKind::InsufficientBuffer)
    } else if !valid_utf8(b.subrange(p, p + len)) {
        Err(ErrorKind::InvalidData)
    } else {
        Ok((p + len, decode_utf8(b.subrange(p, p + len))))
    }
}

/// Text whose length is given by the `w`-byte big-endian field at `p`.
pub open spec fn parse_counted_text(b: Seq<u8>, p: int, w: int) -> Result<(int, Seq<char>), ErrorKind> {
    if p + w > b.len() {
        Err(ErrorKind::InsufficientBuffer)
    } else {
        parse_text(b, p + w, if w == 2 { be16(b, p) } else { be32(b, p) })
    }
}

/// The milliseconds of a date, if the double and the time zone field are valid.
pub open spec fn date0_millis(bits: u64, time_zone: int) -> Option<u128> {
    let f = Float64(bits);
    if !f.finite() || f.sign() || time_zone != 0 {
        None
    } else if f.trunc() > u64::MAX {
        Some(u64::MAX as u128)
    } else {
        Some(f.trunc() as u128)
    }
}

/// A value at `q` whose marker `m` (at `q - 1`) is not that of a complex value.
pub open spec fn parse0_simple(b: Seq<u8>, q: int, cx: Seq<Amf0Model>, m: u8) -> Result<(int, Amf0Model, Seq<Amf0Model>), ErrorKind> {
    if m == MARKER_NUMBER {
        if q + 8 > b.len() {
            Err(ErrorKind::InsufficientBuffer)
        } else {
            Ok((q + 8, Amf0Model::Number(be64(b, q) as u64), cx))
        }
    } else if m == MARKER_BOOLEAN {
        if q + 1 > b.len() {
            Err(ErrorKind::InsufficientBuffer)
        } else {
            Ok((q + 1, Amf0Model::Boolean(b[q] != 0), cx))
        }
    } else if m == MARKER_STRING || m == MARKER_LONG_STRING || m == MARKER_XML_DOCUMENT {
        match parse_counted_text(b, q, if m == MARKER_STRING { 2 } else { 4 }) {
            Err(e) => Err(e),
            Ok((q2, s)) => Ok((
                q2,
                if m == MARKER_XML_DOCUMENT { Amf0Model::XmlDocument(s) } else { Amf0Model::String(s) },
                cx,
            )),
        }
    } else if m == MARKER_NULL {
        Ok((q, Amf0Model::Null, cx))
    } else if m == MARKER_UNDEFINED {
        Ok((q, Amf0Model::Undefined, cx))
    } else if m == MARKER_REFERENCE {
        if q + 2 > b.len() {
            Err(ErrorKind::InsufficientBuffer)
        } else {
            let idx = be16(b, q);
            if idx >= cx.len() {
                Err(ErrorKind::InvalidData)
            } else if cx[idx] is Null {
                Err(ErrorKind::Unsupported)
            } else {
                Ok((q + 2, cx[idx], cx))
            }
        }
    } else if m == MARKER_DATE {
        if q + 10 > b.len() {
            Err(ErrorKind::InsufficientBuffer)
        } else {
            match date0_millis(be64(b, q) as u64, be16(b, q + 8)) {
                None => Err(ErrorKind::InvalidData),
                Some(ms) => Ok(
                    (q + 10, Amf0Model::Date { unix_time: duration_of_millis(ms as u64) }, cx),
                ),
            }
        }
    } else if m == MARKER_AVMPLUS_OBJECT {
        if q > b.len() {
            Err(ErrorKind::InsufficientBuffer)
        } else {
            match amf3_decode(b.subrange(q, b.len() as int)) {
                Err(e) => Err(e),
                Ok((n, v)) => Ok((q + n, Amf0Model::AvmPlus(v), cx)),
            }
        }
    } else if m == MARKER_MOVIECLIP || m == MARKER_RECORDSET || m == MARKER_UNSUPPORTED {
        Err(ErrorKind::Unsupported)
    } else {
        Err(ErrorKind::InvalidData)
    }
}

/// Whether values with marker `m` are complex values, which later data can refer back to.
pub open spec fn is_complex0(m: u8) -> bool {
    m == MARKER_OBJECT || m == MARKER_ECMA_ARRAY || m == MARKER_STRICT_ARRAY || m == MARKER_TYPED_OBJECT
}

/// The value at `p`.
pub open spec fn parse0_value(b: Seq<u8>, p: int, cx: Seq<Amf0Model>) -> Result<(int, Amf0Model, Seq<Amf0Model>), ErrorKind>
    decreases b.len() - p, 0int,
{
    if p < 0 || p + 1 > b.len() {
        Err(ErrorKind::InsufficientBuffer)
    } else if is_complex0(b[p]) {
        let idx = cx.len() as int;
        match parse0_complex_body(b, p + 1, cx.push(Amf0Model::Null), b[p]) {
            Err(e) => Err(e),
            Ok((q2, v, cx2)) => Ok((q2, v, cx2.update(idx, v))),
        }
    } else {
        parse0_simple(b, p + 1, cx, b[p])
    }
}

/// The body of a complex value with marker `m`, at `q`.
pub open spec fn parse0_complex_body(b: Seq<u8>, q: int, cx: Seq<Amf0Model>, m: u8) -> Result<(int, Amf0Model, Seq<Amf0Model>), ErrorKind>
    decreases b.len() - q, 2int,
{
    if q < 0 || q > b.len() {
        Err(ErrorKind::InsufficientBuffer)
    } else if m == MARKER_OBJECT {
        match parse0_pairs(b, q, cx) {
            Err(e) => Err(e),
            Ok((q2, e, cx2)) => Ok((q2, Amf0Model::Object { class_name: None, entries: e }, cx2)),
        }
    } else if m == MARKER_TYPED_OBJECT {
        match parse_counted_text(b, q, 2) {
            Err(e) => Err(e),
            Ok((q1, name)) => if q1 < q || q1 > b.len() {
                Err(ErrorKind::InvalidData)
            } else {
                match parse0_pairs(b, q1, cx) {
                    Err(e) => Err(e),
                    Ok((q2, e, cx2)) => Ok(
                        (q2, Amf0Model::Object { class_name: Some(name), entries: e }, cx2),
                    ),
                }
            },
        }
    } else if q + 4 > b.len() {
        Err(ErrorKind::InsufficientBuffer)
    } else if m == MARKER_ECMA_ARRAY {
        match parse0_pairs(b, q + 4, cx) {
            Err(e) => Err(e),
            Ok((q2, e, cx2)) => Ok((q2, Amf0Model::EcmaArray { entries: e }, cx2)),
        }
    } else {
        match parse0_values(b, q + 4, cx, be32(b, q) as nat) {
            Err(e) => Err(e),
            Ok((q2, vs, cx2)) => Ok((q2, Amf0Model::Array { entries: vs }, cx2)),
        }
    }
}

/// Members at `p`, up to and including the end marker.
#[verifier::opaque]
pub open spec fn parse0_pairs(b: Seq<u8>, p: int, cx: Seq<Amf0Model>) -> Result<(int, Seq<(Seq<char>, Amf0Model)>, Seq<Amf0Model>), ErrorKind>
    decreases b.len() - p, 1int,
{
    if p < 0 || p > b.len() {
        Err(ErrorKind::InsufficientBuffer)
    } else {
        match parse_counted_text(b, p, 2) {
            Err(e) => Err(e),
            Ok((p1, key)) => if p1 <= p || p1 > b.len() {
                Err(ErrorKind::InvalidData)
            } else if p1 < b.len() && b[p1] == MARKER_OBJECT_END_MARKER {
                Ok((p1 + 1, Seq::empty(), cx))
            } else {
                match parse0_value(b, p1, cx) {
                    Err(e) => Err(e),
                    Ok((p2, v, cx2)) => if p2 <= p1 || p2 > b.len() {
                        Err(ErrorKind::InvalidData)
                    } else {
                        match parse0_pairs(b, p2, cx2) {
                            Err(e) => Err(e),
                            Ok((p3, rest, cx3)) => Ok((p3, seq![(key, v)] + rest, cx3)),
                        }
                    },
                }
            },
        }
    }
}

/// `n` values at `p`.
#[verifier::opaque]
pub open spec fn parse0_values(b: Seq<u8>, p: int, cx: Seq<Amf0Model>, n: nat) -> Result<(int, Seq<Amf0Model>, Seq<Amf0Model>), ErrorKind>
    decreases b.len() - p, 1int,
{
    if n == 0 {
        Ok((p, Seq::empty(), cx))
    } else if p < 0 || p > b.len() {
        Err(ErrorKind::InsufficientBuffer)
    } else {
        match parse0_value(b, p, cx) {
            Err(e) => Err(e),
            Ok((p1, v, cx1)) => if p1 <= p || p1 > b.len() {
                Err(ErrorKind::InvalidData)
            } else {
                match parse0_values(b, p1, cx1, (n - 1) as nat) {
                    Err(e) => Err(e),
                    Ok((p2, vs, cx2)) => Ok((p2, seq![v] + vs, cx2)),
                }
            },
        }
    }
}

/// What decoding one value from the start of `b` gives: the bytes used and the value.
#[verifier::opaque]
pub open spec fn amf0_decode(b: Seq<u8>) -> Result<(int, Amf0Model), ErrorKind> {
    match parse0_value(b, 0, Seq::empty()) {
        Err(e) => Err(e),
        Ok((n, v, _)) => Ok((n, v)),
    }
}

// ---------------------------------------------------------------------------------------
// Decoder
// ---------------------------------------------------------------------------------------

/// Whether an exec result agrees with a specified outcome for a value.
pub open spec fn agrees0(
    r: Result<(usize, Amf0Value), Error>,
    s: Result<(int, Amf0Model, Seq<Amf0Model>), ErrorKind>,
    cx: Seq<Amf0Model>,
) -> bool {
    match s {
        Ok((p, m, cx2)) => r matches Ok((q, v)) && q == p && v@ == m && cx == cx2,
        Err(e) => r matches Err(err) && err.kind == e,
    }
}

/// Prepends decoded values to the outcome of decoding the rest.
pub open spec fn combine0_values(
    prefix: Seq<Amf0Model>,
    r: Result<(int, Seq<Amf0Model>, Seq<Amf0Model>), ErrorKind>,
) -> Result<(int, Seq<Amf0Model>, Seq<Amf0Model>), ErrorKind> {
    match r {
        Ok((p, rest, cx)) => Ok((p, prefix + rest, cx)),
        Err(e) => Err(e),
    }
}

/// Prepends decoded members to the outcome of decoding the rest.
pub open spec fn combine0_pairs(
    prefix: Seq<(Seq<char>, Amf0Model)>,
    r: Result<(int, Seq<(Seq<char>, Amf0Model)>, Seq<Amf0Model>), ErrorKind>,
) -> Result<(int, Seq<(Seq<char>, Amf0Model)>, Seq<Amf0Model>), ErrorKind> {
    match r {
        Ok((p, rest, cx)) => Ok((p, prefix + rest, cx)),
        Err(e) => Err(e),
    }
}

proof fn lemma_combine0_values(
    prefix: Seq<Amf0Model>,
    v: Amf0Model,
    r: Result<(int, Seq<Amf0Model>, Seq<Amf0Model>), ErrorKind>,
)
    ensures
        combine0_values(Seq::empty(), r) == r,
        combine0_values(prefix, combine0_values(seq![v], r)) == combine0_values(prefix.push(v), r),
{
    if let Ok((p, rest, cx)) = r {
        assert(Seq::<Amf0Model>::empty() + rest =~= rest);
        assert(prefix + (seq![v] + rest) =~= prefix.push(v) + rest);
    }
}

proof fn lemma_combine0_pairs(
    prefix: Seq<(Seq<char>, Amf0Model)>,
    v: (Seq<char>, Amf0Model),
    r: Result<(int, Seq<(Seq<char>, Amf0Model)>, Seq<Amf0Model>), ErrorKind>,
)
    ensures
        combine0_pairs(Seq::empty(), r) == r,
        combine0_pairs(prefix, combine0_pairs(seq![v], r)) == combine0_pairs(prefix.push(v), r),
{
    if let Ok((p, rest, cx)) = r {
        assert(Seq::<(Seq<char>, Amf0Model)>::empty() + rest =~= rest);
        assert(prefix + (seq![v] + rest) =~= prefix.push(v) + rest);
    }
}

/// Reads text whose length is given by the `w`-byte field at `pos`.
fn read_counted_text(buf: &[u8], pos: usize, w: usize) -> (r: Result<(usize, String), Error>)
    requires
        w == 2 || w == 4,
    ensures
        match parse_counted_text(buf@, pos as int, w as int) {
            Ok((p2, s)) => r matches Ok((q, st)) && q == p2 && st@ == s,
            Err(e) => r matches Err(er) && er.kind == e,
        },
        r matches Ok((q, _)) ==> pos < q <= buf@.len(),
{
    let blen = buf.len();
    if pos >= buf.len() || buf.len() - pos < w {
        return Err(Error::insufficient_buffer());
    }
    let len: usize = if w == 2 {
        match read_u16(buf, pos) {
            Ok(x) => x as usize,
            Err(e) => return Err(e),
        }
    } else {
        match read_u32(buf, pos) {
            Ok(x) => x as usize,
            Err(e) => return Err(e),
        }
    };
    let s = match read_utf8(buf, pos + w, len) {
        Ok(x) => x,
        Err(e) => return Err(e),
    };
    Ok((pos + w + len, s))
}

/// The complex values decoded so far, which references point into.
struct Decoder0 {
    complexes: Vec<Amf0Value>,
}

impl Decoder0 {
    spec fn table(&self) -> Seq<Amf0Model> {
        values0_view(self.complexes@)
    }

    /// Decodes the value at `pos`.
    #[verifier::rlimit(60)]
    fn decode_value(&mut self, buf: &[u8], pos: usize) -> (r: Result<(usize, Amf0Value), Error>)
        ensures
            agrees0(r, parse0_value(buf@, pos as int, old(self).table()), final(self).table()),
            r matches Ok((q, _)) ==> pos < q <= buf@.len(),
            r is Ok ==> final(self).complexes@.len() >= old(self).complexes@.len(),
        decreases buf@.len() - pos, 0int,
    {
        let blen = buf.len();
        if pos >= buf.len() {
            return Err(Error::insufficient_buffer());
        }
        let m = buf[pos];
        let q = pos + 1;
        if m == MARKER_OBJECT || m == MARKER_ECMA_ARRAY || m == MARKER_STRICT_ARRAY || m == MARKER_TYPED_OBJECT {
            let idx = self.complexes.len();
            let ghost t0 = self.table();
            self.complexes.push(Amf0Value::Null);
            assert(self.table() =~= t0.push(Amf0Model::Null));
            let (q2, v) = match self.decode_complex_body(buf, q, m) {
                Ok(x) => x,
                Err(e) => return Err(e),
            };
            let ghost t2 = self.table();
            self.complexes.set(idx, v.duplicate());
            assert(self.table() =~= t2.update(idx as int, v@));
            Ok((q2, v))
        } else {
            decode_simple(buf, q, m, &self.complexes)
        }
    }

    /// Decodes the body of a complex value with marker `m` at `q`.
    #[verifier::rlimit(100)]
    #[verifier::spinoff_prover]
    fn decode_complex_body(&mut self, buf: &[u8], q: usize, m: u8) -> (r: Result<(usize, Amf0Value), Error>)
        requires
            is_complex0(m),
            1 <= q <= buf@.len(),
        ensures
            agrees0(r, parse0_complex_body(buf@, q as int, old(self).table(), m), final(self).table()),
            r matches Ok((q2, _)) ==> q < q2 <= buf@.len(),
            r is Ok ==> final(self).complexes@.len() >= old(self).complexes@.len(),
        decreases buf@.len() - q, 2int,
    {
        let blen = buf.len();
        if m == MARKER_OBJECT {
            let (q2, e) = match self.decode_pairs(buf, q) {
                Ok(x) => x,
                Err(e) => return Err(e),
            };
            let v = Amf0Value::Object { class_name: None, entries: e };
            assert(amf0_view(v)->Object_entries =~= pairs0_view(e@));
            Ok((q2, v))
        } else if m == MARKER_TYPED_OBJECT {
            let (q1, name) = match read_counted_text(buf, q, 2) {
                Ok(x) => x,
                Err(e) => return Err(e),
            };
            let (q2, e) = match self.decode_pairs(buf, q1) {
                Ok(x) => x,
                Err(e) => return Err(e),
            };
            let v = Amf0Value::Object { class_name: Some(name), entries: e };
            assert(amf0_view(v)->Object_entries =~= pairs0_view(e@));
            Ok((q2, v))
        } else if buf.len() - q < 4 {
            Err(Error::insufficient_buffer())
        } else if m == MARKER_ECMA_ARRAY {
            let (q2, e) = match self.decode_pairs(buf, q + 4) {
                Ok(x) => x,
                Err(e) => return Err(e),
            };
            let v = Amf0Value::EcmaArray { entries: e };
            assert(amf0_view(v)->EcmaArray_entries =~= pairs0_view(e@));
            Ok((q2, v))
        } else {
            let count = match read_u32(buf, q) {
                Ok(x) => x,
                Err(e) => return Err(e),
            };
            let (q2, vs) = match self.decode_values(buf, q + 4, count as usize) {
                Ok(x) => x,
                Err(e) => return Err(e),
            };
            let v = Amf0Value::Array { entries: vs };
            assert(amf0_view(v)->Array_entries =~= values0_view(vs@));
            Ok((q2, v))
        }
    }

    /// Decodes members at `pos`, up to the end marker.
    #[verifier::rlimit(60)]
    fn decode_pairs(&mut self, buf: &[u8], pos: usize) -> (r: Result<(usize, Vec<Pair<String, Amf0Value>>), Error>)
        requires
            pos <= buf@.len(),
        ensures
            match parse0_pairs(buf@, pos as int, old(self).table()) {
                Ok((p2, ps, cx2)) => r matches Ok((q, v)) && q == p2 && pairs0_view(v@) == ps
                    && final(self).table() == cx2,
                Err(e) => r matches Err(er) && er.kind == e,
            },
            r matches Ok((q, _)) ==> pos < q <= buf@.len(),
            r is Ok ==> final(self).complexes@.len() >= old(self).complexes@.len(),
        decreases buf@.len() - pos, 1int,
    {
        let blen = buf.len();
        let mut out: Vec<Pair<String, Amf0Value>> = Vec::new();
        let mut p = pos;
        proof {
            lemma_combine0_pairs(pairs0_view(out@), (Seq::empty(), Amf0Model::Null), parse0_pairs(buf@, pos as int, self.table()));
            assert(pairs0_view(out@) =~= Seq::<(Seq<char>, Amf0Model)>::empty());
        }
        loop
            invariant
                pos <= p <= buf@.len(),
                blen == buf@.len(),
                parse0_pairs(buf@, pos as int, old(self).table()) == combine0_pairs(
                    pairs0_view(out@),
                    parse0_pairs(buf@, p as int, self.table()),
                ),
                self.complexes@.len() >= old(self).complexes@.len(),
            decreases buf@.len() - p,
        {
            proof {
                reveal(parse0_pairs);
            }
            let (p1, key) = match read_counted_text(buf, p, 2) {
                Ok(x) => x,
                Err(e) => return Err(e),
            };
            if p1 < buf.len() && buf[p1] == MARKER_OBJECT_END_MARKER {
                assert(pairs0_view(out@) + Seq::<(Seq<char>, Amf0Model)>::empty() =~= pairs0_view(out@));
                return Ok((p1 + 1, out));
            }
            let (p2, v) = match self.decode_value(buf, p1) {
                Ok(x) => x,
                Err(e) => return Err(e),
            };
            proof {
                let rest = parse0_pairs(buf@, p2 as int, self.table());
                lemma_combine0_pairs(pairs0_view(out@), (key@, v@), rest);
            }
            let ghost old_out = pairs0_view(out@);
            out.push(Pair { key, value: v });
            assert(pairs0_view(out@) =~= old_out.push((out@.last().key@, out@.last().value@)));
            p = p2;
        }
    }

    /// Decodes `n` values at `pos`.
    #[verifier::rlimit(60)]
    fn decode_values(&mut self, buf: &[u8], pos: usize, n: usize) -> (r: Result<(usize, Vec<Amf0Value>), Error>)
        requires
            1 <= pos <= buf@.len(),
        ensures
            match parse0_values(buf@, pos as int, old(self).table(), n as nat) {
                Ok((p2, vs, cx2)) => r matches Ok((q, v)) && q == p2 && values0_view(v@) == vs
                    && final(self).table() == cx2,
                Err(e) => r matches Err(er) && er.kind == e,
            },
            r matches Ok((q, _)) ==> pos <= q <= buf@.len(),
            r is Ok ==> final(self).complexes@.len() >= old(self).complexes@.len(),
        decreases buf@.len() - pos, 1int,
    {
        let blen = buf.len();
        let mut out: Vec<Amf0Value> = Vec::new();
        let mut p = pos;
        let mut i: usize = 0;
        proof {
            lemma_combine0_values(values0_view(out@), Amf0Model::Null, parse0_values(buf@, pos as int, self.table(), n as nat));
            assert(values0_view(out@) =~= Seq::<Amf0Model>::empty());
        }
        while i < n
            invariant
                i <= n,
                pos <= p <= buf@.len(),
                parse0_values(buf@, pos as int, old(self).table(), n as nat) == combine0_values(
                    values0_view(out@),
                    parse0_values(buf@, p as int, self.table(), (n - i) as nat),
                ),
                self.complexes@.len() >= old(self).complexes@.len(),
            decreases n - i,
        {
            proof {
                reveal(parse0_values);
            }
            let (p1, v) = match self.decode_value(buf, p) {
                Ok(x) => x,
                Err(e) => return Err(e),
            };
            proof {
                let rest = parse0_values(buf@, p1 as int, self.table(), (n - i - 1) as nat);
                lemma_combine0_values(values0_view(out@), v@, rest);
            }
            let ghost old_out = values0_view(out@);
            out.push(v);
            assert(values0_view(out@) =~= old_out.push(out@.last()@));
            p = p1;
            i = i + 1;
        }
        proof {
            reveal(parse0_values);
            assert(values0_view(out@) + Seq::<Amf0Model>::empty() =~= values0_view(out@));
        }
        Ok((p, out))
    }
}

/// Decodes a value that is not complex, with marker `m`, at `q`.
#[verifier::rlimit(60)]
fn decode_simple(buf: &[u8], q: usize, m: u8, complexes: &Vec<Amf0Value>) -> (r: Result<(usize, Amf0Value), Error>)
    requires
        1 <= q <= buf@.len(),
        !is_complex0(m),
    ensures
        agrees0(r, parse0_simple(buf@, q as int, values0_view(complexes@), m), values0_view(complexes@)),
        r matches Ok((q2, _)) ==> q <= q2 <= buf@.len(),
{
    let blen = buf.len();
    if m == MARKER_NUMBER {
        let n = match read_u64(buf, q) {
            Ok(x) => x,
            Err(e) => return Err(e),
        };
        Ok((q + 8, Amf0Value::Number(Float64(n))))
    } else if m == MARKER_BOOLEAN {
        let b = match read_u8(buf, q) {
            Ok(x) => x,
            Err(e) => return Err(e),
        };
        Ok((q + 1, Amf0Value::Boolean(b != 0)))
    } else if m == MARKER_STRING || m == MARKER_LONG_STRING || m == MARKER_XML_DOCUMENT {
        let (q2, s) = match read_counted_text(buf, q, if m == MARKER_STRING { 2 } else { 4 }) {
            Ok(x) => x,
            Err(e) => return Err(e),
        };
        if m == MARKER_XML_DOCUMENT {
            Ok((q2, Amf0Value::XmlDocument(s)))
        } else {
            Ok((q2, Amf0Value::String(s)))
        }
    } else if m == MARKER_NULL {
        Ok((q, Amf0Value::Null))
    } else if m == MARKER_UNDEFINED {
        Ok((q, Amf0Value::Undefined))
    } else if m == MARKER_REFERENCE {
        let idx = match read_u16(buf, q) {
            Ok(x) => x as usize,
            Err(e) => return Err(e),
        };
        if idx >= complexes.len() {
            return Err(Error::with_number(ErrorKind::InvalidData, "reference index out of range: ", idx as u64));
        }
        match &complexes[idx] {
            Amf0Value::Null => Err(Error::with_number(ErrorKind::Unsupported, "circular reference at index ", idx as u64)),
            v => Ok((q + 2, v.duplicate())),
        }
    } else if m == MARKER_DATE {
        let millis = match read_u64(buf, q) {
            Ok(x) => x,
            Err(e) => return Err(e),
        };
        let time_zone = match read_u16(buf, q + 8) {
            Ok(x) => x,
            Err(e) => return Err(e),
        };
        let f = Float64(millis);
        if !f.is_finite() || f.is_sign_negative() {
            return Err(Error::invalid_data("invalid date: millis must be finite and non-negative"));
        }
        if time_zone != 0 {
            return Err(Error::invalid_data("time zone is a reserved field and must be set to zero"));
        }
        let ms = f.to_u64_saturating();
        Ok((q + 10, Amf0Value::Date { unix_time: duration_from_millis(ms) }))
    } else if m == MARKER_AVMPLUS_OBJECT {
        let rest = vstd::slice::slice_subrange(buf, q, buf.len());
        let (n, v) = match Amf3Value::decode(rest) {
            Ok(x) => x,
            Err(e) => return Err(e),
        };
        Ok((q + n, Amf0Value::AvmPlus(v)))
    } else if m == MARKER_MOVIECLIP || m == MARKER_RECORDSET || m == MARKER_UNSUPPORTED {
        Err(Error::with_number(ErrorKind::Unsupported, "unsupported AMF0 marker ", m as u64))
    } else {
        Err(Error::with_number(ErrorKind::InvalidData, "unexpected AMF0 marker ", m as u64))
    }
}

impl Amf0Value {
    /// Decodes one value from the start of `buf`: the bytes used and the value.
    pub fn decode(buf: &[u8]) -> (r: Result<(usize, Self), Error>)
        ensures
            match amf0_decode(buf@) {
                Ok((n, v)) => r matches Ok((k, x)) && k == n && x@ == v,
                Err(e) => r matches Err(er) && er.kind == e,
            },
            r matches Ok((k, _)) ==> 0 < k <= buf@.len(),
    {
        proof {
            reveal(amf0_decode);
        }
        let mut d = Decoder0 { complexes: Vec::new() };
        assert(d.table() =~= Seq::<Amf0Model>::empty());
        d.decode_value(buf, 0)
    }
}

impl Clone for Amf0Value {
    fn clone(&self) -> (r: Self)
        ensures
            r@ == self@,
    {
        self.duplicate()
    }
}

} // verus!
