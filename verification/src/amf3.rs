use core::time::Duration;

use vstd::prelude::*;
use vstd::utf8::{decode_utf8, encode_utf8, valid_utf8};

use crate::amf::Pair;
use crate::bytes::{
    be32, be64, i32_bits, i32_value, read_bytes, read_i32, read_u32, read_u64, read_u8, read_utf8,
    str_eq, u32_be, u64_be, write_bytes, write_i32, write_str, write_u32, write_u64, write_u8,
};
use crate::error::{Error, ErrorKind};
use crate::float64::{nat_to_bits, Float64};
use crate::rtmp_timestamp::{duration_as_millis, duration_from_millis, duration_millis, duration_of_millis};

verus! {

/// Marker of `undefined`.
pub const MARKER_UNDEFINED: u8 = 0x00;
/// Marker of `null`.
pub const MARKER_NULL: u8 = 0x01;
/// Marker of `false`.
pub const MARKER_FALSE: u8 = 0x02;
/// Marker of `true`.
pub const MARKER_TRUE: u8 = 0x03;
/// Marker of a 29-bit integer.
pub const MARKER_INTEGER: u8 = 0x04;
/// Marker of a double.
pub const MARKER_DOUBLE: u8 = 0x05;
/// Marker of a string.
pub const MARKER_STRING: u8 = 0x06;
/// Marker of an XML document.
pub const MARKER_XML_DOCUMENT: u8 = 0x07;
/// Marker of a date.
pub const MARKER_DATE: u8 = 0x08;
/// Marker of an array.
pub const MARKER_ARRAY: u8 = 0x09;
/// Marker of an object.
pub const MARKER_OBJECT: u8 = 0x0A;
/// Marker of an XML value.
pub const MARKER_XML: u8 = 0x0B;
/// Marker of a byte array.
pub const MARKER_BYTE_ARRAY: u8 = 0x0C;
/// Marker of a vector of `i32`.
pub const MARKER_INT_VECTOR: u8 = 0x0D;
/// Marker of a vector of `u32`.
pub const MARKER_UINT_VECTOR: u8 = 0x0E;
/// Marker of a vector of doubles.
pub const MARKER_DOUBLE_VECTOR: u8 = 0x0F;
/// Marker of a vector of values.
pub const MARKER_OBJECT_VECTOR: u8 = 0x10;
/// Marker of a dictionary.
pub const MARKER_DICTIONARY: u8 = 0x11;

/// An AMF3 value.
#[derive(Debug, PartialEq)]
pub enum Amf3Value {
    /// `undefined`.
    Undefined,
    /// `null`.
    Null,
    /// A boolean.
    Boolean(bool),
    /// A 29-bit signed integer.
    Integer(i32),
    /// A double.
    Double(Float64),
    /// A string.
    String(String),
    /// An XML document.
    XmlDocument(String),
    /// A date, as the time since the Unix epoch.
    Date {
        /// Time since the Unix epoch.
        unix_time: Duration,
    },
    /// An array with associative and dense parts.
    Array {
        /// The associative entries.
        assoc_entries: Vec<Pair<String, Amf3Value>>,
        /// The dense entries.
        dense_entries: Vec<Amf3Value>,
    },
    /// An object.
    Object {
        /// The class name; `None` for an anonymous object.
        class_name: Option<String>,
        /// How many of the entries, at the front, are sealed members.
        sealed_count: usize,
        /// The members.
        entries: Vec<Pair<String, Amf3Value>>,
    },
    /// An XML value.
    Xml(String),
    /// A byte array.
    ByteArray(Vec<u8>),
    /// A vector of `i32`.
    IntVector {
        /// Whether the vector has a fixed length.
        is_fixed: bool,
        /// The entries.
        entries: Vec<i32>,
    },
    /// A vector of `u32`.
    UintVector {
        /// Whether the vector has a fixed length.
        is_fixed: bool,
        /// The entries.
        entries: Vec<u32>,
    },
    /// A vector of doubles.
    DoubleVector {
        /// Whether the vector has a fixed length.
        is_fixed: bool,
        /// The entries.
        entries: Vec<Float64>,
    },
    /// A vector of values.
    ObjectVector {
        /// The element class name; `None` for any type.
        class_name: Option<String>,
        /// Whether the vector has a fixed length.
        is_fixed: bool,
        /// The entries.
        entries: Vec<Amf3Value>,
    },
    /// A dictionary.
    Dictionary {
        /// Whether the keys are weakly referenced.
        is_weak: bool,
        /// The entries.
        entries: Vec<Pair<Amf3Value, Amf3Value>>,
    },
}

/// The mathematical value of an AMF3 value: strings as characters, doubles as bit
/// patterns, dates as durations.
pub enum Amf3Model {
    Undefined,
    Null,
    Boolean(bool),
    Integer(i32),
    Double(u64),
    String(Seq<char>),
    XmlDocument(Seq<char>),
    Date { unix_time: Duration },
    Array { assoc_entries: Seq<(Seq<char>, Amf3Model)>, dense_entries: Seq<Amf3Model> },
    Object { class_name: Option<Seq<char>>, sealed_count: nat, entries: Seq<(Seq<char>, Amf3Model)> },
    Xml(Seq<char>),
    ByteArray(Seq<u8>),
    IntVector { is_fixed: bool, entries: Seq<i32> },
    UintVector { is_fixed: bool, entries: Seq<u32> },
    DoubleVector { is_fixed: bool, entries: Seq<u64> },
    ObjectVector { class_name: Option<Seq<char>>, is_fixed: bool, entries: Seq<Amf3Model> },
    Dictionary { is_weak: bool, entries: Seq<(Amf3Model, Amf3Model)> },
}

/// The characters of an optional string.
pub open spec fn opt_chars(s: Option<String>) -> Option<Seq<char>> {
    match s {
        None => None,
        Some(s) => Some(s@),
    }
}

/// The model of an AMF3 value.
pub open spec fn amf3_view(v: Amf3Value) -> Amf3Model
    decreases v,
{
    match v {
        Amf3Value::Undefined => Amf3Model::Undefined,
        Amf3Value::Null => Amf3Model::Null,
        Amf3Value::Boolean(b) => Amf3Model::Boolean(b),
        Amf3Value::Integer(i) => Amf3Model::Integer(i),
        Amf3Value::Double(d) => Amf3Model::Double(d.0),
        Amf3Value::String(s) => Amf3Model::String(s@),
        Amf3Value::XmlDocument(s) => Amf3Model::XmlDocument(s@),
        Amf3Value::Date { unix_time } => Amf3Model::Date { unix_time },
        Amf3Value::Array { assoc_entries, dense_entries } => Amf3Model::Array {
            assoc_entries: Seq::new(
                assoc_entries@.len(),
                |i: int|
                    if 0 <= i < assoc_entries@.len() {
                        (assoc_entries@[i].key@, amf3_view(assoc_entries@[i].value))
                    } else {
                        (Seq::<char>::empty(), Amf3Model::Null)
                    },
            ),
            dense_entries: Seq::new(
                dense_entries@.len(),
                |i: int|
                    if 0 <= i < dense_entries@.len() {
                        amf3_view(dense_entries@[i])
                    } else {
                        Amf3Model::Null
                    },
            ),
        },
        Amf3Value::Object { class_name, sealed_count, entries } => Amf3Model::Object {
            class_name: opt_chars(class_name),
            sealed_count: sealed_count as nat,
            entries: Seq::new(
                entries@.len(),
                |i: int|
                    if 0 <= i < entries@.len() {
                        (entries@[i].key@, amf3_view(entries@[i].value))
                    } else {
                        (Seq::<char>::empty(), Amf3Model::Null)
                    },
            ),
        },
        Amf3Value::Xml(s) => Amf3Model::Xml(s@),
        Amf3Value::ByteArray(b) => Amf3Model::ByteArray(b@),
        Amf3Value::IntVector { is_fixed, entries } => Amf3Model::IntVector { is_fixed, entries: entries@ },
        Amf3Value::UintVector { is_fixed, entries } => Amf3Model::UintVector { is_fixed, entries: entries@ },
        Amf3Value::DoubleVector { is_fixed, entries } => Amf3Model::DoubleVector {
            is_fixed,
            entries: Seq::new(entries@.len(), |i: int| entries@[i].0),
        },
        Amf3Value::ObjectVector { class_name, is_fixed, entries } => Amf3Model::ObjectVector {
            class_name: opt_chars(class_name),
            is_fixed,
            entries: Seq::new(
                entries@.len(),
                |i: int|
                    if 0 <= i < entries@.len() {
                        amf3_view(entries@[i])
                    } else {
                        Amf3Model::Null
                    },
            ),
        },
        Amf3Value::Dictionary { is_weak, entries } => Amf3Model::Dictionary {
            is_weak,
            entries: Seq::new(
                entries@.len(),
                |i: int|
                    if 0 <= i < entries@.len() {
                        (amf3_view(entries@[i].key), amf3_view(entries@[i].value))
                    } else {
                        (Amf3Model::Null, Amf3Model::Null)
                    },
            ),
        },
    }
}

impl View for Amf3Value {
    type V = Amf3Model;

    open spec fn view(&self) -> Amf3Model {
        amf3_view(*self)
    }
}

// ---------------------------------------------------------------------------------------
// Encoding
// ---------------------------------------------------------------------------------------

/// The bytes of a 29-bit variable-length integer `v` (only its low 32 bits are taken;
/// the four-byte form keeps 29 of them).
pub open spec fn u29_bytes(v: int) -> Seq<u8> {
    let v = v % 0x1_0000_0000;
    if v < 0x80 {
        seq![v as u8]
    } else if v < 0x4000 {
        seq![(v / 0x80 + 0x80) as u8, (v % 0x80) as u8]
    } else if v < 0x20_0000 {
        seq![(v / 0x4000 + 0x80) as u8, ((v / 0x80) % 0x80 + 0x80) as u8, (v % 0x80) as u8]
    } else {
        seq![
            ((v / 0x40_0000) % 0x80 + 0x80) as u8,
            ((v / 0x8000) % 0x80 + 0x80) as u8,
            ((v / 0x100) % 0x80 + 0x80) as u8,
            (v % 0x100) as u8,
        ]
    }
}

/// The bytes of a size (or an inline flag word) `n`: `2n + 1` as a 29-bit integer (of
/// which the 32-bit form keeps `n` modulo `2^31`).
pub open spec fn size_bytes(n: int) -> Seq<u8> {
    u29_bytes(2 * (n % 0x8000_0000) + 1)
}

/// The bytes of an inline string.
pub open spec fn utf8_bytes(s: Seq<char>) -> Seq<u8> {
    size_bytes(encode_utf8(s).len() as int) + encode_utf8(s)
}

/// The wire form of a 29-bit signed integer.
pub open spec fn integer_u29(i: i32) -> int {
    if i >= 0 {
        i as int
    } else {
        0x2000_0000 + i
    }
}

/// The bytes of an optional class name, written as the empty string or `default`.
pub open spec fn opt_name_bytes(name: Option<Seq<char>>, default: Seq<char>) -> Seq<u8> {
    match name {
        None => utf8_bytes(default),
        Some(n) => utf8_bytes(n),
    }
}

/// The flag word of an object's traits.
pub open spec fn trait_word(sealed_count: nat, len: nat) -> int {
    sealed_count * 8 + (if sealed_count < len { 4int } else { 0int }) + 1
}

/// The bytes of an AMF3 value.
pub open spec fn amf3_bytes(m: Amf3Model) -> Seq<u8>
    decreases m, 0int,
{
    match m {
        Amf3Model::Undefined => seq![MARKER_UNDEFINED],
        Amf3Model::Null => seq![MARKER_NULL],
        Amf3Model::Boolean(b) => seq![if b { MARKER_TRUE } else { MARKER_FALSE }],
        Amf3Model::Integer(i) => seq![MARKER_INTEGER] + u29_bytes(integer_u29(i)),
        Amf3Model::Double(d) => seq![MARKER_DOUBLE] + u64_be(d as int),
        Amf3Model::String(s) => seq![MARKER_STRING] + utf8_bytes(s),
        Amf3Model::XmlDocument(s) => seq![MARKER_XML_DOCUMENT] + utf8_bytes(s),
        Amf3Model::Date { unix_time } => seq![MARKER_DATE] + size_bytes(0) + u64_be(
            nat_to_bits(duration_as_millis(unix_time) as nat) as int,
        ),
        Amf3Model::Array { assoc_entries, dense_entries } => seq![MARKER_ARRAY] + size_bytes(
            dense_entries.len() as int,
        ) + amf3_pairs_bytes(assoc_entries, 0, assoc_entries.len() as int) + utf8_bytes(
            Seq::empty(),
        ) + amf3_seq_bytes(dense_entries, dense_entries.len() as int),
        Amf3Model::Object { class_name, sealed_count, entries } => {
            let n = if sealed_count < entries.len() {
                sealed_count as int
            } else {
                entries.len() as int
            };
            seq![MARKER_OBJECT] + size_bytes(trait_word(sealed_count, entries.len()))
                + opt_name_bytes(class_name, Seq::empty()) + amf3_keys_bytes(entries, n)
                + amf3_member_values_bytes(entries, n) + if entries.len() > sealed_count {
                amf3_pairs_bytes(entries, n, entries.len() as int) + utf8_bytes(Seq::empty())
            } else {
                Seq::empty()
            }
        },
        Amf3Model::Xml(s) => seq![MARKER_XML] + utf8_bytes(s),
        Amf3Model::ByteArray(b) => seq![MARKER_BYTE_ARRAY] + size_bytes(b.len() as int) + b,
        Amf3Model::IntVector { is_fixed, entries } => seq![MARKER_INT_VECTOR] + size_bytes(
            entries.len() as int,
        ) + seq![if is_fixed { 1u8 } else { 0u8 }] + i32s_bytes(entries),
        Amf3Model::UintVector { is_fixed, entries } => seq![MARKER_UINT_VECTOR] + size_bytes(
            entries.len() as int,
        ) + seq![if is_fixed { 1u8 } else { 0u8 }] + u32s_bytes(entries),
        Amf3Model::DoubleVector { is_fixed, entries } => seq![MARKER_DOUBLE_VECTOR] + size_bytes(
            entries.len() as int,
        ) + seq![if is_fixed { 1u8 } else { 0u8 }] + u64s_bytes(entries),
        Amf3Model::ObjectVector { class_name, is_fixed, entries } => seq![MARKER_OBJECT_VECTOR]
            + size_bytes(entries.len() as int) + seq![if is_fixed { 1u8 } else { 0u8 }]
            + opt_name_bytes(class_name, seq!['*']) + amf3_seq_bytes(entries, entries.len() as int),
        Amf3Model::Dictionary { is_weak, entries } => seq![MARKER_DICTIONARY] + size_bytes(
            entries.len() as int,
        ) + seq![if is_weak { 1u8 } else { 0u8 }] + amf3_dict_bytes(entries, entries.len() as int),
    }
}

/// The bytes of the first `n` values, one after the other.
pub open spec fn amf3_seq_bytes(s: Seq<Amf3Model>, n: int) -> Seq<u8>
    decreases s, n,
{
    if n <= 0 || n > s.len() {
        Seq::empty()
    } else {
        amf3_seq_bytes(s, n - 1) + amf3_bytes(s[n - 1])
    }
}

/// The bytes of the members `lo..hi`, keys and values, without a terminating empty key.
pub open spec fn amf3_pairs_bytes(s: Seq<(Seq<char>, Amf3Model)>, lo: int, hi: int) -> Seq<u8>
    decreases s, hi - lo,
{
    if hi <= lo || lo < 0 || hi > s.len() {
        Seq::empty()
    } else {
        amf3_pairs_bytes(s, lo, hi - 1) + utf8_bytes(s[hi - 1].0) + amf3_bytes(s[hi - 1].1)
    }
}

/// The values of the first `n` members, one after the other.
pub open spec fn amf3_member_values_bytes(s: Seq<(Seq<char>, Amf3Model)>, n: int) -> Seq<u8>
    decreases s, n,
{
    if n <= 0 || n > s.len() {
        Seq::empty()
    } else {
        amf3_member_values_bytes(s, n - 1) + amf3_bytes(s[n - 1].1)
    }
}

/// The keys of the first `n` members, one after the other.
pub open spec fn amf3_keys_bytes(s: Seq<(Seq<char>, Amf3Model)>, n: int) -> Seq<u8>
    decreases n,
{
    if n <= 0 || n > s.len() {
        Seq::empty()
    } else {
        amf3_keys_bytes(s, n - 1) + utf8_bytes(s[n - 1].0)
    }
}

/// The bytes of the first `n` dictionary entries.
pub open spec fn amf3_dict_bytes(s: Seq<(Amf3Model, Amf3Model)>, n: int) -> Seq<u8>
    decreases s, n,
{
    if n <= 0 || n > s.len() {
        Seq::empty()
    } else {
        amf3_dict_bytes(s, n - 1) + amf3_bytes(s[n - 1].0) + amf3_bytes(s[n - 1].1)
    }
}

/// Big-endian `i32`s one after the other.
pub open spec fn i32s_bytes(s: Seq<i32>) -> Seq<u8>
    decreases s.len(),
{
    if s.len() == 0 {
        Seq::empty()
    } else {
        i32s_bytes(s.drop_last()) + u32_be(i32_bits(s.last()))
    }
}

/// Big-endian `u32`s one after the other.
pub open spec fn u32s_bytes(s: Seq<u32>) -> Seq<u8>
    decreases s.len(),
{
    if s.len() == 0 {
        Seq::empty()
    } else {
        u32s_bytes(s.drop_last()) + u32_be(s.last() as int)
    }
}

/// Big-endian 64-bit patterns one after the other.
pub open spec fn u64s_bytes(s: Seq<u64>) -> Seq<u8>
    decreases s.len(),
{
    if s.len() == 0 {
        Seq::empty()
    } else {
        u64s_bytes(s.drop_last()) + u64_be(s.last() as int)
    }
}

/// Whether every integer in `m` fits in 29 signed bits, as the encoder demands.
pub open spec fn amf3_encodable(m: Amf3Model) -> bool
    decreases m,
{
    match m {
        Amf3Model::Integer(i) => -0x1000_0000 <= i < 0x1000_0000,
        Amf3Model::Array { assoc_entries, dense_entries } => (forall|i: int|
            0 <= i < assoc_entries.len() ==> amf3_encodable(#[trigger] assoc_entries[i].1)) && (
        forall|i: int| 0 <= i < dense_entries.len() ==> amf3_encodable(#[trigger] dense_entries[i])),
        Amf3Model::Object { entries, .. } => forall|i: int|
            0 <= i < entries.len() ==> amf3_encodable(#[trigger] entries[i].1),
        Amf3Model::ObjectVector { entries, .. } => forall|i: int|
            0 <= i < entries.len() ==> amf3_encodable(#[trigger] entries[i]),
        Amf3Model::Dictionary { entries, .. } => forall|i: int|
            0 <= i < entries.len() ==> amf3_encodable(#[trigger] entries[i].0) && amf3_encodable(
                entries[i].1,
            ),
        _ => true,
    }
}

// ---------------------------------------------------------------------------------------
// Copying
// ---------------------------------------------------------------------------------------

/// Copies a string.
pub(crate) fn copy_string(s: &String) -> (r: String)
    ensures
        r@ == s@,
{
    s.clone()
}

/// Copies an optional string.
pub(crate) fn copy_opt_string(s: &Option<String>) -> (r: Option<String>)
    ensures
        opt_chars(r) == opt_chars(*s),
{
    match s {
        None => None,
        Some(s) => Some(s.clone()),
    }
}

impl Amf3Value {
    /// A deep copy with the same model.
    pub fn duplicate(&self) -> (r: Self)
        ensures
            r@ == self@,
        decreases self,
    {
        match self {
            Amf3Value::Undefined => Amf3Value::Undefined,
            Amf3Value::Null => Amf3Value::Null,
            Amf3Value::Boolean(b) => Amf3Value::Boolean(*b),
            Amf3Value::Integer(i) => Amf3Value::Integer(*i),
            Amf3Value::Double(d) => Amf3Value::Double(*d),
            Amf3Value::String(s) => Amf3Value::String(s.clone()),
            Amf3Value::XmlDocument(s) => Amf3Value::XmlDocument(s.clone()),
            Amf3Value::Date { unix_time } => Amf3Value::Date { unix_time: *unix_time },
            Amf3Value::Array { assoc_entries, dense_entries } => {
                let a = copy_pairs(assoc_entries, self);
                let d = copy_values(dense_entries, self);
                let r = Amf3Value::Array { assoc_entries: a, dense_entries: d };
                proof {
                    assert(amf3_view(r)->Array_assoc_entries =~= amf3_view(*self)->Array_assoc_entries);
                    assert(amf3_view(r)->Array_dense_entries =~= amf3_view(*self)->Array_dense_entries);
                }
                r
            },
            Amf3Value::Object { class_name, sealed_count, entries } => {
                let e = copy_pairs(entries, self);
                let r = Amf3Value::Object {
                    class_name: copy_opt_string(class_name),
                    sealed_count: *sealed_count,
                    entries: e,
                };
                proof {
                    assert(amf3_view(r)->Object_entries =~= amf3_view(*self)->Object_entries);
                }
                r
            },
            Amf3Value::Xml(s) => Amf3Value::Xml(s.clone()),
            Amf3Value::ByteArray(b) => Amf3Value::ByteArray(b.clone()),
            Amf3Value::IntVector { is_fixed, entries } => Amf3Value::IntVector {
                is_fixed: *is_fixed,
                entries: entries.clone(),
            },
            Amf3Value::UintVector { is_fixed, entries } => Amf3Value::UintVector {
                is_fixed: *is_fixed,
                entries: entries.clone(),
            },
            Amf3Value::DoubleVector { is_fixed, entries } => {
                let r = Amf3Value::DoubleVector { is_fixed: *is_fixed, entries: entries.clone() };
                proof {
                    assert(amf3_view(r)->DoubleVector_entries =~= amf3_view(*self)->DoubleVector_entries);
                }
                r
            },
            Amf3Value::ObjectVector { class_name, is_fixed, entries } => {
                let e = copy_values(entries, self);
                let r = Amf3Value::ObjectVector {
                    class_name: copy_opt_string(class_name),
                    is_fixed: *is_fixed,
                    entries: e,
                };
                proof {
                    assert(amf3_view(r)->ObjectVector_entries =~= amf3_view(*self)->ObjectVector_entries);
                }
                r
            },
            Amf3Value::Dictionary { is_weak, entries } => {
                let mut out: Vec<Pair<Amf3Value, Amf3Value>> = Vec::new();
                let mut i: usize = 0;
                while i < entries.len()
                    invariant
                        i <= entries@.len(),
                        out@.len() == i,
                        forall|j: int|
                            0 <= j < i ==> amf3_view(#[trigger] out@[j].key) == amf3_view(entries@[j].key)
                                && amf3_view(out@[j].value) == amf3_view(entries@[j].value),
                        *self == (Amf3Value::Dictionary { is_weak: *is_weak, entries: *entries }),
                    decreases entries.len() - i,
                {
                    proof {
                        assert(decreases_to!(*self => (*self)->Dictionary_entries));
                        assert(decreases_to!(*entries => entries@));
                        assert(decreases_to!(entries@ => entries@[i as int]));
                        assert(decreases_to!(entries@[i as int] => entries@[i as int].key));
                        assert(decreases_to!(entries@[i as int] => entries@[i as int].value));
                    }
                    let k = entries[i].key.duplicate();
                    let v = entries[i].value.duplicate();
                    out.push(Pair { key: k, value: v });
                    i = i + 1;
                }
                let r = Amf3Value::Dictionary { is_weak: *is_weak, entries: out };
                proof {
                    assert(amf3_view(r)->Dictionary_entries =~= amf3_view(*self)->Dictionary_entries);
                }
                r
            },
        }
    }
}

/// Copies key-value members of `parent`.
fn copy_pairs(entries: &Vec<Pair<String, Amf3Value>>, parent: &Amf3Value) -> (r: Vec<Pair<String, Amf3Value>>)
    requires
        (parent is Array && parent->Array_assoc_entries == *entries)
            || (parent is Object && parent->Object_entries == *entries),
    ensures
        r@.len() == entries@.len(),
        forall|j: int|
            0 <= j < entries@.len() ==> (#[trigger] r@[j]).key@ == entries@[j].key@ && amf3_view(r@[j].value)
                == amf3_view(entries@[j].value),
    decreases parent, 0nat,
{
    let mut out: Vec<Pair<String, Amf3Value>> = Vec::new();
    let mut i: usize = 0;
    while i < entries.len()
        invariant
            i <= entries@.len(),
            out@.len() == i,
            forall|j: int|
                0 <= j < i ==> (#[trigger] out@[j]).key@ == entries@[j].key@ && amf3_view(out@[j].value)
                    == amf3_view(entries@[j].value),
            (parent is Array && parent->Array_assoc_entries == *entries)
                || (parent is Object && parent->Object_entries == *entries),
        decreases entries.len() - i,
    {
        proof {
            if parent is Array {
                assert(decreases_to!(*parent => parent->Array_assoc_entries));
            } else {
                assert(decreases_to!(*parent => parent->Object_entries));
            }
            assert(decreases_to!(*entries => entries@));
            assert(decreases_to!(entries@ => entries@[i as int]));
            assert(decreases_to!(entries@[i as int] => entries@[i as int].value));
        }
        let k = entries[i].key.clone();
        let v = entries[i].value.duplicate();
        out.push(Pair { key: k, value: v });
        i = i + 1;
    }
    out
}

/// Copies the values of `parent`.
fn copy_values(entries: &Vec<Amf3Value>, parent: &Amf3Value) -> (r: Vec<Amf3Value>)
    requires
        (parent is Array && parent->Array_dense_entries == *entries)
            || (parent is ObjectVector && parent->ObjectVector_entries == *entries),
    ensures
        r@.len() == entries@.len(),
        forall|j: int| 0 <= j < entries@.len() ==> amf3_view(#[trigger] r@[j]) == amf3_view(entries@[j]),
    decreases parent, 0nat,
{
    let mut out: Vec<Amf3Value> = Vec::new();
    let mut i: usize = 0;
    while i < entries.len()
        invariant
            i <= entries@.len(),
            out@.len() == i,
            forall|j: int| 0 <= j < i ==> amf3_view(#[trigger] out@[j]) == amf3_view(entries@[j]),
            (parent is Array && parent->Array_dense_entries == *entries)
                || (parent is ObjectVector && parent->ObjectVector_entries == *entries),
        decreases entries.len() - i,
    {
        proof {
            if parent is Array {
                assert(decreases_to!(*parent => parent->Array_dense_entries));
            } else {
                assert(decreases_to!(*parent => parent->ObjectVector_entries));
            }
            assert(decreases_to!(*entries => entries@));
            assert(decreases_to!(entries@ => entries@[i as int]));
        }
        let v = entries[i].duplicate();
        out.push(v);
        i = i + 1;
    }
    out
}

// ---------------------------------------------------------------------------------------
// Encoder
// ---------------------------------------------------------------------------------------

/// Appends a 29-bit variable-length integer.
pub(crate) fn encode_u29(buf: &mut Vec<u8>, v: u32)
    ensures
        final(buf)@ == old(buf)@ + u29_bytes(v as int),
{
    if v < 0x80 {
        write_u8(buf, v as u8);
    } else if v < 0x4000 {
        write_u8(buf, (v / 0x80 + 0x80) as u8);
        write_u8(buf, (v % 0x80) as u8);
    } else if v < 0x20_0000 {
        write_u8(buf, (v / 0x4000 + 0x80) as u8);
        write_u8(buf, ((v / 0x80) % 0x80 + 0x80) as u8);
        write_u8(buf, (v % 0x80) as u8);
    } else {
        write_u8(buf, ((v / 0x40_0000) % 0x80 + 0x80) as u8);
        write_u8(buf, ((v / 0x8000) % 0x80 + 0x80) as u8);
        write_u8(buf, ((v / 0x100) % 0x80 + 0x80) as u8);
        write_u8(buf, (v % 0x100) as u8);
    }
    assert(buf@ =~= old(buf)@ + u29_bytes(v as int));
}

/// Appends a size.
pub(crate) fn encode_size(buf: &mut Vec<u8>, n: u64)
    ensures
        final(buf)@ == old(buf)@ + size_bytes(n as int),
{
    let v = ((n % 0x8000_0000) * 2 + 1) as u32;
    encode_u29(buf, v);
}

/// Appends an inline string.
pub(crate) fn encode_str(buf: &mut Vec<u8>, s: &str)
    ensures
        final(buf)@ == old(buf)@ + utf8_bytes(s@),
{
    let b = s.as_bytes();
    encode_size(buf, b.len() as u64);
    write_bytes(buf, b);
    assert(buf@ =~= old(buf)@ + utf8_bytes(s@));
}

impl Amf3Value {
    /// Appends the encoding of this value.
    pub fn encode(&self, buf: &mut Vec<u8>)
        requires
            amf3_encodable(self@),
        ensures
            final(buf)@ == old(buf)@ + amf3_bytes(self@),
    {
        encode_value(buf, self);
    }
}

/// Appends the encoding of `v`.
fn encode_value(buf: &mut Vec<u8>, v: &Amf3Value)
    requires
        amf3_encodable(v@),
    ensures
        final(buf)@ == old(buf)@ + amf3_bytes(v@),
    decreases v, 2nat,
{
    match v {
        Amf3Value::Array { .. } => encode_array(buf, v),
        Amf3Value::Object { .. } => encode_object(buf, v),
        Amf3Value::Dictionary { .. } => encode_dictionary(buf, v),
        Amf3Value::ObjectVector { .. } => encode_object_vector(buf, v),
        _ => encode_scalar(buf, v),
    }
}

/// Appends the encoding of a value that holds no other values.
fn encode_scalar(buf: &mut Vec<u8>, v: &Amf3Value)
    requires
        amf3_encodable(v@),
        !(v is Array || v is Object || v is Dictionary || v is ObjectVector),
    ensures
        final(buf)@ == old(buf)@ + amf3_bytes(v@),
{
    let ghost start = buf@;
    match v {
        Amf3Value::Undefined => write_u8(buf, MARKER_UNDEFINED),
        Amf3Value::Null => write_u8(buf, MARKER_NULL),
        Amf3Value::Boolean(b) => write_u8(buf, if *b { MARKER_TRUE } else { MARKER_FALSE }),
        Amf3Value::Integer(i) => {
            write_u8(buf, MARKER_INTEGER);
            let u = if *i >= 0 {
                *i as u32
            } else {
                (0x2000_0000i32 + *i) as u32
            };
            encode_u29(buf, u);
        },
        Amf3Value::Double(d) => {
            write_u8(buf, MARKER_DOUBLE);
            write_u64(buf, d.0);
        },
        Amf3Value::String(s) => {
            write_u8(buf, MARKER_STRING);
            encode_str(buf, s.as_str());
        },
        Amf3Value::XmlDocument(s) => {
            write_u8(buf, MARKER_XML_DOCUMENT);
            encode_str(buf, s.as_str());
        },
        Amf3Value::Date { unix_time } => {
            write_u8(buf, MARKER_DATE);
            encode_size(buf, 0);
            let f = Float64::from_u128(duration_millis(*unix_time));
            write_u64(buf, f.0);
        },
        Amf3Value::Xml(s) => {
            write_u8(buf, MARKER_XML);
            encode_str(buf, s.as_str());
        },
        Amf3Value::ByteArray(b) => {
            write_u8(buf, MARKER_BYTE_ARRAY);
            encode_size(buf, b.len() as u64);
            write_bytes(buf, b.as_slice());
        },
        Amf3Value::IntVector { is_fixed, entries } => {
            write_u8(buf, MARKER_INT_VECTOR);
            encode_size(buf, entries.len() as u64);
            write_u8(buf, if *is_fixed { 1 } else { 0 });
            encode_i32s(buf, entries);
        },
        Amf3Value::UintVector { is_fixed, entries } => {
            write_u8(buf, MARKER_UINT_VECTOR);
            encode_size(buf, entries.len() as u64);
            write_u8(buf, if *is_fixed { 1 } else { 0 });
            encode_u32s(buf, entries);
        },
        Amf3Value::DoubleVector { is_fixed, entries } => {
            write_u8(buf, MARKER_DOUBLE_VECTOR);
            encode_size(buf, entries.len() as u64);
            write_u8(buf, if *is_fixed { 1 } else { 0 });
            encode_doubles(buf, entries);
        },
        _ => {},
    }
    assert(buf@ =~= start + amf3_bytes(v@));
}

/// Appends a vector of values.
#[verifier::rlimit(40)]
fn encode_object_vector(buf: &mut Vec<u8>, v: &Amf3Value)
    requires
        v is ObjectVector,
        amf3_encodable(v@),
    ensures
        final(buf)@ == old(buf)@ + amf3_bytes(v@),
    decreases v, 1nat,
{
    let ghost start = buf@;
    match v {
        Amf3Value::ObjectVector { class_name, is_fixed, entries } => {
            write_u8(buf, MARKER_OBJECT_VECTOR);
            encode_size(buf, entries.len() as u64);
            write_u8(buf, if *is_fixed { 1 } else { 0 });
            let ghost m1 = buf@;
            match class_name {
                None => {
                    encode_str(buf, "*");
                    proof {
                        reveal_strlit("*");
                        assert("*"@ =~= seq!['*']);
                    }
                },
                Some(c) => encode_str(buf, c.as_str()),
            }
            let ghost mid = buf@;
            assert(mid == m1 + opt_name_bytes(opt_chars(*class_name), seq!['*']));
            encode_values(buf, entries, v);
            assert(values_model(*v) == amf3_view(*v)->ObjectVector_entries);
            assert(values_model(*v).len() == entries@.len());
            assert(buf@ == mid + amf3_seq_bytes(values_model(*v), values_model(*v).len() as int));
        },
        _ => {},
    }
    assert(buf@ =~= start + amf3_bytes(v@));
}

/// Appends an array.
fn encode_array(buf: &mut Vec<u8>, v: &Amf3Value)
    requires
        v is Array,
        amf3_encodable(v@),
    ensures
        final(buf)@ == old(buf)@ + amf3_bytes(v@),
    decreases v, 1nat,
{
    let ghost start = buf@;
    match v {
        Amf3Value::Array { assoc_entries, dense_entries } => {
            write_u8(buf, MARKER_ARRAY);
            encode_size(buf, dense_entries.len() as u64);
            encode_pairs_range(buf, assoc_entries, 0, assoc_entries.len(), v);
            encode_str(buf, "");
            encode_values(buf, dense_entries, v);
            proof {
                reveal_strlit("");
            }
        },
        _ => {},
    }
    assert(buf@ =~= start + amf3_bytes(v@));
}

/// Appends an object.
#[verifier::rlimit(40)]
fn encode_object(buf: &mut Vec<u8>, v: &Amf3Value)
    requires
        v is Object,
        amf3_encodable(v@),
    ensures
        final(buf)@ == old(buf)@ + amf3_bytes(v@),
    decreases v, 1nat,
{
    let ghost start = buf@;
    match v {
        Amf3Value::Object { class_name, sealed_count, entries } => {
            write_u8(buf, MARKER_OBJECT);
            let n = if *sealed_count < entries.len() {
                *sealed_count
            } else {
                entries.len()
            };
            let dynamic: u64 = if *sealed_count < entries.len() { 4 } else { 0 };
            let w = ((*sealed_count as u64) % 0x1000_0000) * 8 + dynamic + 1;
            proof {
                lemma_trait_word_mod(*sealed_count as int, dynamic as int);
            }
            encode_size(buf, w);
            match class_name {
                None => encode_str(buf, ""),
                Some(c) => encode_str(buf, c.as_str()),
            }
            encode_keys(buf, entries, n, v);
            encode_member_values(buf, entries, n, v);
            if entries.len() > *sealed_count {
                encode_pairs_range(buf, entries, n, entries.len(), v);
                encode_str(buf, "");
            }
            proof {
                reveal_strlit("");
            }
        },
        _ => {},
    }
    assert(buf@ =~= start + amf3_bytes(v@));
}

/// Appends a dictionary.
fn encode_dictionary(buf: &mut Vec<u8>, v: &Amf3Value)
    requires
        v is Dictionary,
        amf3_encodable(v@),
    ensures
        final(buf)@ == old(buf)@ + amf3_bytes(v@),
    decreases v, 1nat,
{
    let ghost start = buf@;
    match v {
        Amf3Value::Dictionary { is_weak, entries } => {
            write_u8(buf, MARKER_DICTIONARY);
            encode_size(buf, entries.len() as u64);
            write_u8(buf, if *is_weak { 1 } else { 0 });
            let ghost ms = amf3_view(*v)->Dictionary_entries;
            let ghost mid = buf@;
            let mut i: usize = 0;
            while i < entries.len()
                invariant
                    i <= entries@.len(),
                    ms == amf3_view(*v)->Dictionary_entries,
                    *v == (Amf3Value::Dictionary { is_weak: *is_weak, entries: *entries }),
                    amf3_encodable(v@),
                    buf@ == mid + amf3_dict_bytes(ms, i as int),
                decreases entries.len() - i,
            {
                proof {
                    assert(decreases_to!(*v => (*v)->Dictionary_entries));
                    assert(decreases_to!(*entries => entries@));
                    assert(decreases_to!(entries@ => entries@[i as int]));
                    assert(decreases_to!(entries@[i as int] => entries@[i as int].key));
                    assert(decreases_to!(entries@[i as int] => entries@[i as int].value));
                    assert(ms[i as int] == (amf3_view(entries@[i as int].key), amf3_view(entries@[i as int].value)));
                    assert(amf3_encodable(ms[i as int].0));
                }
                encode_value(buf, &entries[i].key);
                encode_value(buf, &entries[i].value);
                i = i + 1;
            }
        },
        _ => {},
    }
    assert(buf@ =~= start + amf3_bytes(v@));
}

/// Appends big-endian `i32`s.
fn encode_i32s(buf: &mut Vec<u8>, entries: &Vec<i32>)
    ensures
        final(buf)@ == old(buf)@ + i32s_bytes(entries@),
{
    let ghost start = buf@;
    let mut i: usize = 0;
    while i < entries.len()
        invariant
            i <= entries@.len(),
            buf@ == start + i32s_bytes(entries@.take(i as int)),
        decreases entries.len() - i,
    {
        write_i32(buf, entries[i]);
        proof {
            assert(entries@.take(i + 1).drop_last() =~= entries@.take(i as int));
        }
        i = i + 1;
    }
    assert(entries@.take(entries@.len() as int) =~= entries@);
}

/// Appends big-endian `u32`s.
fn encode_u32s(buf: &mut Vec<u8>, entries: &Vec<u32>)
    ensures
        final(buf)@ == old(buf)@ + u32s_bytes(entries@),
{
    let ghost start = buf@;
    let mut i: usize = 0;
    while i < entries.len()
        invariant
            i <= entries@.len(),
            buf@ == start + u32s_bytes(entries@.take(i as int)),
        decreases entries.len() - i,
    {
        write_u32(buf, entries[i]);
        proof {
            assert(entries@.take(i + 1).drop_last() =~= entries@.take(i as int));
        }
        i = i + 1;
    }
    assert(entries@.take(entries@.len() as int) =~= entries@);
}

/// Appends the bit patterns of doubles.
fn encode_doubles(buf: &mut Vec<u8>, entries: &Vec<Float64>)
    ensures
        final(buf)@ == old(buf)@ + u64s_bytes(Seq::new(entries@.len(), |i: int| entries@[i].0)),
{
    let ghost start = buf@;
    let ghost m = Seq::new(entries@.len(), |i: int| entries@[i].0);
    let mut i: usize = 0;
    while i < entries.len()
        invariant
            i <= entries@.len(),
            m == Seq::new(entries@.len(), |i: int| entries@[i].0),
            buf@ == start + u64s_bytes(m.take(i as int)),
        decreases entries.len() - i,
    {
        write_u64(buf, entries[i].0);
        proof {
            assert(m.take(i + 1).drop_last() =~= m.take(i as int));
        }
        i = i + 1;
    }
    assert(m.take(m.len() as int) =~= m);
}

/// The trait word written for `sealed_count` agrees with its form modulo `2^31`.
proof fn lemma_trait_word_mod(sealed_count: int, dynamic: int)
    requires
        0 <= sealed_count,
        0 <= dynamic < 8,
    ensures
        ((sealed_count % 0x1000_0000) * 8 + dynamic + 1) % 0x8000_0000 == (sealed_count * 8 + dynamic + 1)
            % 0x8000_0000,
{
    assert(((sealed_count % 0x1000_0000) * 8 + dynamic + 1) % 0x8000_0000 == (sealed_count * 8 + dynamic
        + 1) % 0x8000_0000) by (nonlinear_arith)
        requires
            0 <= sealed_count,
            0 <= dynamic < 8,
    ;
}

/// Appends the members `lo..hi` of `parent`'s `entries`, keys and values.
fn encode_pairs_range(
    buf: &mut Vec<u8>,
    entries: &Vec<Pair<String, Amf3Value>>,
    lo: usize,
    hi: usize,
    parent: &Amf3Value,
)
    requires
        lo <= hi <= entries@.len(),
        (parent is Array && parent->Array_assoc_entries == *entries)
            || (parent is Object && parent->Object_entries == *entries),
        amf3_encodable(parent@),
    ensures
        final(buf)@ == old(buf)@ + amf3_pairs_bytes(pairs_model(*parent), lo as int, hi as int),
    decreases parent, 0nat,
{
    let ghost ms = pairs_model(*parent);
    let ghost start = buf@;
    let mut i: usize = lo;
    while i < hi
        invariant
            lo <= i <= hi <= entries@.len(),
            ms == pairs_model(*parent),
            (parent is Array && parent->Array_assoc_entries == *entries)
                || (parent is Object && parent->Object_entries == *entries),
            amf3_encodable(parent@),
            buf@ == start + amf3_pairs_bytes(ms, lo as int, i as int),
        decreases hi - i,
    {
        proof {
            if parent is Array {
                assert(decreases_to!(*parent => parent->Array_assoc_entries));
            } else {
                assert(decreases_to!(*parent => parent->Object_entries));
            }
            assert(decreases_to!(*entries => entries@));
            assert(decreases_to!(entries@ => entries@[i as int]));
            assert(decreases_to!(entries@[i as int] => entries@[i as int].value));
            assert(ms[i as int] == (entries@[i as int].key@, amf3_view(entries@[i as int].value)));
            assert(amf3_encodable(ms[i as int].1));
        }
        encode_str(buf, entries[i].key.as_str());
        encode_value(buf, &entries[i].value);
        i = i + 1;
    }
}

/// Appends the keys of the first `n` members.
fn encode_keys(buf: &mut Vec<u8>, entries: &Vec<Pair<String, Amf3Value>>, n: usize, parent: &Amf3Value)
    requires
        n <= entries@.len(),
        parent is Object && parent->Object_entries == *entries,
    ensures
        final(buf)@ == old(buf)@ + amf3_keys_bytes(pairs_model(*parent), n as int),
{
    let ghost ms = pairs_model(*parent);
    let ghost start = buf@;
    let mut i: usize = 0;
    while i < n
        invariant
            i <= n <= entries@.len(),
            ms == pairs_model(*parent),
            parent is Object && parent->Object_entries == *entries,
            buf@ == start + amf3_keys_bytes(ms, i as int),
        decreases n - i,
    {
        proof {
            assert(ms[i as int].0 == entries@[i as int].key@);
        }
        encode_str(buf, entries[i].key.as_str());
        i = i + 1;
    }
}

/// Appends the values of the first `n` members.
fn encode_member_values(
    buf: &mut Vec<u8>,
    entries: &Vec<Pair<String, Amf3Value>>,
    n: usize,
    parent: &Amf3Value,
)
    requires
        n <= entries@.len(),
        parent is Object && parent->Object_entries == *entries,
        amf3_encodable(parent@),
    ensures
        final(buf)@ == old(buf)@ + amf3_member_values_bytes(pairs_model(*parent), n as int),
    decreases parent, 0nat,
{
    let ghost ms = pairs_model(*parent);
    let ghost start = buf@;
    let mut i: usize = 0;
    while i < n
        invariant
            i <= n <= entries@.len(),
            ms == pairs_model(*parent),
            parent is Object && parent->Object_entries == *entries,
            amf3_encodable(parent@),
            buf@ == start + amf3_member_values_bytes(ms, i as int),
        decreases n - i,
    {
        proof {
            assert(decreases_to!(*parent => parent->Object_entries));
            assert(decreases_to!(*entries => entries@));
            assert(decreases_to!(entries@ => entries@[i as int]));
            assert(decreases_to!(entries@[i as int] => entries@[i as int].value));
            assert(ms[i as int] == (entries@[i as int].key@, amf3_view(entries@[i as int].value)));
            assert(amf3_encodable(ms[i as int].1));
        }
        encode_value(buf, &entries[i].value);
        i = i + 1;
    }
}

/// Appends the values of `parent`'s value list.
fn encode_values(buf: &mut Vec<u8>, entries: &Vec<Amf3Value>, parent: &Amf3Value)
    requires
        (parent is Array && parent->Array_dense_entries == *entries)
            || (parent is ObjectVector && parent->ObjectVector_entries == *entries),
        amf3_encodable(parent@),
    ensures
        final(buf)@ == old(buf)@ + amf3_seq_bytes(values_model(*parent), entries@.len() as int),
    decreases parent, 0nat,
{
    let ghost ms = values_model(*parent);
    let ghost start = buf@;
    let mut i: usize = 0;
    while i < entries.len()
        invariant
            i <= entries@.len(),
            ms == values_model(*parent),
            (parent is Array && parent->Array_dense_entries == *entries)
                || (parent is ObjectVector && parent->ObjectVector_entries == *entries),
            amf3_encodable(parent@),
            buf@ == start + amf3_seq_bytes(ms, i as int),
        decreases entries.len() - i,
    {
        proof {
            if parent is Array {
                assert(decreases_to!(*parent => parent->Array_dense_entries));
            } else {
                assert(decreases_to!(*parent => parent->ObjectVector_entries));
            }
            assert(decreases_to!(*entries => entries@));
            assert(decreases_to!(entries@ => entries@[i as int]));
            assert(ms[i as int] == amf3_view(entries@[i as int]));
            assert(amf3_encodable(ms[i as int]));
        }
        encode_value(buf, &entries[i]);
        i = i + 1;
    }
}

/// The member list of an array's associative part or of an object.
pub open spec fn pairs_model(v: Amf3Value) -> Seq<(Seq<char>, Amf3Model)> {
    match amf3_view(v) {
        Amf3Model::Array { assoc_entries, .. } => assoc_entries,
        Amf3Model::Object { entries, .. } => entries,
        _ => Seq::empty(),
    }
}

/// The value list of an array's dense part or of a vector of values.
pub open spec fn values_model(v: Amf3Value) -> Seq<Amf3Model> {
    match amf3_view(v) {
        Amf3Model::Array { dense_entries, .. } => dense_entries,
        Amf3Model::ObjectVector { entries, .. } => entries,
        _ => Seq::empty(),
    }
}

// ---------------------------------------------------------------------------------------
// Decoding: the specification
// ---------------------------------------------------------------------------------------

/// An object's traits: class name, whether it has dynamic members, sealed member names.
#[verifier::ext_equal]
pub struct TraitModel {
    pub class_name: Option<Seq<char>>,
    pub is_dynamic: bool,
    pub fields: Seq<Seq<char>>,
}

/// What a decoder has seen so far and later data can refer back to.
#[verifier::ext_equal]
pub struct Amf3Tables {
    pub strings: Seq<Seq<char>>,
    pub complexes: Seq<Amf3Model>,
    pub traits: Seq<TraitModel>,
}

/// Tables of a fresh decoder.
pub open spec fn empty_tables() -> Amf3Tables {
    Amf3Tables { strings: Seq::empty(), complexes: Seq::empty(), traits: Seq::empty() }
}

/// A 29-bit variable-length integer at `p`: the bytes it takes and its value.
pub open spec fn parse_u29(b: Seq<u8>, p: int) -> Result<(nat, nat), ErrorKind> {
    if p + 1 > b.len() {
        Err(ErrorKind::InsufficientBuffer)
    } else if b[p] < 0x80 {
        Ok((1, b[p] as nat))
    } else if p + 2 > b.len() {
        Err(ErrorKind::InsufficientBuffer)
    } else {
        let n2 = (b[p] % 0x80) as nat * 0x80 + (b[p + 1] % 0x80) as nat;
        if b[p + 1] < 0x80 {
            Ok((2, n2))
        } else if p + 3 > b.len() {
            Err(ErrorKind::InsufficientBuffer)
        } else {
            let n3 = n2 * 0x80 + (b[p + 2] % 0x80) as nat;
            if b[p + 2] < 0x80 {
                Ok((3, n3))
            } else if p + 4 > b.len() {
                Err(ErrorKind::InsufficientBuffer)
            } else {
                Ok((4, n3 * 0x100 + b[p + 3] as nat))
            }
        }
    }
}

/// A string at `p`, inline or by reference to an earlier one.
pub open spec fn parse_str(b: Seq<u8>, p: int, t: Amf3Tables) -> Result<(int, Seq<char>, Amf3Tables), ErrorKind> {
    match parse_u29(b, p) {
        Err(e) => Err(e),
        Ok((k, u)) => {
            let q = p + k;
            if u % 2 == 0 {
                if u / 2 < t.strings.len() {
                    Ok((q, t.strings[(u / 2) as int], t))
                } else {
                    Err(ErrorKind::InvalidData)
                }
            } else {
                let len = (u / 2) as int;
                if q + len > b.len() {
                    Err(ErrorKind::InsufficientBuffer)
                } else if !valid_utf8(b.subrange(q, q + len)) {
                    Err(ErrorKind::InvalidData)
                } else {
                    let s = decode_utf8(b.subrange(q, q + len));
                    Ok((
                        q + len,
                        s,
                        if len > 0 {
                            Amf3Tables { strings: t.strings.push(s), ..t }
                        } else {
                            t
                        },
                    ))
                }
            }
        },
    }
}

/// `n` strings at `p`.
pub open spec fn parse_strs(b: Seq<u8>, p: int, t: Amf3Tables, n: nat) -> Result<(int, Seq<Seq<char>>, Amf3Tables), ErrorKind>
    decreases n,
{
    if n == 0 {
        Ok((p, Seq::empty(), t))
    } else {
        match parse_strs(b, p, t, (n - 1) as nat) {
            Err(e) => Err(e),
            Ok((p1, ss, t1)) => match parse_str(b, p1, t1) {
                Err(e) => Err(e),
                Ok((p2, s, t2)) => Ok((p2, ss.push(s), t2)),
            },
        }
    }
}

/// An object's traits, given the flag word `u28`.
pub open spec fn parse_trait(b: Seq<u8>, p: int, t: Amf3Tables, u28: nat) -> Result<(int, TraitModel, Amf3Tables), ErrorKind> {
    if u28 % 2 == 0 {
        if u28 / 2 < t.traits.len() {
            Ok((p, t.traits[(u28 / 2) as int], t))
        } else {
            Err(ErrorKind::InvalidData)
        }
    } else if (u28 / 2) % 2 == 1 {
        Err(ErrorKind::Unsupported)
    } else {
        match parse_str(b, p, t) {
            Err(e) => Err(e),
            Ok((p1, class_name, t1)) => match parse_strs(b, p1, t1, u28 / 8) {
                Err(e) => Err(e),
                Ok((p2, fields, t2)) => {
                    let tr = TraitModel {
                        class_name: if class_name.len() == 0 { None } else { Some(class_name) },
                        is_dynamic: (u28 / 4) % 2 == 1,
                        fields,
                    };
                    Ok((p2, tr, Amf3Tables { traits: t2.traits.push(tr), ..t2 }))
                },
            },
        }
    }
}

/// The double at `p`.
pub open spec fn parse_f64(b: Seq<u8>, p: int) -> Result<(int, u64), ErrorKind> {
    if p + 8 > b.len() {
        Err(ErrorKind::InsufficientBuffer)
    } else {
        Ok((p + 8, be64(b, p) as u64))
    }
}

/// The milliseconds of a date given as a double, if it is a valid date.
pub open spec fn date_millis(bits: u64) -> Option<u128> {
    let f = Float64(bits);
    if !f.finite() || f.sign() {
        None
    } else if f.trunc() > u64::MAX {
        Some(u64::MAX as u128)
    } else {
        Some(f.trunc() as u128)
    }
}

/// Pairs the names of sealed members with their values.
pub open spec fn zip_members(keys: Seq<Seq<char>>, values: Seq<Amf3Model>) -> Seq<(Seq<char>, Amf3Model)> {
    Seq::new(keys.len(), |i: int| (keys[i], values[i]))
}

/// Replaces the placeholder of the complex value at `idx`.
pub open spec fn set_complex(t: Amf3Tables, idx: int, v: Amf3Model) -> Amf3Tables {
    Amf3Tables { complexes: t.complexes.update(idx, v), ..t }
}

/// Reserves a place for a complex value being decoded.
pub open spec fn reserve_complex(t: Amf3Tables) -> Amf3Tables {
    Amf3Tables { complexes: t.complexes.push(Amf3Model::Null), ..t }
}

/// A value at `p` whose marker `m` (at `p - 1`) is not that of a complex value.
pub open spec fn parse_simple(b: Seq<u8>, q: int, t: Amf3Tables, m: u8) -> Result<(int, Amf3Model, Amf3Tables), ErrorKind> {
    if m == MARKER_UNDEFINED {
        Ok((q, Amf3Model::Undefined, t))
    } else if m == MARKER_NULL {
        Ok((q, Amf3Model::Null, t))
    } else if m == MARKER_FALSE {
        Ok((q, Amf3Model::Boolean(false), t))
    } else if m == MARKER_TRUE {
        Ok((q, Amf3Model::Boolean(true), t))
    } else if m == MARKER_INTEGER {
        match parse_u29(b, q) {
            Err(e) => Err(e),
            Ok((k, u)) => Ok((
                q + k,
                Amf3Model::Integer(
                    (if u >= 0x1000_0000 {
                        u - 0x2000_0000
                    } else {
                        u as int
                    }) as i32,
                ),
                t,
            )),
        }
    } else if m == MARKER_DOUBLE {
        match parse_f64(b, q) {
            Err(e) => Err(e),
            Ok((q2, d)) => Ok((q2, Amf3Model::Double(d), t)),
        }
    } else if m == MARKER_STRING {
        match parse_str(b, q, t) {
            Err(e) => Err(e),
            Ok((q2, s, t2)) => Ok((q2, Amf3Model::String(s), t2)),
        }
    } else {
        Err(ErrorKind::InvalidData)
    }
}

/// The value at `p`.
pub open spec fn parse_value(b: Seq<u8>, p: int, t: Amf3Tables) -> Result<(int, Amf3Model, Amf3Tables), ErrorKind>
    decreases b.len() - p, 0int,
{
    if p < 0 || p + 1 > b.len() {
        Err(ErrorKind::InsufficientBuffer)
    } else if MARKER_XML_DOCUMENT <= b[p] <= MARKER_DICTIONARY {
        parse_complex(b, p + 1, t, b[p])
    } else {
        parse_simple(b, p + 1, t, b[p])
    }
}

/// A complex value with marker `m`, from its reference or inline length at `q`.
pub open spec fn parse_complex(b: Seq<u8>, q: int, t: Amf3Tables, m: u8) -> Result<(int, Amf3Model, Amf3Tables), ErrorKind>
    decreases b.len() - q, 5int,
{
    match parse_u29(b, q) {
        Err(e) => Err(e),
        Ok((k, u)) => {
            let q1 = q + k;
            if u % 2 == 0 {
                let idx = u / 2;
                if idx >= t.complexes.len() {
                    Err(ErrorKind::InvalidData)
                } else if t.complexes[idx as int] is Null {
                    Err(ErrorKind::Unsupported)
                } else {
                    Ok((q1, t.complexes[idx as int], t))
                }
            } else {
                let idx = t.complexes.len() as int;
                match parse_complex_body(b, q1, reserve_complex(t), m, u / 2) {
                    Err(e) => Err(e),
                    Ok((q2, v, t2)) => Ok((q2, v, set_complex(t2, idx, v))),
                }
            }
        },
    }
}

/// The body of a complex value that holds no other values (marker `m`, inline length
/// `len`), at `p`.
#[verifier::opaque]
pub open spec fn parse_flat_body(b: Seq<u8>, p: int, m: u8, len: nat) -> Result<(int, Amf3Model), ErrorKind> {
    if m == MARKER_XML_DOCUMENT || m == MARKER_XML {
        if p + len > b.len() {
            Err(ErrorKind::InsufficientBuffer)
        } else if !valid_utf8(b.subrange(p, p + len)) {
            Err(ErrorKind::InvalidData)
        } else {
            let s = decode_utf8(b.subrange(p, p + len));
            Ok((p + len, if m == MARKER_XML { Amf3Model::Xml(s) } else { Amf3Model::XmlDocument(s) }))
        }
    } else if m == MARKER_DATE {
        match parse_f64(b, p) {
            Err(e) => Err(e),
            Ok((p2, d)) => match date_millis(d) {
                None => Err(ErrorKind::InvalidData),
                Some(ms) => Ok((p2, Amf3Model::Date { unix_time: duration_of_millis(ms as u64) })),
            },
        }
    } else if m == MARKER_BYTE_ARRAY {
        if p + len > b.len() {
            Err(ErrorKind::InsufficientBuffer)
        } else {
            Ok((p + len, Amf3Model::ByteArray(b.subrange(p, p + len))))
        }
    } else {
        let w: int = if m == MARKER_DOUBLE_VECTOR { 8 } else { 4 };
        if p + 1 > b.len() || p + 1 + w * len > b.len() {
            Err(ErrorKind::InsufficientBuffer)
        } else {
            let is_fixed = b[p] != 0;
            let q = p + 1;
            Ok((
                q + w * len,
                if m == MARKER_INT_VECTOR {
                    Amf3Model::IntVector {
                        is_fixed,
                        entries: Seq::new(len, |i: int| i32_value(be32(b, q + 4 * i)) as i32),
                    }
                } else if m == MARKER_UINT_VECTOR {
                    Amf3Model::UintVector {
                        is_fixed,
                        entries: Seq::new(len, |i: int| be32(b, q + 4 * i) as u32),
                    }
                } else {
                    Amf3Model::DoubleVector {
                        is_fixed,
                        entries: Seq::new(len, |i: int| be64(b, q + 8 * i) as u64),
                    }
                },
            ))
        }
    }
}

/// Whether values with marker `m` hold other values.
pub open spec fn is_container_marker(m: u8) -> bool {
    m == MARKER_ARRAY || m == MARKER_OBJECT || m == MARKER_OBJECT_VECTOR || m == MARKER_DICTIONARY
}

/// The body of a complex value with marker `m` and inline length or flag word `len`, at
/// `p`.
pub open spec fn parse_complex_body(b: Seq<u8>, p: int, t: Amf3Tables, m: u8, len: nat) -> Result<(int, Amf3Model, Amf3Tables), ErrorKind>
    decreases b.len() - p, 4int,
{
    if p < 0 || p > b.len() {
        Err(ErrorKind::InsufficientBuffer)
    } else if !is_container_marker(m) {
        match parse_flat_body(b, p, m, len) {
            Err(e) => Err(e),
            Ok((p2, v)) => Ok((p2, v, t)),
        }
    } else if m == MARKER_ARRAY {
        parse_array_body(b, p, t, len)
    } else if m == MARKER_OBJECT {
        parse_object_body(b, p, t, len)
    } else if p + 1 > b.len() {
        Err(ErrorKind::InsufficientBuffer)
    } else if m == MARKER_OBJECT_VECTOR {
        parse_object_vector_body(b, p, t, len)
    } else {
        match parse_dict(b, p + 1, t, len) {
            Err(e) => Err(e),
            Ok((p2, entries, t2)) => Ok(
                (p2, Amf3Model::Dictionary { is_weak: b[p] == 1, entries }, t2),
            ),
        }
    }
}

/// The body of an array with `len` dense entries, at `p`.
#[verifier::opaque]
pub open spec fn parse_array_body(b: Seq<u8>, p: int, t: Amf3Tables, len: nat) -> Result<(int, Amf3Model, Amf3Tables), ErrorKind>
    decreases b.len() - p, 3int,
{
    if p < 0 || p > b.len() {
        Err(ErrorKind::InsufficientBuffer)
    } else {
        match parse_pairs(b, p, t) {
            Err(e) => Err(e),
            Ok((p2, assoc, t2)) => if p2 < p || p2 > b.len() {
                Err(ErrorKind::InvalidData)
            } else {
                match parse_values(b, p2, t2, len) {
                    Err(e) => Err(e),
                    Ok((p3, dense, t3)) => Ok(
                        (p3, Amf3Model::Array { assoc_entries: assoc, dense_entries: dense }, t3),
                    ),
                }
            },
        }
    }
}

/// The body of an object with flag word `len`, at `p`.
#[verifier::opaque]
pub open spec fn parse_object_body(b: Seq<u8>, p: int, t: Amf3Tables, len: nat) -> Result<(int, Amf3Model, Amf3Tables), ErrorKind>
    decreases b.len() - p, 3int,
{
    if p < 0 || p > b.len() {
        Err(ErrorKind::InsufficientBuffer)
    } else {
        match parse_trait(b, p, t, len) {
            Err(e) => Err(e),
            Ok((p2, tr, t2)) => if p2 < p || p2 > b.len() {
                Err(ErrorKind::InvalidData)
            } else {
                match parse_values(b, p2, t2, tr.fields.len()) {
                    Err(e) => Err(e),
                    Ok((p3, vals, t3)) => {
                        let sealed = zip_members(tr.fields, vals);
                        if !tr.is_dynamic {
                            Ok(
                                (
                                    p3,
                                    Amf3Model::Object {
                                        class_name: tr.class_name,
                                        sealed_count: tr.fields.len(),
                                        entries: sealed,
                                    },
                                    t3,
                                ),
                            )
                        } else if p3 < p || p3 > b.len() {
                            Err(ErrorKind::InvalidData)
                        } else {
                            match parse_pairs(b, p3, t3) {
                                Err(e) => Err(e),
                                Ok((p4, dynamic, t4)) => Ok(
                                    (
                                        p4,
                                        Amf3Model::Object {
                                            class_name: tr.class_name,
                                            sealed_count: tr.fields.len(),
                                            entries: sealed + dynamic,
                                        },
                                        t4,
                                    ),
                                ),
                            }
                        }
                    },
                }
            },
        }
    }
}

/// The body of a vector of `len` values, at `p` (its fixed flag is at `p`).
#[verifier::opaque]
pub open spec fn parse_object_vector_body(b: Seq<u8>, p: int, t: Amf3Tables, len: nat) -> Result<(int, Amf3Model, Amf3Tables), ErrorKind>
    decreases b.len() - p, 3int,
{
    if p < 0 || p + 1 > b.len() {
        Err(ErrorKind::InsufficientBuffer)
    } else {
        match parse_str(b, p + 1, t) {
            Err(e) => Err(e),
            Ok((p2, name, t2)) => if p2 < p || p2 > b.len() {
                Err(ErrorKind::InvalidData)
            } else {
                match parse_values(b, p2, t2, len) {
                    Err(e) => Err(e),
                    Ok((p3, vals, t3)) => Ok(
                        (
                            p3,
                            Amf3Model::ObjectVector {
                                class_name: if name == seq!['*'] { None } else { Some(name) },
                                is_fixed: b[p] != 0,
                                entries: vals,
                            },
                            t3,
                        ),
                    ),
                }
            },
        }
    }
}

/// Key-value members at `p`, up to and including the empty key that ends them.
#[verifier::opaque]
pub open spec fn parse_pairs(b: Seq<u8>, p: int, t: Amf3Tables) -> Result<(int, Seq<(Seq<char>, Amf3Model)>, Amf3Tables), ErrorKind>
    decreases b.len() - p, 1int,
{
    if p < 0 || p > b.len() {
        Err(ErrorKind::InsufficientBuffer)
    } else {
        match parse_str(b, p, t) {
            Err(e) => Err(e),
            Ok((p1, key, t1)) => if key.len() == 0 {
                Ok((p1, Seq::empty(), t1))
            } else if p1 <= p || p1 > b.len() {
                Err(ErrorKind::InvalidData)
            } else {
                match parse_value(b, p1, t1) {
                    Err(e) => Err(e),
                    Ok((p2, v, t2)) => if p2 <= p1 || p2 > b.len() {
                        Err(ErrorKind::InvalidData)
                    } else {
                        match parse_pairs(b, p2, t2) {
                            Err(e) => Err(e),
                            Ok((p3, rest, t3)) => Ok((p3, seq![(key, v)] + rest, t3)),
                        }
                    },
                }
            },
        }
    }
}

/// `n` values at `p`.
#[verifier::opaque]
pub open spec fn parse_values(b: Seq<u8>, p: int, t: Amf3Tables, n: nat) -> Result<(int, Seq<Amf3Model>, Amf3Tables), ErrorKind>
    decreases b.len() - p, 1int,
{
    if n == 0 {
        Ok((p, Seq::empty(), t))
    } else if p < 0 || p > b.len() {
        Err(ErrorKind::InsufficientBuffer)
    } else {
        match parse_value(b, p, t) {
            Err(e) => Err(e),
            Ok((p1, v, t1)) => if p1 <= p || p1 > b.len() {
                Err(ErrorKind::InvalidData)
            } else {
                match parse_values(b, p1, t1, (n - 1) as nat) {
                    Err(e) => Err(e),
                    Ok((p2, vs, t2)) => Ok((p2, seq![v] + vs, t2)),
                }
            },
        }
    }
}

/// `n` dictionary entries at `p`.
#[verifier::opaque]
pub open spec fn parse_dict(b: Seq<u8>, p: int, t: Amf3Tables, n: nat) -> Result<(int, Seq<(Amf3Model, Amf3Model)>, Amf3Tables), ErrorKind>
    decreases b.len() - p, 1int,
{
    if n == 0 {
        Ok((p, Seq::empty(), t))
    } else if p < 0 || p > b.len() {
        Err(ErrorKind::InsufficientBuffer)
    } else {
        match parse_value(b, p, t) {
            Err(e) => Err(e),
            Ok((p1, k, t1)) => if p1 <= p || p1 > b.len() {
                Err(ErrorKind::InvalidData)
            } else {
                match parse_value(b, p1, t1) {
                    Err(e) => Err(e),
                    Ok((p2, v, t2)) => if p2 <= p1 || p2 > b.len() {
                        Err(ErrorKind::InvalidData)
                    } else {
                        match parse_dict(b, p2, t2, (n - 1) as nat) {
                            Err(e) => Err(e),
                            Ok((p3, es, t3)) => Ok((p3, seq![(k, v)] + es, t3)),
                        }
                    },
                }
            },
        }
    }
}

/// What decoding one value from the start of `b` gives: the bytes used and the value.
#[verifier::opaque]
pub open spec fn amf3_decode(b: Seq<u8>) -> Result<(int, Amf3Model), ErrorKind> {
    match parse_value(b, 0, empty_tables()) {
        Err(e) => Err(e),
        Ok((n, v, _)) => Ok((n, v)),
    }
}

// ---------------------------------------------------------------------------------------
// Decoder
// ---------------------------------------------------------------------------------------

/// An object's traits as the decoder keeps them.
struct Trait3 {
    class_name: Option<String>,
    is_dynamic: bool,
    fields: Vec<String>,
}

/// The characters of each string.
pub open spec fn strings_view(v: Seq<String>) -> Seq<Seq<char>> {
    Seq::new(v.len(), |i: int| v[i]@)
}

/// The models of each value.
pub open spec fn values_view(v: Seq<Amf3Value>) -> Seq<Amf3Model> {
    Seq::new(v.len(), |i: int| v[i]@)
}

/// The models of each member.
pub open spec fn pairs_view(v: Seq<Pair<String, Amf3Value>>) -> Seq<(Seq<char>, Amf3Model)> {
    Seq::new(v.len(), |i: int| (v[i].key@, v[i].value@))
}

/// The models of each dictionary entry.
pub open spec fn dict_view(v: Seq<Pair<Amf3Value, Amf3Value>>) -> Seq<(Amf3Model, Amf3Model)> {
    Seq::new(v.len(), |i: int| (v[i].key@, v[i].value@))
}

spec fn trait_view(tr: Trait3) -> TraitModel {
    TraitModel {
        class_name: opt_chars(tr.class_name),
        is_dynamic: tr.is_dynamic,
        fields: strings_view(tr.fields@),
    }
}

/// Copies traits.
fn copy_trait(tr: &Trait3) -> (r: Trait3)
    ensures
        trait_view(r) == trait_view(*tr),
{
    let r = Trait3 {
        class_name: copy_opt_string(&tr.class_name),
        is_dynamic: tr.is_dynamic,
        fields: copy_strings(&tr.fields),
    };
    assert(trait_view(r) =~= trait_view(*tr));
    r
}

/// Copies strings.
fn copy_strings(v: &Vec<String>) -> (r: Vec<String>)
    ensures
        strings_view(r@) == strings_view(v@),
{
    let mut out: Vec<String> = Vec::new();
    let mut i: usize = 0;
    while i < v.len()
        invariant
            i <= v@.len(),
            out@.len() == i,
            forall|j: int| 0 <= j < i ==> (#[trigger] out@[j])@ == v@[j]@,
        decreases v.len() - i,
    {
        out.push(v[i].clone());
        i = i + 1;
    }
    assert(strings_view(out@) =~= strings_view(v@));
    out
}

/// The tables a decoder keeps.
struct Decoder3 {
    strings: Vec<String>,
    complexes: Vec<Amf3Value>,
    traits: Vec<Trait3>,
}

impl Decoder3 {
    spec fn tables(&self) -> Amf3Tables {
        Amf3Tables {
            strings: strings_view(self.strings@),
            complexes: values_view(self.complexes@),
            traits: Seq::new(self.traits@.len(), |i: int| trait_view(self.traits@[i])),
        }
    }
}

/// Whether an exec result agrees with a specified outcome for a value.
pub open spec fn agrees_value(
    r: Result<(usize, Amf3Value), Error>,
    s: Result<(int, Amf3Model, Amf3Tables), ErrorKind>,
    t: Amf3Tables,
) -> bool {
    match s {
        Ok((p, m, t2)) => r matches Ok((q, v)) && q == p && v@ == m && t == t2,
        Err(e) => r matches Err(err) && err.kind == e,
    }
}

/// Reads a 29-bit variable-length integer: the bytes it takes and its value.
fn read_u29(buf: &[u8], pos: usize) -> (r: Result<(usize, u32), Error>)
    ensures
        match parse_u29(buf@, pos as int) {
            Ok((k, u)) => r matches Ok((k2, u2)) && k2 == k && u2 == u,
            Err(e) => r matches Err(er) && er.kind == e,
        },
        r matches Ok((k, u)) ==> 1 <= k <= 4 && pos + k <= buf@.len() && u < 0x2000_0000,
{
    if pos >= buf.len() {
        return Err(Error::insufficient_buffer());
    }
    let b0 = buf[pos];
    if b0 < 0x80 {
        return Ok((1, b0 as u32));
    }
    if pos + 1 >= buf.len() {
        return Err(Error::insufficient_buffer());
    }
    let b1 = buf[pos + 1];
    let n2 = (b0 % 0x80) as u32 * 0x80 + (b1 % 0x80) as u32;
    if b1 < 0x80 {
        return Ok((2, n2));
    }
    if pos + 2 >= buf.len() {
        return Err(Error::insufficient_buffer());
    }
    let b2 = buf[pos + 2];
    let n3 = n2 * 0x80 + (b2 % 0x80) as u32;
    if b2 < 0x80 {
        return Ok((3, n3));
    }
    if pos + 3 >= buf.len() {
        return Err(Error::insufficient_buffer());
    }
    let b3 = buf[pos + 3];
    Ok((4, n3 * 0x100 + b3 as u32))
}

/// Once reading strings fails, reading more of them fails the same way.
proof fn lemma_parse_strs_err(b: Seq<u8>, p: int, t: Amf3Tables, m: nat, n: nat)
    requires
        parse_strs(b, p, t, m) is Err,
        m <= n,
    ensures
        parse_strs(b, p, t, n) == parse_strs(b, p, t, m),
    decreases n - m,
{
    if m < n {
        lemma_parse_strs_err(b, p, t, m, (n - 1) as nat);
    }
}

impl Decoder3 {
    /// Decodes a string at `pos`.
    fn decode_str(&mut self, buf: &[u8], pos: usize) -> (r: Result<(usize, String), Error>)
        ensures
            match parse_str(buf@, pos as int, old(self).tables()) {
                Ok((p2, s, t2)) => r matches Ok((q, st)) && q == p2 && st@ == s && final(self).tables() == t2,
                Err(e) => r matches Err(er) && er.kind == e,
            },
            r matches Ok((q, _)) ==> pos < q <= buf@.len(),
            final(self).complexes == old(self).complexes,
    {
        let r29 = read_u29(buf, pos);
        let (k, u) = match r29 {
            Ok(x) => x,
            Err(e) => return Err(e),
        };
        let blen = buf.len();
        let q = pos + k;
        if u % 2 == 0 {
            let idx = (u / 2) as usize;
            if idx < self.strings.len() {
                Ok((q, self.strings[idx].clone()))
            } else {
                Err(Error::with_number(ErrorKind::InvalidData, "string reference out of range: ", idx as u64))
            }
        } else {
            let len = (u / 2) as usize;
            let s = match read_utf8(buf, q, len) {
                Ok(x) => x,
                Err(e) => return Err(e),
            };
            if len > 0 {
                let ghost t0 = self.tables();
                self.strings.push(s.clone());
                assert(self.tables() =~= Amf3Tables { strings: t0.strings.push(s@), ..t0 });
            }
            Ok((q + len, s))
        }
    }

    /// Decodes `n` strings at `pos`.
    fn decode_strs(&mut self, buf: &[u8], pos: usize, n: usize) -> (r: Result<(usize, Vec<String>), Error>)
        requires
            pos <= buf@.len(),
        ensures
            match parse_strs(buf@, pos as int, old(self).tables(), n as nat) {
                Ok((p2, ss, t2)) => r matches Ok((q, v)) && q == p2 && strings_view(v@) == ss
                    && final(self).tables() == t2,
                Err(e) => r matches Err(er) && er.kind == e,
            },
            r matches Ok((q, _)) ==> pos <= q <= buf@.len(),
            final(self).complexes == old(self).complexes,
    {
        let mut out: Vec<String> = Vec::new();
        let mut p = pos;
        let mut i: usize = 0;
        assert(strings_view(out@) =~= Seq::<Seq<char>>::empty());
        while i < n
            invariant
                i <= n,
                parse_strs(buf@, pos as int, old(self).tables(), i as nat) == Ok::<
                    (int, Seq<Seq<char>>, Amf3Tables),
                    ErrorKind,
                >((p as int, strings_view(out@), self.tables())),
                self.complexes == old(self).complexes,
                pos <= p <= buf@.len(),
            decreases n - i,
        {
            let ghost t0 = self.tables();
            let (p2, s) = match self.decode_str(buf, p) {
                Ok(x) => x,
                Err(e) => {
                    proof {
                        lemma_parse_strs_err(buf@, pos as int, old(self).tables(), (i + 1) as nat, n as nat);
                    }
                    return Err(e);
                },
            };
            assert(strings_view(out@).push(s@) =~= strings_view(out@.push(s)));
            out.push(s);
            p = p2;
            i = i + 1;
        }
        Ok((p, out))
    }

    /// Decodes an object's traits given its flag word.
    fn decode_trait(&mut self, buf: &[u8], pos: usize, u28: usize) -> (r: Result<(usize, Trait3), Error>)
        requires
            pos <= buf@.len(),
        ensures
            match parse_trait(buf@, pos as int, old(self).tables(), u28 as nat) {
                Ok((p2, tr, t2)) => r matches Ok((q, v)) && q == p2 && trait_view(v) == tr
                    && final(self).tables() == t2,
                Err(e) => r matches Err(er) && er.kind == e,
            },
            r matches Ok((q, _)) ==> pos <= q <= buf@.len(),
            final(self).complexes == old(self).complexes,
    {
        if u28 % 2 == 0 {
            let idx = u28 / 2;
            if idx < self.traits.len() {
                Ok((pos, copy_trait(&self.traits[idx])))
            } else {
                Err(Error::with_number(ErrorKind::InvalidData, "trait reference out of range: ", idx as u64))
            }
        } else if (u28 / 2) % 2 == 1 {
            Err(Error::unsupported("externalizable types not supported"))
        } else {
            let (p1, class_name) = match self.decode_str(buf, pos) {
                Ok(x) => x,
                Err(e) => return Err(e),
            };
            let (p2, fields) = match self.decode_strs(buf, p1, u28 / 8) {
                Ok(x) => x,
                Err(e) => return Err(e),
            };
            let tr = Trait3 {
                class_name: if class_name.as_str().is_empty() {
                    None
                } else {
                    Some(class_name)
                },
                is_dynamic: (u28 / 4) % 2 == 1,
                fields,
            };
            let ghost t0 = self.tables();
            self.traits.push(copy_trait(&tr));
            assert(self.tables() =~= Amf3Tables { traits: t0.traits.push(trait_view(tr)), ..t0 });
            Ok((p2, tr))
        }
    }
}

/// Prepends decoded values to the outcome of decoding the rest.
pub open spec fn combine_values(
    prefix: Seq<Amf3Model>,
    r: Result<(int, Seq<Amf3Model>, Amf3Tables), ErrorKind>,
) -> Result<(int, Seq<Amf3Model>, Amf3Tables), ErrorKind> {
    match r {
        Ok((p, rest, t)) => Ok((p, prefix + rest, t)),
        Err(e) => Err(e),
    }
}

/// Prepends decoded members to the outcome of decoding the rest.
pub open spec fn combine_pairs(
    prefix: Seq<(Seq<char>, Amf3Model)>,
    r: Result<(int, Seq<(Seq<char>, Amf3Model)>, Amf3Tables), ErrorKind>,
) -> Result<(int, Seq<(Seq<char>, Amf3Model)>, Amf3Tables), ErrorKind> {
    match r {
        Ok((p, rest, t)) => Ok((p, prefix + rest, t)),
        Err(e) => Err(e),
    }
}

/// Prepends decoded dictionary entries to the outcome of decoding the rest.
pub open spec fn combine_dict(
    prefix: Seq<(Amf3Model, Amf3Model)>,
    r: Result<(int, Seq<(Amf3Model, Amf3Model)>, Amf3Tables), ErrorKind>,
) -> Result<(int, Seq<(Amf3Model, Amf3Model)>, Amf3Tables), ErrorKind> {
    match r {
        Ok((p, rest, t)) => Ok((p, prefix + rest, t)),
        Err(e) => Err(e),
    }
}

impl Decoder3 {
    /// Decodes the value at `pos`.
    #[verifier::rlimit(100)]
    #[verifier::spinoff_prover]
    fn decode_value(&mut self, buf: &[u8], pos: usize) -> (r: Result<(usize, Amf3Value), Error>)
        ensures
            agrees_value(r, parse_value(buf@, pos as int, old(self).tables()), final(self).tables()),
            r matches Ok((q, _)) ==> pos < q <= buf@.len(),
            r is Ok ==> final(self).complexes@.len() >= old(self).complexes@.len(),
        decreases buf@.len() - pos, 0int,
    {
        let blen = buf.len();
        if pos >= buf.len() {
            return Err(Error::insufficient_buffer());
        }
        let m = buf[pos];
        let q = pos + 1;
        if m == MARKER_UNDEFINED {
            Ok((q, Amf3Value::Undefined))
        } else if m == MARKER_NULL {
            Ok((q, Amf3Value::Null))
        } else if m == MARKER_FALSE {
            Ok((q, Amf3Value::Boolean(false)))
        } else if m == MARKER_TRUE {
            Ok((q, Amf3Value::Boolean(true)))
        } else if m == MARKER_INTEGER {
            let (k, u) = match read_u29(buf, q) {
                Ok(x) => x,
                Err(e) => return Err(e),
            };
            let n: i32 = if u >= 0x1000_0000 {
                (u as i32) - 0x2000_0000
            } else {
                u as i32
            };
            Ok((q + k, Amf3Value::Integer(n)))
        } else if m == MARKER_DOUBLE {
            let d = match read_u64(buf, q) {
                Ok(x) => x,
                Err(e) => return Err(e),
            };
            Ok((q + 8, Amf3Value::Double(Float64(d))))
        } else if m == MARKER_STRING {
            let (q2, s) = match self.decode_str(buf, q) {
                Ok(x) => x,
                Err(e) => return Err(e),
            };
            Ok((q2, Amf3Value::String(s)))
        } else if MARKER_XML_DOCUMENT <= m && m <= MARKER_DICTIONARY {
            self.decode_complex(buf, q, m)
        } else {
            Err(Error::with_number(ErrorKind::InvalidData, "unknown AMF3 marker: ", m as u64))
        }
    }

    /// Decodes a complex value with marker `m`, from its reference or length at `pos`.
    #[verifier::rlimit(100)]
    #[verifier::spinoff_prover]
    fn decode_complex(&mut self, buf: &[u8], pos: usize, m: u8) -> (r: Result<(usize, Amf3Value), Error>)
        requires
            MARKER_XML_DOCUMENT <= m <= MARKER_DICTIONARY,
            1 <= pos <= buf@.len(),
        ensures
            agrees_value(
                r,
                parse_complex(buf@, pos as int, old(self).tables(), m),
                final(self).tables(),
            ),
            r matches Ok((q, _)) ==> pos < q <= buf@.len(),
            r is Ok ==> final(self).complexes@.len() >= old(self).complexes@.len(),
        decreases buf@.len() - pos, 4int,
    {
        let blen = buf.len();
        let (k, u) = match read_u29(buf, pos) {
            Ok(x) => x,
            Err(e) => return Err(e),
        };
        let q1 = pos + k;
        if u % 2 == 0 {
            let idx = (u / 2) as usize;
            if idx >= self.complexes.len() {
                return Err(Error::with_number(ErrorKind::InvalidData, "complex reference out of range: ", idx as u64));
            }
            match &self.complexes[idx] {
                Amf3Value::Null => Err(Error::with_number(ErrorKind::Unsupported, "circular reference at index: ", idx as u64)),
                v => Ok((q1, v.duplicate())),
            }
        } else {
            let idx = self.complexes.len();
            let ghost t0 = self.tables();
            self.complexes.push(Amf3Value::Null);
            assert(self.tables() =~= reserve_complex(t0));
            let (q2, v) = match self.decode_complex_body(buf, q1, m, (u / 2) as usize) {
                Ok(x) => x,
                Err(e) => return Err(e),
            };
            let ghost t2 = self.tables();
            self.complexes.set(idx, v.duplicate());
            assert(self.tables() =~= set_complex(t2, idx as int, v@));
            Ok((q2, v))
        }
    }

    /// Decodes the body of a complex value with marker `m` at `pos`.
    #[verifier::rlimit(100)]
    #[verifier::spinoff_prover]
    fn decode_complex_body(&mut self, buf: &[u8], pos: usize, m: u8, len: usize) -> (r: Result<(usize, Amf3Value), Error>)
        requires
            MARKER_XML_DOCUMENT <= m <= MARKER_DICTIONARY,
            1 <= pos <= buf@.len(),
        ensures
            agrees_value(r, parse_complex_body(buf@, pos as int, old(self).tables(), m, len as nat), final(self).tables()),
            r matches Ok((q, _)) ==> pos <= q <= buf@.len(),
            r is Ok ==> final(self).complexes@.len() >= old(self).complexes@.len(),
        decreases buf@.len() - pos, 3int,
    {
        let blen = buf.len();
        if m != MARKER_ARRAY && m != MARKER_OBJECT && m != MARKER_OBJECT_VECTOR && m != MARKER_DICTIONARY {
            return decode_flat_body(buf, pos, m, len);
        }
        if m == MARKER_ARRAY {
            self.decode_array_body(buf, pos, len)
        } else if m == MARKER_OBJECT {
            self.decode_object_body(buf, pos, len)
        } else if pos >= buf.len() {
            Err(Error::insufficient_buffer())
        } else if m == MARKER_OBJECT_VECTOR {
            self.decode_object_vector_body(buf, pos, len)
        } else {
            let is_weak = buf[pos] == 1;
            let (p2, entries) = match self.decode_dict(buf, pos + 1, len) {
                Ok(x) => x,
                Err(e) => return Err(e),
            };
            let v = Amf3Value::Dictionary { is_weak, entries };
            proof {
                assert(amf3_view(v)->Dictionary_entries =~= dict_view(entries@));
            }
            Ok((p2, v))
        }
    }

    /// Decodes the body of an array at `pos`.
    #[verifier::rlimit(100)]
    #[verifier::spinoff_prover]
    fn decode_array_body(&mut self, buf: &[u8], pos: usize, len: usize) -> (r: Result<(usize, Amf3Value), Error>)
        requires
            1 <= pos <= buf@.len(),
        ensures
            agrees_value(r, parse_array_body(buf@, pos as int, old(self).tables(), len as nat), final(self).tables()),
            r matches Ok((q, _)) ==> pos <= q <= buf@.len(),
            r is Ok ==> final(self).complexes@.len() >= old(self).complexes@.len(),
        decreases buf@.len() - pos, 2int,
    {
        proof {
            reveal(parse_array_body);
        }
        let (p2, assoc) = match self.decode_pairs(buf, pos) {
            Ok(x) => x,
            Err(e) => return Err(e),
        };
        let (p3, dense) = match self.decode_values(buf, p2, len) {
            Ok(x) => x,
            Err(e) => return Err(e),
        };
        let v = Amf3Value::Array { assoc_entries: assoc, dense_entries: dense };
        proof {
            assert(amf3_view(v)->Array_assoc_entries =~= pairs_view(assoc@));
            assert(amf3_view(v)->Array_dense_entries =~= values_view(dense@));
        }
        Ok((p3, v))
    }

    /// Decodes the body of an object at `pos`.
    #[verifier::rlimit(100)]
    #[verifier::spinoff_prover]
    fn decode_object_body(&mut self, buf: &[u8], pos: usize, len: usize) -> (r: Result<(usize, Amf3Value), Error>)
        requires
            1 <= pos <= buf@.len(),
        ensures
            agrees_value(r, parse_object_body(buf@, pos as int, old(self).tables(), len as nat), final(self).tables()),
            r matches Ok((q, _)) ==> pos <= q <= buf@.len(),
            r is Ok ==> final(self).complexes@.len() >= old(self).complexes@.len(),
        decreases buf@.len() - pos, 2int,
    {
        proof {
            reveal(parse_object_body);
        }
        let (p2, tr) = match self.decode_trait(buf, pos, len) {
            Ok(x) => x,
            Err(e) => return Err(e),
        };
        let nfields = tr.fields.len();
        let (p3, vals) = match self.decode_values(buf, p2, nfields) {
            Ok(x) => x,
            Err(e) => return Err(e),
        };
        let mut entries = zip_entries(&tr.fields, vals);
        let ghost sealed = pairs_view(entries@);
        if tr.is_dynamic {
            let (p4, dynamic) = match self.decode_pairs(buf, p3) {
                Ok(x) => x,
                Err(e) => return Err(e),
            };
            let ghost dv = pairs_view(dynamic@);
            let mut dynamic = dynamic;
            entries.append(&mut dynamic);
            assert(pairs_view(entries@) =~= sealed + dv);
            let v = Amf3Value::Object { class_name: tr.class_name, sealed_count: nfields, entries };
            proof {
                assert(amf3_view(v)->Object_entries =~= pairs_view(entries@));
            }
            Ok((p4, v))
        } else {
            let v = Amf3Value::Object { class_name: tr.class_name, sealed_count: nfields, entries };
            proof {
                assert(amf3_view(v)->Object_entries =~= pairs_view(entries@));
            }
            Ok((p3, v))
        }
    }

    /// Decodes the body of a vector of values at `pos`.
    #[verifier::rlimit(100)]
    #[verifier::spinoff_prover]
    fn decode_object_vector_body(&mut self, buf: &[u8], pos: usize, len: usize) -> (r: Result<(usize, Amf3Value), Error>)
        requires
            1 <= pos < buf@.len(),
        ensures
            agrees_value(r, parse_object_vector_body(buf@, pos as int, old(self).tables(), len as nat), final(self).tables()),
            r matches Ok((q, _)) ==> pos <= q <= buf@.len(),
            r is Ok ==> final(self).complexes@.len() >= old(self).complexes@.len(),
        decreases buf@.len() - pos, 2int,
    {
        proof {
            reveal(parse_object_vector_body);
        }
        let is_fixed = buf[pos] != 0;
        let (p2, name) = match self.decode_str(buf, pos + 1) {
            Ok(x) => x,
            Err(e) => return Err(e),
        };
        let (p3, vals) = match self.decode_values(buf, p2, len) {
            Ok(x) => x,
            Err(e) => return Err(e),
        };
        proof {
            reveal_strlit("*");
            assert("*"@ =~= seq!['*']);
        }
        let class_name = if str_eq(name.as_str(), "*") {
            None
        } else {
            Some(name)
        };
        let v = Amf3Value::ObjectVector { class_name, is_fixed, entries: vals };
        proof {
            assert(amf3_view(v)->ObjectVector_entries =~= values_view(vals@));
        }
        Ok((p3, v))
    }

    /// Decodes key-value members at `pos`, up to the empty key that ends them.
    #[verifier::rlimit(60)]
    fn decode_pairs(&mut self, buf: &[u8], pos: usize) -> (r: Result<(usize, Vec<Pair<String, Amf3Value>>), Error>)
        requires
            pos <= buf@.len(),
        ensures
            match parse_pairs(buf@, pos as int, old(self).tables()) {
                Ok((p2, ps, t2)) => r matches Ok((q, v)) && q == p2 && pairs_view(v@) == ps
                    && final(self).tables() == t2,
                Err(e) => r matches Err(er) && er.kind == e,
            },
            r matches Ok((q, _)) ==> pos < q <= buf@.len(),
            r is Ok ==> final(self).complexes@.len() >= old(self).complexes@.len(),
        decreases buf@.len() - pos, 1int,
    {
        proof {
            reveal(parse_pairs);
        }
        let blen = buf.len();
        let mut out: Vec<Pair<String, Amf3Value>> = Vec::new();
        let mut p = pos;
        assert(pairs_view(out@) + Seq::<(Seq<char>, Amf3Model)>::empty() =~= pairs_view(out@));
        proof {
            lemma_combine_pairs_empty(parse_pairs(buf@, pos as int, self.tables()));
        }
        loop
            invariant
                pos <= p <= buf@.len(),
                parse_pairs(buf@, pos as int, old(self).tables()) == combine_pairs(
                    pairs_view(out@),
                    parse_pairs(buf@, p as int, self.tables()),
                ),
                self.complexes@.len() >= old(self).complexes@.len(),
            decreases buf@.len() - p,
        {
            proof {
                reveal(parse_pairs);
            }
            let ghost t0 = self.tables();
            let (p1, key) = match self.decode_str(buf, p) {
                Ok(x) => x,
                Err(e) => return Err(e),
            };
            if key.as_str().is_empty() {
                assert(pairs_view(out@) + Seq::<(Seq<char>, Amf3Model)>::empty() =~= pairs_view(out@));
                return Ok((p1, out));
            }
            let (p2, v) = match self.decode_value(buf, p1) {
                Ok(x) => x,
                Err(e) => return Err(e),
            };
            proof {
                let rest = parse_pairs(buf@, p2 as int, self.tables());
                lemma_combine_pairs_push(pairs_view(out@), (key@, v@), rest);
            }
            let ghost old_out = pairs_view(out@);
            out.push(Pair { key, value: v });
            assert(pairs_view(out@) =~= old_out.push((out@.last().key@, out@.last().value@)));
            p = p2;
        }
    }

    /// Decodes `n` values at `pos`.
    #[verifier::rlimit(60)]
    fn decode_values(&mut self, buf: &[u8], pos: usize, n: usize) -> (r: Result<(usize, Vec<Amf3Value>), Error>)
        requires
            pos <= buf@.len(),
        ensures
            match parse_values(buf@, pos as int, old(self).tables(), n as nat) {
                Ok((p2, vs, t2)) => r matches Ok((q, v)) && q == p2 && values_view(v@) == vs
                    && final(self).tables() == t2,
                Err(e) => r matches Err(er) && er.kind == e,
            },
            r matches Ok((q, _)) ==> pos <= q <= buf@.len(),
            r matches Ok((_, v)) ==> v@.len() == n,
            r is Ok ==> final(self).complexes@.len() >= old(self).complexes@.len(),
        decreases buf@.len() - pos, 1int,
    {
        proof {
            reveal(parse_values);
        }
        let blen = buf.len();
        let mut out: Vec<Amf3Value> = Vec::new();
        let mut p = pos;
        let mut i: usize = 0;
        proof {
            lemma_combine_values_empty(parse_values(buf@, pos as int, self.tables(), n as nat));
            assert(values_view(out@) =~= Seq::<Amf3Model>::empty());
        }
        while i < n
            invariant
                i <= n,
                pos <= p <= buf@.len(),
                parse_values(buf@, pos as int, old(self).tables(), n as nat) == combine_values(
                    values_view(out@),
                    parse_values(buf@, p as int, self.tables(), (n - i) as nat),
                ),
                self.complexes@.len() >= old(self).complexes@.len(),
                out@.len() == i,
            decreases n - i,
        {
            proof {
                reveal(parse_values);
            }
            let (p1, v) = match self.decode_value(buf, p) {
                Ok(x) => x,
                Err(e) => return Err(e),
            };
            proof {
                let rest = parse_values(buf@, p1 as int, self.tables(), (n - i - 1) as nat);
                lemma_combine_values_push(values_view(out@), v@, rest);
            }
            let ghost old_out = values_view(out@);
            out.push(v);
            assert(values_view(out@) =~= old_out.push(out@.last()@));
            p = p1;
            i = i + 1;
        }
        proof {
            assert(values_view(out@) + Seq::<Amf3Model>::empty() =~= values_view(out@));
        }
        Ok((p, out))
    }

    /// Decodes `n` dictionary entries at `pos`.
    #[verifier::rlimit(60)]
    fn decode_dict(&mut self, buf: &[u8], pos: usize, n: usize) -> (r: Result<(usize, Vec<Pair<Amf3Value, Amf3Value>>), Error>)
        requires
            pos <= buf@.len(),
        ensures
            match parse_dict(buf@, pos as int, old(self).tables(), n as nat) {
                Ok((p2, es, t2)) => r matches Ok((q, v)) && q == p2 && dict_view(v@) == es
                    && final(self).tables() == t2,
                Err(e) => r matches Err(er) && er.kind == e,
            },
            r matches Ok((q, _)) ==> pos <= q <= buf@.len(),
            r is Ok ==> final(self).complexes@.len() >= old(self).complexes@.len(),
        decreases buf@.len() - pos, 1int,
    {
        proof {
            reveal(parse_dict);
        }
        let blen = buf.len();
        let mut out: Vec<Pair<Amf3Value, Amf3Value>> = Vec::new();
        let mut p = pos;
        let mut i: usize = 0;
        proof {
            lemma_combine_dict_empty(parse_dict(buf@, pos as int, self.tables(), n as nat));
            assert(dict_view(out@) =~= Seq::<(Amf3Model, Amf3Model)>::empty());
        }
        while i < n
            invariant
                i <= n,
                pos <= p <= buf@.len(),
                parse_dict(buf@, pos as int, old(self).tables(), n as nat) == combine_dict(
                    dict_view(out@),
                    parse_dict(buf@, p as int, self.tables(), (n - i) as nat),
                ),
                self.complexes@.len() >= old(self).complexes@.len(),
            decreases n - i,
        {
            proof {
                reveal(parse_dict);
            }
            let (p1, k) = match self.decode_value(buf, p) {
                Ok(x) => x,
                Err(e) => return Err(e),
            };
            let (p2, v) = match self.decode_value(buf, p1) {
                Ok(x) => x,
                Err(e) => return Err(e),
            };
            proof {
                let rest = parse_dict(buf@, p2 as int, self.tables(), (n - i - 1) as nat);
                lemma_combine_dict_push(dict_view(out@), (k@, v@), rest);
            }
            let ghost old_out = dict_view(out@);
            out.push(Pair { key: k, value: v });
            assert(dict_view(out@) =~= old_out.push((out@.last().key@, out@.last().value@)));
            p = p2;
            i = i + 1;
        }
        proof {
            assert(dict_view(out@) + Seq::<(Amf3Model, Amf3Model)>::empty() =~= dict_view(out@));
        }
        Ok((p, out))
    }
}

proof fn lemma_combine_values_empty(r: Result<(int, Seq<Amf3Model>, Amf3Tables), ErrorKind>)
    ensures
        combine_values(Seq::empty(), r) == r,
{
    if let Ok((p, rest, t)) = r {
        assert(Seq::<Amf3Model>::empty() + rest =~= rest);
    }
}

proof fn lemma_combine_values_push(
    prefix: Seq<Amf3Model>,
    v: Amf3Model,
    r: Result<(int, Seq<Amf3Model>, Amf3Tables), ErrorKind>,
)
    ensures
        combine_values(prefix, combine_values(seq![v], r)) == combine_values(prefix.push(v), r),
{
    if let Ok((p, rest, t)) = r {
        assert(prefix + (seq![v] + rest) =~= prefix.push(v) + rest);
    }
}

proof fn lemma_combine_pairs_empty(r: Result<(int, Seq<(Seq<char>, Amf3Model)>, Amf3Tables), ErrorKind>)
    ensures
        combine_pairs(Seq::empty(), r) == r,
{
    if let Ok((p, rest, t)) = r {
        assert(Seq::<(Seq<char>, Amf3Model)>::empty() + rest =~= rest);
    }
}

proof fn lemma_combine_pairs_push(
    prefix: Seq<(Seq<char>, Amf3Model)>,
    v: (Seq<char>, Amf3Model),
    r: Result<(int, Seq<(Seq<char>, Amf3Model)>, Amf3Tables), ErrorKind>,
)
    ensures
        combine_pairs(prefix, combine_pairs(seq![v], r)) == combine_pairs(prefix.push(v), r),
{
    if let Ok((p, rest, t)) = r {
        assert(prefix + (seq![v] + rest) =~= prefix.push(v) + rest);
    }
}

proof fn lemma_combine_dict_empty(r: Result<(int, Seq<(Amf3Model, Amf3Model)>, Amf3Tables), ErrorKind>)
    ensures
        combine_dict(Seq::empty(), r) == r,
{
    if let Ok((p, rest, t)) = r {
        assert(Seq::<(Amf3Model, Amf3Model)>::empty() + rest =~= rest);
    }
}

proof fn lemma_combine_dict_push(
    prefix: Seq<(Amf3Model, Amf3Model)>,
    v: (Amf3Model, Amf3Model),
    r: Result<(int, Seq<(Amf3Model, Amf3Model)>, Amf3Tables), ErrorKind>,
)
    ensures
        combine_dict(prefix, combine_dict(seq![v], r)) == combine_dict(prefix.push(v), r),
{
    if let Ok((p, rest, t)) = r {
        assert(prefix + (seq![v] + rest) =~= prefix.push(v) + rest);
    }
}

/// Pairs sealed member names with their values.
fn zip_entries(fields: &Vec<String>, vals: Vec<Amf3Value>) -> (r: Vec<Pair<String, Amf3Value>>)
    requires
        vals@.len() == fields@.len(),
    ensures
        pairs_view(r@) == zip_members(strings_view(fields@), values_view(vals@)),
{
    let mut out: Vec<Pair<String, Amf3Value>> = Vec::new();
    let mut vals = vals;
    let ghost vv = values_view(vals@);
    let mut rev: Vec<Amf3Value> = Vec::new();
    while vals.len() > 0
        invariant
            rev@.len() + vals@.len() == fields@.len(),
            forall|j: int| 0 <= j < vals@.len() ==> (#[trigger] vals@[j])@ == vv[j],
            forall|j: int| 0 <= j < rev@.len() ==> (#[trigger] rev@[j])@ == vv[fields@.len() - 1 - j],
            vv.len() == fields@.len(),
        decreases vals.len(),
    {
        let x = vals.pop().unwrap();
        rev.push(x);
    }
    let mut i: usize = 0;
    while i < fields.len()
        invariant
            i <= fields@.len(),
            rev@.len() == fields@.len() - i,
            out@.len() == i,
            forall|j: int| 0 <= j < rev@.len() ==> (#[trigger] rev@[j])@ == vv[fields@.len() - 1 - j],
            forall|j: int|
                0 <= j < i ==> (#[trigger] out@[j]).key@ == fields@[j]@ && out@[j].value@ == vv[j],
            vv.len() == fields@.len(),
        decreases fields.len() - i,
    {
        let x = rev.pop().unwrap();
        out.push(Pair { key: fields[i].clone(), value: x });
        i = i + 1;
    }
    assert(pairs_view(out@) =~= zip_members(strings_view(fields@), vv));
    out
}

/// Decodes the body of a complex value that holds no other values.
fn decode_flat_body(buf: &[u8], pos: usize, m: u8, len: usize) -> (r: Result<(usize, Amf3Value), Error>)
    requires
        MARKER_XML_DOCUMENT <= m <= MARKER_DICTIONARY,
        !is_container_marker(m),
        pos <= buf@.len(),
    ensures
        match parse_flat_body(buf@, pos as int, m, len as nat) {
            Ok((p2, v)) => r matches Ok((q, x)) && q == p2 && x@ == v,
            Err(e) => r matches Err(er) && er.kind == e,
        },
        r matches Ok((q, _)) ==> pos <= q <= buf@.len(),
{
    proof {
        reveal(parse_flat_body);
    }
    let blen = buf.len();
    if m == MARKER_XML_DOCUMENT || m == MARKER_XML {
        let s = match read_utf8(buf, pos, len) {
            Ok(x) => x,
            Err(e) => return Err(e),
        };
        if m == MARKER_XML {
            Ok((pos + len, Amf3Value::Xml(s)))
        } else {
            Ok((pos + len, Amf3Value::XmlDocument(s)))
        }
    } else if m == MARKER_DATE {
        let d = match read_u64(buf, pos) {
            Ok(x) => x,
            Err(e) => return Err(e),
        };
        let f = Float64(d);
        if !f.is_finite() || f.is_sign_negative() {
            return Err(Error::invalid_data("invalid date millis"));
        }
        let ms = f.to_u64_saturating();
        Ok((pos + 8, Amf3Value::Date { unix_time: duration_from_millis(ms) }))
    } else if m == MARKER_BYTE_ARRAY {
        let bytes = match read_bytes(buf, pos, len) {
            Ok(x) => x,
            Err(e) => return Err(e),
        };
        Ok((pos + len, Amf3Value::ByteArray(bytes)))
    } else {
        let w: usize = if m == MARKER_DOUBLE_VECTOR { 8 } else { 4 };
        if pos >= buf.len() || len > (buf.len() - pos - 1) / w {
            return Err(Error::insufficient_buffer());
        }
        proof {
            let avail = (buf@.len() - pos - 1) as int;
            assert(w * len <= avail) by (nonlinear_arith)
                requires
                    len <= avail / (w as int),
                    w > 0,
                    avail >= 0,
            ;
        }
        let is_fixed = buf[pos] != 0;
        let q = pos + 1;
        if m == MARKER_INT_VECTOR {
            let mut entries: Vec<i32> = Vec::new();
            let mut i: usize = 0;
            while i < len
                invariant
                    i <= len,
                    blen == buf@.len(),
                    q + 4 * len <= buf@.len(),
                    entries@.len() == i,
                    forall|j: int| 0 <= j < i ==> entries@[j] == i32_value(be32(buf@, q + 4 * j)) as i32,
                decreases len - i,
            {
                let x = match read_i32(buf, q + 4 * i) {
                    Ok(x) => x,
                    Err(e) => return Err(e),
                };
                entries.push(x);
                i = i + 1;
            }
            let v = Amf3Value::IntVector { is_fixed, entries };
            assert(amf3_view(v)->IntVector_entries =~= Seq::new(len as nat, |j: int| i32_value(be32(buf@, q + 4 * j)) as i32));
            Ok((q + 4 * len, v))
        } else if m == MARKER_UINT_VECTOR {
            let mut entries: Vec<u32> = Vec::new();
            let mut i: usize = 0;
            while i < len
                invariant
                    i <= len,
                    blen == buf@.len(),
                    q + 4 * len <= buf@.len(),
                    entries@.len() == i,
                    forall|j: int| 0 <= j < i ==> entries@[j] == be32(buf@, q + 4 * j) as u32,
                decreases len - i,
            {
                let x = match read_u32(buf, q + 4 * i) {
                    Ok(x) => x,
                    Err(e) => return Err(e),
                };
                entries.push(x);
                i = i + 1;
            }
            let v = Amf3Value::UintVector { is_fixed, entries };
            assert(amf3_view(v)->UintVector_entries =~= Seq::new(len as nat, |j: int| be32(buf@, q + 4 * j) as u32));
            Ok((q + 4 * len, v))
        } else {
            let mut entries: Vec<Float64> = Vec::new();
            let mut i: usize = 0;
            while i < len
                invariant
                    i <= len,
                    blen == buf@.len(),
                    q + 8 * len <= buf@.len(),
                    entries@.len() == i,
                    forall|j: int| 0 <= j < i ==> entries@[j].0 == be64(buf@, q + 8 * j) as u64,
                decreases len - i,
            {
                let x = match read_u64(buf, q + 8 * i) {
                    Ok(x) => x,
                    Err(e) => return Err(e),
                };
                entries.push(Float64(x));
                i = i + 1;
            }
            let v = Amf3Value::DoubleVector { is_fixed, entries };
            assert(amf3_view(v)->DoubleVector_entries =~= Seq::new(len as nat, |j: int| be64(buf@, q + 8 * j) as u64));
            Ok((q + 8 * len, v))
        }
    }
}

impl Amf3Value {
    /// Decodes one value from the start of `buf`: the bytes used and the value.
    pub fn decode(buf: &[u8]) -> (r: Result<(usize, Self), Error>)
        ensures
            match amf3_decode(buf@) {
                Ok((n, v)) => r matches Ok((k, x)) && k == n && x@ == v,
                Err(e) => r matches Err(er) && er.kind == e,
            },
            r matches Ok((k, _)) ==> 0 < k <= buf@.len(),
    {
        proof {
            reveal(amf3_decode);
        }
        let mut d = Decoder3 { strings: Vec::new(), complexes: Vec::new(), traits: Vec::new() };
        assert(d.tables() =~= empty_tables());
        d.decode_value(buf, 0)
    }
}

impl Clone for Amf3Value {
    fn clone(&self) -> (r: Self)
        ensures
            r@ == self@,
    {
        self.duplicate()
    }
}

} // verus!
