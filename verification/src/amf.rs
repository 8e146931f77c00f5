use vstd::prelude::*;

use crate::amf0::{amf0_bytes, amf0_decode, amf0_encodable, Amf0Model, Amf0Value};
use crate::amf3::{amf3_bytes, amf3_decode, amf3_encodable, Amf3Model, Amf3Value};
use crate::error::{Error, ErrorKind};
use crate::text::{push_str, str_chars};
use crate::float64::{int_to_bits, Float64};

verus! {

/// The two AMF encodings.
#[derive(Debug, Clone, Copy, PartialEq, Eq, Hash, PartialOrd, Ord, Structural)]
pub enum AmfVersion {
    /// AMF0.
    Amf0,
    /// AMF3.
    Amf3,
}

/// A key and a value.
#[derive(Debug, Clone, PartialEq, Eq, PartialOrd, Ord, Hash)]
pub struct Pair<K, V> {
    /// The key.
    pub key: K,
    /// The value.
    pub value: V,
}

/// A value in either AMF encoding.
#[derive(Debug, PartialEq)]
pub enum AmfValue {
    /// An AMF0 value.
    Amf0(Amf0Value),
    /// An AMF3 value.
    Amf3(Amf3Value),
}

/// The mathematical value of an AMF value.
pub enum AmfModel {
    Amf0(Amf0Model),
    Amf3(Amf3Model),
}

impl View for AmfValue {
    type V = AmfModel;

    open spec fn view(&self) -> AmfModel {
        match self {
            AmfValue::Amf0(v) => AmfModel::Amf0(v@),
            AmfValue::Amf3(v) => AmfModel::Amf3(v@),
        }
    }
}

/// A borrowed value in either AMF encoding.
#[derive(Debug, Clone, Copy)]
pub enum AmfValueRef<'a> {
    /// An AMF0 value.
    Amf0(&'a Amf0Value),
    /// An AMF3 value.
    Amf3(&'a Amf3Value),
}

impl<'a> View for AmfValueRef<'a> {
    type V = AmfModel;

    open spec fn view(&self) -> AmfModel {
        match self {
            AmfValueRef::Amf0(v) => AmfModel::Amf0(v@),
            AmfValueRef::Amf3(v) => AmfModel::Amf3(v@),
        }
    }
}

/// The encoding a model belongs to.
pub open spec fn model_version(m: AmfModel) -> AmfVersion {
    match m {
        AmfModel::Amf0(_) => AmfVersion::Amf0,
        AmfModel::Amf3(_) => AmfVersion::Amf3,
    }
}

/// The bytes of an AMF value.
pub open spec fn amf_bytes(m: AmfModel) -> Seq<u8> {
    match m {
        AmfModel::Amf0(v) => amf0_bytes(v),
        AmfModel::Amf3(v) => amf3_bytes(v),
    }
}

/// Whether an AMF value can be encoded.
pub open spec fn amf_encodable(m: AmfModel) -> bool {
    match m {
        AmfModel::Amf0(v) => amf0_encodable(v),
        AmfModel::Amf3(v) => amf3_encodable(v),
    }
}

/// What decoding one value of the given encoding from the start of `b` gives.
pub open spec fn amf_decode(b: Seq<u8>, version: AmfVersion) -> Result<(int, AmfModel), ErrorKind> {
    match version {
        AmfVersion::Amf0 => match amf0_decode(b) {
            Ok((n, v)) => Ok((n, AmfModel::Amf0(v))),
            Err(e) => Err(e),
        },
        AmfVersion::Amf3 => match amf3_decode(b) {
            Ok((n, v)) => Ok((n, AmfModel::Amf3(v))),
            Err(e) => Err(e),
        },
    }
}

/// The index of the first member with the given key, searching from `i`.
pub open spec fn first_key_index<M>(entries: Seq<(Seq<char>, M)>, key: Seq<char>, i: int) -> Option<int>
    decreases entries.len() - i,
{
    if i < 0 || i >= entries.len() {
        None
    } else if entries[i].0 == key {
        Some(i)
    } else {
        first_key_index(entries, key, i + 1)
    }
}

/// The first member with the given key, if the value is an object.
pub open spec fn object_member(m: AmfModel, key: Seq<char>) -> Result<AmfModel, ErrorKind> {
    match m {
        AmfModel::Amf0(Amf0Model::Object { entries, .. }) => match first_key_index(entries, key, 0) {
            Some(i) => Ok(AmfModel::Amf0(entries[i].1)),
            None => Err(ErrorKind::InvalidData),
        },
        AmfModel::Amf3(Amf3Model::Object { entries, .. }) => match first_key_index(entries, key, 0) {
            Some(i) => Ok(AmfModel::Amf3(entries[i].1)),
            None => Err(ErrorKind::InvalidData),
        },
        _ => Err(ErrorKind::InvalidData),
    }
}

/// The string a value holds, if it is a string.
pub open spec fn model_str(m: AmfModel) -> Option<Seq<char>> {
    match m {
        AmfModel::Amf0(Amf0Model::String(s)) => Some(s),
        AmfModel::Amf3(Amf3Model::String(s)) => Some(s),
        _ => None,
    }
}

/// The number a value holds, as a binary64 pattern, if it is a number.
pub open spec fn model_number(m: AmfModel) -> Option<u64> {
    match m {
        AmfModel::Amf0(Amf0Model::Number(n)) => Some(n),
        AmfModel::Amf3(Amf3Model::Integer(i)) => Some(int_to_bits(i as int)),
        AmfModel::Amf3(Amf3Model::Double(d)) => Some(d),
        _ => None,
    }
}

/// An AMF0 object model with the given members.
pub open spec fn amf0_object_model(entries: Seq<(Seq<char>, Amf0Model)>) -> AmfModel {
    AmfModel::Amf0(Amf0Model::Object { class_name: None, entries })
}

/// Finds the first member with the given key.
fn find_member<'a, V>(entries: &'a Vec<Pair<String, V>>, key: &str) -> (r: Option<usize>)
    ensures
        r matches Some(i) ==> i < entries@.len() && entries@[i as int].key@ == key@
            && forall|j: int| 0 <= j < i ==> (#[trigger] entries@[j]).key@ != key@,
        r is None ==> forall|j: int| 0 <= j < entries@.len() ==> (#[trigger] entries@[j]).key@ != key@,
{
    let mut i: usize = 0;
    while i < entries.len()
        invariant
            i <= entries@.len(),
            forall|j: int| 0 <= j < i ==> (#[trigger] entries@[j]).key@ != key@,
        decreases entries.len() - i,
    {
        if crate::bytes::str_eq(entries[i].key.as_str(), key) {
            return Some(i);
        }
        i = i + 1;
    }
    None
}

/// The search for the first key finds the first member with that key.
proof fn lemma_first_key_index<M>(entries: Seq<(Seq<char>, M)>, key: Seq<char>, i: int, r: Option<int>)
    requires
        0 <= i <= entries.len(),
        forall|j: int| 0 <= j < i ==> (#[trigger] entries[j]).0 != key,
        r matches Some(k) ==> 0 <= k < entries.len() && entries[k].0 == key && forall|j: int|
            0 <= j < k ==> (#[trigger] entries[j]).0 != key,
        r is None ==> forall|j: int| 0 <= j < entries.len() ==> (#[trigger] entries[j]).0 != key,
        r matches Some(k) ==> i <= k,
    ensures
        first_key_index(entries, key, i) == r,
    decreases entries.len() - i,
{
    if i < entries.len() {
        if entries[i].0 != key {
            lemma_first_key_index(entries, key, i + 1, r);
        }
    }
}

impl AmfValue {
    /// Decodes one value of the given encoding from the start of `buf`: the bytes used and
    /// the value.
    pub fn decode(buf: &[u8], version: AmfVersion) -> (r: Result<(usize, Self), Error>)
        ensures
            match amf_decode(buf@, version) {
                Ok((n, v)) => r matches Ok((k, x)) && k == n && x@ == v,
                Err(e) => r matches Err(er) && er.kind == e,
            },
            r matches Ok((k, _)) ==> 0 < k <= buf@.len(),
    {
        match version {
            AmfVersion::Amf0 => match Amf0Value::decode(buf) {
                Ok((n, v)) => Ok((n, AmfValue::Amf0(v))),
                Err(e) => Err(e),
            },
            AmfVersion::Amf3 => match Amf3Value::decode(buf) {
                Ok((n, v)) => Ok((n, AmfValue::Amf3(v))),
                Err(e) => Err(e),
            },
        }
    }

    /// Appends the encoding of this value.
    pub fn encode(&self, buf: &mut Vec<u8>)
        requires
            amf_encodable(self@),
        ensures
            final(buf)@ == old(buf)@ + amf_bytes(self@),
    {
        match self {
            AmfValue::Amf0(v) => v.encode(buf),
            AmfValue::Amf3(v) => v.encode(buf),
        }
    }

    /// A deep copy with the same model.
    pub fn duplicate(&self) -> (r: Self)
        ensures
            r@ == self@,
    {
        match self {
            AmfValue::Amf0(v) => AmfValue::Amf0(v.duplicate()),
            AmfValue::Amf3(v) => AmfValue::Amf3(v.duplicate()),
        }
    }

    /// The first member with the given key, when this is an object; an error when it is not
    /// an object or has no such member.
    pub fn expect_object_member(&self, key: &str) -> (r: Result<AmfValueRef<'_>, Error>)
        ensures
            match object_member(self@, key@) {
                Ok(m) => r matches Ok(v) && v@ == m,
                Err(e) => r matches Err(er) && er.kind == e,
            },
    {
        match self {
            AmfValue::Amf0(Amf0Value::Object { entries, .. }) => {
                let ghost ms = self@->Amf0_0->Object_entries;
                let found = find_member(entries, key);
                proof {
                    assert forall|j: int| 0 <= j < entries@.len() implies #[trigger] ms[j] == (
                    entries@[j].key@, entries@[j].value@) by {}
                    lemma_first_key_index(ms, key@, 0, match found { Some(i) => Some(i as int), None => None });
                }
                match found {
                    Some(i) => Ok(AmfValueRef::Amf0(&entries[i].value)),
                    None => {
                        let mut t = str_chars("missing required key: ");
                        push_str(&mut t, key);
                        Err(Error::with_text(ErrorKind::InvalidData, &t))
                    },
                }
            },
            AmfValue::Amf3(Amf3Value::Object { entries, .. }) => {
                let ghost ms = self@->Amf3_0->Object_entries;
                let found = find_member(entries, key);
                proof {
                    assert forall|j: int| 0 <= j < entries@.len() implies #[trigger] ms[j] == (
                    entries@[j].key@, entries@[j].value@) by {}
                    lemma_first_key_index(ms, key@, 0, match found { Some(i) => Some(i as int), None => None });
                }
                match found {
                    Some(i) => Ok(AmfValueRef::Amf3(&entries[i].value)),
                    None => {
                        let mut t = str_chars("missing required key: ");
                        push_str(&mut t, key);
                        Err(Error::with_text(ErrorKind::InvalidData, &t))
                    },
                }
            },
            _ => Err(Error::invalid_data("value is not an AMF object")),
        }
    }

    /// The string this value holds; an error when it is not a string.
    pub fn expect_str(&self) -> (r: Result<&str, Error>)
        ensures
            match model_str(self@) {
                Some(s) => r matches Ok(x) && x@ == s,
                None => r matches Err(e) && e.kind == ErrorKind::InvalidData,
            },
    {
        self.to_ref().expect_str()
    }

    /// The number this value holds; an error when it is not a number.
    pub fn expect_number(&self) -> (r: Result<Float64, Error>)
        ensures
            match model_number(self@) {
                Some(n) => r matches Ok(x) && x.0 == n,
                None => r matches Err(e) && e.kind == ErrorKind::InvalidData,
            },
    {
        self.to_ref().expect_number()
    }

    fn to_ref(&self) -> (r: AmfValueRef<'_>)
        ensures
            r@ == self@,
    {
        match self {
            AmfValue::Amf0(v) => AmfValueRef::Amf0(v),
            AmfValue::Amf3(v) => AmfValueRef::Amf3(v),
        }
    }

    /// An anonymous AMF0 object with the given members, in order.
    pub fn amf0_object(entries: Vec<(&str, Amf0Value)>) -> (r: Self)
        ensures
            r@ == amf0_object_model(Seq::new(entries@.len(), |i: int| (entries@[i].0@, entries@[i].1@))),
    {
        let mut out: Vec<Pair<String, Amf0Value>> = Vec::new();
        let mut entries = entries;
        let ghost orig = entries@;
        let mut rev: Vec<(&str, Amf0Value)> = Vec::new();
        while entries.len() > 0
            invariant
                rev@.len() + entries@.len() == orig.len(),
                forall|j: int| 0 <= j < entries@.len() ==> #[trigger] entries@[j] == orig[j],
                forall|j: int| 0 <= j < rev@.len() ==> #[trigger] rev@[j] == orig[orig.len() - 1 - j],
            decreases entries.len(),
        {
            let x = entries.pop().unwrap();
            rev.push(x);
        }
        while rev.len() > 0
            invariant
                rev@.len() + out@.len() == orig.len(),
                forall|j: int| 0 <= j < rev@.len() ==> #[trigger] rev@[j] == orig[orig.len() - 1 - j],
                forall|j: int|
                    0 <= j < out@.len() ==> (#[trigger] out@[j]).key@ == orig[j].0@ && out@[j].value@
                        == orig[j].1@,
            decreases rev.len(),
        {
            let (k, v) = rev.pop().unwrap();
            out.push(Pair { key: k.to_owned(), value: v });
        }
        let r = AmfValue::Amf0(Amf0Value::Object { class_name: None, entries: out });
        assert(r@->Amf0_0->Object_entries =~= Seq::new(orig.len(), |i: int| (orig[i].0@, orig[i].1@)));
        r
    }

    /// A string value in the given encoding.
    pub fn string(version: AmfVersion, value: &str) -> (r: Self)
        ensures
            r@ == (match version {
                AmfVersion::Amf0 => AmfModel::Amf0(Amf0Model::String(value@)),
                AmfVersion::Amf3 => AmfModel::Amf3(Amf3Model::String(value@)),
            }),
    {
        match version {
            AmfVersion::Amf0 => AmfValue::Amf0(Amf0Value::String(value.to_owned())),
            AmfVersion::Amf3 => AmfValue::Amf3(Amf3Value::String(value.to_owned())),
        }
    }

    /// A number value in the given encoding (a double in AMF3).
    pub fn number(version: AmfVersion, value: Float64) -> (r: Self)
        ensures
            r@ == (match version {
                AmfVersion::Amf0 => AmfModel::Amf0(Amf0Model::Number(value.0)),
                AmfVersion::Amf3 => AmfModel::Amf3(Amf3Model::Double(value.0)),
            }),
    {
        match version {
            AmfVersion::Amf0 => AmfValue::Amf0(Amf0Value::Number(value)),
            AmfVersion::Amf3 => AmfValue::Amf3(Amf3Value::Double(value)),
        }
    }
}

impl<'a> AmfValueRef<'a> {
    /// The string this value holds; an error when it is not a string.
    pub fn expect_str(&self) -> (r: Result<&'a str, Error>)
        ensures
            match model_str(self@) {
                Some(s) => r matches Ok(x) && x@ == s,
                None => r matches Err(e) && e.kind == ErrorKind::InvalidData,
            },
    {
        match *self {
            AmfValueRef::Amf0(Amf0Value::String(s)) => Ok(s.as_str()),
            AmfValueRef::Amf3(Amf3Value::String(s)) => Ok(s.as_str()),
            _ => Err(Error::invalid_data("value is not an AMF string")),
        }
    }

    /// The number this value holds; an error when it is not a number.
    pub fn expect_number(&self) -> (r: Result<Float64, Error>)
        ensures
            match model_number(self@) {
                Some(n) => r matches Ok(x) && x.0 == n,
                None => r matches Err(e) && e.kind == ErrorKind::InvalidData,
            },
    {
        match *self {
            AmfValueRef::Amf0(Amf0Value::Number(n)) => Ok(*n),
            AmfValueRef::Amf3(Amf3Value::Integer(n)) => Ok(Float64::from_i32(*n)),
            AmfValueRef::Amf3(Amf3Value::Double(n)) => Ok(*n),
            _ => Err(Error::invalid_data("value is not an AMF number")),
        }
    }
}

impl Clone for AmfValue {
    fn clone(&self) -> (r: Self)
        ensures
            r@ == self@,
    {
        self.duplicate()
    }
}

} // verus!
