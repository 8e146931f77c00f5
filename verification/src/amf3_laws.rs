use vstd::prelude::*;
use vstd::utf8::{decode_utf8, encode_utf8, valid_utf8};

use crate::amf0_laws::{
    holds_at, lemma_holds_be32, lemma_holds_be64, lemma_holds_index, lemma_holds_split,
    lemma_holds_text,
};
use crate::amf3::{
    amf3_bytes, amf3_decode, amf3_dict_bytes, amf3_keys_bytes, amf3_member_values_bytes,
    amf3_pairs_bytes, amf3_seq_bytes, date_millis, i32s_bytes, integer_u29, opt_name_bytes,
    parse_array_body, parse_complex, parse_complex_body, parse_dict, parse_f64, parse_flat_body,
    parse_object_body, parse_object_vector_body, parse_pairs, parse_simple, parse_str,
    parse_strs, parse_trait, parse_u29, parse_value, parse_values, reserve_complex, size_bytes,
    trait_word, u29_bytes, u32s_bytes, u64s_bytes, utf8_bytes, zip_members, Amf3Model,
    Amf3Tables, TraitModel,
};
use crate::bytes::{be32, be64, i32_bits, i32_value, lemma_u32_be_roundtrip, u32_be, u64_be};
use crate::error::ErrorKind;
use crate::rtmp_timestamp::{duration_as_millis, duration_of_millis, whole_millis};
use crate::float64::{lemma_nat_to_bits_exact, nat_to_bits, Float64};

verus! {

/// Whether the text `s` is short enough for the length field of an inline string.
pub open spec fn text3_fits(s: Seq<char>) -> bool {
    encode_utf8(s).len() < 0x1000_0000
}

/// Whether decoding the bytes of `m` can give `m` back: each count and text length fits
/// the 28 bits that an inline length has, integers fit 29 signed bits, dates are whole
/// milliseconds below 2^53, the keys of dynamic and associative members are not empty
/// (an empty key ends them), an object counts no more sealed members than it has and its
/// class name is absent or not empty, and a vector of objects is not named `*` (the name
/// written for an absent one).
pub open spec fn amf3_restorable(m: Amf3Model) -> bool
    decreases m,
{
    match m {
        Amf3Model::Integer(i) => -0x1000_0000 <= i < 0x1000_0000,
        Amf3Model::String(s) => text3_fits(s),
        Amf3Model::XmlDocument(s) => text3_fits(s),
        Amf3Model::Xml(s) => text3_fits(s),
        Amf3Model::Date { unix_time } => duration_as_millis(unix_time) < 0x20_0000_0000_0000 && whole_millis(
            unix_time,
        ),
        Amf3Model::Array { assoc_entries, dense_entries } => dense_entries.len() < 0x1000_0000
            && (forall|i: int|
            #![trigger assoc_entries[i]]
            0 <= i < assoc_entries.len() ==> assoc_entries[i].0.len() > 0 && text3_fits(
                assoc_entries[i].0,
            ) && amf3_restorable(assoc_entries[i].1)) && (forall|i: int|
            0 <= i < dense_entries.len() ==> amf3_restorable(#[trigger] dense_entries[i])),
        Amf3Model::Object { class_name, sealed_count, entries } => sealed_count <= entries.len()
            && trait_word(sealed_count, entries.len()) < 0x1000_0000 && (match class_name {
            Some(c) => c.len() > 0 && text3_fits(c),
            None => true,
        }) && (forall|i: int|
            #![trigger entries[i]]
            0 <= i < entries.len() ==> (i >= sealed_count ==> entries[i].0.len() > 0) && text3_fits(
                entries[i].0,
            ) && amf3_restorable(entries[i].1)),
        Amf3Model::ByteArray(b) => b.len() < 0x1000_0000,
        Amf3Model::IntVector { entries, .. } => entries.len() < 0x1000_0000,
        Amf3Model::UintVector { entries, .. } => entries.len() < 0x1000_0000,
        Amf3Model::DoubleVector { entries, .. } => entries.len() < 0x1000_0000,
        Amf3Model::ObjectVector { class_name, entries, .. } => entries.len() < 0x1000_0000
            && class_name != Some(seq!['*']) && (match class_name {
            Some(c) => text3_fits(c),
            None => true,
        }) && (forall|i: int|
            0 <= i < entries.len() ==> amf3_restorable(#[trigger] entries[i])),
        Amf3Model::Dictionary { entries, .. } => entries.len() < 0x1000_0000 && (forall|i: int|
            #![trigger entries[i]]
            0 <= i < entries.len() ==> amf3_restorable(entries[i].0) && amf3_restorable(
                entries[i].1,
            )),
        _ => true,
    }
}

/// A 29-bit integer below 2^7 reads back from its one byte.
proof fn lemma_u29_one(b: Seq<u8>, p: int, v: int)
    requires
        0 <= v < 0x80,
        holds_at(b, p, u29_bytes(v)),
    ensures
        parse_u29(b, p) == Ok::<(nat, nat), ErrorKind>((1nat, v as nat)),
        u29_bytes(v).len() == 1,
{
    assert(v % 0x1_0000_0000 == v);
    lemma_holds_index(b, p, u29_bytes(v), 0);
}

/// A 29-bit integer in `[2^7, 2^14)` reads back from its two bytes.
proof fn lemma_u29_two(b: Seq<u8>, p: int, v: int)
    requires
        0x80 <= v < 0x4000,
        holds_at(b, p, u29_bytes(v)),
    ensures
        parse_u29(b, p) == Ok::<(nat, nat), ErrorKind>((2nat, v as nat)),
        u29_bytes(v).len() == 2,
{
    let w = v as u32;
    assert(w / 0x80 < 0x80 && (w / 0x80) * 0x80 + w % 0x80 == w) by (bit_vector)
        requires
            0x80 <= w < 0x4000,
    ;
    assert(v % 0x1_0000_0000 == v);
    let x = u29_bytes(v);
    lemma_holds_index(b, p, x, 0);
    lemma_holds_index(b, p, x, 1);
    assert(b[p] == v / 0x80 + 0x80);
    assert(b[p + 1] == v % 0x80);
}

/// A 29-bit integer in `[2^14, 2^21)` reads back from its three bytes.
proof fn lemma_u29_three(b: Seq<u8>, p: int, v: int)
    requires
        0x4000 <= v < 0x20_0000,
        holds_at(b, p, u29_bytes(v)),
    ensures
        parse_u29(b, p) == Ok::<(nat, nat), ErrorKind>((3nat, v as nat)),
        u29_bytes(v).len() == 3,
{
    let w = v as u32;
    assert(w / 0x4000 < 0x80 && ((w / 0x4000) * 0x80 + (w / 0x80) % 0x80) * 0x80 + w % 0x80 == w)
        by (bit_vector)
        requires
            0x4000 <= w < 0x20_0000,
    ;
    assert(v % 0x1_0000_0000 == v);
    let x = u29_bytes(v);
    lemma_holds_index(b, p, x, 0);
    lemma_holds_index(b, p, x, 1);
    lemma_holds_index(b, p, x, 2);
    assert(b[p] == v / 0x4000 + 0x80);
    assert(b[p + 1] == (v / 0x80) % 0x80 + 0x80);
    assert(b[p + 2] == v % 0x80);
}

/// A 29-bit integer in `[2^21, 2^29)` reads back from its four bytes.
proof fn lemma_u29_four(b: Seq<u8>, p: int, v: int)
    requires
        0x20_0000 <= v < 0x2000_0000,
        holds_at(b, p, u29_bytes(v)),
    ensures
        parse_u29(b, p) == Ok::<(nat, nat), ErrorKind>((4nat, v as nat)),
        u29_bytes(v).len() == 4,
{
    let w = v as u32;
    assert(w / 0x40_0000 < 0x80 && ((((w / 0x40_0000) % 0x80) * 0x80 + (w / 0x8000) % 0x80) * 0x80
        + (w / 0x100) % 0x80) * 0x100 + w % 0x100 == w) by (bit_vector)
        requires
            0x20_0000 <= w < 0x2000_0000,
    ;
    assert(v % 0x1_0000_0000 == v);
    let x = u29_bytes(v);
    lemma_holds_index(b, p, x, 0);
    lemma_holds_index(b, p, x, 1);
    lemma_holds_index(b, p, x, 2);
    lemma_holds_index(b, p, x, 3);
    assert(b[p] == (v / 0x40_0000) % 0x80 + 0x80);
    assert(b[p + 1] == (v / 0x8000) % 0x80 + 0x80);
    assert(b[p + 2] == (v / 0x100) % 0x80 + 0x80);
    assert(b[p + 3] == v % 0x100);
}

/// A 29-bit integer written by `u29_bytes` reads back, with the bytes it takes.
proof fn lemma_u29(b: Seq<u8>, p: int, v: int)
    requires
        0 <= v < 0x2000_0000,
        holds_at(b, p, u29_bytes(v)),
    ensures
        parse_u29(b, p) == Ok::<(nat, nat), ErrorKind>((u29_bytes(v).len() as nat, v as nat)),
        1 <= u29_bytes(v).len() <= 4,
{
    if v < 0x80 {
        lemma_u29_one(b, p, v);
    } else if v < 0x4000 {
        lemma_u29_two(b, p, v);
    } else if v < 0x20_0000 {
        lemma_u29_three(b, p, v);
    } else {
        lemma_u29_four(b, p, v);
    }
}

/// The length word of an inline size `n` reads back as `2n + 1`.
proof fn lemma_size(b: Seq<u8>, p: int, n: int)
    requires
        0 <= n < 0x1000_0000,
        holds_at(b, p, size_bytes(n)),
    ensures
        parse_u29(b, p) == Ok::<(nat, nat), ErrorKind>(
            (size_bytes(n).len() as nat, (2 * n + 1) as nat),
        ),
        1 <= size_bytes(n).len() <= 4,
{
    assert(n % 0x8000_0000 == n);
    lemma_u29(b, p, 2 * n + 1);
}

/// An inline string held at `p` reads back, whatever the strings read before it.
proof fn lemma_str(b: Seq<u8>, p: int, s: Seq<char>, t: Amf3Tables)
    requires
        text3_fits(s),
        holds_at(b, p, utf8_bytes(s)),
    ensures
        parse_str(b, p, t) matches Ok((q, s2, _)) && q == p + utf8_bytes(s).len() && s2 == s,
{
    let e = encode_utf8(s);
    lemma_holds_split(b, p, size_bytes(e.len() as int), e);
    lemma_size(b, p, e.len() as int);
    lemma_holds_text(b, p + size_bytes(e.len() as int).len(), s);
}

/// A restorable value that is not complex, held at `p`, decodes to itself.
proof fn lemma3_simple(m: Amf3Model, b: Seq<u8>, p: int, t: Amf3Tables)
    requires
        amf3_restorable(m),
        holds_at(b, p, amf3_bytes(m)),
        m is Undefined || m is Null || m is Boolean || m is Integer || m is Double || m is String,
    ensures
        parse_simple(b, p + 1, t, b[p]) matches Ok((q, v, _)) && q == p + amf3_bytes(m).len()
            && v == m,
{
    let x = amf3_bytes(m);
    lemma_holds_index(b, p, x, 0);
    let q = p + 1;
    match m {
        Amf3Model::Integer(i) => {
            let u = integer_u29(i);
            lemma_holds_split(b, p, seq![0x04u8], u29_bytes(u));
            lemma_u29(b, q, u);
        },
        Amf3Model::Double(d) => {
            lemma_holds_split(b, p, seq![0x05u8], u64_be(d as int));
            lemma_holds_be64(b, q, d as int);
        },
        Amf3Model::String(s) => {
            lemma_holds_split(b, p, seq![0x06u8], utf8_bytes(s));
            lemma_str(b, q, s, t);
        },
        _ => {},
    }
}


/// The head of an inline complex value: after reading its length `n`, decoding goes on
/// with the body, in tables with a place reserved for the value.
proof fn lemma3_head(b: Seq<u8>, p: int, t: Amf3Tables, n: int)
    requires
        0 <= n < 0x1000_0000,
        holds_at(b, p + 1, size_bytes(n)),
        p >= 0,
    ensures
        parse_complex(b, p + 1, t, b[p]) == (match parse_complex_body(
            b,
            p + 1 + size_bytes(n).len(),
            reserve_complex(t),
            b[p],
            n as nat,
        ) {
            Err(e) => Err(e),
            Ok((q2, v, t2)) => Ok((q2, v, crate::amf3::set_complex(t2, t.complexes.len() as int, v))),
        }),
{
    lemma_size(b, p + 1, n);
    assert(((2 * n + 1) as nat) % 2 == 1);
    assert(((2 * n + 1) as nat) / 2 == n);
}

/// Big-endian patterns of `i32`s held at `q` read back, four bytes each.
proof fn lemma_i32s(b: Seq<u8>, q: int, s: Seq<i32>)
    requires
        holds_at(b, q, i32s_bytes(s)),
    ensures
        i32s_bytes(s).len() == 4 * s.len(),
        forall|i: int| 0 <= i < s.len() ==> be32(b, q + 4 * i) == i32_bits(#[trigger] s[i]),
    decreases s.len(),
{
    if s.len() > 0 {
        let n = s.len() - 1;
        let v = i32_bits(s.last());
        lemma_u32_be_roundtrip(v);
        lemma_holds_split(b, q, i32s_bytes(s.drop_last()), u32_be(v));
        lemma_i32s(b, q, s.drop_last());
        lemma_holds_be32(b, q + 4 * n, v);
        assert forall|i: int| 0 <= i < s.len() implies be32(b, q + 4 * i) == i32_bits(
            #[trigger] s[i],
        ) by {
            if i < n {
                assert(s[i] == s.drop_last()[i]);
            }
        }
    }
}

/// Big-endian `u32`s held at `q` read back, four bytes each.
proof fn lemma_u32s(b: Seq<u8>, q: int, s: Seq<u32>)
    requires
        holds_at(b, q, u32s_bytes(s)),
    ensures
        u32s_bytes(s).len() == 4 * s.len(),
        forall|i: int| 0 <= i < s.len() ==> be32(b, q + 4 * i) == #[trigger] s[i],
    decreases s.len(),
{
    if s.len() > 0 {
        let n = s.len() - 1;
        let v = s.last() as int;
        lemma_u32_be_roundtrip(v);
        lemma_holds_split(b, q, u32s_bytes(s.drop_last()), u32_be(v));
        lemma_u32s(b, q, s.drop_last());
        lemma_holds_be32(b, q + 4 * n, v);
        assert forall|i: int| 0 <= i < s.len() implies be32(b, q + 4 * i) == #[trigger] s[i] by {
            if i < n {
                assert(s[i] == s.drop_last()[i]);
            }
        }
    }
}

/// Big-endian 64-bit patterns held at `q` read back, eight bytes each.
proof fn lemma_u64s(b: Seq<u8>, q: int, s: Seq<u64>)
    requires
        holds_at(b, q, u64s_bytes(s)),
    ensures
        u64s_bytes(s).len() == 8 * s.len(),
        forall|i: int| 0 <= i < s.len() ==> be64(b, q + 8 * i) == #[trigger] s[i],
    decreases s.len(),
{
    if s.len() > 0 {
        let n = s.len() - 1;
        let v = s.last() as int;
        crate::bytes::lemma_u64_be_roundtrip(v);
        lemma_holds_split(b, q, u64s_bytes(s.drop_last()), u64_be(v));
        lemma_u64s(b, q, s.drop_last());
        lemma_holds_be64(b, q + 8 * n, v);
        assert forall|i: int| 0 <= i < s.len() implies be64(b, q + 8 * i) == #[trigger] s[i] by {
            if i < n {
                assert(s[i] == s.drop_last()[i]);
            }
        }
    }
}

/// The body of a vector of numbers, held at `q` after its marker and length, decodes to
/// the vector.
proof fn lemma3_number_vector(m: Amf3Model, b: Seq<u8>, p: int, q: int, n: int)
    requires
        m is IntVector || m is UintVector || m is DoubleVector,
        amf3_restorable(m),
        holds_at(b, p, amf3_bytes(m)),
        q == p + 1 + size_bytes(n).len(),
        n == (match m {
            Amf3Model::IntVector { entries, .. } => entries.len() as int,
            Amf3Model::UintVector { entries, .. } => entries.len() as int,
            Amf3Model::DoubleVector { entries, .. } => entries.len() as int,
            _ => 0int,
        }),
    ensures
        parse_flat_body(b, q, b[p], n as nat) == Ok::<(int, Amf3Model), ErrorKind>(
            (p + amf3_bytes(m).len(), m),
        ),
{
    reveal(parse_flat_body);
    let x = amf3_bytes(m);
    lemma_holds_index(b, p, x, 0);
    match m {
        Amf3Model::IntVector { is_fixed, entries } => {
            let f = seq![if is_fixed { 1u8 } else { 0u8 }];
            lemma_holds_split(b, p, seq![0x0Du8] + size_bytes(n) + f, i32s_bytes(entries));
            lemma_holds_split(b, p, seq![0x0Du8] + size_bytes(n), f);
            lemma_holds_index(b, q, f, 0);
            lemma_i32s(b, q + 1, entries);
            let got = Seq::new(n as nat, |i: int| i32_value(be32(b, q + 1 + 4 * i)) as i32);
            assert(got =~= entries) by {
                assert forall|i: int| 0 <= i < n implies got[i] == entries[i] by {
                    assert(be32(b, q + 1 + 4 * i) == i32_bits(entries[i]));
                }
            }
        },
        Amf3Model::UintVector { is_fixed, entries } => {
            let f = seq![if is_fixed { 1u8 } else { 0u8 }];
            lemma_holds_split(b, p, seq![0x0Eu8] + size_bytes(n) + f, u32s_bytes(entries));
            lemma_holds_split(b, p, seq![0x0Eu8] + size_bytes(n), f);
            lemma_holds_index(b, q, f, 0);
            lemma_u32s(b, q + 1, entries);
            let got = Seq::new(n as nat, |i: int| be32(b, q + 1 + 4 * i) as u32);
            assert(got =~= entries) by {
                assert forall|i: int| 0 <= i < n implies got[i] == entries[i] by {
                    assert(be32(b, q + 1 + 4 * i) == entries[i]);
                }
            }
        },
        Amf3Model::DoubleVector { is_fixed, entries } => {
            let f = seq![if is_fixed { 1u8 } else { 0u8 }];
            lemma_holds_split(b, p, seq![0x0Fu8] + size_bytes(n) + f, u64s_bytes(entries));
            lemma_holds_split(b, p, seq![0x0Fu8] + size_bytes(n), f);
            lemma_holds_index(b, q, f, 0);
            lemma_u64s(b, q + 1, entries);
            let got = Seq::new(n as nat, |i: int| be64(b, q + 1 + 8 * i) as u64);
            assert(got =~= entries) by {
                assert forall|i: int| 0 <= i < n implies got[i] == entries[i] by {
                    assert(be64(b, q + 1 + 8 * i) == entries[i]);
                }
            }
        },
        _ => {},
    }
}


/// The length that an inline complex value of `m` writes before its body.
pub open spec fn inline_len(m: Amf3Model) -> int {
    match m {
        Amf3Model::XmlDocument(s) => encode_utf8(s).len() as int,
        Amf3Model::Xml(s) => encode_utf8(s).len() as int,
        Amf3Model::ByteArray(x) => x.len() as int,
        Amf3Model::IntVector { entries, .. } => entries.len() as int,
        Amf3Model::UintVector { entries, .. } => entries.len() as int,
        Amf3Model::DoubleVector { entries, .. } => entries.len() as int,
        Amf3Model::Array { dense_entries, .. } => dense_entries.len() as int,
        Amf3Model::Object { sealed_count, entries, .. } => trait_word(sealed_count, entries.len()),
        Amf3Model::ObjectVector { entries, .. } => entries.len() as int,
        Amf3Model::Dictionary { entries, .. } => entries.len() as int,
        _ => 0,
    }
}

/// The body of a text, date or byte array, held at `q` after its marker and length,
/// decodes to the value.
#[verifier::spinoff_prover]
#[verifier::rlimit(50)]
proof fn lemma3_leaf_body(m: Amf3Model, b: Seq<u8>, p: int, q: int)
    requires
        m is XmlDocument || m is Xml || m is Date || m is ByteArray,
        amf3_restorable(m),
        holds_at(b, p, amf3_bytes(m)),
        q == p + 1 + size_bytes(inline_len(m)).len(),
    ensures
        parse_flat_body(b, q, b[p], inline_len(m) as nat) == Ok::<(int, Amf3Model), ErrorKind>(
            (p + amf3_bytes(m).len(), m),
        ),
{
    reveal(parse_flat_body);
    let x = amf3_bytes(m);
    lemma_holds_index(b, p, x, 0);
    match m {
        Amf3Model::XmlDocument(s) => {
            let e = encode_utf8(s);
            assert(x =~= seq![0x07u8] + size_bytes(e.len() as int) + e);
            lemma_holds_split(b, p, seq![0x07u8] + size_bytes(e.len() as int), e);
            lemma_holds_text(b, q, s);
        },
        Amf3Model::Xml(s) => {
            let e = encode_utf8(s);
            assert(x =~= seq![0x0Bu8] + size_bytes(e.len() as int) + e);
            lemma_holds_split(b, p, seq![0x0Bu8] + size_bytes(e.len() as int), e);
            lemma_holds_text(b, q, s);
        },
        Amf3Model::Date { unix_time } => {
            let millis = duration_as_millis(unix_time);
            let bits = nat_to_bits(millis as nat);
            lemma_nat_to_bits_exact(millis as nat);
            lemma_holds_split(b, p, seq![0x08u8] + size_bytes(0), u64_be(bits as int));
            lemma_holds_be64(b, q, bits as int);
            assert(date_millis(bits) == Some(millis));
            assert(duration_of_millis(millis as u64) == unix_time);
        },
        Amf3Model::ByteArray(y) => {
            lemma_holds_split(b, p, seq![0x0Cu8] + size_bytes(y.len() as int), y);
        },
        _ => {},
    }
}

/// A restorable complex value that holds no other values, held at `p`, decodes to itself.
proof fn lemma3_flat(m: Amf3Model, b: Seq<u8>, p: int, t: Amf3Tables)
    requires
        m is XmlDocument || m is Xml || m is Date || m is ByteArray || m is IntVector
            || m is UintVector || m is DoubleVector,
        amf3_restorable(m),
        holds_at(b, p, amf3_bytes(m)),
    ensures
        parse_complex(b, p + 1, t, b[p]) matches Ok((q, v, _)) && q == p + amf3_bytes(m).len()
            && v == m,
{
    let x = amf3_bytes(m);
    let n = inline_len(m);
    lemma_holds_index(b, p, x, 0);
    let rest = x.subrange(1 + size_bytes(n).len() as int, x.len() as int);
    assert(x =~= seq![b[p]] + size_bytes(n) + rest);
    lemma_holds_split(b, p, seq![b[p]] + size_bytes(n), rest);
    lemma_holds_split(b, p, seq![b[p]], size_bytes(n));
    lemma3_head(b, p, t, n);
    let q = p + 1 + size_bytes(n).len();
    if m is IntVector || m is UintVector || m is DoubleVector {
        lemma3_number_vector(m, b, p, q, n);
    } else {
        lemma3_leaf_body(m, b, p, q);
    }
}


/// The bytes of a restorable value start with a marker, complex just where the value is.
pub(crate) proof fn lemma3_bytes_start(m: Amf3Model)
    ensures
        amf3_bytes(m).len() >= 1,
        (0x07u8 <= amf3_bytes(m)[0] <= 0x11u8) <==> !(m is Undefined || m is Null || m is Boolean
            || m is Integer || m is Double || m is String),
{
}

/// The names of the first `n` members, held at `p`, read back.
proof fn lemma3_keys(s: Seq<(Seq<char>, Amf3Model)>, n: int, b: Seq<u8>, p: int, t: Amf3Tables)
    requires
        0 <= n <= s.len(),
        forall|j: int| 0 <= j < n ==> text3_fits(#[trigger] s[j].0),
        holds_at(b, p, amf3_keys_bytes(s, n)),
    ensures
        parse_strs(b, p, t, n as nat) matches Ok((q, ks, _)) && q == p + amf3_keys_bytes(
            s,
            n,
        ).len() && ks == Seq::new(n as nat, |j: int| s[j].0),
    decreases n,
{
    if n > 0 {
        lemma_holds_split(b, p, amf3_keys_bytes(s, n - 1), utf8_bytes(s[n - 1].0));
        lemma3_keys(s, n - 1, b, p, t);
        let (p1, ks, t1) = parse_strs(b, p, t, (n - 1) as nat).get_Ok_0();
        lemma_str(b, p1, s[n - 1].0, t1);
        assert(ks.push(s[n - 1].0) =~= Seq::new(n as nat, |j: int| s[j].0));
    }
}

proof fn lemma3_pairs_prefix(
    b: Seq<u8>,
    p: int,
    s: Seq<(Seq<char>, Amf3Model)>,
    lo: int,
    k: int,
    hi: int,
)
    requires
        0 <= lo <= k <= hi <= s.len(),
        holds_at(b, p, amf3_pairs_bytes(s, lo, hi)),
    ensures
        holds_at(b, p, amf3_pairs_bytes(s, lo, k)),
    decreases hi - k,
{
    if k < hi {
        assert(amf3_pairs_bytes(s, lo, hi) =~= amf3_pairs_bytes(s, lo, hi - 1) + (utf8_bytes(
            s[hi - 1].0,
        ) + amf3_bytes(s[hi - 1].1)));
        lemma_holds_split(
            b,
            p,
            amf3_pairs_bytes(s, lo, hi - 1),
            utf8_bytes(s[hi - 1].0) + amf3_bytes(s[hi - 1].1),
        );
        lemma3_pairs_prefix(b, p, s, lo, k, hi - 1);
    }
}

proof fn lemma3_seq_prefix(b: Seq<u8>, p: int, s: Seq<Amf3Model>, k: int, n: int)
    requires
        0 <= k <= n <= s.len(),
        holds_at(b, p, amf3_seq_bytes(s, n)),
    ensures
        holds_at(b, p, amf3_seq_bytes(s, k)),
    decreases n - k,
{
    if k < n {
        lemma_holds_split(b, p, amf3_seq_bytes(s, n - 1), amf3_bytes(s[n - 1]));
        lemma3_seq_prefix(b, p, s, k, n - 1);
    }
}

proof fn lemma3_member_values_prefix(
    b: Seq<u8>,
    p: int,
    s: Seq<(Seq<char>, Amf3Model)>,
    k: int,
    n: int,
)
    requires
        0 <= k <= n <= s.len(),
        holds_at(b, p, amf3_member_values_bytes(s, n)),
    ensures
        holds_at(b, p, amf3_member_values_bytes(s, k)),
    decreases n - k,
{
    if k < n {
        lemma_holds_split(b, p, amf3_member_values_bytes(s, n - 1), amf3_bytes(s[n - 1].1));
        lemma3_member_values_prefix(b, p, s, k, n - 1);
    }
}

proof fn lemma3_dict_prefix(b: Seq<u8>, p: int, s: Seq<(Amf3Model, Amf3Model)>, k: int, n: int)
    requires
        0 <= k <= n <= s.len(),
        holds_at(b, p, amf3_dict_bytes(s, n)),
    ensures
        holds_at(b, p, amf3_dict_bytes(s, k)),
    decreases n - k,
{
    if k < n {
        assert(amf3_dict_bytes(s, n) =~= amf3_dict_bytes(s, n - 1) + (amf3_bytes(s[n - 1].0)
            + amf3_bytes(s[n - 1].1)));
        lemma_holds_split(
            b,
            p,
            amf3_dict_bytes(s, n - 1),
            amf3_bytes(s[n - 1].0) + amf3_bytes(s[n - 1].1),
        );
        lemma3_dict_prefix(b, p, s, k, n - 1);
    }
}

/// The empty string ends dynamic members; it reads back as the empty key.
proof fn lemma3_end_key(b: Seq<u8>, p: int, t: Amf3Tables)
    requires
        holds_at(b, p, utf8_bytes(Seq::<char>::empty())),
    ensures
        utf8_bytes(Seq::<char>::empty()).len() == 1,
        parse_str(b, p, t) matches Ok((q, k, _)) && q == p + 1 && k.len() == 0,
{
    assert(encode_utf8(Seq::<char>::empty()) =~= Seq::<u8>::empty());
    lemma_str(b, p, Seq::<char>::empty(), t);
    assert(1int % 0x8000_0000 == 1);
    assert(size_bytes(0) == u29_bytes(1));
    assert(u29_bytes(1).len() == 1);
}

/// Members `i..hi` held at `p`, followed by the empty key, decode to those members.
#[verifier::spinoff_prover]
#[verifier::rlimit(60)]
proof fn lemma3_pairs(
    s: Seq<(Seq<char>, Amf3Model)>,
    lo: int,
    i: int,
    hi: int,
    b: Seq<u8>,
    p: int,
    t: Amf3Tables,
)
    requires
        0 <= lo <= i <= hi <= s.len(),
        forall|j: int|
            #![trigger s[j]]
            lo <= j < hi ==> s[j].0.len() > 0 && text3_fits(s[j].0) && amf3_restorable(s[j].1),
        holds_at(b, p, amf3_pairs_bytes(s, lo, hi) + utf8_bytes(Seq::<char>::empty())),
    ensures
        parse_pairs(b, p + amf3_pairs_bytes(s, lo, i).len(), t) matches Ok((q, e, _)) && q == p
            + amf3_pairs_bytes(s, lo, hi).len() + 1 && e == s.subrange(i, hi),
    decreases s, hi - i,
{
    reveal(parse_pairs);
    let all = amf3_pairs_bytes(s, lo, hi);
    lemma_holds_split(b, p, all, utf8_bytes(Seq::<char>::empty()));
    let pi = p + amf3_pairs_bytes(s, lo, i).len();
    if i == hi {
        lemma3_end_key(b, pi, t);
        assert(s.subrange(i, hi) =~= Seq::<(Seq<char>, Amf3Model)>::empty());
    } else {
        let key = s[i].0;
        let v = s[i].1;
        lemma3_pairs_prefix(b, p, s, lo, i + 1, hi);
        assert(amf3_pairs_bytes(s, lo, i + 1) =~= amf3_pairs_bytes(s, lo, i) + (utf8_bytes(key)
            + amf3_bytes(v)));
        lemma_holds_split(b, p, amf3_pairs_bytes(s, lo, i), utf8_bytes(key) + amf3_bytes(v));
        lemma_holds_split(b, pi, utf8_bytes(key), amf3_bytes(v));
        lemma_str(b, pi, key, t);
        let (p1, k1, t1) = parse_str(b, pi, t).get_Ok_0();
        assert(encode_utf8(key).len() > 0) by {
            vstd::utf8::encode_utf8_decode_utf8(key);
            if encode_utf8(key).len() == 0 {
                assert(encode_utf8(key) =~= Seq::<u8>::empty());
                assert(decode_utf8(Seq::<u8>::empty()) =~= Seq::<char>::empty());
            }
        }
        lemma3_bytes_start(v);
        assert(decreases_to!(s => s[i]));
        assert(decreases_to!(s[i] => s[i].1));
        lemma3_value(v, b, p1, t1);
        let (p2, v2, t2) = parse_value(b, p1, t1).get_Ok_0();
        assert(p2 == p + amf3_pairs_bytes(s, lo, i + 1).len());
        lemma3_pairs(s, lo, i + 1, hi, b, p, t2);
        assert(seq![(key, v)] + s.subrange(i + 1, hi) =~= s.subrange(i, hi));
    }
}

/// Values `i..` held at `p` decode to those values.
#[verifier::spinoff_prover]
#[verifier::rlimit(60)]
proof fn lemma3_values(s: Seq<Amf3Model>, i: int, b: Seq<u8>, p: int, t: Amf3Tables)
    requires
        0 <= i <= s.len(),
        forall|j: int| 0 <= j < s.len() ==> amf3_restorable(#[trigger] s[j]),
        holds_at(b, p, amf3_seq_bytes(s, s.len() as int)),
    ensures
        parse_values(b, p + amf3_seq_bytes(s, i).len(), t, (s.len() - i) as nat) matches Ok(
            (q, e, _),
        ) && q == p + amf3_seq_bytes(s, s.len() as int).len() && e == s.subrange(
            i,
            s.len() as int,
        ),
    decreases s, s.len() - i,
{
    reveal(parse_values);
    let pi = p + amf3_seq_bytes(s, i).len();
    if i == s.len() {
        assert(s.subrange(i, s.len() as int) =~= Seq::<Amf3Model>::empty());
    } else {
        let v = s[i];
        lemma3_seq_prefix(b, p, s, i + 1, s.len() as int);
        lemma_holds_split(b, p, amf3_seq_bytes(s, i), amf3_bytes(v));
        lemma3_bytes_start(v);
        assert(decreases_to!(s => s[i]));
        lemma3_value(v, b, pi, t);
        let (p1, v1, t1) = parse_value(b, pi, t).get_Ok_0();
        assert(p1 == p + amf3_seq_bytes(s, i + 1).len());
        lemma3_values(s, i + 1, b, p, t1);
        assert(seq![v] + s.subrange(i + 1, s.len() as int) =~= s.subrange(i, s.len() as int));
    }
}

/// The values of members `i..n` held at `p` decode to those values.
#[verifier::spinoff_prover]
#[verifier::rlimit(60)]
proof fn lemma3_member_values(
    s: Seq<(Seq<char>, Amf3Model)>,
    n: int,
    i: int,
    b: Seq<u8>,
    p: int,
    t: Amf3Tables,
)
    requires
        0 <= i <= n <= s.len(),
        forall|j: int| #![trigger s[j]] 0 <= j < n ==> amf3_restorable(s[j].1),
        holds_at(b, p, amf3_member_values_bytes(s, n)),
    ensures
        parse_values(b, p + amf3_member_values_bytes(s, i).len(), t, (n - i) as nat) matches Ok(
            (q, e, _),
        ) && q == p + amf3_member_values_bytes(s, n).len() && e == Seq::new(
            (n - i) as nat,
            |k: int| s[i + k].1,
        ),
    decreases s, n - i,
{
    reveal(parse_values);
    let pi = p + amf3_member_values_bytes(s, i).len();
    if i == n {
        assert(Seq::new((n - i) as nat, |k: int| s[i + k].1) =~= Seq::<Amf3Model>::empty());
    } else {
        let v = s[i].1;
        lemma3_member_values_prefix(b, p, s, i + 1, n);
        lemma_holds_split(b, p, amf3_member_values_bytes(s, i), amf3_bytes(v));
        lemma3_bytes_start(v);
        assert(decreases_to!(s => s[i]));
        assert(decreases_to!(s[i] => s[i].1));
        lemma3_value(v, b, pi, t);
        let (p1, v1, t1) = parse_value(b, pi, t).get_Ok_0();
        assert(p1 == p + amf3_member_values_bytes(s, i + 1).len());
        lemma3_member_values(s, n, i + 1, b, p, t1);
        assert(seq![v] + Seq::new((n - (i + 1)) as nat, |k: int| s[i + 1 + k].1) =~= Seq::new(
            (n - i) as nat,
            |k: int| s[i + k].1,
        ));
    }
}

/// Dictionary entries `i..` held at `p` decode to those entries.
#[verifier::spinoff_prover]
#[verifier::rlimit(60)]
proof fn lemma3_dict(s: Seq<(Amf3Model, Amf3Model)>, i: int, b: Seq<u8>, p: int, t: Amf3Tables)
    requires
        0 <= i <= s.len(),
        forall|j: int|
            #![trigger s[j]]
            0 <= j < s.len() ==> amf3_restorable(s[j].0) && amf3_restorable(s[j].1),
        holds_at(b, p, amf3_dict_bytes(s, s.len() as int)),
    ensures
        parse_dict(b, p + amf3_dict_bytes(s, i).len(), t, (s.len() - i) as nat) matches Ok(
            (q, e, _),
        ) && q == p + amf3_dict_bytes(s, s.len() as int).len() && e == s.subrange(
            i,
            s.len() as int,
        ),
    decreases s, s.len() - i,
{
    reveal(parse_dict);
    let pi = p + amf3_dict_bytes(s, i).len();
    if i == s.len() {
        assert(s.subrange(i, s.len() as int) =~= Seq::<(Amf3Model, Amf3Model)>::empty());
    } else {
        let k = s[i].0;
        let v = s[i].1;
        lemma3_dict_prefix(b, p, s, i + 1, s.len() as int);
        assert(amf3_dict_bytes(s, i + 1) =~= amf3_dict_bytes(s, i) + (amf3_bytes(k) + amf3_bytes(
            v,
        )));
        lemma_holds_split(b, p, amf3_dict_bytes(s, i), amf3_bytes(k) + amf3_bytes(v));
        lemma_holds_split(b, pi, amf3_bytes(k), amf3_bytes(v));
        lemma3_bytes_start(k);
        lemma3_bytes_start(v);
        assert(decreases_to!(s => s[i]));
        assert(decreases_to!(s[i] => s[i].0));
        assert(decreases_to!(s[i] => s[i].1));
        lemma3_value(k, b, pi, t);
        let (p1, k1, t1) = parse_value(b, pi, t).get_Ok_0();
        lemma3_value(v, b, p1, t1);
        let (p2, v2, t2) = parse_value(b, p1, t1).get_Ok_0();
        assert(p2 == p + amf3_dict_bytes(s, i + 1).len());
        lemma3_dict(s, i + 1, b, p, t2);
        assert(seq![(k, v)] + s.subrange(i + 1, s.len() as int) =~= s.subrange(i, s.len() as int));
    }
}


/// The body of a restorable array, held at `q` after its marker and length at `p`,
/// decodes to the array.
#[verifier::spinoff_prover]
#[verifier::rlimit(60)]
proof fn lemma3_array_body(m: Amf3Model, b: Seq<u8>, p: int, q: int, t: Amf3Tables)
    requires
        m is Array,
        amf3_restorable(m),
        holds_at(b, p, amf3_bytes(m)),
        q == p + 1 + size_bytes(inline_len(m)).len(),
    ensures
        parse_array_body(b, q, t, inline_len(m) as nat) matches Ok((q2, v, _)) && q2 == p
            + amf3_bytes(m).len() && v == m,
    decreases m, 1int,
{
    reveal(parse_array_body);
    let assoc = m->assoc_entries;
    let dense = m->dense_entries;
    let n = dense.len() as int;
    let pb = amf3_pairs_bytes(assoc, 0, assoc.len() as int);
    let e = utf8_bytes(Seq::<char>::empty());
    let sb = amf3_seq_bytes(dense, n);
    let head = seq![0x09u8] + size_bytes(n);
    assert(amf3_bytes(m) =~= head + (pb + e) + sb);
    lemma_holds_split(b, p, head + (pb + e), sb);
    lemma_holds_split(b, p, head, pb + e);
    assert(decreases_to!(m => assoc));
    assert(decreases_to!(m => dense));
    lemma3_pairs(assoc, 0, 0, assoc.len() as int, b, q, t);
    let (q2, a2, t2) = parse_pairs(b, q, t).get_Ok_0();
    assert(assoc.subrange(0, assoc.len() as int) =~= assoc);
    lemma3_values(dense, 0, b, q2, t2);
    assert(dense.subrange(0, n) =~= dense);
}

/// The traits of an object, held at `q`, read back: its class name, whether members
/// follow the sealed ones, and the names of the sealed members.
#[verifier::rlimit(40)]
proof fn lemma3_object_traits(
    class_name: Option<Seq<char>>,
    sc: nat,
    entries: Seq<(Seq<char>, Amf3Model)>,
    b: Seq<u8>,
    q: int,
    t: Amf3Tables,
)
    requires
        sc <= entries.len(),
        match class_name {
            Some(c) => c.len() > 0 && text3_fits(c),
            None => true,
        },
        forall|j: int| #![trigger entries[j]] 0 <= j < sc ==> text3_fits(entries[j].0),
        holds_at(
            b,
            q,
            opt_name_bytes(class_name, Seq::empty()) + amf3_keys_bytes(entries, sc as int),
        ),
    ensures
        parse_trait(b, q, t, trait_word(sc, entries.len()) as nat) matches Ok((p2, tr, _)) && p2
            == q + opt_name_bytes(class_name, Seq::empty()).len() + amf3_keys_bytes(
            entries,
            sc as int,
        ).len() && tr.class_name == class_name && tr.is_dynamic == (sc < entries.len())
            && tr.fields == Seq::new(sc, |j: int| entries[j].0),
{
    let len = entries.len();
    let n = sc as int;
    let tw = trait_word(sc, len);
    assert(tw % 2 == 1 && (tw / 2) % 2 == 0 && tw / 8 == sc && ((tw / 4) % 2 == 1) == (sc < len));
    let name_bytes = opt_name_bytes(class_name, Seq::empty());
    let kb = amf3_keys_bytes(entries, n);
    lemma_holds_split(b, q, name_bytes, kb);
    let cname = match class_name {
        Some(c) => c,
        None => Seq::<char>::empty(),
    };
    assert(name_bytes == utf8_bytes(cname));
    assert(text3_fits(cname)) by {
        assert(encode_utf8(Seq::<char>::empty()) =~= Seq::<u8>::empty());
    }
    lemma_str(b, q, cname, t);
    let (r1, nm, t1) = parse_str(b, q, t).get_Ok_0();
    lemma3_keys(entries, n, b, r1, t1);
}

/// The body of a restorable object, held at `q` after its marker and flag word at `p`,
/// decodes to the object.
#[verifier::spinoff_prover]
#[verifier::rlimit(80)]
proof fn lemma3_object_body(m: Amf3Model, b: Seq<u8>, p: int, q: int, t: Amf3Tables)
    requires
        m is Object,
        amf3_restorable(m),
        holds_at(b, p, amf3_bytes(m)),
        q == p + 1 + size_bytes(inline_len(m)).len(),
    ensures
        parse_object_body(b, q, t, inline_len(m) as nat) matches Ok((q2, v, _)) && q2 == p
            + amf3_bytes(m).len() && v == m,
    decreases m, 1int,
{
    reveal(parse_object_body);
    let class_name = m->Object_class_name;
    let sc = m->sealed_count;
    let entries = m->Object_entries;
    let len = entries.len();
    let n = sc as int;
    let name_bytes = opt_name_bytes(class_name, Seq::empty());
    let kb = amf3_keys_bytes(entries, n);
    let vb = amf3_member_values_bytes(entries, n);
    let tail = if len > sc {
        amf3_pairs_bytes(entries, n, len as int) + utf8_bytes(Seq::<char>::empty())
    } else {
        Seq::<u8>::empty()
    };
    let head = seq![0x0Au8] + size_bytes(trait_word(sc, len));
    assert(amf3_bytes(m) =~= head + ((name_bytes + kb) + (vb + tail)));
    lemma_holds_split(b, p, head, (name_bytes + kb) + (vb + tail));
    lemma_holds_split(b, q, name_bytes + kb, vb + tail);
    let p2 = q + name_bytes.len() + kb.len();
    lemma_holds_split(b, p2, vb, tail);
    let p3 = p2 + vb.len();
    assert forall|j: int| #![trigger entries[j]] 0 <= j < sc implies text3_fits(entries[j].0) by {
    }
    lemma3_object_traits(class_name, sc, entries, b, q, t);
    let (r2, tr, tt) = parse_trait(b, q, t, trait_word(sc, len) as nat).get_Ok_0();
    assert(decreases_to!(m => entries));
    lemma3_member_values(entries, n, 0, b, p2, tt);
    let (r3, vals, t3) = parse_values(b, p2, tt, tr.fields.len()).get_Ok_0();
    let sealed = zip_members(tr.fields, vals);
    assert(sealed =~= entries.subrange(0, n));
    if len > sc {
        lemma3_pairs(entries, n, n, len as int, b, p3, t3);
        assert(entries.subrange(0, n) + entries.subrange(n, len as int) =~= entries);
    } else {
        assert(entries.subrange(0, n) =~= entries);
    }
}

/// The body of a restorable vector of values, held at `q` after its marker and length at
/// `p`, decodes to the vector.
#[verifier::spinoff_prover]
#[verifier::rlimit(60)]
proof fn lemma3_object_vector_body(m: Amf3Model, b: Seq<u8>, p: int, q: int, t: Amf3Tables)
    requires
        m is ObjectVector,
        amf3_restorable(m),
        holds_at(b, p, amf3_bytes(m)),
        q == p + 1 + size_bytes(inline_len(m)).len(),
    ensures
        parse_object_vector_body(b, q, t, inline_len(m) as nat) matches Ok((q2, v, _)) && q2 == p
            + amf3_bytes(m).len() && v == m,
    decreases m, 1int,
{
    reveal(parse_object_vector_body);
    let class_name = m->ObjectVector_class_name;
    let is_fixed = m->ObjectVector_is_fixed;
    let entries = m->ObjectVector_entries;
    let n = entries.len() as int;
    let f = seq![if is_fixed { 1u8 } else { 0u8 }];
    let name_bytes = opt_name_bytes(class_name, seq!['*']);
    let sb = amf3_seq_bytes(entries, n);
    let head = seq![0x10u8] + size_bytes(n);
    assert(amf3_bytes(m) =~= head + (f + (name_bytes + sb)));
    lemma_holds_split(b, p, head, f + (name_bytes + sb));
    lemma_holds_split(b, q, f, name_bytes + sb);
    lemma_holds_split(b, q + 1, name_bytes, sb);
    lemma_holds_index(b, q, f, 0);
    let cname = match class_name {
        Some(c) => c,
        None => seq!['*'],
    };
    assert(name_bytes == utf8_bytes(cname));
    assert(text3_fits(cname)) by {
        if class_name is None {
            vstd::utf8::is_ascii_chars_encode_utf8(seq!['*']);
        }
    }
    lemma_str(b, q + 1, cname, t);
    let (r1, nm, t1) = parse_str(b, q + 1, t).get_Ok_0();
    assert(decreases_to!(m => entries));
    lemma3_values(entries, 0, b, r1, t1);
    assert(entries.subrange(0, n) =~= entries);
}

/// The body of a restorable dictionary, held at `q` after its marker and length at `p`,
/// decodes to the dictionary.
#[verifier::spinoff_prover]
#[verifier::rlimit(60)]
proof fn lemma3_dictionary_body(m: Amf3Model, b: Seq<u8>, p: int, q: int, t: Amf3Tables)
    requires
        m is Dictionary,
        amf3_restorable(m),
        holds_at(b, p, amf3_bytes(m)),
        q == p + 1 + size_bytes(inline_len(m)).len(),
    ensures
        q + 1 <= b.len(),
        b[q] == (if m->is_weak { 1u8 } else { 0u8 }),
        parse_dict(b, q + 1, t, inline_len(m) as nat) matches Ok((q2, e, _)) && q2 == p
            + amf3_bytes(m).len() && e == m->Dictionary_entries,
    decreases m, 1int,
{
    let is_weak = m->is_weak;
    let entries = m->Dictionary_entries;
    let n = entries.len() as int;
    let f = seq![if is_weak { 1u8 } else { 0u8 }];
    let db = amf3_dict_bytes(entries, n);
    let head = seq![0x11u8] + size_bytes(n);
    assert(amf3_bytes(m) =~= head + (f + db));
    lemma_holds_split(b, p, head, f + db);
    lemma_holds_split(b, q, f, db);
    lemma_holds_index(b, q, f, 0);
    assert(decreases_to!(m => entries));
    lemma3_dict(entries, 0, b, q + 1, t);
    assert(entries.subrange(0, n) =~= entries);
}

/// A restorable value that holds other values, held at `p`, decodes to itself.
#[verifier::spinoff_prover]
#[verifier::rlimit(60)]
proof fn lemma3_container(m: Amf3Model, b: Seq<u8>, p: int, t: Amf3Tables)
    requires
        m is Array || m is Object || m is ObjectVector || m is Dictionary,
        amf3_restorable(m),
        holds_at(b, p, amf3_bytes(m)),
    ensures
        parse_complex(b, p + 1, t, b[p]) matches Ok((q, v, _)) && q == p + amf3_bytes(m).len()
            && v == m,
    decreases m, 2int,
{
    let x = amf3_bytes(m);
    let n = inline_len(m);
    lemma_holds_index(b, p, x, 0);
    let rest = x.subrange(1 + size_bytes(n).len() as int, x.len() as int);
    assert(x =~= seq![b[p]] + size_bytes(n) + rest);
    lemma_holds_split(b, p, seq![b[p]] + size_bytes(n), rest);
    lemma_holds_split(b, p, seq![b[p]], size_bytes(n));
    lemma3_head(b, p, t, n);
    let q = p + 1 + size_bytes(n).len();
    let t1 = reserve_complex(t);
    if m is Array {
        lemma3_array_body(m, b, p, q, t1);
    } else if m is Object {
        lemma3_object_body(m, b, p, q, t1);
    } else if m is ObjectVector {
        lemma3_object_vector_body(m, b, p, q, t1);
    } else {
        lemma3_dictionary_body(m, b, p, q, t1);
    }
}

/// A restorable value held at `p` decodes to itself, whatever the tables of what was read
/// before it.
#[verifier::spinoff_prover]
#[verifier::rlimit(60)]
proof fn lemma3_value(m: Amf3Model, b: Seq<u8>, p: int, t: Amf3Tables)
    requires
        amf3_restorable(m),
        holds_at(b, p, amf3_bytes(m)),
    ensures
        parse_value(b, p, t) matches Ok((q, v, _)) && q == p + amf3_bytes(m).len() && v == m,
    decreases m, 3int,
{
    lemma_holds_index(b, p, amf3_bytes(m), 0);
    lemma3_bytes_start(m);
    if m is Undefined || m is Null || m is Boolean || m is Integer || m is Double || m is String {
        lemma3_simple(m, b, p, t);
    } else if m is Array || m is Object || m is ObjectVector || m is Dictionary {
        lemma3_container(m, b, p, t);
    } else {
        lemma3_flat(m, b, p, t);
    }
}

/// Decoding the bytes of a restorable AMF3 value gives the value back and uses exactly
/// those bytes, whatever follows them.
pub proof fn lemma_amf3_roundtrip(m: Amf3Model, rest: Seq<u8>)
    requires
        amf3_restorable(m),
    ensures
        amf3_decode(amf3_bytes(m) + rest) == Ok::<(int, Amf3Model), ErrorKind>(
            (amf3_bytes(m).len() as int, m),
        ),
{
    reveal(amf3_decode);
    let b = amf3_bytes(m) + rest;
    assert(b.subrange(0, amf3_bytes(m).len() as int) =~= amf3_bytes(m));
    lemma3_value(m, b, 0, crate::amf3::empty_tables());
}

/// The marker that starts the AMF3 encoding of each kind of value: undefined 0x00, null
/// 0x01, false 0x02, true 0x03, integer 0x04, double 0x05, string 0x06, XML document 0x07,
/// date 0x08, array 0x09, object 0x0A, XML 0x0B, byte array 0x0C, vectors of int 0x0D, of
/// uint 0x0E, of double 0x0F and of objects 0x10, and dictionary 0x11.
pub proof fn lemma_amf3_markers(m: Amf3Model)
    ensures
        m is Undefined ==> amf3_bytes(m)[0] == 0x00,
        m is Null ==> amf3_bytes(m)[0] == 0x01,
        m matches Amf3Model::Boolean(b) ==> amf3_bytes(m)[0] == (if b { 0x03u8 } else { 0x02u8 }),
        m is Integer ==> amf3_bytes(m)[0] == 0x04,
        m is Double ==> amf3_bytes(m)[0] == 0x05,
        m is String ==> amf3_bytes(m)[0] == 0x06,
        m is XmlDocument ==> amf3_bytes(m)[0] == 0x07,
        m is Date ==> amf3_bytes(m)[0] == 0x08,
        m is Array ==> amf3_bytes(m)[0] == 0x09,
        m is Object ==> amf3_bytes(m)[0] == 0x0A,
        m is Xml ==> amf3_bytes(m)[0] == 0x0B,
        m is ByteArray ==> amf3_bytes(m)[0] == 0x0C,
        m is IntVector ==> amf3_bytes(m)[0] == 0x0D,
        m is UintVector ==> amf3_bytes(m)[0] == 0x0E,
        m is DoubleVector ==> amf3_bytes(m)[0] == 0x0F,
        m is ObjectVector ==> amf3_bytes(m)[0] == 0x10,
        m is Dictionary ==> amf3_bytes(m)[0] == 0x11,
{
}

} // verus!
