use vstd::prelude::*;
use vstd::utf8::{decode_utf8, encode_utf8, valid_utf8};

use crate::amf3::{
    amf3_decode, amf3_encodable, parse_array_body, parse_complex, parse_complex_body, parse_dict,
    parse_flat_body, parse_object_body, parse_object_vector_body, parse_pairs, parse_simple,
    parse_str, parse_strs, parse_trait, parse_u29, parse_value, parse_values, reserve_complex,
    set_complex, trait_word, zip_members, Amf3Model, Amf3Tables, TraitModel,
};
use crate::amf3_laws::{amf3_restorable, lemma_amf3_roundtrip, text3_fits};
use crate::error::ErrorKind;
use crate::rtmp_timestamp::{duration_as_millis, whole_millis};

verus! {

/// What decoding keeps within the limits of the AMF3 encoding: [`amf3_restorable`] but for
/// dates, about which it says nothing.
pub open spec fn amf3_within_limits(m: Amf3Model) -> bool
    decreases m,
{
    match m {
        Amf3Model::Integer(i) => -0x1000_0000 <= i < 0x1000_0000,
        Amf3Model::String(s) => text3_fits(s),
        Amf3Model::XmlDocument(s) => text3_fits(s),
        Amf3Model::Xml(s) => text3_fits(s),
        Amf3Model::Array { assoc_entries, dense_entries } => dense_entries.len() < 0x1000_0000
            && (forall|i: int|
            #![trigger assoc_entries[i]]
            0 <= i < assoc_entries.len() ==> assoc_entries[i].0.len() > 0 && text3_fits(
                assoc_entries[i].0,
            ) && amf3_within_limits(assoc_entries[i].1)) && (forall|i: int|
            0 <= i < dense_entries.len() ==> amf3_within_limits(#[trigger] dense_entries[i])),
        Amf3Model::Object { class_name, sealed_count, entries } => sealed_count <= entries.len()
            && trait_word(sealed_count, entries.len()) < 0x1000_0000 && (match class_name {
            Some(c) => c.len() > 0 && text3_fits(c),
            None => true,
        }) && (forall|i: int|
            #![trigger entries[i]]
            0 <= i < entries.len() ==> (i >= sealed_count ==> entries[i].0.len() > 0) && text3_fits(
                entries[i].0,
            ) && amf3_within_limits(entries[i].1)),
        Amf3Model::ByteArray(b) => b.len() < 0x1000_0000,
        Amf3Model::IntVector { entries, .. } => entries.len() < 0x1000_0000,
        Amf3Model::UintVector { entries, .. } => entries.len() < 0x1000_0000,
        Amf3Model::DoubleVector { entries, .. } => entries.len() < 0x1000_0000,
        Amf3Model::ObjectVector { class_name, entries, .. } => entries.len() < 0x1000_0000
            && class_name != Some(seq!['*']) && (match class_name {
            Some(c) => text3_fits(c),
            None => true,
        }) && (forall|i: int|
            0 <= i < entries.len() ==> amf3_within_limits(#[trigger] entries[i])),
        Amf3Model::Dictionary { entries, .. } => entries.len() < 0x1000_0000 && (forall|i: int|
            #![trigger entries[i]]
            0 <= i < entries.len() ==> amf3_within_limits(entries[i].0) && amf3_within_limits(
                entries[i].1,
            )),
        _ => true,
    }
}

/// Whether every date in `m` is a whole number of milliseconds below 2^53, so that the
/// double on the wire holds it exactly.
pub open spec fn amf3_dates_restorable(m: Amf3Model) -> bool
    decreases m,
{
    match m {
        Amf3Model::Date { unix_time } => duration_as_millis(unix_time) < 0x20_0000_0000_0000
            && whole_millis(unix_time),
        Amf3Model::Array { assoc_entries, dense_entries } => (forall|i: int|
            0 <= i < assoc_entries.len() ==> amf3_dates_restorable(#[trigger] assoc_entries[i].1))
            && (forall|i: int|
            0 <= i < dense_entries.len() ==> amf3_dates_restorable(#[trigger] dense_entries[i])),
        Amf3Model::Object { entries, .. } => forall|i: int|
            0 <= i < entries.len() ==> amf3_dates_restorable(#[trigger] entries[i].1),
        Amf3Model::ObjectVector { entries, .. } => forall|i: int|
            0 <= i < entries.len() ==> amf3_dates_restorable(#[trigger] entries[i]),
        Amf3Model::Dictionary { entries, .. } => forall|i: int|
            #![trigger entries[i]]
            0 <= i < entries.len() ==> amf3_dates_restorable(entries[i].0) && amf3_dates_restorable(
                entries[i].1,
            ),
        _ => true,
    }
}

/// An AMF3 value within the encoding's limits whose dates are restorable is restorable.
pub proof fn lemma_amf3_restorable_from_parts(m: Amf3Model)
    requires
        amf3_within_limits(m),
        amf3_dates_restorable(m),
    ensures
        amf3_restorable(m),
    decreases m,
{
    match m {
        Amf3Model::Array { assoc_entries, dense_entries } => {
            assert forall|i: int|
                #![trigger assoc_entries[i]]
                0 <= i < assoc_entries.len() implies assoc_entries[i].0.len() > 0 && text3_fits(
                    assoc_entries[i].0,
                ) && amf3_restorable(assoc_entries[i].1) by {
                lemma_amf3_restorable_from_parts(assoc_entries[i].1);
            }
            assert forall|i: int| 0 <= i < dense_entries.len() implies amf3_restorable(
                #[trigger] dense_entries[i],
            ) by {
                lemma_amf3_restorable_from_parts(dense_entries[i]);
            }
        },
        Amf3Model::Object { sealed_count, entries, .. } => {
            assert forall|i: int|
                #![trigger entries[i]]
                0 <= i < entries.len() implies (i >= sealed_count ==> entries[i].0.len() > 0)
                    && text3_fits(entries[i].0) && amf3_restorable(entries[i].1) by {
                lemma_amf3_restorable_from_parts(entries[i].1);
            }
        },
        Amf3Model::ObjectVector { entries, .. } => {
            assert forall|i: int| 0 <= i < entries.len() implies amf3_restorable(
                #[trigger] entries[i],
            ) by {
                lemma_amf3_restorable_from_parts(entries[i]);
            }
        },
        Amf3Model::Dictionary { entries, .. } => {
            assert forall|i: int|
                #![trigger entries[i]]
                0 <= i < entries.len() implies amf3_restorable(entries[i].0) && amf3_restorable(
                    entries[i].1,
                ) by {
                lemma_amf3_restorable_from_parts(entries[i].0);
                lemma_amf3_restorable_from_parts(entries[i].1);
            }
        },
        _ => {},
    }
}

/// An AMF3 value within the encoding's limits can be encoded.
pub proof fn lemma_amf3_encodable_within(m: Amf3Model)
    requires
        amf3_within_limits(m),
    ensures
        amf3_encodable(m),
    decreases m,
{
    match m {
        Amf3Model::Array { assoc_entries, dense_entries } => {
            assert forall|i: int| 0 <= i < assoc_entries.len() implies amf3_encodable(
                #[trigger] assoc_entries[i].1,
            ) by {
                lemma_amf3_encodable_within(assoc_entries[i].1);
            }
            assert forall|i: int| 0 <= i < dense_entries.len() implies amf3_encodable(
                #[trigger] dense_entries[i],
            ) by {
                lemma_amf3_encodable_within(dense_entries[i]);
            }
        },
        Amf3Model::Object { entries, .. } => {
            assert forall|i: int| 0 <= i < entries.len() implies amf3_encodable(
                #[trigger] entries[i].1,
            ) by {
                lemma_amf3_encodable_within(entries[i].1);
            }
        },
        Amf3Model::ObjectVector { entries, .. } => {
            assert forall|i: int| 0 <= i < entries.len() implies amf3_encodable(
                #[trigger] entries[i],
            ) by {
                lemma_amf3_encodable_within(entries[i]);
            }
        },
        Amf3Model::Dictionary { entries, .. } => {
            assert forall|i: int| 0 <= i < entries.len() implies amf3_encodable(
                #[trigger] entries[i].0,
            ) && amf3_encodable(entries[i].1) by {
                lemma_amf3_encodable_within(entries[i].0);
                lemma_amf3_encodable_within(entries[i].1);
            }
        },
        _ => {},
    }
}

/// Whether a trait read so far is within the encoding's limits.
pub open spec fn trait_within_limits(tr: TraitModel) -> bool {
    (match tr.class_name {
        Some(c) => c.len() > 0 && text3_fits(c),
        None => true,
    }) && tr.fields.len() < 0x200_0000 && forall|i: int|
        0 <= i < tr.fields.len() ==> text3_fits(#[trigger] tr.fields[i])
}

/// Whether every string, complex value and trait read so far is within the encoding's
/// limits.
pub open spec fn tables_within_limits(t: Amf3Tables) -> bool {
    (forall|i: int| 0 <= i < t.strings.len() ==> text3_fits(#[trigger] t.strings[i])) && (forall|
        i: int,
    |
        0 <= i < t.complexes.len() ==> amf3_within_limits(#[trigger] t.complexes[i])) && (forall|
        i: int,
    | 0 <= i < t.traits.len() ==> trait_within_limits(#[trigger] t.traits[i]))
}

/// A variable-length integer takes one to four bytes and stays below 2^29.
proof fn lemma_u29_bound(b: Seq<u8>, p: int)
    ensures
        parse_u29(b, p) matches Ok((k, u)) ==> 1 <= k <= 4 && u < 0x2000_0000,
{
    if p + 1 <= b.len() && b[p] >= 0x80 && p + 2 <= b.len() {
        let x0 = (b[p] % 0x80) as nat;
        let x1 = (b[p + 1] % 0x80) as nat;
        let n2 = x0 * 0x80 + x1;
        assert(n2 < 0x4000) by (nonlinear_arith)
            requires
                n2 == x0 * 0x80 + x1,
                x0 < 0x80,
                x1 < 0x80,
        ;
        if b[p + 1] >= 0x80 && p + 3 <= b.len() {
            let x2 = (b[p + 2] % 0x80) as nat;
            let n3 = n2 * 0x80 + x2;
            assert(n3 < 0x20_0000) by (nonlinear_arith)
                requires
                    n3 == n2 * 0x80 + x2,
                    n2 < 0x4000,
                    x2 < 0x80,
            ;
            if b[p + 2] >= 0x80 && p + 4 <= b.len() {
                let x3 = b[p + 3] as nat;
                assert(n3 * 0x100 + x3 < 0x2000_0000) by (nonlinear_arith)
                    requires
                        n3 < 0x20_0000,
                        x3 < 0x100,
                ;
            }
        }
    }
}

/// A string read is within the limits, and so are the tables after it.
proof fn lemma_str_limits(b: Seq<u8>, p: int, t: Amf3Tables)
    requires
        0 <= p,
        tables_within_limits(t),
    ensures
        parse_str(b, p, t) matches Ok((q, s, t2)) ==> q > p && text3_fits(s)
            && tables_within_limits(t2) && t2.complexes == t.complexes && t2.traits == t.traits,
{
    lemma_u29_bound(b, p);
    if let Ok((k, u)) = parse_u29(b, p) {
        let q = p + k;
        if u % 2 == 1 {
            let len = (u / 2) as int;
            if q + len <= b.len() && valid_utf8(b.subrange(q, q + len)) {
                let sub = b.subrange(q, q + len);
                vstd::utf8::decode_utf8_encode_utf8(sub);
                assert(sub.len() == len);
                let s = decode_utf8(sub);
                if len > 0 {
                    let s2 = t.strings.push(s);
                    assert forall|i: int| 0 <= i < s2.len() implies text3_fits(#[trigger] s2[i]) by {
                        if i < t.strings.len() {
                            assert(s2[i] == t.strings[i]);
                        }
                    }
                }
            }
        }
    }
}

/// `n` strings read are within the limits, and so are the tables after them.
proof fn lemma_strs_limits(b: Seq<u8>, p: int, t: Amf3Tables, n: nat)
    requires
        0 <= p,
        tables_within_limits(t),
    ensures
        parse_strs(b, p, t, n) matches Ok((q, ss, t2)) ==> q >= p && ss.len() == n && (forall|i: int|
            0 <= i < ss.len() ==> text3_fits(#[trigger] ss[i])) && tables_within_limits(t2)
            && t2.complexes == t.complexes && t2.traits == t.traits,
    decreases n,
{
    if n > 0 {
        lemma_strs_limits(b, p, t, (n - 1) as nat);
        if let Ok((p1, ss, t1)) = parse_strs(b, p, t, (n - 1) as nat) {
            lemma_str_limits(b, p1, t1);
            if let Ok((p2, s, t2)) = parse_str(b, p1, t1) {
                let all = ss.push(s);
                assert forall|i: int| 0 <= i < all.len() implies text3_fits(#[trigger] all[i]) by {
                    if i < ss.len() {
                        assert(all[i] == ss[i]);
                    }
                }
            }
        }
    }
}

/// A trait read is within the limits, and so are the tables after it.
proof fn lemma_trait_limits(b: Seq<u8>, p: int, t: Amf3Tables, u28: nat)
    requires
        0 <= p,
        u28 < 0x1000_0000,
        tables_within_limits(t),
    ensures
        parse_trait(b, p, t, u28) matches Ok((q, tr, t2)) ==> q >= p && trait_within_limits(tr)
            && tables_within_limits(t2) && t2.complexes == t.complexes,
{
    if u28 % 2 == 1 && (u28 / 2) % 2 == 0 {
        lemma_str_limits(b, p, t);
        if let Ok((p1, class_name, t1)) = parse_str(b, p, t) {
            lemma_strs_limits(b, p1, t1, u28 / 8);
            if let Ok((p2, fields, t2)) = parse_strs(b, p1, t1, u28 / 8) {
                let tr = TraitModel {
                    class_name: if class_name.len() == 0 { None } else { Some(class_name) },
                    is_dynamic: (u28 / 4) % 2 == 1,
                    fields,
                };
                assert(trait_within_limits(tr));
                let tr2 = t2.traits.push(tr);
                assert forall|i: int| 0 <= i < tr2.len() implies trait_within_limits(#[trigger] tr2[i]) by {
                    if i < t2.traits.len() {
                        assert(tr2[i] == t2.traits[i]);
                    }
                }
            }
        }
    }
}

/// A value without parts read is within the limits, and so are the tables after it.
proof fn lemma_simple_limits(b: Seq<u8>, q: int, t: Amf3Tables, m: u8)
    requires
        0 <= q,
        tables_within_limits(t),
    ensures
        parse_simple(b, q, t, m) matches Ok((q2, v, t2)) ==> amf3_within_limits(v)
            && tables_within_limits(t2) && t2.complexes == t.complexes,
{
    lemma_u29_bound(b, q);
    lemma_str_limits(b, q, t);
}

/// The body of a value that holds no other values is within the limits.
proof fn lemma_flat_limits(b: Seq<u8>, p: int, m: u8, len: nat)
    requires
        0 <= p,
        len < 0x1000_0000,
    ensures
        parse_flat_body(b, p, m, len) matches Ok((q, v)) ==> amf3_within_limits(v),
{
    reveal(parse_flat_body);
    if (m == 0x07 || m == 0x0B) && p + len <= b.len() && valid_utf8(b.subrange(p, p + len as int)) {
        let sub = b.subrange(p, p + len as int);
        vstd::utf8::decode_utf8_encode_utf8(sub);
        assert(sub.len() == len);
    }
}

/// A value read is within the limits, and so are the tables after it.
#[verifier::spinoff_prover]
proof fn lemma_value_limits(b: Seq<u8>, p: int, t: Amf3Tables)
    requires
        tables_within_limits(t),
    ensures
        parse_value(b, p, t) matches Ok((q, v, t2)) ==> amf3_within_limits(v)
            && tables_within_limits(t2) && t2.complexes.len() >= t.complexes.len(),
    decreases b.len() - p, 0int,
{
    if 0 <= p && p + 1 <= b.len() {
        if 0x07 <= b[p] <= 0x11 {
            lemma_complex_limits(b, p + 1, t, b[p]);
        } else {
            lemma_simple_limits(b, p + 1, t, b[p]);
        }
    }
}

/// A complex value read, inline or by reference, is within the limits, and so are the
/// tables after it.
#[verifier::spinoff_prover]
proof fn lemma_complex_limits(b: Seq<u8>, q: int, t: Amf3Tables, m: u8)
    requires
        0 <= q,
        tables_within_limits(t),
    ensures
        parse_complex(b, q, t, m) matches Ok((q2, v, t2)) ==> amf3_within_limits(v)
            && tables_within_limits(t2) && t2.complexes.len() >= t.complexes.len(),
    decreases b.len() - q, 5int,
{
    lemma_u29_bound(b, q);
    if let Ok((k, u)) = parse_u29(b, q) {
        if u % 2 == 1 {
            let idx = t.complexes.len() as int;
            let t1 = reserve_complex(t);
            assert forall|i: int| 0 <= i < t1.complexes.len() implies amf3_within_limits(
                #[trigger] t1.complexes[i],
            ) by {
                if i < idx {
                    assert(t1.complexes[i] == t.complexes[i]);
                }
            }
            lemma_complex_body_limits(b, q + k, t1, m, u / 2);
            if let Ok((q2, v, t2)) = parse_complex_body(b, q + k, t1, m, u / 2) {
                let t3 = set_complex(t2, idx, v);
                assert forall|i: int| 0 <= i < t3.complexes.len() implies amf3_within_limits(
                    #[trigger] t3.complexes[i],
                ) by {
                    if i != idx {
                        assert(t3.complexes[i] == t2.complexes[i]);
                    }
                }
            }
        }
    }
}

/// The body of a complex value is within the limits, and so are the tables after it.
#[verifier::spinoff_prover]
proof fn lemma_complex_body_limits(b: Seq<u8>, p: int, t: Amf3Tables, m: u8, len: nat)
    requires
        len < 0x1000_0000,
        tables_within_limits(t),
    ensures
        parse_complex_body(b, p, t, m, len) matches Ok((q, v, t2)) ==> amf3_within_limits(v)
            && tables_within_limits(t2) && t2.complexes.len() >= t.complexes.len(),
    decreases b.len() - p, 4int,
{
    if 0 <= p && p <= b.len() {
        if !crate::amf3::is_container_marker(m) {
            lemma_flat_limits(b, p, m, len);
        } else if m == 0x09 {
            lemma_array_body_limits(b, p, t, len);
        } else if m == 0x0A {
            lemma_object_body_limits(b, p, t, len);
        } else if p + 1 <= b.len() {
            if m == 0x10 {
                lemma_object_vector_body_limits(b, p, t, len);
            } else {
                lemma_dict_limits(b, p + 1, t, len);
            }
        }
    }
}

/// The body of an array is within the limits, and so are the tables after it.
#[verifier::spinoff_prover]
proof fn lemma_array_body_limits(b: Seq<u8>, p: int, t: Amf3Tables, len: nat)
    requires
        len < 0x1000_0000,
        tables_within_limits(t),
    ensures
        parse_array_body(b, p, t, len) matches Ok((q, v, t2)) ==> amf3_within_limits(v)
            && tables_within_limits(t2) && t2.complexes.len() >= t.complexes.len(),
    decreases b.len() - p, 3int,
{
    reveal(parse_array_body);
    if 0 <= p && p <= b.len() {
        lemma_pairs_limits(b, p, t);
        if let Ok((p2, assoc, t2)) = parse_pairs(b, p, t) {
            if p <= p2 && p2 <= b.len() {
                lemma_values_limits(b, p2, t2, len);
            }
        }
    }
}

/// The body of an object is within the limits, and so are the tables after it.
#[verifier::spinoff_prover]
#[verifier::rlimit(60)]
proof fn lemma_object_body_limits(b: Seq<u8>, p: int, t: Amf3Tables, len: nat)
    requires
        len < 0x1000_0000,
        tables_within_limits(t),
    ensures
        parse_object_body(b, p, t, len) matches Ok((q, v, t2)) ==> amf3_within_limits(v)
            && tables_within_limits(t2) && t2.complexes.len() >= t.complexes.len(),
    decreases b.len() - p, 3int,
{
    reveal(parse_object_body);
    if 0 <= p && p <= b.len() {
        lemma_trait_limits(b, p, t, len);
        if let Ok((p2, tr, t2)) = parse_trait(b, p, t, len) {
            if p <= p2 && p2 <= b.len() {
                lemma_values_limits(b, p2, t2, tr.fields.len());
                if let Ok((p3, vals, t3)) = parse_values(b, p2, t2, tr.fields.len()) {
                    let sealed = zip_members(tr.fields, vals);
                    let sc = tr.fields.len();
                    assert(sc * 8 + 5 < 0x1000_0000);
                    if !tr.is_dynamic {
                        assert forall|i: int|
                            #![trigger sealed[i]]
                            0 <= i < sealed.len() implies (i >= sc ==> sealed[i].0.len() > 0)
                                && text3_fits(sealed[i].0) && amf3_within_limits(sealed[i].1) by {
                            assert(sealed[i] == (tr.fields[i], vals[i]));
                        }
                    } else if p <= p3 && p3 <= b.len() {
                        lemma_pairs_limits(b, p3, t3);
                        if let Ok((p4, dynamic, t4)) = parse_pairs(b, p3, t3) {
                            let all = sealed + dynamic;
                            assert forall|i: int|
                                #![trigger all[i]]
                                0 <= i < all.len() implies (i >= sc ==> all[i].0.len() > 0)
                                    && text3_fits(all[i].0) && amf3_within_limits(all[i].1) by {
                                if i < sc {
                                    assert(all[i] == (tr.fields[i], vals[i]));
                                } else {
                                    assert(all[i] == dynamic[i - sc]);
                                }
                            }
                        }
                    }
                }
            }
        }
    }
}

/// The body of a vector of values is within the limits, and so are the tables after it.
#[verifier::spinoff_prover]
proof fn lemma_object_vector_body_limits(b: Seq<u8>, p: int, t: Amf3Tables, len: nat)
    requires
        len < 0x1000_0000,
        tables_within_limits(t),
    ensures
        parse_object_vector_body(b, p, t, len) matches Ok((q, v, t2)) ==> amf3_within_limits(v)
            && tables_within_limits(t2) && t2.complexes.len() >= t.complexes.len(),
    decreases b.len() - p, 3int,
{
    reveal(parse_object_vector_body);
    if 0 <= p && p + 1 <= b.len() {
        lemma_str_limits(b, p + 1, t);
        if let Ok((p2, name, t2)) = parse_str(b, p + 1, t) {
            if p <= p2 && p2 <= b.len() {
                lemma_values_limits(b, p2, t2, len);
            }
        }
    }
}

/// Members read are within the limits, with keys that are not empty, and so are the
/// tables after them.
#[verifier::spinoff_prover]
#[verifier::rlimit(60)]
proof fn lemma_pairs_limits(b: Seq<u8>, p: int, t: Amf3Tables)
    requires
        tables_within_limits(t),
    ensures
        parse_pairs(b, p, t) matches Ok((q, e, t2)) ==> tables_within_limits(t2)
            && t2.complexes.len() >= t.complexes.len() && forall|i: int|
            #![trigger e[i]]
            0 <= i < e.len() ==> e[i].0.len() > 0 && text3_fits(e[i].0) && amf3_within_limits(
                e[i].1,
            ),
    decreases b.len() - p, 1int,
{
    reveal(parse_pairs);
    if 0 <= p && p <= b.len() {
        lemma_str_limits(b, p, t);
        if let Ok((p1, key, t1)) = parse_str(b, p, t) {
            if key.len() > 0 && p < p1 && p1 <= b.len() {
                lemma_value_limits(b, p1, t1);
                if let Ok((p2, v, t2)) = parse_value(b, p1, t1) {
                    if p1 < p2 && p2 <= b.len() {
                        lemma_pairs_limits(b, p2, t2);
                        if let Ok((p3, rest, t3)) = parse_pairs(b, p2, t2) {
                            let e = seq![(key, v)] + rest;
                            assert forall|i: int|
                                #![trigger e[i]]
                                0 <= i < e.len() implies e[i].0.len() > 0 && text3_fits(e[i].0)
                                    && amf3_within_limits(e[i].1) by {
                                if i > 0 {
                                    assert(e[i] == rest[i - 1]);
                                }
                            }
                        }
                    }
                }
            }
        }
    }
}

/// `n` values read are within the limits, and so are the tables after them.
#[verifier::spinoff_prover]
proof fn lemma_values_limits(b: Seq<u8>, p: int, t: Amf3Tables, n: nat)
    requires
        tables_within_limits(t),
    ensures
        parse_values(b, p, t, n) matches Ok((q, vs, t2)) ==> tables_within_limits(t2)
            && t2.complexes.len() >= t.complexes.len() && vs.len() == n && forall|i: int|
            0 <= i < vs.len() ==> amf3_within_limits(#[trigger] vs[i]),
    decreases b.len() - p, 1int,
{
    reveal(parse_values);
    if n > 0 && 0 <= p && p <= b.len() {
        lemma_value_limits(b, p, t);
        if let Ok((p1, v, t1)) = parse_value(b, p, t) {
            if p < p1 && p1 <= b.len() {
                lemma_values_limits(b, p1, t1, (n - 1) as nat);
                if let Ok((p2, rest, t2)) = parse_values(b, p1, t1, (n - 1) as nat) {
                    let vs = seq![v] + rest;
                    assert forall|i: int| 0 <= i < vs.len() implies amf3_within_limits(#[trigger] vs[i]) by {
                        if i > 0 {
                            assert(vs[i] == rest[i - 1]);
                        }
                    }
                }
            }
        }
    }
}

/// `n` dictionary entries read are within the limits, and so are the tables after them.
#[verifier::spinoff_prover]
proof fn lemma_dict_limits(b: Seq<u8>, p: int, t: Amf3Tables, n: nat)
    requires
        tables_within_limits(t),
    ensures
        parse_dict(b, p, t, n) matches Ok((q, es, t2)) ==> tables_within_limits(t2)
            && t2.complexes.len() >= t.complexes.len() && es.len() == n && forall|i: int|
            #![trigger es[i]]
            0 <= i < es.len() ==> amf3_within_limits(es[i].0) && amf3_within_limits(es[i].1),
    decreases b.len() - p, 1int,
{
    reveal(parse_dict);
    if n > 0 && 0 <= p && p <= b.len() {
        lemma_value_limits(b, p, t);
        if let Ok((p1, k, t1)) = parse_value(b, p, t) {
            if p < p1 && p1 <= b.len() {
                lemma_value_limits(b, p1, t1);
                if let Ok((p2, v, t2)) = parse_value(b, p1, t1) {
                    if p1 < p2 && p2 <= b.len() {
                        lemma_dict_limits(b, p2, t2, (n - 1) as nat);
                        if let Ok((p3, rest, t3)) = parse_dict(b, p2, t2, (n - 1) as nat) {
                            let es = seq![(k, v)] + rest;
                            assert forall|i: int|
                                #![trigger es[i]]
                                0 <= i < es.len() implies amf3_within_limits(es[i].0)
                                    && amf3_within_limits(es[i].1) by {
                                if i > 0 {
                                    assert(es[i] == rest[i - 1]);
                                }
                            }
                        }
                    }
                }
            }
        }
    }
}

/// Every AMF3 value that decoding gives is within the encoding's limits.
pub proof fn lemma_amf3_decoded_within_limits(b: Seq<u8>)
    ensures
        amf3_decode(b) matches Ok((n, v)) ==> amf3_within_limits(v),
{
    reveal(amf3_decode);
    lemma_value_limits(b, 0, crate::amf3::empty_tables());
}

/// Decoding an AMF3 value and encoding it again gives bytes that can be encoded and that
/// decode to that same value, using all of them, whenever its dates are whole
/// milliseconds below 2^53.
pub proof fn lemma_amf3_decode_encode(b: Seq<u8>, rest: Seq<u8>)
    ensures
        amf3_decode(b) matches Ok((n, v)) ==> amf3_encodable(v) && (amf3_dates_restorable(v)
            ==> amf3_decode(crate::amf3::amf3_bytes(v) + rest) == Ok::<(int, Amf3Model), ErrorKind>(
            (crate::amf3::amf3_bytes(v).len() as int, v),
        )),
{
    lemma_amf3_decoded_within_limits(b);
    if let Ok((n, v)) = amf3_decode(b) {
        lemma_amf3_encodable_within(v);
        if amf3_dates_restorable(v) {
            lemma_amf3_restorable_from_parts(v);
            lemma_amf3_roundtrip(v, rest);
        }
    }
}

} // verus!
