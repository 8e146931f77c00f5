use vstd::prelude::*;
use vstd::utf8::{decode_utf8, encode_utf8, valid_utf8};

use crate::amf0::{
    amf0_bytes, amf0_decode, amf0_encodable, is_complex0, amf0_pairs_bytes, amf0_seq_bytes, date0_millis, key0_bytes,
    object_end_bytes, parse0_complex_body, parse0_pairs, parse0_simple, parse0_value,
    parse0_values, parse_counted_text, parse_text, string0_bytes, Amf0Model,
};
use crate::amf::{amf_bytes, amf_decode, amf_encodable, AmfModel, AmfVersion};
use crate::amf3::{amf3_bytes, amf3_decode};
use crate::amf3_laws::{amf3_restorable, lemma_amf3_roundtrip};
use crate::amf3_limits::{
    amf3_dates_restorable, amf3_within_limits, lemma_amf3_decoded_within_limits,
    lemma_amf3_encodable_within, lemma_amf3_restorable_from_parts,
};
use crate::bytes::{
    be16, be32, be64, lemma_u16_be_roundtrip, lemma_u32_be_roundtrip, lemma_u64_be_roundtrip,
    u16_be, u32_be, u64_be,
};
use crate::error::ErrorKind;
use crate::rtmp_timestamp::{duration_as_millis, duration_of_millis, whole_millis};
use crate::float64::{lemma_nat_to_bits_exact, nat_to_bits, Float64};

verus! {

/// Whether `b` holds the bytes `x` from position `p` on.
pub open spec fn holds_at(b: Seq<u8>, p: int, x: Seq<u8>) -> bool {
    0 <= p && p + x.len() <= b.len() && b.subrange(p, p + x.len()) == x
}

/// Whether decoding the bytes of `m` can give `m` back: each string fits the length field
/// that its encoding writes (16 bits for keys and class names, 32 bits otherwise), each
/// strict array counts fewer than 2^32 items, each date is a whole number of milliseconds
/// below 2^53 (so that the double on the wire holds it exactly), and each embedded AMF3
/// value is restorable.
pub open spec fn amf0_restorable(m: Amf0Model) -> bool
    decreases m,
{
    match m {
        Amf0Model::String(s) => encode_utf8(s).len() <= u32::MAX,
        Amf0Model::XmlDocument(s) => encode_utf8(s).len() <= u32::MAX,
        Amf0Model::Object { class_name, entries } => (match class_name {
            Some(c) => encode_utf8(c).len() <= 0xFFFF,
            None => true,
        }) && forall|i: int|
            #![trigger entries[i]]
            0 <= i < entries.len() ==> encode_utf8(entries[i].0).len() <= 0xFFFF
                && amf0_restorable(entries[i].1),
        Amf0Model::EcmaArray { entries } => forall|i: int|
            #![trigger entries[i]]
            0 <= i < entries.len() ==> encode_utf8(entries[i].0).len() <= 0xFFFF
                && amf0_restorable(entries[i].1),
        Amf0Model::Array { entries } => entries.len() <= u32::MAX && forall|i: int|
            0 <= i < entries.len() ==> amf0_restorable(#[trigger] entries[i]),
        Amf0Model::Date { unix_time } => duration_as_millis(unix_time) < 0x20_0000_0000_0000 && whole_millis(
            unix_time,
        ),
        Amf0Model::AvmPlus(v) => amf3_restorable(v),
        _ => true,
    }
}

/// Whether every member of `s` has a key that fits 16 bits and a restorable value.
pub open spec fn members_restorable(s: Seq<(Seq<char>, Amf0Model)>) -> bool {
    forall|i: int|
        #![trigger s[i]]
        0 <= i < s.len() ==> encode_utf8(s[i].0).len() <= 0xFFFF && amf0_restorable(s[i].1)
}

pub(crate) proof fn lemma_holds_split(b: Seq<u8>, p: int, x: Seq<u8>, y: Seq<u8>)
    requires
        holds_at(b, p, x + y),
    ensures
        holds_at(b, p, x),
        holds_at(b, p + x.len(), y),
{
    let w = b.subrange(p, p + (x + y).len());
    assert(b.subrange(p, p + x.len()) =~= x) by {
        assert forall|k: int| 0 <= k < x.len() implies b.subrange(p, p + x.len())[k] == x[k] by {
            assert(w[k] == (x + y)[k]);
        }
    }
    assert(b.subrange(p + x.len(), p + x.len() + y.len()) =~= y) by {
        assert forall|k: int| 0 <= k < y.len() implies b.subrange(
            p + x.len(),
            p + x.len() + y.len(),
        )[k] == y[k] by {
            assert(w[x.len() + k] == (x + y)[x.len() + k]);
        }
    }
}

pub(crate) proof fn lemma_holds_index(b: Seq<u8>, p: int, x: Seq<u8>, k: int)
    requires
        holds_at(b, p, x),
        0 <= k < x.len(),
    ensures
        b[p + k] == x[k],
{
    assert(b.subrange(p, p + x.len())[k] == x[k]);
}

proof fn lemma_holds_be16(b: Seq<u8>, p: int, v: int)
    requires
        holds_at(b, p, u16_be(v)),
        0 <= v < 0x10000,
    ensures
        be16(b, p) == v,
{
    lemma_u16_be_roundtrip(v);
    lemma_holds_index(b, p, u16_be(v), 0);
    lemma_holds_index(b, p, u16_be(v), 1);
}

pub(crate) proof fn lemma_holds_be32(b: Seq<u8>, p: int, v: int)
    requires
        holds_at(b, p, u32_be(v)),
        0 <= v < 0x1_0000_0000,
    ensures
        be32(b, p) == v,
{
    lemma_u32_be_roundtrip(v);
    lemma_holds_index(b, p, u32_be(v), 0);
    lemma_holds_index(b, p, u32_be(v), 1);
    lemma_holds_index(b, p, u32_be(v), 2);
    lemma_holds_index(b, p, u32_be(v), 3);
}

pub(crate) proof fn lemma_holds_be64(b: Seq<u8>, p: int, v: int)
    requires
        holds_at(b, p, u64_be(v)),
        0 <= v < 0x1_0000_0000_0000_0000,
    ensures
        be64(b, p) == v,
{
    lemma_u64_be_roundtrip(v);
    lemma_u32_be_roundtrip(v / 0x1_0000_0000);
    lemma_u32_be_roundtrip(v % 0x1_0000_0000);
    lemma_holds_split(b, p, u32_be(v / 0x1_0000_0000), u32_be(v % 0x1_0000_0000));
    lemma_holds_be32(b, p, v / 0x1_0000_0000);
    lemma_holds_be32(b, p + 4, v % 0x1_0000_0000);
}

/// UTF-8 text held at `p` reads back as its characters.
pub(crate) proof fn lemma_holds_text(b: Seq<u8>, p: int, s: Seq<char>)
    requires
        holds_at(b, p, encode_utf8(s)),
    ensures
        parse_text(b, p, encode_utf8(s).len() as int) == Ok::<(int, Seq<char>), ErrorKind>(
            (p + encode_utf8(s).len(), s),
        ),
{
    vstd::utf8::encode_utf8_valid_utf8(s);
    vstd::utf8::encode_utf8_decode_utf8(s);
}

/// A key held at `p` reads back, with the position after it.
proof fn lemma_holds_key(b: Seq<u8>, p: int, s: Seq<char>)
    requires
        holds_at(b, p, key0_bytes(s)),
        encode_utf8(s).len() <= 0xFFFF,
    ensures
        parse_counted_text(b, p, 2) == Ok::<(int, Seq<char>), ErrorKind>(
            (p + key0_bytes(s).len(), s),
        ),
{
    let n = encode_utf8(s).len() as int;
    assert((n as u16) as int == n);
    lemma_u16_be_roundtrip(n);
    lemma_holds_split(b, p, u16_be(n), encode_utf8(s));
    lemma_holds_be16(b, p, n);
    lemma_holds_text(b, p + 2, s);
}

/// The bytes of a value start with a marker other than the end of an object's members,
/// and with the marker of a complex value just where the value is complex.
pub(crate) proof fn lemma_bytes_start(m: Amf0Model)
    ensures
        amf0_bytes(m).len() >= 1,
        amf0_bytes(m)[0] != 0x09u8,
        is_complex0(amf0_bytes(m)[0]) <==> (m is Object || m is EcmaArray || m is Array),
{
    match m {
        Amf0Model::Object { class_name, entries } => match class_name {
            None => {},
            Some(c) => {},
        },
        _ => {},
    }
}

/// The members' bytes up to `n` begin with those up to any `k <= n`.
proof fn lemma_pairs_prefix(b: Seq<u8>, p: int, s: Seq<(Seq<char>, Amf0Model)>, k: int, n: int)
    requires
        0 <= k <= n <= s.len(),
        holds_at(b, p, amf0_pairs_bytes(s, n)),
    ensures
        holds_at(b, p, amf0_pairs_bytes(s, k)),
    decreases n - k,
{
    if k < n {
        assert(amf0_pairs_bytes(s, n) =~= amf0_pairs_bytes(s, n - 1) + (key0_bytes(s[n - 1].0)
            + amf0_bytes(s[n - 1].1)));
        lemma_holds_split(
            b,
            p,
            amf0_pairs_bytes(s, n - 1),
            key0_bytes(s[n - 1].0) + amf0_bytes(s[n - 1].1),
        );
        lemma_pairs_prefix(b, p, s, k, n - 1);
    }
}

/// The values' bytes up to `n` begin with those up to any `k <= n`.
proof fn lemma_seq_prefix(b: Seq<u8>, p: int, s: Seq<Amf0Model>, k: int, n: int)
    requires
        0 <= k <= n <= s.len(),
        holds_at(b, p, amf0_seq_bytes(s, n)),
    ensures
        holds_at(b, p, amf0_seq_bytes(s, k)),
    decreases n - k,
{
    if k < n {
        lemma_holds_split(b, p, amf0_seq_bytes(s, n - 1), amf0_bytes(s[n - 1]));
        lemma_seq_prefix(b, p, s, k, n - 1);
    }
}

/// Members held at `p`, followed by the end marker, decode from member `i` on to the
/// remaining members.
#[verifier::spinoff_prover]
#[verifier::rlimit(60)]
proof fn lemma_pairs(
    s: Seq<(Seq<char>, Amf0Model)>,
    i: int,
    b: Seq<u8>,
    p: int,
    cx: Seq<Amf0Model>,
)
    requires
        0 <= i <= s.len(),
        members_restorable(s),
        holds_at(b, p, amf0_pairs_bytes(s, s.len() as int) + object_end_bytes()),
    ensures
        parse0_pairs(b, p + amf0_pairs_bytes(s, i).len(), cx) matches Ok((q, e, _)) && q == p
            + amf0_pairs_bytes(s, s.len() as int).len() + 3 && e == s.subrange(i, s.len() as int),
    decreases s, s.len() - i,
{
    reveal(parse0_pairs);
    let all = amf0_pairs_bytes(s, s.len() as int);
    lemma_holds_split(b, p, all, object_end_bytes());
    let pi = p + amf0_pairs_bytes(s, i).len();
    if i == s.len() {
        let end = object_end_bytes();
        lemma_holds_index(b, p + all.len(), end, 0);
        lemma_holds_index(b, p + all.len(), end, 1);
        lemma_holds_index(b, p + all.len(), end, 2);
        assert(be16(b, pi) == 0);
        assert(b.subrange(pi + 2, pi + 2) =~= Seq::<u8>::empty());
        assert(encode_utf8(Seq::<char>::empty()) =~= Seq::<u8>::empty());
        vstd::utf8::encode_utf8_valid_utf8(Seq::<char>::empty());
        vstd::utf8::encode_utf8_decode_utf8(Seq::<char>::empty());
        assert(parse_counted_text(b, pi, 2) == Ok::<(int, Seq<char>), ErrorKind>(
            (pi + 2, Seq::<char>::empty()),
        ));
        assert(s.subrange(i, s.len() as int) =~= Seq::<(Seq<char>, Amf0Model)>::empty());
    } else {
        let key = s[i].0;
        let v = s[i].1;
        assert(encode_utf8(key).len() <= 0xFFFF && amf0_restorable(v));
        lemma_pairs_prefix(b, p, s, i + 1, s.len() as int);
        assert(amf0_pairs_bytes(s, i + 1) == amf0_pairs_bytes(s, i) + key0_bytes(key) + amf0_bytes(
            v,
        ));
        assert(amf0_pairs_bytes(s, i + 1) =~= amf0_pairs_bytes(s, i) + (key0_bytes(key)
            + amf0_bytes(v)));
        lemma_holds_split(b, p, amf0_pairs_bytes(s, i), key0_bytes(key) + amf0_bytes(v));
        lemma_holds_split(b, pi, key0_bytes(key), amf0_bytes(v));
        lemma_holds_key(b, pi, key);
        let p1 = pi + key0_bytes(key).len();
        lemma_bytes_start(v);
        lemma_holds_index(b, p1, amf0_bytes(v), 0);
        assert(decreases_to!(s => s[i]));
        assert(decreases_to!(s[i] => s[i].1));
        lemma_value(v, b, p1, cx);
        let (p2, v2, cx2) = parse0_value(b, p1, cx).get_Ok_0();
        assert(p2 == p + amf0_pairs_bytes(s, i + 1).len());
        lemma_pairs(s, i + 1, b, p, cx2);
        assert(seq![(key, v)] + s.subrange(i + 1, s.len() as int) =~= s.subrange(
            i,
            s.len() as int,
        ));
    }
}

/// Values held at `p` decode from value `i` on to the remaining values.
#[verifier::spinoff_prover]
#[verifier::rlimit(60)]
proof fn lemma_values(s: Seq<Amf0Model>, i: int, b: Seq<u8>, p: int, cx: Seq<Amf0Model>)
    requires
        0 <= i <= s.len(),
        forall|j: int| 0 <= j < s.len() ==> amf0_restorable(#[trigger] s[j]),
        holds_at(b, p, amf0_seq_bytes(s, s.len() as int)),
    ensures
        parse0_values(b, p + amf0_seq_bytes(s, i).len(), cx, (s.len() - i) as nat) matches Ok(
            (q, e, _),
        ) && q == p + amf0_seq_bytes(s, s.len() as int).len() && e == s.subrange(
            i,
            s.len() as int,
        ),
    decreases s, s.len() - i,
{
    reveal(parse0_values);
    let pi = p + amf0_seq_bytes(s, i).len();
    if i == s.len() {
        assert(s.subrange(i, s.len() as int) =~= Seq::<Amf0Model>::empty());
    } else {
        let v = s[i];
        lemma_seq_prefix(b, p, s, i + 1, s.len() as int);
        lemma_holds_split(b, p, amf0_seq_bytes(s, i), amf0_bytes(v));
        lemma_bytes_start(v);
        assert(decreases_to!(s => s[i]));
        lemma_value(v, b, pi, cx);
        let (p1, v1, cx1) = parse0_value(b, pi, cx).get_Ok_0();
        assert(p1 == p + amf0_seq_bytes(s, i + 1).len());
        lemma_values(s, i + 1, b, p, cx1);
        assert(seq![v] + s.subrange(i + 1, s.len() as int) =~= s.subrange(i, s.len() as int));
    }
}

/// A restorable value that is not complex, held at `p`, decodes to itself.
#[verifier::spinoff_prover]
#[verifier::rlimit(50)]
proof fn lemma_simple_value(m: Amf0Model, b: Seq<u8>, p: int, cx: Seq<Amf0Model>)
    requires
        amf0_restorable(m),
        holds_at(b, p, amf0_bytes(m)),
        !(m is Object || m is EcmaArray || m is Array),
    ensures
        parse0_simple(b, p + 1, cx, b[p]) matches Ok((q, v, _)) && q == p + amf0_bytes(m).len()
            && v == m,
{
    let x = amf0_bytes(m);
    lemma_holds_index(b, p, x, 0);
    let q = p + 1;
    match m {
        Amf0Model::Number(n) => {
            lemma_holds_split(b, p, seq![0x00u8], u64_be(n as int));
            lemma_holds_be64(b, q, n as int);
        },
        Amf0Model::Boolean(f) => {
            lemma_holds_index(b, p, x, 1);
        },
        Amf0Model::String(s) => {
            let e = encode_utf8(s);
            if e.len() <= 0xFFFF {
                lemma_u16_be_roundtrip(e.len() as int);
                lemma_holds_split(b, p, seq![0x02u8] + u16_be(e.len() as int), e);
                lemma_holds_split(b, p, seq![0x02u8], u16_be(e.len() as int));
                lemma_holds_be16(b, q, e.len() as int);
                lemma_holds_text(b, q + 2, s);
            } else {
                let n = (e.len() as u32) as int;
                assert(n == e.len());
                lemma_u32_be_roundtrip(n);
                lemma_holds_split(b, p, seq![0x0Cu8] + u32_be(n), e);
                lemma_holds_split(b, p, seq![0x0Cu8], u32_be(n));
                lemma_holds_be32(b, q, n);
                lemma_holds_text(b, q + 4, s);
            }
        },
        Amf0Model::XmlDocument(s) => {
            let e = encode_utf8(s);
            let n = (e.len() as u32) as int;
            assert(n == e.len());
            lemma_u32_be_roundtrip(n);
            lemma_holds_split(b, p, seq![0x0Fu8] + u32_be(n), e);
            lemma_holds_split(b, p, seq![0x0Fu8], u32_be(n));
            lemma_holds_be32(b, q, n);
            lemma_holds_text(b, q + 4, s);
        },
        Amf0Model::Date { unix_time } => {
            let millis = duration_as_millis(unix_time);
            let bits = nat_to_bits(millis as nat);
            lemma_nat_to_bits_exact(millis as nat);
            lemma_holds_split(b, p, seq![0x0Bu8] + u64_be(bits as int), seq![0u8, 0u8]);
            lemma_holds_split(b, p, seq![0x0Bu8], u64_be(bits as int));
            lemma_holds_be64(b, q, bits as int);
            lemma_holds_index(b, q + 8, seq![0u8, 0u8], 0);
            lemma_holds_index(b, q + 8, seq![0u8, 0u8], 1);
            assert(date0_millis(bits, 0) == Some(millis));
            assert(duration_of_millis(millis as u64) == unix_time);
        },
        Amf0Model::AvmPlus(v) => {
            let y = amf3_bytes(v);
            lemma_holds_split(b, p, seq![0x11u8], y);
            let rest = b.subrange(q + y.len(), b.len() as int);
            assert(b.subrange(q, b.len() as int) =~= y + rest);
            lemma_amf3_roundtrip(v, rest);
        },
        _ => {},
    }
}

/// The members of an object, held at `q` after its marker and class name, decode to the
/// object.
proof fn lemma_object_body(
    class_name: Option<Seq<char>>,
    entries: Seq<(Seq<char>, Amf0Model)>,
    b: Seq<u8>,
    q: int,
    cx: Seq<Amf0Model>,
)
    requires
        members_restorable(entries),
        holds_at(b, q, amf0_pairs_bytes(entries, entries.len() as int) + object_end_bytes()),
        q >= 1,
    ensures
        parse0_pairs(b, q, cx) matches Ok((q2, e, _)) && q2 == q + amf0_pairs_bytes(
            entries,
            entries.len() as int,
        ).len() + 3 && e == entries,
    decreases entries, entries.len() + 1,
{
    lemma_pairs(entries, 0, b, q, cx);
    assert(entries.subrange(0, entries.len() as int) =~= entries);
}

/// The items of a strict array, held at `q` after its marker and count, decode to the
/// items.
proof fn lemma_array_items(entries: Seq<Amf0Model>, b: Seq<u8>, q: int, cx: Seq<Amf0Model>)
    requires
        forall|j: int| 0 <= j < entries.len() ==> amf0_restorable(#[trigger] entries[j]),
        holds_at(b, q, amf0_seq_bytes(entries, entries.len() as int)),
    ensures
        parse0_values(b, q, cx, entries.len()) matches Ok((q2, e, _)) && q2 == q
            + amf0_seq_bytes(entries, entries.len() as int).len() && e == entries,
    decreases entries, entries.len() + 1,
{
    lemma_values(entries, 0, b, q, cx);
    assert(entries.subrange(0, entries.len() as int) =~= entries);
}

/// The body of a restorable complex value held at `p` (its marker) decodes to the value.
#[verifier::spinoff_prover]
#[verifier::rlimit(60)]
proof fn lemma_complex_body(m: Amf0Model, b: Seq<u8>, p: int, cx: Seq<Amf0Model>)
    requires
        amf0_restorable(m),
        holds_at(b, p, amf0_bytes(m)),
        m is Object || m is EcmaArray || m is Array,
    ensures
        parse0_complex_body(b, p + 1, cx, b[p]) matches Ok((q, v, _)) && q == p + amf0_bytes(
            m,
        ).len() && v == m,
    decreases m, 0int,
{
    let x = amf0_bytes(m);
    let q = p + 1;
    match m {
        Amf0Model::Object { class_name, entries } => {
            assert(members_restorable(entries));
            let pb = amf0_pairs_bytes(entries, entries.len() as int);
            match class_name {
                None => {
                    assert(x =~= seq![0x03u8] + (pb + object_end_bytes()));
                    lemma_holds_split(b, p, seq![0x03u8], pb + object_end_bytes());
                    lemma_holds_index(b, p, seq![0x03u8], 0);
                    lemma_object_body(class_name, entries, b, q, cx);
                },
                Some(c) => {
                    assert(x =~= seq![0x10u8] + key0_bytes(c) + (pb + object_end_bytes()));
                    lemma_holds_split(
                        b,
                        p,
                        seq![0x10u8] + key0_bytes(c),
                        pb + object_end_bytes(),
                    );
                    lemma_holds_split(b, p, seq![0x10u8], key0_bytes(c));
                    lemma_holds_index(b, p, seq![0x10u8], 0);
                    lemma_holds_key(b, q, c);
                    lemma_object_body(class_name, entries, b, q + key0_bytes(c).len(), cx);
                },
            }
        },
        Amf0Model::EcmaArray { entries } => {
            assert(members_restorable(entries));
            let pb = amf0_pairs_bytes(entries, entries.len() as int);
            let w = u32_be((entries.len() as u32) as int);
            assert(x =~= seq![0x08u8] + w + (pb + object_end_bytes()));
            lemma_holds_split(b, p, seq![0x08u8] + w, pb + object_end_bytes());
            lemma_holds_split(b, p, seq![0x08u8], w);
            lemma_holds_index(b, p, seq![0x08u8], 0);
            lemma_object_body(None, entries, b, q + 4, cx);
        },
        Amf0Model::Array { entries } => {
            let n = entries.len() as int;
            assert((n as u32) as int == n);
            let w = u32_be(n);
            let sb = amf0_seq_bytes(entries, n);
            lemma_u32_be_roundtrip(n);
            lemma_holds_split(b, p, seq![0x0Au8] + w, sb);
            lemma_holds_split(b, p, seq![0x0Au8], w);
            lemma_holds_index(b, p, seq![0x0Au8], 0);
            lemma_holds_be32(b, q, n);
            lemma_array_items(entries, b, q + 4, cx);
        },
        _ => {},
    }
}

/// A restorable value held at `p` decodes to itself, whatever the complex values read
/// before it.
#[verifier::spinoff_prover]
#[verifier::rlimit(60)]
proof fn lemma_value(m: Amf0Model, b: Seq<u8>, p: int, cx: Seq<Amf0Model>)
    requires
        amf0_restorable(m),
        holds_at(b, p, amf0_bytes(m)),
    ensures
        parse0_value(b, p, cx) matches Ok((q, v, _)) && q == p + amf0_bytes(m).len() && v == m,
    decreases m, 1int,
{
    lemma_holds_index(b, p, amf0_bytes(m), 0);
    lemma_bytes_start(m);
    if m is Object || m is EcmaArray || m is Array {
        lemma_complex_body(m, b, p, cx.push(Amf0Model::Null));
    } else {
        lemma_simple_value(m, b, p, cx);
    }
}

/// Decoding the bytes of a restorable AMF0 value gives the value back and uses exactly
/// those bytes, whatever follows them.
pub proof fn lemma_amf0_roundtrip(m: Amf0Model, rest: Seq<u8>)
    requires
        amf0_restorable(m),
    ensures
        amf0_decode(amf0_bytes(m) + rest) == Ok::<(int, Amf0Model), ErrorKind>(
            (amf0_bytes(m).len() as int, m),
        ),
{
    reveal(amf0_decode);
    let b = amf0_bytes(m) + rest;
    assert(b.subrange(0, amf0_bytes(m).len() as int) =~= amf0_bytes(m));
    lemma_value(m, b, 0, Seq::empty());
}


/// What decoding keeps within the limits of the encoding: [`amf0_restorable`] but for
/// dates, about which it says nothing.
pub open spec fn amf0_within_limits(m: Amf0Model) -> bool
    decreases m,
{
    match m {
        Amf0Model::String(s) => encode_utf8(s).len() <= u32::MAX,
        Amf0Model::XmlDocument(s) => encode_utf8(s).len() <= u32::MAX,
        Amf0Model::Object { class_name, entries } => (match class_name {
            Some(c) => encode_utf8(c).len() <= 0xFFFF,
            None => true,
        }) && forall|i: int|
            #![trigger entries[i]]
            0 <= i < entries.len() ==> encode_utf8(entries[i].0).len() <= 0xFFFF
                && amf0_within_limits(entries[i].1),
        Amf0Model::EcmaArray { entries } => forall|i: int|
            #![trigger entries[i]]
            0 <= i < entries.len() ==> encode_utf8(entries[i].0).len() <= 0xFFFF
                && amf0_within_limits(entries[i].1),
        Amf0Model::Array { entries } => entries.len() <= u32::MAX && forall|i: int|
            0 <= i < entries.len() ==> amf0_within_limits(#[trigger] entries[i]),
        Amf0Model::AvmPlus(v) => amf3_within_limits(v),
        _ => true,
    }
}

/// Whether every date in `m`, embedded AMF3 values included, is a whole number of
/// milliseconds below 2^53, so that the double on the wire holds it exactly.
pub open spec fn amf0_dates_restorable(m: Amf0Model) -> bool
    decreases m,
{
    match m {
        Amf0Model::Object { entries, .. } => forall|i: int|
            0 <= i < entries.len() ==> amf0_dates_restorable(#[trigger] entries[i].1),
        Amf0Model::EcmaArray { entries } => forall|i: int|
            0 <= i < entries.len() ==> amf0_dates_restorable(#[trigger] entries[i].1),
        Amf0Model::Array { entries } => forall|i: int|
            0 <= i < entries.len() ==> amf0_dates_restorable(#[trigger] entries[i]),
        Amf0Model::Date { unix_time } => duration_as_millis(unix_time) < 0x20_0000_0000_0000
            && whole_millis(unix_time),
        Amf0Model::AvmPlus(v) => amf3_dates_restorable(v),
        _ => true,
    }
}

/// A value within the encoding's limits whose dates are restorable is restorable.
pub proof fn lemma_restorable_from_parts(m: Amf0Model)
    requires
        amf0_within_limits(m),
        amf0_dates_restorable(m),
    ensures
        amf0_restorable(m),
    decreases m,
{
    match m {
        Amf0Model::Object { entries, .. } => {
            assert forall|i: int|
                #![trigger entries[i]]
                0 <= i < entries.len() implies encode_utf8(entries[i].0).len() <= 0xFFFF
                    && amf0_restorable(entries[i].1) by {
                lemma_restorable_from_parts(entries[i].1);
            }
        },
        Amf0Model::EcmaArray { entries } => {
            assert forall|i: int|
                #![trigger entries[i]]
                0 <= i < entries.len() implies encode_utf8(entries[i].0).len() <= 0xFFFF
                    && amf0_restorable(entries[i].1) by {
                lemma_restorable_from_parts(entries[i].1);
            }
        },
        Amf0Model::Array { entries } => {
            assert forall|i: int| 0 <= i < entries.len() implies amf0_restorable(#[trigger] entries[i]) by {
                lemma_restorable_from_parts(entries[i]);
            }
        },
        Amf0Model::AvmPlus(v) => lemma_amf3_restorable_from_parts(v),
        _ => {},
    }
}

/// A value within the encoding's limits can be encoded.
pub proof fn lemma_amf0_encodable_within(m: Amf0Model)
    requires
        amf0_within_limits(m),
    ensures
        amf0_encodable(m),
    decreases m,
{
    match m {
        Amf0Model::Object { entries, .. } => {
            assert forall|i: int| 0 <= i < entries.len() implies amf0_encodable(
                #[trigger] entries[i].1,
            ) by {
                lemma_amf0_encodable_within(entries[i].1);
            }
        },
        Amf0Model::EcmaArray { entries } => {
            assert forall|i: int| 0 <= i < entries.len() implies amf0_encodable(
                #[trigger] entries[i].1,
            ) by {
                lemma_amf0_encodable_within(entries[i].1);
            }
        },
        Amf0Model::Array { entries } => {
            assert forall|i: int| 0 <= i < entries.len() implies amf0_encodable(#[trigger] entries[i]) by {
                lemma_amf0_encodable_within(entries[i]);
            }
        },
        Amf0Model::AvmPlus(v) => lemma_amf3_encodable_within(v),
        _ => {},
    }
}

/// Whether every complex value read so far is within the encoding's limits.
pub open spec fn table_within_limits(cx: Seq<Amf0Model>) -> bool {
    forall|i: int| 0 <= i < cx.len() ==> amf0_within_limits(#[trigger] cx[i])
}

/// Text read back has a UTF-8 encoding of exactly the bytes it was read from.
proof fn lemma_parse_text_len(b: Seq<u8>, p: int, len: int)
    requires
        0 <= p,
        0 <= len,
        parse_text(b, p, len) is Ok,
    ensures
        encode_utf8(parse_text(b, p, len).get_Ok_0().1).len() == len,
{
    let t = b.subrange(p, p + len);
    assert(p + len <= b.len() && valid_utf8(t));
    vstd::utf8::decode_utf8_encode_utf8(t);
    assert(t.len() == len);
}

proof fn lemma_counted_text_len(b: Seq<u8>, p: int, w: int)
    requires
        0 <= p,
        w == 2 || w == 4,
        parse_counted_text(b, p, w) is Ok,
    ensures
        encode_utf8(parse_counted_text(b, p, w).get_Ok_0().1).len() < if w == 2 {
            0x10000int
        } else {
            0x1_0000_0000int
        },
{
    let len = if w == 2 { be16(b, p) } else { be32(b, p) };
    lemma_parse_text_len(b, p + w, len);
}

/// Decoding a value keeps it, and every complex value read, within the encoding's limits.
#[verifier::spinoff_prover]
#[verifier::rlimit(60)]
proof fn lemma_decoded_value(b: Seq<u8>, p: int, cx: Seq<Amf0Model>)
    requires
        table_within_limits(cx),
    ensures
        parse0_value(b, p, cx) matches Ok((q, v, cx2)) ==> amf0_within_limits(v) && table_within_limits(
            cx2,
        ) && cx2.len() >= cx.len(),
    decreases b.len() - p, 0int,
{
    if 0 <= p && p + 1 <= b.len() {
        let m = b[p];
        if crate::amf0::is_complex0(m) {
            let cx1 = cx.push(Amf0Model::Null);
            assert(table_within_limits(cx1)) by {
                assert forall|i: int| 0 <= i < cx1.len() implies amf0_within_limits(#[trigger] cx1[i]) by {
                    if i < cx.len() {
                        assert(cx1[i] == cx[i]);
                    }
                }
            }
            lemma_decoded_complex(b, p + 1, cx1, m);
            if let Ok((q2, v, cx2)) = parse0_complex_body(b, p + 1, cx1, m) {
                let cx3 = cx2.update(cx.len() as int, v);
                assert forall|i: int| 0 <= i < cx3.len() implies amf0_within_limits(#[trigger] cx3[i]) by {
                    if i != cx.len() {
                        assert(cx3[i] == cx2[i]);
                    }
                }
            }
        } else {
            let q = p + 1;
            if m == 0x02 || m == 0x0C || m == 0x0F {
                let w = if m == 0x02 { 2int } else { 4int };
                if parse_counted_text(b, q, w) is Ok {
                    lemma_counted_text_len(b, q, w);
                }
            } else if m == 0x11 && q <= b.len() {
                lemma_amf3_decoded_within_limits(b.subrange(q, b.len() as int));
            }
        }
    }
}

#[verifier::spinoff_prover]
#[verifier::rlimit(60)]
proof fn lemma_decoded_complex(b: Seq<u8>, q: int, cx: Seq<Amf0Model>, m: u8)
    requires
        table_within_limits(cx),
    ensures
        parse0_complex_body(b, q, cx, m) matches Ok((q2, v, cx2)) ==> amf0_within_limits(v)
            && table_within_limits(cx2) && cx2.len() >= cx.len(),
    decreases b.len() - q, 2int,
{
    if 0 <= q && q <= b.len() {
        if m == 0x03 {
            lemma_decoded_pairs(b, q, cx);
        } else if m == 0x10 {
            if parse_counted_text(b, q, 2) is Ok {
                lemma_counted_text_len(b, q, 2);
                let q1 = parse_counted_text(b, q, 2).get_Ok_0().0;
                if q <= q1 <= b.len() {
                    lemma_decoded_pairs(b, q1, cx);
                }
            }
        } else if q + 4 <= b.len() {
            if m == 0x08 {
                lemma_decoded_pairs(b, q + 4, cx);
            } else {
                lemma_decoded_values(b, q + 4, cx, be32(b, q) as nat);
            }
        }
    }
}

#[verifier::spinoff_prover]
#[verifier::rlimit(60)]
proof fn lemma_decoded_pairs(b: Seq<u8>, p: int, cx: Seq<Amf0Model>)
    requires
        table_within_limits(cx),
    ensures
        parse0_pairs(b, p, cx) matches Ok((q, e, cx2)) ==> table_within_limits(cx2) && cx2.len()
            >= cx.len() && forall|i: int|
            #![trigger e[i]]
            0 <= i < e.len() ==> encode_utf8(e[i].0).len() <= 0xFFFF && amf0_within_limits(e[i].1),
    decreases b.len() - p, 1int,
{
    reveal(parse0_pairs);
    if 0 <= p && p <= b.len() && parse_counted_text(b, p, 2) is Ok {
        lemma_counted_text_len(b, p, 2);
        let (p1, key) = parse_counted_text(b, p, 2).get_Ok_0();
        if p < p1 && p1 <= b.len() && !(p1 < b.len() && b[p1] == 0x09) {
            lemma_decoded_value(b, p1, cx);
            if let Ok((p2, v, cx2)) = parse0_value(b, p1, cx) {
                if p1 < p2 && p2 <= b.len() {
                    lemma_decoded_pairs(b, p2, cx2);
                    if let Ok((p3, rest, cx3)) = parse0_pairs(b, p2, cx2) {
                        let e = seq![(key, v)] + rest;
                        assert forall|i: int|
                            #![trigger e[i]]
                            0 <= i < e.len() implies encode_utf8(e[i].0).len() <= 0xFFFF
                                && amf0_within_limits(e[i].1) by {
                            if i > 0 {
                                assert(e[i] == rest[i - 1]);
                            }
                        }
                    }
                }
            }
        }
    }
}

#[verifier::spinoff_prover]
#[verifier::rlimit(60)]
proof fn lemma_decoded_values(b: Seq<u8>, p: int, cx: Seq<Amf0Model>, n: nat)
    requires
        table_within_limits(cx),
    ensures
        parse0_values(b, p, cx, n) matches Ok((q, vs, cx2)) ==> table_within_limits(cx2) && cx2.len()
            >= cx.len() && vs.len() == n && forall|i: int| 0 <= i < vs.len() ==> amf0_within_limits(#[trigger] vs[i]),
    decreases b.len() - p, 1int,
{
    reveal(parse0_values);
    if n > 0 && 0 <= p && p <= b.len() {
        lemma_decoded_value(b, p, cx);
        if let Ok((p1, v, cx1)) = parse0_value(b, p, cx) {
            if p < p1 && p1 <= b.len() {
                lemma_decoded_values(b, p1, cx1, (n - 1) as nat);
                if let Ok((p2, rest, cx2)) = parse0_values(b, p1, cx1, (n - 1) as nat) {
                    let vs = seq![v] + rest;
                    assert forall|i: int| 0 <= i < vs.len() implies amf0_within_limits(#[trigger] vs[i]) by {
                        if i > 0 {
                            assert(vs[i] == rest[i - 1]);
                        }
                    }
                }
            }
        }
    }
}

/// Decoding an AMF0 value and encoding it again gives bytes that can be encoded and that
/// decode to that same value, using all of them, whenever its dates are whole
/// milliseconds below 2^53: decoding stays within every other limit of the encoding.
pub proof fn lemma_amf0_decode_encode(b: Seq<u8>, rest: Seq<u8>)
    ensures
        amf0_decode(b) matches Ok((n, v)) ==> amf0_encodable(v) && (amf0_dates_restorable(v)
            ==> amf0_decode(amf0_bytes(v) + rest) == Ok::<(int, Amf0Model), ErrorKind>(
            (amf0_bytes(v).len() as int, v),
        )),
{
    reveal(amf0_decode);
    lemma_decoded_value(b, 0, Seq::empty());
    if let Ok((n, v)) = amf0_decode(b) {
        lemma_amf0_encodable_within(v);
        if amf0_dates_restorable(v) {
            lemma_restorable_from_parts(v);
            lemma_amf0_roundtrip(v, rest);
        }
    }
}

/// Whether every date in an AMF value of either encoding is a whole number of
/// milliseconds below 2^53.
pub open spec fn amf_dates_restorable(m: AmfModel) -> bool {
    match m {
        AmfModel::Amf0(v) => amf0_dates_restorable(v),
        AmfModel::Amf3(v) => amf3_dates_restorable(v),
    }
}

/// A value decoded in either encoding can be encoded again, and, whenever its dates are
/// whole milliseconds below 2^53, the bytes of that encoding decode to the same value,
/// using all of them, whatever follows them.
pub proof fn lemma_amf_decode_encode(b: Seq<u8>, version: AmfVersion, rest: Seq<u8>)
    ensures
        amf_decode(b, version) matches Ok((n, v)) ==> amf_encodable(v) && (amf_dates_restorable(v)
            ==> amf_decode(amf_bytes(v) + rest, version) == Ok::<(int, AmfModel), ErrorKind>(
            (amf_bytes(v).len() as int, v),
        )),
{
    match version {
        AmfVersion::Amf0 => lemma_amf0_decode_encode(b, rest),
        AmfVersion::Amf3 => crate::amf3_limits::lemma_amf3_decode_encode(b, rest),
    }
}

/// The marker that starts the AMF0 encoding of each kind of value: number 0x00, boolean
/// 0x01 (then 1 for true, 0 for false), string 0x02 (0x0C when its UTF-8 form is longer
/// than 0xFFFF bytes), anonymous object 0x03, null 0x05, undefined 0x06, ECMA array 0x08,
/// strict array 0x0A, date 0x0B, XML document 0x0F, typed object 0x10 and an embedded
/// AMF3 value 0x11; objects and ECMA arrays end with an empty key and the marker 0x09.
pub proof fn lemma_amf0_markers(m: Amf0Model)
    ensures
        m is Number ==> amf0_bytes(m)[0] == 0x00,
        m matches Amf0Model::Boolean(b) ==> amf0_bytes(m)[0] == 0x01 && amf0_bytes(m)[1] == (if b {
            1u8
        } else {
            0u8
        }),
        m matches Amf0Model::String(s) ==> amf0_bytes(m)[0] == (if encode_utf8(s).len() <= 0xFFFF {
            0x02u8
        } else {
            0x0Cu8
        }),
        m matches Amf0Model::Object { class_name, .. } ==> amf0_bytes(m)[0] == (if class_name is None {
            0x03u8
        } else {
            0x10u8
        }),
        m is Null ==> amf0_bytes(m)[0] == 0x05,
        m is Undefined ==> amf0_bytes(m)[0] == 0x06,
        m is EcmaArray ==> amf0_bytes(m)[0] == 0x08,
        m is Array ==> amf0_bytes(m)[0] == 0x0A,
        m is Date ==> amf0_bytes(m)[0] == 0x0B,
        m is XmlDocument ==> amf0_bytes(m)[0] == 0x0F,
        m is AvmPlus ==> amf0_bytes(m)[0] == 0x11,
        (m is Object || m is EcmaArray) ==> amf0_bytes(m).len() >= 4 && amf0_bytes(m).subrange(
            amf0_bytes(m).len() - 3,
            amf0_bytes(m).len() as int,
        ) == seq![0x00u8, 0x00u8, 0x09u8],
{
    match m {
        Amf0Model::Object { class_name, entries } => {
            let b = amf0_bytes(m);
            let n = b.len();
            assert(object_end_bytes() =~= seq![0x00u8, 0x00u8, 0x09u8]);
            assert(b.subrange(n - 3, n as int) =~= seq![0x00u8, 0x00u8, 0x09u8]);
        },
        Amf0Model::EcmaArray { entries } => {
            let b = amf0_bytes(m);
            let n = b.len();
            assert(object_end_bytes() =~= seq![0x00u8, 0x00u8, 0x09u8]);
            assert(b.subrange(n - 3, n as int) =~= seq![0x00u8, 0x00u8, 0x09u8]);
        },
        _ => {},
    }
}

} // verus!
