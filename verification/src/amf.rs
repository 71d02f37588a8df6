//! The serialized message format carried over worker channels: a
//! self-describing binary encoding of primitives and plain composite
//! objects, compatible with the AMF3 wire format (markers, variable-length
//! 29-bit integers, big-endian doubles, dynamic anonymous objects).
//! Encoding then decoding restores the value exactly.

use vstd::prelude::*;

verus! {

/// A message value: a primitive or a plain composite object, the only
/// shapes a channel carries.
#[derive(Debug)]
pub enum AmfValue {
    Undefined,
    Null,
    Boolean(bool),
    Integer(i32),
    Double(u64),
    Str(Vec<u8>),
    Object(Vec<(Vec<u8>, AmfValue)>),
}

/// The mathematical shape of a message value.
pub enum AmfView {
    Undefined,
    Null,
    Boolean(bool),
    Integer(i32),
    Double(u64),
    Str(Seq<u8>),
    Object(Seq<(Seq<u8>, AmfView)>),
}

impl AmfValue {
    /// The value's mathematical shape.
    pub open spec fn deep(&self) -> AmfView
        decreases self via Self::deep_via
    {
        match self {
            AmfValue::Undefined => AmfView::Undefined,
            AmfValue::Null => AmfView::Null,
            AmfValue::Boolean(b) => AmfView::Boolean(*b),
            AmfValue::Integer(n) => AmfView::Integer(*n),
            AmfValue::Double(d) => AmfView::Double(*d),
            AmfValue::Str(s) => AmfView::Str(s@),
            AmfValue::Object(pairs) => AmfView::Object(deep_list(pairs@)),
        }
    }

    #[via_fn]
    proof fn deep_via(&self) {
        match self {
            AmfValue::Object(pairs) => {
                assert(decreases_to!(*self => *pairs));
                assert(decreases_to!(*pairs => pairs@));
            },
            _ => {},
        }
    }
}

/// The mathematical shapes of an object's members.
pub open spec fn deep_list(s: Seq<(Vec<u8>, AmfValue)>) -> Seq<(Seq<u8>, AmfView)>
    decreases s via deep_list_via
{
    Seq::new(s.len(), |i: int|
        if 0 <= i < s.len() {
            (s[i].0@, s[i].1.deep())
        } else {
            (Seq::<u8>::empty(), AmfView::Undefined)
        })
}

#[via_fn]
proof fn deep_list_via(s: Seq<(Vec<u8>, AmfValue)>) {
    assert forall|i: int| 0 <= i < s.len() implies decreases_to!(s => s[i].1) by {
        assert(decreases_to!(s => s[i]));
    }
}

/// What the encoder accepts and the round trip preserves: integers in the
/// signed 29-bit wire range, strings below the wire length limit, and
/// object keys nonempty (the empty key terminates an object on the wire).
pub open spec fn spec_amf_wf(v: AmfView) -> bool
    decreases v,
{
    match v {
        AmfView::Integer(n) => -0x1000_0000 <= n <= 0x0FFF_FFFF,
        AmfView::Str(s) => s.len() < 0x1000_0000,
        AmfView::Object(pairs) => spec_amf_pairs_wf(pairs),
        _ => true,
    }
}

/// Well-formedness of an object's member list: nonempty keys below the
/// wire length limit and well-formed member values.
pub open spec fn spec_amf_pairs_wf(pairs: Seq<(Seq<u8>, AmfView)>) -> bool
    decreases pairs,
{
    pairs.len() == 0 || (1 <= pairs[0].0.len() < 0x1000_0000 && spec_amf_wf(pairs[0].1)
        && spec_amf_pairs_wf(pairs.drop_first()))
}

/// The four-byte wire form of an unsigned 29-bit integer: three
/// continuation bytes of seven bits and a final byte of eight.
pub open spec fn spec_u29(u: u32) -> Seq<u8> {
    seq![
        (0x80 | ((u >> 22) & 0x7F)) as u8,
        (0x80 | ((u >> 15) & 0x7F)) as u8,
        (0x80 | ((u >> 8) & 0x7F)) as u8,
        (u & 0xFF) as u8,
    ]
}

/// The big-endian bytes of a double's bit pattern.
pub open spec fn spec_be8(d: u64) -> Seq<u8> {
    seq![
        ((d >> 56) & 0xFF) as u8,
        ((d >> 48) & 0xFF) as u8,
        ((d >> 40) & 0xFF) as u8,
        ((d >> 32) & 0xFF) as u8,
        ((d >> 24) & 0xFF) as u8,
        ((d >> 16) & 0xFF) as u8,
        ((d >> 8) & 0xFF) as u8,
        (d & 0xFF) as u8,
    ]
}

/// A string's wire form: its length shifted up one with the low bit set
/// (marking an inline value), then its bytes.
pub open spec fn spec_encode_str(s: Seq<u8>) -> Seq<u8> {
    spec_u29(((s.len() * 2) + 1) as u32) + s
}

/// A value's wire form.
pub open spec fn spec_encode(v: AmfView) -> Seq<u8>
    decreases v,
{
    match v {
        AmfView::Undefined => seq![0x00u8],
        AmfView::Null => seq![0x01u8],
        AmfView::Boolean(b) => if b {
            seq![0x03u8]
        } else {
            seq![0x02u8]
        },
        AmfView::Integer(n) => seq![0x04u8]
            + spec_u29(crate::value::spec_u32_of_i32(n) & 0x1FFF_FFFF),
        AmfView::Double(d) => seq![0x05u8] + spec_be8(d),
        AmfView::Str(s) => seq![0x06u8] + spec_encode_str(s),
        AmfView::Object(pairs) => seq![0x0Au8, 0x0Bu8, 0x01u8] + spec_encode_pairs(pairs)
            + seq![0x01u8],
    }
}

/// The wire form of an object's dynamic members, in order.
pub open spec fn spec_encode_pairs(pairs: Seq<(Seq<u8>, AmfView)>) -> Seq<u8>
    decreases pairs,
{
    if pairs.len() == 0 {
        Seq::<u8>::empty()
    } else {
        spec_encode_str(pairs[0].0) + spec_encode(pairs[0].1)
            + spec_encode_pairs(pairs.drop_first())
    }
}

/// Reads a variable-length 29-bit integer: one to four bytes, the high
/// bit of each of the first three marking a continuation.
pub open spec fn spec_decode_u29(s: Seq<u8>) -> Option<(u32, Seq<u8>)> {
    if s.len() == 0 {
        None
    } else if s[0] & 0x80 == 0 {
        Some((s[0] as u32, s.skip(1)))
    } else if s.len() < 2 {
        None
    } else if s[1] & 0x80 == 0 {
        Some(((((s[0] & 0x7F) as u32) << 7) | (s[1] as u32), s.skip(2)))
    } else if s.len() < 3 {
        None
    } else if s[2] & 0x80 == 0 {
        Some(((((s[0] & 0x7F) as u32) << 14) | (((s[1] & 0x7F) as u32) << 7)
            | (s[2] as u32), s.skip(3)))
    } else if s.len() < 4 {
        None
    } else {
        Some(((((s[0] & 0x7F) as u32) << 22) | (((s[1] & 0x7F) as u32) << 15)
            | (((s[2] & 0x7F) as u32) << 8) | (s[3] as u32), s.skip(4)))
    }
}

/// Reads an inline string: its doubled length with the low bit set, then
/// its bytes. A string reference (low bit clear) is not supported.
pub open spec fn spec_decode_str(s: Seq<u8>) -> Option<(Seq<u8>, Seq<u8>)> {
    match spec_decode_u29(s) {
        None => None,
        Some((u, r)) => if u & 1 == 0 {
            None
        } else {
            let l = (u >> 1) as int;
            if r.len() < l {
                None
            } else {
                Some((r.take(l), r.skip(l)))
            }
        },
    }
}

/// Reads one value from the head of the byte string, returning it and
/// the remaining bytes; `None` for malformed input or an exhausted
/// nesting budget.
pub open spec fn spec_decode(s: Seq<u8>, fuel: nat) -> Option<(AmfView, Seq<u8>)>
    decreases fuel,
{
    if fuel == 0 || s.len() == 0 {
        None
    } else {
        let m = s[0];
        let r = s.skip(1);
        if m == 0x00 {
            Some((AmfView::Undefined, r))
        } else if m == 0x01 {
            Some((AmfView::Null, r))
        } else if m == 0x02 {
            Some((AmfView::Boolean(false), r))
        } else if m == 0x03 {
            Some((AmfView::Boolean(true), r))
        } else if m == 0x04 {
            match spec_decode_u29(r) {
                None => None,
                Some((u, r2)) => if u >= 0x2000_0000 {
                    None
                } else if u >= 0x1000_0000 {
                    Some((AmfView::Integer((u - 0x2000_0000) as i32), r2))
                } else {
                    Some((AmfView::Integer(u as i32), r2))
                },
            }
        } else if m == 0x05 {
            if r.len() < 8 {
                None
            } else {
                let d = ((r[0] as u64) << 56) | ((r[1] as u64) << 48)
                    | ((r[2] as u64) << 40) | ((r[3] as u64) << 32)
                    | ((r[4] as u64) << 24) | ((r[5] as u64) << 16)
                    | ((r[6] as u64) << 8) | (r[7] as u64);
                Some((AmfView::Double(d), r.skip(8)))
            }
        } else if m == 0x06 {
            match spec_decode_str(r) {
                None => None,
                Some((sv, r2)) => Some((AmfView::Str(sv), r2)),
            }
        } else if m == 0x0A {
            if r.len() < 2 || r[0] != 0x0B || r[1] != 0x01 {
                None
            } else {
                match spec_decode_pairs(r.skip(2), (fuel - 1) as nat) {
                    None => None,
                    Some((ps, r2)) => Some((AmfView::Object(ps), r2)),
                }
            }
        } else {
            None
        }
    }
}

/// Reads an object's dynamic members up to the empty-key terminator.
pub open spec fn spec_decode_pairs(s: Seq<u8>, fuel: nat)
    -> Option<(Seq<(Seq<u8>, AmfView)>, Seq<u8>)>
    decreases fuel,
{
    if fuel == 0 {
        None
    } else {
        match spec_decode_str(s) {
            None => None,
            Some((k, r)) => if k.len() == 0 {
                Some((Seq::<(Seq<u8>, AmfView)>::empty(), r))
            } else {
                match spec_decode(r, (fuel - 1) as nat) {
                    None => None,
                    Some((v, r2)) => match spec_decode_pairs(r2, (fuel - 1) as nat) {
                        None => None,
                        Some((ps, r3)) => Some((seq![(k, v)] + ps, r3)),
                    },
                }
            },
        }
    }
}

/// The nesting budget a value needs to decode.
pub open spec fn spec_size(v: AmfView) -> nat
    decreases v,
{
    match v {
        AmfView::Object(pairs) => 2 + spec_size_pairs(pairs),
        _ => 1,
    }
}

/// The nesting budget an object's member list needs.
pub open spec fn spec_size_pairs(pairs: Seq<(Seq<u8>, AmfView)>) -> nat
    decreases pairs,
{
    if pairs.len() == 0 {
        1
    } else {
        1 + spec_size(pairs[0].1) + spec_size_pairs(pairs.drop_first())
    }
}

/// Appends the four-byte wire form of an unsigned 29-bit integer.
fn push_u29(u: u32, out: &mut Vec<u8>)
    ensures
        final(out)@ == old(out)@ + spec_u29(u),
{
    out.push((0x80 | ((u >> 22) & 0x7F)) as u8);
    out.push((0x80 | ((u >> 15) & 0x7F)) as u8);
    out.push((0x80 | ((u >> 8) & 0x7F)) as u8);
    out.push((u & 0xFF) as u8);
    proof {
        assert(out@ =~= old(out)@ + spec_u29(u));
    }
}

/// Appends the big-endian bytes of a double's bit pattern.
fn push_be8(d: u64, out: &mut Vec<u8>)
    ensures
        final(out)@ == old(out)@ + spec_be8(d),
{
    out.push(((d >> 56) & 0xFF) as u8);
    out.push(((d >> 48) & 0xFF) as u8);
    out.push(((d >> 40) & 0xFF) as u8);
    out.push(((d >> 32) & 0xFF) as u8);
    out.push(((d >> 24) & 0xFF) as u8);
    out.push(((d >> 16) & 0xFF) as u8);
    out.push(((d >> 8) & 0xFF) as u8);
    out.push((d & 0xFF) as u8);
    proof {
        assert(out@ =~= old(out)@ + spec_be8(d));
    }
}

/// Appends a string's wire form.
fn push_str(s: &Vec<u8>, out: &mut Vec<u8>)
    requires
        s@.len() < 0x1000_0000,
    ensures
        final(out)@ == old(out)@ + spec_encode_str(s@),
{
    let l = s.len();
    push_u29((l as u32) * 2 + 1, out);
    let mut i: usize = 0;
    while i < l
        invariant
            i <= l,
            l == s@.len(),
            out@ == old(out)@ + spec_u29(((s@.len() * 2) + 1) as u32) + s@.take(i as int),
        decreases l - i,
    {
        out.push(s[i]);
        proof {
            assert(out@ =~= old(out)@ + spec_u29(((s@.len() * 2) + 1) as u32)
                + s@.take(i as int + 1));
        }
        i = i + 1;
    }
    proof {
        assert(s@.take(l as int) =~= s@);
        assert(out@ =~= old(out)@ + spec_encode_str(s@));
    }
}

/// Appends a value's wire form.
pub fn encode(v: &AmfValue, out: &mut Vec<u8>)
    requires
        spec_amf_wf(v.deep()),
    ensures
        final(out)@ == old(out)@ + spec_encode(v.deep()),
    decreases v,
{
    match v {
        AmfValue::Undefined => {
            out.push(0x00);
            proof {
                assert(out@ =~= old(out)@ + spec_encode(v.deep()));
            }
        },
        AmfValue::Null => {
            out.push(0x01);
            proof {
                assert(out@ =~= old(out)@ + spec_encode(v.deep()));
            }
        },
        AmfValue::Boolean(b) => {
            out.push(if *b { 0x03 } else { 0x02 });
            proof {
                assert(out@ =~= old(out)@ + spec_encode(v.deep()));
            }
        },
        AmfValue::Integer(n) => {
            out.push(0x04);
            let u = crate::value::u32_of_i32(*n) & 0x1FFF_FFFF;
            push_u29(u, out);
            proof {
                assert(out@ =~= old(out)@ + spec_encode(v.deep()));
            }
        },
        AmfValue::Double(d) => {
            out.push(0x05);
            push_be8(*d, out);
            proof {
                assert(out@ =~= old(out)@ + spec_encode(v.deep()));
            }
        },
        AmfValue::Str(s) => {
            out.push(0x06);
            push_str(s, out);
            proof {
                assert(out@ =~= old(out)@ + spec_encode(v.deep()));
            }
        },
        AmfValue::Object(pairs) => {
            let ghost dl = deep_list(pairs@);
            out.push(0x0A);
            out.push(0x0B);
            out.push(0x01);
            let n = pairs.len();
            let mut i: usize = 0;
            proof {
                assert(dl.skip(0) =~= dl);
            }
            while i < n
                invariant
                    i <= n,
                    n == pairs@.len(),
                    *v == AmfValue::Object(*pairs),
                    dl == deep_list(pairs@),
                    spec_amf_pairs_wf(dl.skip(i as int)),
                    out@ + spec_encode_pairs(dl.skip(i as int))
                        == old(out)@ + seq![0x0Au8, 0x0Bu8, 0x01u8] + spec_encode_pairs(dl),
                decreases n - i,
            {
                let ghost tail = dl.skip(i as int);
                proof {
                    assert(tail[0] == (pairs@[i as int].0@, pairs@[i as int].1.deep()));
                    assert(tail.drop_first() =~= dl.skip(i as int + 1));
                }
                push_str(&pairs[i].0, out);
                proof {
                    assert(*pairs == v->Object_0);
                    assert(decreases_to!(*v => v->Object_0));
                    assert(decreases_to!(*pairs => pairs@));
                    assert(decreases_to!(pairs@ => pairs@[i as int]));
                    assert(decreases_to!(pairs@[i as int] => pairs@[i as int].1));
                    assert(decreases_to!(*v => pairs@[i as int].1));
                }
                encode(&pairs[i].1, out);
                proof {
                    assert(out@ + spec_encode_pairs(dl.skip(i as int + 1))
                        =~= old(out)@ + seq![0x0Au8, 0x0Bu8, 0x01u8]
                            + spec_encode_pairs(dl));
                }
                i = i + 1;
            }
            proof {
                assert(dl.skip(n as int) =~= Seq::<(Seq<u8>, AmfView)>::empty());
            }
            out.push(0x01);
            proof {
                assert(out@ =~= old(out)@ + spec_encode(v.deep()));
            }
        },
    }
}

/// Reading back an encoded 29-bit integer restores it and leaves the
/// rest untouched.
pub proof fn lemma_u29_roundtrip(u: u32, rest: Seq<u8>)
    requires
        u < 0x2000_0000,
    ensures
        spec_decode_u29(spec_u29(u) + rest) == Some((u, rest)),
{
    let s = spec_u29(u) + rest;
    let b0: u8 = (0x80 | ((u >> 22) & 0x7F)) as u8;
    let b1: u8 = (0x80 | ((u >> 15) & 0x7F)) as u8;
    let b2: u8 = (0x80 | ((u >> 8) & 0x7F)) as u8;
    let b3: u8 = (u & 0xFF) as u8;
    assert(s[0] == b0 && s[1] == b1 && s[2] == b2 && s[3] == b3);
    assert(b0 & 0x80 != 0 && b1 & 0x80 != 0 && b2 & 0x80 != 0) by (bit_vector)
        requires
            b0 == (0x80 | ((u >> 22) & 0x7F)) as u8,
            b1 == (0x80 | ((u >> 15) & 0x7F)) as u8,
            b2 == (0x80 | ((u >> 8) & 0x7F)) as u8,
    ;
    assert(((((b0 & 0x7F) as u32) << 22) | (((b1 & 0x7F) as u32) << 15)
        | (((b2 & 0x7F) as u32) << 8) | (b3 as u32)) == u) by (bit_vector)
        requires
            u < 0x2000_0000,
            b0 == (0x80 | ((u >> 22) & 0x7F)) as u8,
            b1 == (0x80 | ((u >> 15) & 0x7F)) as u8,
            b2 == (0x80 | ((u >> 8) & 0x7F)) as u8,
            b3 == (u & 0xFF) as u8,
    ;
    assert(s.skip(4) =~= rest);
}

/// Reading back an encoded string restores it and leaves the rest
/// untouched.
pub proof fn lemma_str_roundtrip(sv: Seq<u8>, rest: Seq<u8>)
    requires
        sv.len() < 0x1000_0000,
    ensures
        spec_decode_str(spec_encode_str(sv) + rest) == Some((sv, rest)),
{
    let u: u32 = ((sv.len() * 2) + 1) as u32;
    assert(spec_encode_str(sv) + rest =~= spec_u29(u) + (sv + rest));
    lemma_u29_roundtrip(u, sv + rest);
    let l: u32 = sv.len() as u32;
    assert(u & 1 == 1 && u >> 1 == l) by (bit_vector)
        requires
            l < 0x1000_0000,
            u == 2 * l + 1,
    ;
    assert((sv + rest).take(sv.len() as int) =~= sv);
    assert((sv + rest).skip(sv.len() as int) =~= rest);
}

/// Round trip: reading back an encoded value restores it exactly and
/// leaves the rest of the input untouched, given any sufficient nesting
/// budget.
#[verifier::rlimit(100)]
#[verifier::spinoff_prover]
pub proof fn lemma_amf_roundtrip(v: AmfView, rest: Seq<u8>, fuel: nat)
    requires
        spec_amf_wf(v),
        fuel >= spec_size(v),
    ensures
        spec_decode(spec_encode(v) + rest, fuel) == Some((v, rest)),
    decreases v,
{
    let s = spec_encode(v) + rest;
    match v {
        AmfView::Undefined => {
            assert(s.skip(1) =~= rest);
        },
        AmfView::Null => {
            assert(s.skip(1) =~= rest);
        },
        AmfView::Boolean(b) => {
            assert(s.skip(1) =~= rest);
        },
        AmfView::Integer(n) => {
            let uu: u32 = crate::value::spec_u32_of_i32(n);
            let u: u32 = uu & 0x1FFF_FFFF;
            assert(s.skip(1) =~= spec_u29(u) + rest);
            assert(u < 0x2000_0000) by (bit_vector)
                requires
                    u == uu & 0x1FFF_FFFF,
            ;
            lemma_u29_roundtrip(u, rest);
            if n >= 0 {
                assert(uu == n);
                assert(u == uu && u < 0x1000_0000) by (bit_vector)
                    requires
                        u == uu & 0x1FFF_FFFF,
                        uu < 0x1000_0000,
                ;
            } else {
                assert(uu == n + 0x1_0000_0000);
                assert(u == uu - 0xE000_0000 && u >= 0x1000_0000) by (bit_vector)
                    requires
                        u == uu & 0x1FFF_FFFF,
                        uu >= 0xF000_0000,
                ;
                assert((u - 0x2000_0000) as i32 == n);
            }
        },
        AmfView::Double(d) => {
            let r = s.skip(1);
            assert(r =~= spec_be8(d) + rest);
            let c0: u8 = ((d >> 56) & 0xFF) as u8;
            let c1: u8 = ((d >> 48) & 0xFF) as u8;
            let c2: u8 = ((d >> 40) & 0xFF) as u8;
            let c3: u8 = ((d >> 32) & 0xFF) as u8;
            let c4: u8 = ((d >> 24) & 0xFF) as u8;
            let c5: u8 = ((d >> 16) & 0xFF) as u8;
            let c6: u8 = ((d >> 8) & 0xFF) as u8;
            let c7: u8 = (d & 0xFF) as u8;
            assert(r[0] == c0 && r[1] == c1 && r[2] == c2 && r[3] == c3 && r[4] == c4
                && r[5] == c5 && r[6] == c6 && r[7] == c7);
            assert((((c0 as u64) << 56) | ((c1 as u64) << 48) | ((c2 as u64) << 40)
                | ((c3 as u64) << 32) | ((c4 as u64) << 24) | ((c5 as u64) << 16)
                | ((c6 as u64) << 8) | (c7 as u64)) == d) by (bit_vector)
                requires
                    c0 == ((d >> 56) & 0xFF) as u8,
                    c1 == ((d >> 48) & 0xFF) as u8,
                    c2 == ((d >> 40) & 0xFF) as u8,
                    c3 == ((d >> 32) & 0xFF) as u8,
                    c4 == ((d >> 24) & 0xFF) as u8,
                    c5 == ((d >> 16) & 0xFF) as u8,
                    c6 == ((d >> 8) & 0xFF) as u8,
                    c7 == (d & 0xFF) as u8,
            ;
            assert(r.skip(8) =~= rest);
        },
        AmfView::Str(sv) => {
            assert(s.skip(1) =~= spec_encode_str(sv) + rest);
            lemma_str_roundtrip(sv, rest);
        },
        AmfView::Object(pairs) => {
            let r = s.skip(1);
            assert(r =~= seq![0x0Bu8, 0x01u8] + (spec_encode_pairs(pairs) + seq![0x01u8]
                + rest));
            assert(r[0] == 0x0B && r[1] == 0x01);
            assert(r.skip(2) =~= spec_encode_pairs(pairs) + seq![0x01u8] + rest);
            lemma_amf_pairs_roundtrip(pairs, rest, (fuel - 1) as nat);
        },
    }
}

/// Reads back a variable-length 29-bit integer, returning it and the
/// position after it.
fn decode_u29(bytes: &Vec<u8>, pos: usize) -> (r: Option<(u32, usize)>)
    requires
        pos <= bytes@.len(),
    ensures
        match r {
            Some((u, np)) => pos < np <= bytes@.len()
                && spec_decode_u29(bytes@.skip(pos as int))
                    == Some((u, bytes@.skip(np as int))),
            None => spec_decode_u29(bytes@.skip(pos as int)) is None,
        },
{
    let ghost s = bytes@.skip(pos as int);
    let n = bytes.len();
    if pos >= n {
        return None;
    }
    let b0 = bytes[pos];
    proof {
        assert(s[0] == b0);
        assert(s.skip(1) =~= bytes@.skip(pos as int + 1));
    }
    if b0 & 0x80 == 0 {
        return Some((b0 as u32, pos + 1));
    }
    if pos + 1 >= n {
        return None;
    }
    let b1 = bytes[pos + 1];
    proof {
        assert(s[1] == b1);
        assert(s.skip(2) =~= bytes@.skip(pos as int + 2));
    }
    if b1 & 0x80 == 0 {
        return Some(((((b0 & 0x7F) as u32) << 7u32) | (b1 as u32), pos + 2));
    }
    if pos + 2 >= n {
        return None;
    }
    let b2 = bytes[pos + 2];
    proof {
        assert(s[2] == b2);
        assert(s.skip(3) =~= bytes@.skip(pos as int + 3));
    }
    if b2 & 0x80 == 0 {
        return Some(((((b0 & 0x7F) as u32) << 14u32) | (((b1 & 0x7F) as u32) << 7u32)
            | (b2 as u32), pos + 3));
    }
    if pos + 3 >= n {
        return None;
    }
    let b3 = bytes[pos + 3];
    proof {
        assert(s[3] == b3);
        assert(s.skip(4) =~= bytes@.skip(pos as int + 4));
    }
    Some(((((b0 & 0x7F) as u32) << 22u32) | (((b1 & 0x7F) as u32) << 15u32)
        | (((b2 & 0x7F) as u32) << 8u32) | (b3 as u32), pos + 4))
}

/// Reads back an inline string, returning its bytes and the position
/// after it.
fn decode_str(bytes: &Vec<u8>, pos: usize) -> (r: Option<(Vec<u8>, usize)>)
    requires
        pos <= bytes@.len(),
    ensures
        match r {
            Some((sv, np)) => pos < np <= bytes@.len()
                && spec_decode_str(bytes@.skip(pos as int))
                    == Some((sv@, bytes@.skip(np as int))),
            None => spec_decode_str(bytes@.skip(pos as int)) is None,
        },
{
    let ghost s = bytes@.skip(pos as int);
    match decode_u29(bytes, pos) {
        None => None,
        Some((u, p2)) => {
            if u & 1 == 0 {
                return None;
            }
            let l64 = (u >> 1u32) as u64;
            let rem = (bytes.len() - p2) as u64;
            if rem < l64 {
                proof {
                    assert(bytes@.skip(p2 as int).len() < (u >> 1u32));
                }
                return None;
            }
            let l = l64 as usize;
            let nb = bytes.len();
            let mut sv: Vec<u8> = Vec::new();
            let mut i: usize = 0;
            while i < l
                invariant
                    i <= l,
                    nb == bytes@.len(),
                    p2 + l <= nb,
                    sv@ =~= bytes@.subrange(p2 as int, p2 as int + i),
                decreases l - i,
            {
                sv.push(bytes[p2 + i]);
                proof {
                    assert(sv@ =~= bytes@.subrange(p2 as int, p2 as int + i + 1));
                }
                i = i + 1;
            }
            proof {
                let r2 = bytes@.skip(p2 as int);
                assert(r2.take(l as int) =~= bytes@.subrange(p2 as int, p2 as int + l as int));
                assert(r2.skip(l as int) =~= bytes@.skip(p2 as int + l as int));
            }
            Some((sv, p2 + l))
        },
    }
}

/// Reads back one value, returning it and the position after it. The
/// fuel bounds the nesting the reader will follow.
pub fn decode(bytes: &Vec<u8>, pos: usize, fuel: u64) -> (r: Option<(AmfValue, usize)>)
    requires
        pos <= bytes@.len(),
    ensures
        match r {
            Some((v, np)) => pos < np <= bytes@.len()
                && spec_decode(bytes@.skip(pos as int), fuel as nat)
                    == Some((v.deep(), bytes@.skip(np as int))),
            None => spec_decode(bytes@.skip(pos as int), fuel as nat) is None,
        },
    decreases fuel,
{
    let ghost s = bytes@.skip(pos as int);
    let n = bytes.len();
    if fuel == 0 || pos >= n {
        return None;
    }
    let m = bytes[pos];
    proof {
        assert(s[0] == m);
        assert(s.skip(1) =~= bytes@.skip(pos as int + 1));
    }
    if m == 0x00 {
        Some((AmfValue::Undefined, pos + 1))
    } else if m == 0x01 {
        Some((AmfValue::Null, pos + 1))
    } else if m == 0x02 {
        Some((AmfValue::Boolean(false), pos + 1))
    } else if m == 0x03 {
        Some((AmfValue::Boolean(true), pos + 1))
    } else if m == 0x04 {
        match decode_u29(bytes, pos + 1) {
            None => None,
            Some((u, p2)) => {
                if u >= 0x2000_0000 {
                    None
                } else if u >= 0x1000_0000 {
                    Some((AmfValue::Integer(((u as i64) - 0x2000_0000) as i32), p2))
                } else {
                    Some((AmfValue::Integer(u as i32), p2))
                }
            },
        }
    } else if m == 0x05 {
        if n - pos - 1 < 8 {
            return None;
        }
        let c0 = bytes[pos + 1];
        let c1 = bytes[pos + 2];
        let c2 = bytes[pos + 3];
        let c3 = bytes[pos + 4];
        let c4 = bytes[pos + 5];
        let c5 = bytes[pos + 6];
        let c6 = bytes[pos + 7];
        let c7 = bytes[pos + 8];
        let d = ((c0 as u64) << 56u32) | ((c1 as u64) << 48u32) | ((c2 as u64) << 40u32)
            | ((c3 as u64) << 32u32) | ((c4 as u64) << 24u32) | ((c5 as u64) << 16u32)
            | ((c6 as u64) << 8u32) | (c7 as u64);
        proof {
            let r2 = s.skip(1);
            assert(r2[0] == c0 && r2[1] == c1 && r2[2] == c2 && r2[3] == c3 && r2[4] == c4
                && r2[5] == c5 && r2[6] == c6 && r2[7] == c7);
            assert(r2.skip(8) =~= bytes@.skip(pos as int + 9));
        }
        Some((AmfValue::Double(d), pos + 9))
    } else if m == 0x06 {
        match decode_str(bytes, pos + 1) {
            None => None,
            Some((sv, p2)) => Some((AmfValue::Str(sv), p2)),
        }
    } else if m == 0x0A {
        if n - pos - 1 < 2 {
            return None;
        }
        let t0 = bytes[pos + 1];
        let t1 = bytes[pos + 2];
        proof {
            let r2 = s.skip(1);
            assert(r2[0] == t0 && r2[1] == t1);
            assert(r2.skip(2) =~= bytes@.skip(pos as int + 3));
        }
        if t0 != 0x0B || t1 != 0x01 {
            return None;
        }
        match decode_pairs(bytes, pos + 3, fuel - 1) {
            None => None,
            Some((ps, p2)) => Some((AmfValue::Object(ps), p2)),
        }
    } else {
        None
    }
}

/// Reads back an object's members up to the empty-key terminator.
fn decode_pairs(bytes: &Vec<u8>, pos: usize, fuel: u64)
    -> (r: Option<(Vec<(Vec<u8>, AmfValue)>, usize)>)
    requires
        pos <= bytes@.len(),
    ensures
        match r {
            Some((ps, np)) => pos < np <= bytes@.len()
                && spec_decode_pairs(bytes@.skip(pos as int), fuel as nat)
                    == Some((deep_list(ps@), bytes@.skip(np as int))),
            None => spec_decode_pairs(bytes@.skip(pos as int), fuel as nat) is None,
        },
    decreases fuel,
{
    if fuel == 0 {
        return None;
    }
    match decode_str(bytes, pos) {
        None => None,
        Some((k, p2)) => {
            if k.len() == 0 {
                let ps: Vec<(Vec<u8>, AmfValue)> = Vec::new();
                proof {
                    assert(deep_list(ps@) =~= Seq::<(Seq<u8>, AmfView)>::empty());
                }
                Some((ps, p2))
            } else {
                match decode(bytes, p2, fuel - 1) {
                    None => None,
                    Some((v, p3)) => {
                        match decode_pairs(bytes, p3, fuel - 1) {
                            None => None,
                            Some((mut ps, p4)) => {
                                let ghost old_ps = ps@;
                                ps.insert(0, (k, v));
                                proof {
                                    assert(deep_list(ps@) =~= seq![(k@, v.deep())]
                                        + deep_list(old_ps)) by {
                                        assert(forall|i: int| 0 <= i < old_ps.len()
                                            ==> ps@[i + 1] == #[trigger] old_ps[i]);
                                        assert(ps@[0] == (k, v));
                                    }
                                }
                                Some((ps, p4))
                            },
                        }
                    },
                }
            }
        },
    }
}

/// Round trip of an object's member list, up to its terminator.
pub proof fn lemma_amf_pairs_roundtrip(pairs: Seq<(Seq<u8>, AmfView)>, rest: Seq<u8>,
    fuel: nat)
    requires
        spec_amf_pairs_wf(pairs),
        fuel >= spec_size_pairs(pairs),
    ensures
        spec_decode_pairs(spec_encode_pairs(pairs) + seq![0x01u8] + rest, fuel)
            == Some((pairs, rest)),
    decreases pairs, 1nat,
{
    let s = spec_encode_pairs(pairs) + seq![0x01u8] + rest;
    if pairs.len() == 0 {
        assert(s =~= seq![0x01u8] + rest);
        assert(s[0] == 0x01);
        assert(1u8 & 0x80 == 0) by (bit_vector);
        assert(spec_decode_u29(s) == Some((1u32, s.skip(1))));
        assert(1u32 & 1 == 1 && 1u32 >> 1 == 0) by (bit_vector);
        assert(s.skip(1).take(0) =~= Seq::<u8>::empty());
        assert(s.skip(1).skip(0) =~= s.skip(1));
        assert(s.skip(1) =~= rest);
        assert(pairs =~= Seq::<(Seq<u8>, AmfView)>::empty());
    } else {
        lemma_amf_pairs_roundtrip_step(pairs, rest, fuel);
    }
}

/// The nonempty case of the member-list round trip: one key and value
/// read back, then the rest by induction.
#[verifier::rlimit(100)]
#[verifier::spinoff_prover]
proof fn lemma_amf_pairs_roundtrip_step(pairs: Seq<(Seq<u8>, AmfView)>, rest: Seq<u8>,
    fuel: nat)
    requires
        spec_amf_pairs_wf(pairs),
        fuel >= spec_size_pairs(pairs),
        pairs.len() > 0,
    ensures
        spec_decode_pairs(spec_encode_pairs(pairs) + seq![0x01u8] + rest, fuel)
            == Some((pairs, rest)),
    decreases pairs, 0nat,
{
    let s = spec_encode_pairs(pairs) + seq![0x01u8] + rest;
    let k0 = pairs[0].0;
    let v0 = pairs[0].1;
    let tail = spec_encode(v0) + (spec_encode_pairs(pairs.drop_first())
        + seq![0x01u8] + rest);
    assert(s =~= spec_encode_str(k0) + tail);
    lemma_str_roundtrip(k0, tail);
    assert(tail =~= spec_encode(v0) + (spec_encode_pairs(pairs.drop_first())
        + seq![0x01u8] + rest));
    lemma_amf_roundtrip(v0, spec_encode_pairs(pairs.drop_first()) + seq![0x01u8]
        + rest, (fuel - 1) as nat);
    lemma_amf_pairs_roundtrip(pairs.drop_first(), rest, (fuel - 1) as nat);
    assert(seq![(k0, v0)] + pairs.drop_first() =~= pairs);
}

} // verus!
