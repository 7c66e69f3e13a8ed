//! Wire codec for argument and return values.
//!
//! The dispatcher moves typed values across a byte-oriented wire.  Each
//! value encodes deterministically: fixed-width integers as little-endian
//! bytes, `bool` as one byte (`0` or `1`), addresses and fixed-size byte
//! arrays as their raw bytes, dynamically sized bytes, strings and arrays
//! with a 4-byte little-endian length prefix, and fixed-size arrays and
//! tuples as the plain concatenation of their elements.  Decoding is
//! strict: it either consumes exactly an encoding and yields the encoded
//! value, or fails; partial decodes are never accepted.

use vstd::prelude::*;
use crate::ty::{spec_valid_ty, spec_valid_ty_list, spec_address_len, IntWidth, TypeDescriptor};

verus! {

/// `256^n`, the number of values `n` bytes can hold.
pub open spec fn pow256(n: nat) -> nat
    decreases n,
{
    if n == 0 {
        1
    } else {
        256 * pow256((n - 1) as nat)
    }
}

/// `256^n` is positive and grows with `n`.
pub proof fn lemma_pow256_pos(n: nat)
    ensures
        pow256(n) >= 1,
    decreases n,
{
    if n > 0 {
        lemma_pow256_pos((n - 1) as nat);
    }
}

/// `256^n` for `n <= 16` fits the arithmetic below: `pow256(16) == 2^128`.
pub proof fn lemma_pow256_16()
    ensures
        pow256(16) == 0x1_0000_0000_0000_0000_0000_0000_0000_0000,
{
    assert(pow256(16) == 0x1_0000_0000_0000_0000_0000_0000_0000_0000) by {
        reveal_with_fuel(pow256, 17);
    };
}

/// `m <= n` implies `256^m <= 256^n`.
pub proof fn lemma_pow256_monotone(m: nat, n: nat)
    requires
        m <= n,
    ensures
        pow256(m) <= pow256(n),
    decreases n,
{
    if m < n {
        lemma_pow256_monotone(m, (n - 1) as nat);
        lemma_pow256_pos((n - 1) as nat);
    }
}

/// The little-endian rendering of `x` in `len` bytes (low byte first).
pub open spec fn spec_le_bytes(x: nat, len: nat) -> Seq<u8>
    decreases len,
{
    if len == 0 {
        Seq::empty()
    } else {
        seq![(x % 256) as u8] + spec_le_bytes(x / 256, (len - 1) as nat)
    }
}

/// The value of a little-endian byte sequence (low byte first).
pub open spec fn spec_le_val(s: Seq<u8>) -> nat
    decreases s,
{
    if s.len() == 0 {
        0
    } else {
        (s[0] + 256 * spec_le_val(s.drop_first())) as nat
    }
}

/// A little-endian rendering has exactly the requested length.
pub proof fn lemma_le_bytes_len(x: nat, len: nat)
    ensures
        spec_le_bytes(x, len).len() == len,
    decreases len,
{
    if len > 0 {
        lemma_le_bytes_len(x / 256, (len - 1) as nat);
    }
}

/// Reading back a rendering of `x < 256^len` yields `x`.
pub proof fn lemma_le_roundtrip(x: nat, len: nat)
    requires
        x < pow256(len),
    ensures
        spec_le_val(spec_le_bytes(x, len)) == x,
    decreases len,
{
    if len > 0 {
        let s = spec_le_bytes(x, len);
        assert(s.drop_first() =~= spec_le_bytes(x / 256, (len - 1) as nat));
        lemma_le_roundtrip(x / 256, (len - 1) as nat);
    }
}

/// The value of `len` bytes is below `256^len`.
pub proof fn lemma_le_val_bound(s: Seq<u8>)
    ensures
        spec_le_val(s) < pow256(s.len()),
    decreases s,
{
    if s.len() == 0 {
    } else {
        lemma_le_val_bound(s.drop_first());
    }
}

/// Rendering the value of a byte sequence reproduces the sequence.
pub proof fn lemma_le_bytes_of_val(s: Seq<u8>)
    ensures
        spec_le_bytes(spec_le_val(s), s.len()) == s,
    decreases s,
{
    if s.len() == 0 {
        assert(spec_le_bytes(spec_le_val(s), 0) =~= s);
    } else {
        let x = spec_le_val(s);
        lemma_le_bytes_of_val(s.drop_first());
        assert(x == s[0] + 256 * spec_le_val(s.drop_first()));
        assert(x % 256 == s[0] && x / 256 == spec_le_val(s.drop_first())) by {
            vstd::arithmetic::div_mod::lemma_fundamental_div_mod_converse(
                x as int,
                256,
                spec_le_val(s.drop_first()) as int,
                s[0] as int,
            );
        };
        assert(spec_le_bytes(x, s.len()) =~= s);
    }
}

/// Read the little-endian value of `s[pos..pos + len]`, `len <= 16`.
pub fn read_le(s: &Vec<u8>, pos: usize, len: usize) -> (r: u128)
    requires
        len <= 16,
        pos + len <= s@.len(),
    ensures
        r == spec_le_val(s@.subrange(pos as int, pos as int + len as int)),
{
    let mut acc: u128 = 0;
    let mut k: usize = len;
    let slen: usize = s.len();
    proof {
        assert(s@.subrange(pos as int + len as int, pos as int + len as int)
            =~= Seq::<u8>::empty());
    }
    while k > 0
        invariant
            k <= len <= 16,
            pos + len <= slen,
            slen == s@.len(),
            acc == spec_le_val(s@.subrange(pos as int + k as int, pos as int + len as int)),
            acc < pow256((len - k) as nat),
        decreases k,
    {
        let ghost old_acc = acc;
        let ghost tail = s@.subrange(pos as int + k as int, pos as int + len as int);
        proof {
            lemma_pow256_monotone((len - k) as nat, 15);
            lemma_pow256_16();
            assert(pow256(15) * 256 == pow256(16));
        }
        let b = s[pos + k - 1];
        proof {
            assert(old_acc <= pow256(15) - 1);
            assert(old_acc * 256 <= (pow256(15) - 1) * 256) by (nonlinear_arith)
                requires
                    old_acc <= pow256(15) - 1,
            ;
        }
        acc = acc * 256 + (b as u128);
        k = k - 1;
        proof {
            let next = s@.subrange(pos as int + k as int, pos as int + len as int);
            assert(next[0] == s@[pos as int + k as int]);
            assert(next.drop_first() =~= tail);
            assert(acc == next[0] + 256 * spec_le_val(next.drop_first()));
            assert(acc < pow256((len - k) as nat)) by {
                assert(pow256((len - k) as nat) == 256 * pow256((len - k - 1) as nat));
                assert(old_acc * 256 + 256 <= pow256((len - k - 1) as nat) * 256) by (
                nonlinear_arith)
                    requires
                        old_acc < pow256((len - k - 1) as nat),
                ;
            };
        }
    }
    acc
}

/// Append the little-endian rendering of `x` in `len` bytes, `len <= 16`.
pub fn write_le(out: &mut Vec<u8>, x: u128, len: usize)
    requires
        len <= 16,
        x < pow256(len as nat),
    ensures
        final(out)@ == old(out)@ + spec_le_bytes(x as nat, len as nat),
{
    let mut rest: u128 = x;
    let mut k: usize = 0;
    while k < len
        invariant
            k <= len <= 16,
            out@ + spec_le_bytes(rest as nat, (len - k) as nat) == old(out)@ + spec_le_bytes(
                x as nat,
                len as nat,
            ),
        decreases len - k,
    {
        let ghost before = out@;
        let ghost old_rest = rest;
        out.push((rest % 256) as u8);
        rest = rest / 256;
        k = k + 1;
        proof {
            assert(spec_le_bytes(old_rest as nat, (len - k + 1) as nat) == seq![
                (old_rest % 256) as u8,
            ] + spec_le_bytes(old_rest as nat / 256, (len - k) as nat));
            assert(out@ + spec_le_bytes(rest as nat, (len - k) as nat) =~= before + spec_le_bytes(
                old_rest as nat,
                (len - k + 1) as nat,
            ));
        }
    }
    proof {
        assert(out@ + spec_le_bytes(rest as nat, 0) =~= out@);
    }
}

/// Mathematical model of a wire value.  Mirrors [`Value`], with sequences
/// in place of vectors; contracts speak of this model.
pub ghost enum ValS {
    /// Unsigned fixed-width integer.
    Uint(IntWidth, nat),
    /// Signed fixed-width integer, carried as its two's-complement bit
    /// pattern; see [`spec_int_value`] for the signed reading.
    Int(IntWidth, nat),
    /// Boolean.
    Bool(bool),
    /// 20-byte address.
    Address(Seq<u8>),
    /// Fixed-size byte array.
    FixedBytes(Seq<u8>),
    /// Dynamically sized byte sequence.
    Bytes(Seq<u8>),
    /// UTF-8 string, as its byte sequence.
    Str(Seq<u8>),
    /// Dynamically sized array.
    Array(Seq<ValS>),
    /// Fixed-size array.
    FixedArray(Seq<ValS>),
    /// Tuple.
    Tuple(Seq<ValS>),
}

/// A typed value moved across the wire; [`ValS`] is its model.
#[derive(PartialEq, Eq, Debug)]
pub enum Value {
    /// Unsigned fixed-width integer.
    Uint(IntWidth, u128),
    /// Signed fixed-width integer, carried as its two's-complement bit
    /// pattern; see [`make_int`].
    Int(IntWidth, u128),
    /// Boolean.
    Bool(bool),
    /// 20-byte address.
    Address(Vec<u8>),
    /// Fixed-size byte array.
    FixedBytes(Vec<u8>),
    /// Dynamically sized byte sequence.
    Bytes(Vec<u8>),
    /// UTF-8 string, as its byte sequence.
    Str(Vec<u8>),
    /// Dynamically sized array.
    Array(Vec<Value>),
    /// Fixed-size array.
    FixedArray(Vec<Value>),
    /// Tuple.
    Tuple(Vec<Value>),
}

/// The model of a value.
pub open spec fn val_view(v: Value) -> ValS
    decreases v,
{
    match v {
        Value::Uint(w, x) => ValS::Uint(w, x as nat),
        Value::Int(w, x) => ValS::Int(w, x as nat),
        Value::Bool(b) => ValS::Bool(b),
        Value::Address(bs) => ValS::Address(bs@),
        Value::FixedBytes(bs) => ValS::FixedBytes(bs@),
        Value::Bytes(bs) => ValS::Bytes(bs@),
        Value::Str(bs) => ValS::Str(bs@),
        Value::Array(vs) => ValS::Array(val_view_list(vs@)),
        Value::FixedArray(vs) => ValS::FixedArray(val_view_list(vs@)),
        Value::Tuple(vs) => ValS::Tuple(val_view_list(vs@)),
    }
}

/// The models of a value sequence, element by element.
pub open spec fn val_view_list(vs: Seq<Value>) -> Seq<ValS>
    decreases vs,
{
    if vs.len() == 0 {
        Seq::empty()
    } else {
        seq![val_view(vs[0])] + val_view_list(vs.drop_first())
    }
}

/// `val_view_list` maps element by element.
pub proof fn lemma_val_view_list(vs: Seq<Value>)
    ensures
        val_view_list(vs).len() == vs.len(),
        forall|i: int| 0 <= i < vs.len() ==> val_view_list(vs)[i] == val_view(vs[i]),
    decreases vs,
{
    if vs.len() > 0 {
        lemma_val_view_list(vs.drop_first());
    }
}

/// The signed reading of a two's-complement bit pattern of `w` bytes.
pub open spec fn spec_int_value(w: IntWidth, pattern: nat) -> int {
    if pattern < pow256(w.spec_byte_len()) / 2 {
        pattern as int
    } else {
        pattern - pow256(w.spec_byte_len())
    }
}

/// `v` is a well-formed value of the type `t` describes: integers fit
/// their width, addresses have 20 bytes, fixed-size byte arrays and
/// fixed-size arrays their declared size, dynamic sizes fit the 4-byte
/// length prefix, and every element fits its element type.
pub open spec fn spec_has_type(v: ValS, t: TypeDescriptor) -> bool
    decreases v,
{
    match (v, t) {
        (ValS::Uint(w, x), TypeDescriptor::Uint(wt)) => w == wt && x < pow256(w.spec_byte_len()),
        (ValS::Int(w, x), TypeDescriptor::Int(wt)) => w == wt && x < pow256(w.spec_byte_len()),
        (ValS::Bool(_), TypeDescriptor::Bool) => true,
        (ValS::Address(bs), TypeDescriptor::Address) => bs.len() == spec_address_len(),
        (ValS::FixedBytes(bs), TypeDescriptor::FixedBytes(n)) => bs.len() == n,
        (ValS::Bytes(bs), TypeDescriptor::Bytes) => bs.len() < pow256(4),
        (ValS::Str(bs), TypeDescriptor::Str) => bs.len() < pow256(4),
        (ValS::Array(vs), TypeDescriptor::DynArray(inner)) => vs.len() < pow256(4)
            && spec_has_type_elems(vs, *inner),
        (ValS::FixedArray(vs), TypeDescriptor::FixedArray(inner, n)) => vs.len() == n
            && spec_has_type_elems(vs, *inner),
        (ValS::Tuple(vs), TypeDescriptor::Tuple(elems)) => spec_has_type_list(vs, elems@),
        _ => false,
    }
}

/// Every element of `vs` has the type `t` describes.
pub open spec fn spec_has_type_elems(vs: Seq<ValS>, t: TypeDescriptor) -> bool
    decreases vs,
{
    if vs.len() == 0 {
        true
    } else {
        spec_has_type(vs[0], t) && spec_has_type_elems(vs.drop_first(), t)
    }
}

/// The values of `vs` have, in order, the types of `ts`.
pub open spec fn spec_has_type_list(vs: Seq<ValS>, ts: Seq<TypeDescriptor>) -> bool
    decreases vs,
{
    if vs.len() != ts.len() {
        false
    } else if vs.len() == 0 {
        true
    } else {
        spec_has_type(vs[0], ts[0]) && spec_has_type_list(vs.drop_first(), ts.drop_first())
    }
}

/// The wire encoding of a value.
pub open spec fn spec_encode(v: ValS) -> Seq<u8>
    decreases v,
{
    match v {
        ValS::Uint(w, x) => spec_le_bytes(x, w.spec_byte_len()),
        ValS::Int(w, x) => spec_le_bytes(x, w.spec_byte_len()),
        ValS::Bool(b) => seq![if b { 1u8 } else { 0u8 }],
        ValS::Address(bs) => bs,
        ValS::FixedBytes(bs) => bs,
        ValS::Bytes(bs) => spec_le_bytes(bs.len(), 4) + bs,
        ValS::Str(bs) => spec_le_bytes(bs.len(), 4) + bs,
        ValS::Array(vs) => spec_le_bytes(vs.len(), 4) + spec_encode_elems(vs),
        ValS::FixedArray(vs) => spec_encode_elems(vs),
        ValS::Tuple(vs) => spec_encode_elems(vs),
    }
}

/// The concatenated encodings of a value sequence.
pub open spec fn spec_encode_elems(vs: Seq<ValS>) -> Seq<u8>
    decreases vs,
{
    if vs.len() == 0 {
        Seq::empty()
    } else {
        spec_encode(vs[0]) + spec_encode_elems(vs.drop_first())
    }
}

/// Build a signed integer value from its sign and magnitude; `None` when
/// the magnitude does not fit the width.  A non-negative value `m` is
/// represented as `m`; a negative one as `256^len - m`.
pub fn make_int(w: IntWidth, negative: bool, magnitude: u128) -> (r: Option<Value>)
    ensures
        match r {
            Some(v) => {
                &&& v is Int
                &&& spec_has_type(val_view(v), TypeDescriptor::Int(w))
                &&& spec_int_value(w, val_view(v)->Int_1) == if negative {
                    -(magnitude as int)
                } else {
                    magnitude as int
                }
            },
            None => {
                ||| (!negative && 2 * magnitude >= pow256(w.spec_byte_len()))
                ||| (negative && (magnitude == 0 || 2 * magnitude > pow256(w.spec_byte_len())))
            },
        },
{
    proof {
        lemma_pow256_16();
        lemma_pow256_monotone(w.spec_byte_len(), 16);
    }
    let len = w.byte_len();
    let half: u128 = half_pow256(len);
    proof {
        assert(2 * (half as nat) == pow256(len as nat));
    }
    if !negative {
        if magnitude < half {
            Some(Value::Int(w, magnitude))
        } else {
            None
        }
    } else {
        if magnitude == 0 || magnitude > half {
            None
        } else {
            let pattern = (half - magnitude) + half;
            Some(Value::Int(w, pattern))
        }
    }
}

/// `256^len / 2` for `len <= 16`, as a machine word.
fn half_pow256(len: usize) -> (r: u128)
    requires
        1 <= len <= 16,
    ensures
        r as nat == pow256(len as nat) / 2,
        2 * (r as nat) == pow256(len as nat),
{
    proof {
        reveal_with_fuel(pow256, 17);
    }
    if len == 1 {
        0x80
    } else if len == 2 {
        0x8000
    } else if len == 4 {
        0x8000_0000
    } else if len == 8 {
        0x8000_0000_0000_0000
    } else if len == 16 {
        0x8000_0000_0000_0000_0000_0000_0000_0000
    } else if len == 3 {
        0x80_0000
    } else if len == 5 {
        0x80_0000_0000
    } else if len == 6 {
        0x8000_0000_0000
    } else if len == 7 {
        0x80_0000_0000_0000
    } else if len == 9 {
        0x80_0000_0000_0000_0000
    } else if len == 10 {
        0x8000_0000_0000_0000_0000
    } else if len == 11 {
        0x80_0000_0000_0000_0000_0000
    } else if len == 12 {
        0x8000_0000_0000_0000_0000_0000
    } else if len == 13 {
        0x80_0000_0000_0000_0000_0000_0000
    } else if len == 14 {
        0x8000_0000_0000_0000_0000_0000_0000
    } else {
        0x80_0000_0000_0000_0000_0000_0000_0000
    }
}

/// A value is internally well formed: integers fit their width and every
/// dynamically sized part fits the 4-byte length prefix.  Any value that
/// has some type is well formed; see [`lemma_has_type_wf`].
pub open spec fn spec_val_wf(v: ValS) -> bool
    decreases v,
{
    match v {
        ValS::Uint(w, x) => x < pow256(w.spec_byte_len()),
        ValS::Int(w, x) => x < pow256(w.spec_byte_len()),
        ValS::Bool(_) => true,
        ValS::Address(_) => true,
        ValS::FixedBytes(_) => true,
        ValS::Bytes(bs) => bs.len() < pow256(4),
        ValS::Str(bs) => bs.len() < pow256(4),
        ValS::Array(vs) => vs.len() < pow256(4) && spec_val_wf_elems(vs),
        ValS::FixedArray(vs) => spec_val_wf_elems(vs),
        ValS::Tuple(vs) => spec_val_wf_elems(vs),
    }
}

/// Every element of the sequence is well formed.
pub open spec fn spec_val_wf_elems(vs: Seq<ValS>) -> bool
    decreases vs,
{
    if vs.len() == 0 {
        true
    } else {
        spec_val_wf(vs[0]) && spec_val_wf_elems(vs.drop_first())
    }
}

/// A value of some type is well formed.
pub proof fn lemma_has_type_wf(v: ValS, t: TypeDescriptor)
    requires
        spec_has_type(v, t),
    ensures
        spec_val_wf(v),
    decreases v,
{
    match v {
        ValS::Array(vs) => {
            let inner = t->DynArray_0;
            lemma_has_type_elems_wf(vs, *inner);
        },
        ValS::FixedArray(vs) => {
            let inner = t->FixedArray_0;
            lemma_has_type_elems_wf(vs, *inner);
        },
        ValS::Tuple(vs) => {
            let elems = t->Tuple_0;
            lemma_has_type_list_wf(vs, elems@);
        },
        _ => {},
    }
}

/// Elements that all have one type are well formed.
proof fn lemma_has_type_elems_wf(vs: Seq<ValS>, t: TypeDescriptor)
    requires
        spec_has_type_elems(vs, t),
    ensures
        spec_val_wf_elems(vs),
    decreases vs,
{
    if vs.len() > 0 {
        lemma_has_type_wf(vs[0], t);
        lemma_has_type_elems_wf(vs.drop_first(), t);
    }
}

/// Values typed against a descriptor list are well formed.
pub proof fn lemma_has_type_list_wf(vs: Seq<ValS>, ts: Seq<TypeDescriptor>)
    requires
        spec_has_type_list(vs, ts),
    ensures
        spec_val_wf_elems(vs),
    decreases vs,
{
    if vs.len() > 0 {
        lemma_has_type_wf(vs[0], ts[0]);
        lemma_has_type_list_wf(vs.drop_first(), ts.drop_first());
    }
}

/// The concatenated encodings of `s1 ++ s2` split at the boundary.
pub proof fn lemma_encode_elems_concat(s1: Seq<ValS>, s2: Seq<ValS>)
    ensures
        spec_encode_elems(s1 + s2) == spec_encode_elems(s1) + spec_encode_elems(s2),
    decreases s1,
{
    if s1.len() == 0 {
        assert(s1 + s2 =~= s2);
        assert(spec_encode_elems(s1) + spec_encode_elems(s2) =~= spec_encode_elems(s2));
    } else {
        let s = s1 + s2;
        assert(s.len() > 0 && s[0] == s1[0]);
        assert(s.drop_first() =~= s1.drop_first() + s2);
        lemma_encode_elems_concat(s1.drop_first(), s2);
        assert(spec_encode_elems(s1) + spec_encode_elems(s2) =~= spec_encode(s1[0])
            + (spec_encode_elems(s1.drop_first()) + spec_encode_elems(s2)));
    }
}

/// Append a copy of `bs` to `out`.
fn push_bytes(out: &mut Vec<u8>, bs: &Vec<u8>)
    ensures
        final(out)@ == old(out)@ + bs@,
{
    let mut i: usize = 0;
    while i < bs.len()
        invariant
            0 <= i <= bs@.len(),
            out@ == old(out)@ + bs@.subrange(0, i as int),
        decreases bs@.len() - i,
    {
        out.push(bs[i]);
        proof {
            assert(old(out)@ + bs@.subrange(0, i as int + 1) =~= (old(out)@ + bs@.subrange(
                0,
                i as int,
            )).push(bs@[i as int]));
        }
        i = i + 1;
    }
    proof {
        assert(bs@.subrange(0, bs@.len() as int) =~= bs@);
        assert(out@ =~= old(out)@ + bs@);
    }
}

/// Append the wire encoding of `v` to `out`; see [`spec_encode`].
pub fn encode_value(v: &Value, out: &mut Vec<u8>)
    requires
        spec_val_wf(val_view(*v)),
    ensures
        final(out)@ == old(out)@ + spec_encode(val_view(*v)),
    decreases *v,
{
    match v {
        Value::Uint(w, x) => {
            write_le(out, *x, w.byte_len());
        },
        Value::Int(w, x) => {
            write_le(out, *x, w.byte_len());
        },
        Value::Bool(b) => {
            out.push(if *b { 1 } else { 0 });
            proof {
                assert(old(out)@.push(if *b { 1u8 } else { 0u8 }) =~= old(out)@ + seq![
                    if *b { 1u8 } else { 0u8 },
                ]);
            }
        },
        Value::Address(bs) => {
            push_bytes(out, bs);
        },
        Value::FixedBytes(bs) => {
            push_bytes(out, bs);
        },
        Value::Bytes(bs) => {
            write_le(out, bs.len() as u128, 4);
            push_bytes(out, bs);
        },
        Value::Str(bs) => {
            write_le(out, bs.len() as u128, 4);
            push_bytes(out, bs);
        },
        Value::Array(vs) => {
            proof {
                lemma_val_view_list(vs@);
            }
            write_le(out, vs.len() as u128, 4);
            encode_elems(vs, out);
        },
        Value::FixedArray(vs) => {
            encode_elems(vs, out);
        },
        Value::Tuple(vs) => {
            encode_elems(vs, out);
        },
    }
}

/// Append the concatenated encodings of `vs` to `out`.
fn encode_elems(vs: &Vec<Value>, out: &mut Vec<u8>)
    requires
        spec_val_wf_elems(val_view_list(vs@)),
    ensures
        final(out)@ == old(out)@ + spec_encode_elems(val_view_list(vs@)),
    decreases vs@,
{
    let ghost views = val_view_list(vs@);
    proof {
        lemma_val_view_list(vs@);
    }
    let mut i: usize = 0;
    proof {
        assert(views.subrange(0, 0) =~= Seq::<ValS>::empty());
        assert(out@ + spec_encode_elems(views.subrange(0, 0)) =~= out@);
    }
    while i < vs.len()
        invariant
            0 <= i <= vs@.len(),
            views == val_view_list(vs@),
            views.len() == vs@.len(),
            forall|j: int| 0 <= j < vs@.len() ==> views[j] == val_view(vs@[j]),
            spec_val_wf_elems(views),
            out@ == old(out)@ + spec_encode_elems(views.subrange(0, i as int)),
        decreases vs@.len() - i,
    {
        proof {
            lemma_wf_elems_index(views, i as int);
        }
        encode_value(&vs[i], out);
        proof {
            assert(views.subrange(0, i as int + 1) =~= views.subrange(0, i as int) + seq![
                views[i as int],
            ]);
            lemma_encode_elems_concat(views.subrange(0, i as int), seq![views[i as int]]);
            let single = seq![views[i as int]];
            assert(single.drop_first() =~= Seq::<ValS>::empty());
            assert(spec_encode_elems(single.drop_first()) =~= Seq::<u8>::empty());
            assert(single[0] == views[i as int]);
            assert(spec_encode_elems(single) =~= spec_encode(views[i as int]));
            assert(out@ =~= old(out)@ + spec_encode_elems(views.subrange(0, i as int + 1)));
        }
        i = i + 1;
    }
    proof {
        assert(views.subrange(0, views.len() as int) =~= views);
    }
}

/// Each element of a well-formed sequence is well formed.
proof fn lemma_wf_elems_index(vs: Seq<ValS>, i: int)
    requires
        spec_val_wf_elems(vs),
        0 <= i < vs.len(),
    ensures
        spec_val_wf(vs[i]),
    decreases vs,
{
    if i > 0 {
        lemma_wf_elems_index(vs.drop_first(), i - 1);
    }
}

/// Decode one value of the type `t` describes, starting at position `i` of
/// `s`.  Yields the value and the position just past its encoding, or
/// nothing when the bytes do not hold one.
pub open spec fn spec_decode(t: TypeDescriptor, s: Seq<u8>, i: nat) -> Option<(ValS, nat)>
    decreases t, 0nat,
{
    match t {
        TypeDescriptor::Uint(w) => {
            let len = w.spec_byte_len();
            if i + len <= s.len() {
                Some(
                    (
                        ValS::Uint(w, spec_le_val(s.subrange(i as int, i as int + len as int))),
                        i + len,
                    ),
                )
            } else {
                None
            }
        },
        TypeDescriptor::Int(w) => {
            let len = w.spec_byte_len();
            if i + len <= s.len() {
                Some(
                    (
                        ValS::Int(w, spec_le_val(s.subrange(i as int, i as int + len as int))),
                        i + len,
                    ),
                )
            } else {
                None
            }
        },
        TypeDescriptor::Bool => {
            if i + 1 <= s.len() {
                if s[i as int] == 0 {
                    Some((ValS::Bool(false), i + 1))
                } else if s[i as int] == 1 {
                    Some((ValS::Bool(true), i + 1))
                } else {
                    None
                }
            } else {
                None
            }
        },
        TypeDescriptor::Address => {
            if i + spec_address_len() <= s.len() {
                Some(
                    (
                        ValS::Address(
                            s.subrange(i as int, i as int + spec_address_len() as int),
                        ),
                        i + spec_address_len(),
                    ),
                )
            } else {
                None
            }
        },
        TypeDescriptor::FixedBytes(n) => {
            if i + n <= s.len() {
                Some((ValS::FixedBytes(s.subrange(i as int, i as int + n as int)), (i + n) as nat))
            } else {
                None
            }
        },
        TypeDescriptor::Bytes => {
            if i + 4 <= s.len() {
                let n = spec_le_val(s.subrange(i as int, i as int + 4));
                if i + 4 + n <= s.len() {
                    Some(
                        (
                            ValS::Bytes(s.subrange(i as int + 4, i as int + 4 + n as int)),
                            i + 4 + n,
                        ),
                    )
                } else {
                    None
                }
            } else {
                None
            }
        },
        TypeDescriptor::Str => {
            if i + 4 <= s.len() {
                let n = spec_le_val(s.subrange(i as int, i as int + 4));
                if i + 4 + n <= s.len() {
                    Some(
                        (
                            ValS::Str(s.subrange(i as int + 4, i as int + 4 + n as int)),
                            i + 4 + n,
                        ),
                    )
                } else {
                    None
                }
            } else {
                None
            }
        },
        TypeDescriptor::DynArray(inner) => {
            if i + 4 <= s.len() {
                let n = spec_le_val(s.subrange(i as int, i as int + 4));
                match spec_decode_n(*inner, s, i + 4, n) {
                    Some((vs, j)) => Some((ValS::Array(vs), j)),
                    None => None,
                }
            } else {
                None
            }
        },
        TypeDescriptor::FixedArray(inner, n) => {
            match spec_decode_n(*inner, s, i, n as nat) {
                Some((vs, j)) => Some((ValS::FixedArray(vs), j)),
                None => None,
            }
        },
        TypeDescriptor::Tuple(elems) => {
            match spec_decode_list(elems@, s, i) {
                Some((vs, j)) => Some((ValS::Tuple(vs), j)),
                None => None,
            }
        },
    }
}

/// Decode `n` consecutive values of one type, starting at position `i`.
pub open spec fn spec_decode_n(t: TypeDescriptor, s: Seq<u8>, i: nat, n: nat) -> Option<
    (Seq<ValS>, nat),
>
    decreases t, n,
{
    if n == 0 {
        Some((Seq::empty(), i))
    } else {
        match spec_decode(t, s, i) {
            Some((v, j)) => match spec_decode_n(t, s, j, (n - 1) as nat) {
                Some((vs, k)) => Some((seq![v] + vs, k)),
                None => None,
            },
            None => None,
        }
    }
}

/// Decode consecutive values of the types of `ts`, starting at position
/// `i`.
pub open spec fn spec_decode_list(ts: Seq<TypeDescriptor>, s: Seq<u8>, i: nat) -> Option<
    (Seq<ValS>, nat),
>
    decreases ts, 0nat,
{
    if ts.len() == 0 {
        Some((Seq::empty(), i))
    } else {
        match spec_decode(ts[0], s, i) {
            Some((v, j)) => match spec_decode_list(ts.drop_first(), s, j) {
                Some((vs, k)) => Some((seq![v] + vs, k)),
                None => None,
            },
            None => None,
        }
    }
}

/// A successful decode of a valid type consumes at least one byte and ends
/// inside the buffer.
pub proof fn lemma_decode_consumes(t: TypeDescriptor, s: Seq<u8>, i: nat)
    requires
        spec_valid_ty(t),
        spec_decode(t, s, i) is Some,
    ensures
        i < spec_decode(t, s, i)->Some_0.1 <= s.len(),
    decreases t, 0nat,
{
    match t {
        TypeDescriptor::DynArray(inner) => {
            let n = spec_le_val(s.subrange(i as int, i as int + 4));
            lemma_decode_n_consumes(*inner, s, (i + 4) as nat, n);
        },
        TypeDescriptor::FixedArray(inner, n) => {
            lemma_decode_n_consumes(*inner, s, i, n as nat);
        },
        TypeDescriptor::Tuple(elems) => {
            lemma_decode_list_consumes(elems@, s, i);
        },
        _ => {},
    }
}

/// Decoding `n` values of a valid type consumes at least `n` bytes.
pub proof fn lemma_decode_n_consumes(t: TypeDescriptor, s: Seq<u8>, i: nat, n: nat)
    requires
        spec_valid_ty(t),
        spec_decode_n(t, s, i, n) is Some,
    ensures
        i <= spec_decode_n(t, s, i, n)->Some_0.1 <= s.len() || n == 0,
        i + n <= spec_decode_n(t, s, i, n)->Some_0.1,
        n == 0 ==> spec_decode_n(t, s, i, n)->Some_0.1 == i,
    decreases t, n,
{
    if n > 0 {
        let (v, j) = spec_decode(t, s, i)->Some_0;
        lemma_decode_consumes(t, s, i);
        lemma_decode_n_consumes(t, s, j, (n - 1) as nat);
    }
}

/// Decoding against a valid descriptor list ends inside the buffer and,
/// when the list is nonempty, consumes at least one byte per descriptor.
pub proof fn lemma_decode_list_consumes(ts: Seq<TypeDescriptor>, s: Seq<u8>, i: nat)
    requires
        spec_valid_ty_list(ts),
        spec_decode_list(ts, s, i) is Some,
    ensures
        i + ts.len() <= spec_decode_list(ts, s, i)->Some_0.1,
        ts.len() == 0 ==> spec_decode_list(ts, s, i)->Some_0.1 == i,
        ts.len() > 0 ==> spec_decode_list(ts, s, i)->Some_0.1 <= s.len(),
    decreases ts,
{
    if ts.len() > 0 {
        let (v, j) = spec_decode(ts[0], s, i)->Some_0;
        lemma_decode_consumes(ts[0], s, i);
        lemma_decode_list_consumes(ts.drop_first(), s, j);
    }
}

/// More values were asked for than bytes remain: decoding fails.
pub proof fn lemma_decode_n_insufficient(t: TypeDescriptor, s: Seq<u8>, i: nat, n: nat)
    requires
        spec_valid_ty(t),
        i + n > s.len(),
        n >= 1,
    ensures
        spec_decode_n(t, s, i, n) is None,
{
    if spec_decode_n(t, s, i, n) is Some {
        lemma_decode_n_consumes(t, s, i, n);
    }
}

/// Copy `s[a..b]` into a fresh vector.
fn copy_range(s: &Vec<u8>, a: usize, b: usize) -> (r: Vec<u8>)
    requires
        a <= b <= s@.len(),
    ensures
        r@ == s@.subrange(a as int, b as int),
{
    let mut r: Vec<u8> = Vec::new();
    let mut i: usize = a;
    while i < b
        invariant
            a <= i <= b <= s@.len(),
            r@ == s@.subrange(a as int, i as int),
        decreases b - i,
    {
        r.push(s[i]);
        proof {
            assert(s@.subrange(a as int, i as int + 1) =~= s@.subrange(a as int, i as int).push(
                s@[i as int],
            ));
        }
        i = i + 1;
    }
    r
}

/// Decode one value of the type `t` describes from `s` at `pos`; see
/// [`spec_decode`].
pub fn decode_value(t: &TypeDescriptor, s: &Vec<u8>, pos: usize) -> (r: Option<(Value, usize)>)
    requires
        spec_valid_ty(*t),
        pos <= s@.len(),
    ensures
        match r {
            Some(p) => {
                &&& spec_decode(*t, s@, pos as nat) == Some((val_view(p.0), p.1 as nat))
                &&& pos < p.1 <= s@.len()
            },
            None => spec_decode(*t, s@, pos as nat) is None,
        },
    decreases *t, 0nat,
{
    match t {
        TypeDescriptor::Uint(w) => {
            let len = w.byte_len();
            if s.len() - pos >= len {
                let x = read_le(s, pos, len);
                Some((Value::Uint(*w, x), pos + len))
            } else {
                None
            }
        },
        TypeDescriptor::Int(w) => {
            let len = w.byte_len();
            if s.len() - pos >= len {
                let x = read_le(s, pos, len);
                Some((Value::Int(*w, x), pos + len))
            } else {
                None
            }
        },
        TypeDescriptor::Bool => {
            if pos < s.len() {
                let b = s[pos];
                if b == 0 {
                    Some((Value::Bool(false), pos + 1))
                } else if b == 1 {
                    Some((Value::Bool(true), pos + 1))
                } else {
                    None
                }
            } else {
                None
            }
        },
        TypeDescriptor::Address => {
            if s.len() - pos >= 20 {
                let bs = copy_range(s, pos, pos + 20);
                Some((Value::Address(bs), pos + 20))
            } else {
                None
            }
        },
        TypeDescriptor::FixedBytes(n) => {
            if *n <= s.len() && s.len() - pos >= *n {
                let bs = copy_range(s, pos, pos + *n);
                Some((Value::FixedBytes(bs), pos + *n))
            } else {
                None
            }
        },
        TypeDescriptor::Bytes => {
            if s.len() - pos >= 4 {
                let n128 = read_le(s, pos, 4);
                proof {
                    lemma_le_val_bound(s@.subrange(pos as int, pos as int + 4));
                    lemma_pow256_16();
                    lemma_pow256_monotone(4, 16);
                }
                if n128 <= (s.len() - (pos + 4)) as u128 {
                    let n = n128 as usize;
                    let bs = copy_range(s, pos + 4, pos + 4 + n);
                    Some((Value::Bytes(bs), pos + 4 + n))
                } else {
                    None
                }
            } else {
                None
            }
        },
        TypeDescriptor::Str => {
            if s.len() - pos >= 4 {
                let n128 = read_le(s, pos, 4);
                proof {
                    lemma_le_val_bound(s@.subrange(pos as int, pos as int + 4));
                    lemma_pow256_16();
                    lemma_pow256_monotone(4, 16);
                }
                if n128 <= (s.len() - (pos + 4)) as u128 {
                    let n = n128 as usize;
                    let bs = copy_range(s, pos + 4, pos + 4 + n);
                    Some((Value::Str(bs), pos + 4 + n))
                } else {
                    None
                }
            } else {
                None
            }
        },
        TypeDescriptor::DynArray(inner) => {
            if s.len() - pos >= 4 {
                let n128 = read_le(s, pos, 4);
                proof {
                    lemma_le_val_bound(s@.subrange(pos as int, pos as int + 4));
                    lemma_pow256_16();
                    lemma_pow256_monotone(4, 16);
                }
                if n128 <= (s.len() - (pos + 4)) as u128 {
                    let n = n128 as usize;
                    match decode_n_values(inner, s, pos + 4, n) {
                        Some(p) => {
                            let (vals, end) = p;
                            Some((Value::Array(vals), end))
                        },
                        None => None,
                    }
                } else {
                    proof {
                        lemma_decode_n_insufficient(
                            *(*inner),
                            s@,
                            (pos + 4) as nat,
                            n128 as nat,
                        );
                    }
                    None
                }
            } else {
                None
            }
        },
        TypeDescriptor::FixedArray(inner, n) => {
            match decode_n_values(inner, s, pos, *n) {
                Some(p) => {
                    let (vals, end) = p;
                    proof {
                        lemma_decode_n_consumes(*(*inner), s@, pos as nat, *n as nat);
                    }
                    Some((Value::FixedArray(vals), end))
                },
                None => None,
            }
        },
        TypeDescriptor::Tuple(elems) => {
            match decode_list_values(elems, s, pos) {
                Some(p) => {
                    let (vals, end) = p;
                    proof {
                        lemma_decode_list_consumes(elems@, s@, pos as nat);
                    }
                    Some((Value::Tuple(vals), end))
                },
                None => None,
            }
        },
    }
}

/// Decode `n` consecutive values of one type; see [`spec_decode_n`].
fn decode_n_values(t: &TypeDescriptor, s: &Vec<u8>, pos: usize, n: usize) -> (r: Option<
    (Vec<Value>, usize),
>)
    requires
        spec_valid_ty(*t),
        pos <= s@.len(),
    ensures
        match r {
            Some(p) => {
                &&& spec_decode_n(*t, s@, pos as nat, n as nat) == Some(
                    (val_view_list(p.0@), p.1 as nat),
                )
                &&& pos <= p.1 <= s@.len()
            },
            None => spec_decode_n(*t, s@, pos as nat, n as nat) is None,
        },
    decreases *t, n,
{
    let mut vals: Vec<Value> = Vec::new();
    let mut cur: usize = pos;
    let mut k: usize = 0;
    proof {
        match spec_decode_n(*t, s@, pos as nat, n as nat) {
            Some(p2) => {
                assert(val_view_list(vals@) + p2.0 =~= p2.0);
            },
            None => {},
        }
    }
    while k < n
        invariant
            spec_valid_ty(*t),
            0 <= k <= n,
            pos <= cur <= s@.len(),
            val_view_list(vals@).len() == k,
            spec_decode_n(*t, s@, pos as nat, n as nat) == match spec_decode_n(
                *t,
                s@,
                cur as nat,
                (n - k) as nat,
            ) {
                Some(p2) => Some((val_view_list(vals@) + p2.0, p2.1)),
                None => None::<(Seq<ValS>, nat)>,
            },
        decreases n - k,
    {
        let ghost views = val_view_list(vals@);
        match decode_value(t, s, cur) {
            Some(p) => {
                let (v, j) = p;
                proof {
                    lemma_val_view_list(vals@.push(v));
                    lemma_val_view_list(vals@);
                    assert(val_view_list(vals@.push(v)) =~= views.push(val_view(v)));
                    let rest = spec_decode_n(*t, s@, j as nat, (n - k - 1) as nat);
                    match rest {
                        Some(p2) => {
                            assert(views + (seq![val_view(v)] + p2.0) =~= views.push(val_view(v))
                                + p2.0);
                        },
                        None => {},
                    }
                }
                vals.push(v);
                cur = j;
                k = k + 1;
            },
            None => {
                return None;
            },
        }
    }
    proof {
        let views = val_view_list(vals@);
        assert(spec_decode_n(*t, s@, cur as nat, 0) == Some((Seq::<ValS>::empty(), cur as nat)));
        assert(views + Seq::<ValS>::empty() =~= views);
    }
    Some((vals, cur))
}

/// Decode consecutive values of the types of `ts`; see
/// [`spec_decode_list`].
pub fn decode_list_values(ts: &Vec<TypeDescriptor>, s: &Vec<u8>, pos: usize) -> (r: Option<
    (Vec<Value>, usize),
>)
    requires
        spec_valid_ty_list(ts@),
        pos <= s@.len(),
    ensures
        match r {
            Some(p) => {
                &&& spec_decode_list(ts@, s@, pos as nat) == Some(
                    (val_view_list(p.0@), p.1 as nat),
                )
                &&& pos <= p.1 <= s@.len()
            },
            None => spec_decode_list(ts@, s@, pos as nat) is None,
        },
    decreases ts@, 0nat,
{
    let mut vals: Vec<Value> = Vec::new();
    let mut cur: usize = pos;
    let mut k: usize = 0;
    proof {
        assert(ts@.subrange(0, ts@.len() as int) =~= ts@);
        match spec_decode_list(ts@, s@, pos as nat) {
            Some(p2) => {
                assert(val_view_list(vals@) + p2.0 =~= p2.0);
            },
            None => {},
        }
    }
    while k < ts.len()
        invariant
            spec_valid_ty_list(ts@),
            0 <= k <= ts@.len(),
            pos <= cur <= s@.len(),
            val_view_list(vals@).len() == k,
            spec_decode_list(ts@, s@, pos as nat) == match spec_decode_list(
                ts@.subrange(k as int, ts@.len() as int),
                s@,
                cur as nat,
            ) {
                Some(p2) => Some((val_view_list(vals@) + p2.0, p2.1)),
                None => None::<(Seq<ValS>, nat)>,
            },
        decreases ts@.len() - k,
    {
        let ghost views = val_view_list(vals@);
        let ghost suffix = ts@.subrange(k as int, ts@.len() as int);
        proof {
            lemma_valid_ty_list_index(ts@, k as int);
            assert(suffix[0] == ts@[k as int]);
            assert(suffix.drop_first() =~= ts@.subrange(k as int + 1, ts@.len() as int));
        }
        match decode_value(&ts[k], s, cur) {
            Some(p) => {
                let (v, j) = p;
                proof {
                    lemma_val_view_list(vals@.push(v));
                    lemma_val_view_list(vals@);
                    assert(val_view_list(vals@.push(v)) =~= views.push(val_view(v)));
                    let rest = spec_decode_list(suffix.drop_first(), s@, j as nat);
                    match rest {
                        Some(p2) => {
                            assert(views + (seq![val_view(v)] + p2.0) =~= views.push(val_view(v))
                                + p2.0);
                        },
                        None => {},
                    }
                }
                vals.push(v);
                cur = j;
                k = k + 1;
            },
            None => {
                return None;
            },
        }
    }
    proof {
        let views = val_view_list(vals@);
        assert(ts@.subrange(ts@.len() as int, ts@.len() as int) =~= Seq::<TypeDescriptor>::empty());
        assert(views + Seq::<ValS>::empty() =~= views);
    }
    Some((vals, cur))
}

/// Each descriptor of a valid list is valid.
pub proof fn lemma_valid_ty_list_index(ts: Seq<TypeDescriptor>, i: int)
    requires
        spec_valid_ty_list(ts),
        0 <= i < ts.len(),
    ensures
        spec_valid_ty(ts[i]),
    decreases ts,
{
    if i > 0 {
        lemma_valid_ty_list_index(ts.drop_first(), i - 1);
    }
}

/// Exactness: a successful decode yields a value of the requested type
/// whose encoding is exactly the bytes consumed.  No partial decode is
/// ever accepted as a success.
pub proof fn lemma_decode_exact(t: TypeDescriptor, s: Seq<u8>, i: nat)
    requires
        spec_valid_ty(t),
        i <= s.len(),
        spec_decode(t, s, i) is Some,
    ensures
        ({
            let (v, j) = spec_decode(t, s, i)->Some_0;
            &&& i <= j <= s.len()
            &&& spec_has_type(v, t)
            &&& s.subrange(i as int, j as int) == spec_encode(v)
        }),
    decreases t, 0nat,
{
    let (v, j) = spec_decode(t, s, i)->Some_0;
    match t {
        TypeDescriptor::Uint(w) => {
            let len = w.spec_byte_len();
            let sub = s.subrange(i as int, i as int + len as int);
            lemma_le_val_bound(sub);
            lemma_le_bytes_of_val(sub);
        },
        TypeDescriptor::Int(w) => {
            let len = w.spec_byte_len();
            let sub = s.subrange(i as int, i as int + len as int);
            lemma_le_val_bound(sub);
            lemma_le_bytes_of_val(sub);
        },
        TypeDescriptor::Bool => {
            let sub = s.subrange(i as int, i as int + 1);
            assert(sub =~= seq![s[i as int]]);
        },
        TypeDescriptor::Address => {},
        TypeDescriptor::FixedBytes(n) => {},
        TypeDescriptor::Bytes => {
            let pre = s.subrange(i as int, i as int + 4);
            let n = spec_le_val(pre);
            lemma_le_val_bound(pre);
            lemma_le_bytes_of_val(pre);
            assert(s.subrange(i as int, i as int + 4 + n as int) =~= pre + s.subrange(
                i as int + 4,
                i as int + 4 + n as int,
            ));
        },
        TypeDescriptor::Str => {
            let pre = s.subrange(i as int, i as int + 4);
            let n = spec_le_val(pre);
            lemma_le_val_bound(pre);
            lemma_le_bytes_of_val(pre);
            assert(s.subrange(i as int, i as int + 4 + n as int) =~= pre + s.subrange(
                i as int + 4,
                i as int + 4 + n as int,
            ));
        },
        TypeDescriptor::DynArray(inner) => {
            let pre = s.subrange(i as int, i as int + 4);
            let n = spec_le_val(pre);
            lemma_le_val_bound(pre);
            lemma_le_bytes_of_val(pre);
            lemma_decode_n_exact(*inner, s, (i + 4) as nat, n);
            assert(s.subrange(i as int, j as int) =~= pre + s.subrange(i as int + 4, j as int));
        },
        TypeDescriptor::FixedArray(inner, n) => {
            lemma_decode_n_exact(*inner, s, i, n as nat);
        },
        TypeDescriptor::Tuple(elems) => {
            lemma_decode_list_exact(elems@, s, i);
        },
    }
}

/// Exactness for `n` consecutive values of one type.
pub proof fn lemma_decode_n_exact(t: TypeDescriptor, s: Seq<u8>, i: nat, n: nat)
    requires
        spec_valid_ty(t),
        i <= s.len(),
        spec_decode_n(t, s, i, n) is Some,
    ensures
        ({
            let (vs, j) = spec_decode_n(t, s, i, n)->Some_0;
            &&& i <= j <= s.len()
            &&& vs.len() == n
            &&& spec_has_type_elems(vs, t)
            &&& s.subrange(i as int, j as int) == spec_encode_elems(vs)
        }),
    decreases t, n,
{
    let (vs, j) = spec_decode_n(t, s, i, n)->Some_0;
    if n == 0 {
        assert(s.subrange(i as int, i as int) =~= Seq::<u8>::empty());
    } else {
        let (v0, j0) = spec_decode(t, s, i)->Some_0;
        lemma_decode_exact(t, s, i);
        lemma_decode_n_exact(t, s, j0, (n - 1) as nat);
        let (rest, _jr) = spec_decode_n(t, s, j0, (n - 1) as nat)->Some_0;
        assert(vs == seq![v0] + rest);
        assert(vs[0] == v0 && vs.drop_first() =~= rest);
        assert(s.subrange(i as int, j as int) =~= s.subrange(i as int, j0 as int) + s.subrange(
            j0 as int,
            j as int,
        ));
    }
}

/// Exactness for a descriptor list.
pub proof fn lemma_decode_list_exact(ts: Seq<TypeDescriptor>, s: Seq<u8>, i: nat)
    requires
        spec_valid_ty_list(ts),
        i <= s.len(),
        spec_decode_list(ts, s, i) is Some,
    ensures
        ({
            let (vs, j) = spec_decode_list(ts, s, i)->Some_0;
            &&& i <= j <= s.len()
            &&& spec_has_type_list(vs, ts)
            &&& s.subrange(i as int, j as int) == spec_encode_elems(vs)
        }),
    decreases ts,
{
    let (vs, j) = spec_decode_list(ts, s, i)->Some_0;
    if ts.len() == 0 {
        assert(s.subrange(i as int, i as int) =~= Seq::<u8>::empty());
    } else {
        let (v0, j0) = spec_decode(ts[0], s, i)->Some_0;
        lemma_decode_exact(ts[0], s, i);
        lemma_decode_list_exact(ts.drop_first(), s, j0);
        let (rest, _jr) = spec_decode_list(ts.drop_first(), s, j0)->Some_0;
        assert(vs == seq![v0] + rest);
        assert(vs[0] == v0 && vs.drop_first() =~= rest);
        assert(s.subrange(i as int, j as int) =~= s.subrange(i as int, j0 as int) + s.subrange(
            j0 as int,
            j as int,
        ));
    }
}

/// Completeness: wherever the bytes at `i` are exactly the encoding of a
/// value of the right type, decoding succeeds and yields that value,
/// whatever else follows in the buffer.
pub proof fn lemma_encode_decode(t: TypeDescriptor, v: ValS, s: Seq<u8>, i: nat)
    requires
        spec_valid_ty(t),
        spec_has_type(v, t),
        i + spec_encode(v).len() <= s.len(),
        s.subrange(i as int, i as int + spec_encode(v).len() as int) == spec_encode(v),
    ensures
        spec_decode(t, s, i) == Some((v, (i + spec_encode(v).len()) as nat)),
    decreases t, 0nat,
{
    let enc = spec_encode(v);
    match t {
        TypeDescriptor::Uint(w) => {
            let len = w.spec_byte_len();
            let x = v->Uint_1;
            lemma_le_bytes_len(x, len);
            lemma_le_roundtrip(x, len);
        },
        TypeDescriptor::Int(w) => {
            let len = w.spec_byte_len();
            let x = v->Int_1;
            lemma_le_bytes_len(x, len);
            lemma_le_roundtrip(x, len);
        },
        TypeDescriptor::Bool => {
            assert(s[i as int] == enc[0]);
        },
        TypeDescriptor::Address => {},
        TypeDescriptor::FixedBytes(n) => {},
        TypeDescriptor::Bytes => {
            let bs = v->Bytes_0;
            let n = bs.len();
            lemma_le_bytes_len(n, 4);
            assert(s.subrange(i as int, i as int + 4) =~= enc.subrange(0, 4));
            assert(enc.subrange(0, 4) =~= spec_le_bytes(n, 4));
            lemma_le_roundtrip(n, 4);
            assert(s.subrange(i as int + 4, i as int + 4 + n as int) =~= enc.subrange(
                4,
                4 + n as int,
            ));
            assert(enc.subrange(4, 4 + n as int) =~= bs);
        },
        TypeDescriptor::Str => {
            let bs = v->Str_0;
            let n = bs.len();
            lemma_le_bytes_len(n, 4);
            assert(s.subrange(i as int, i as int + 4) =~= enc.subrange(0, 4));
            assert(enc.subrange(0, 4) =~= spec_le_bytes(n, 4));
            lemma_le_roundtrip(n, 4);
            assert(s.subrange(i as int + 4, i as int + 4 + n as int) =~= enc.subrange(
                4,
                4 + n as int,
            ));
            assert(enc.subrange(4, 4 + n as int) =~= bs);
        },
        TypeDescriptor::DynArray(inner) => {
            let vs = v->Array_0;
            let n = vs.len();
            let body = spec_encode_elems(vs);
            lemma_le_bytes_len(n, 4);
            assert(s.subrange(i as int, i as int + 4) =~= enc.subrange(0, 4));
            assert(enc.subrange(0, 4) =~= spec_le_bytes(n, 4));
            lemma_le_roundtrip(n, 4);
            assert(s.subrange(i as int + 4, i as int + 4 + body.len() as int) =~= enc.subrange(
                4,
                4 + body.len() as int,
            ));
            assert(enc.subrange(4, 4 + body.len() as int) =~= body);
            lemma_encode_decode_n(*inner, vs, s, (i + 4) as nat);
        },
        TypeDescriptor::FixedArray(inner, n) => {
            let vs = v->FixedArray_0;
            lemma_encode_decode_n(*inner, vs, s, i);
        },
        TypeDescriptor::Tuple(elems) => {
            let vs = v->Tuple_0;
            lemma_encode_decode_list(elems@, vs, s, i);
        },
    }
}

/// Completeness for consecutive values of one type.
pub proof fn lemma_encode_decode_n(t: TypeDescriptor, vs: Seq<ValS>, s: Seq<u8>, i: nat)
    requires
        spec_valid_ty(t),
        spec_has_type_elems(vs, t),
        i + spec_encode_elems(vs).len() <= s.len(),
        s.subrange(i as int, i as int + spec_encode_elems(vs).len() as int) == spec_encode_elems(
            vs,
        ),
    ensures
        spec_decode_n(t, s, i, vs.len()) == Some(
            (vs, (i + spec_encode_elems(vs).len()) as nat),
        ),
    decreases t, vs.len(),
{
    if vs.len() == 0 {
    } else {
        let v0 = vs[0];
        let rest = vs.drop_first();
        let e0 = spec_encode(v0);
        let erest = spec_encode_elems(rest);
        assert(spec_encode_elems(vs) == e0 + erest);
        assert(s.subrange(i as int, i as int + e0.len() as int) =~= (e0 + erest).subrange(
            0,
            e0.len() as int,
        ));
        assert((e0 + erest).subrange(0, e0.len() as int) =~= e0);
        lemma_encode_decode(t, v0, s, i);
        let j0 = (i + e0.len()) as nat;
        assert(s.subrange(j0 as int, j0 as int + erest.len() as int) =~= (e0 + erest).subrange(
            e0.len() as int,
            e0.len() as int + erest.len() as int,
        ));
        assert((e0 + erest).subrange(e0.len() as int, e0.len() as int + erest.len() as int)
            =~= erest);
        lemma_encode_decode_n(t, rest, s, j0);
        assert(seq![v0] + rest =~= vs);
    }
}

/// Completeness for a descriptor list.
pub proof fn lemma_encode_decode_list(
    ts: Seq<TypeDescriptor>,
    vs: Seq<ValS>,
    s: Seq<u8>,
    i: nat,
)
    requires
        spec_valid_ty_list(ts),
        spec_has_type_list(vs, ts),
        i + spec_encode_elems(vs).len() <= s.len(),
        s.subrange(i as int, i as int + spec_encode_elems(vs).len() as int) == spec_encode_elems(
            vs,
        ),
    ensures
        spec_decode_list(ts, s, i) == Some((vs, (i + spec_encode_elems(vs).len()) as nat)),
    decreases ts,
{
    if ts.len() == 0 {
    } else {
        let v0 = vs[0];
        let rest = vs.drop_first();
        let e0 = spec_encode(v0);
        let erest = spec_encode_elems(rest);
        assert(spec_encode_elems(vs) == e0 + erest);
        assert(s.subrange(i as int, i as int + e0.len() as int) =~= (e0 + erest).subrange(
            0,
            e0.len() as int,
        ));
        assert((e0 + erest).subrange(0, e0.len() as int) =~= e0);
        lemma_encode_decode(ts[0], v0, s, i);
        let j0 = (i + e0.len()) as nat;
        assert(s.subrange(j0 as int, j0 as int + erest.len() as int) =~= (e0 + erest).subrange(
            e0.len() as int,
            e0.len() as int + erest.len() as int,
        ));
        assert((e0 + erest).subrange(e0.len() as int, e0.len() as int + erest.len() as int)
            =~= erest);
        lemma_encode_decode_list(ts.drop_first(), rest, s, j0);
        assert(seq![v0] + rest =~= vs);
    }
}

/// Decode a whole argument payload against a parameter list: every value
/// in declared order, and every byte consumed.  Anything else — truncated
/// or over-length payloads included — is a failure, never a partial
/// success.
pub open spec fn spec_decode_args(ts: Seq<TypeDescriptor>, s: Seq<u8>) -> Option<Seq<ValS>> {
    match spec_decode_list(ts, s, 0) {
        Some((vs, j)) => if j == s.len() {
            Some(vs)
        } else {
            None
        },
        None => None,
    }
}

/// Decode an argument payload; see [`spec_decode_args`].
pub fn decode_args(ts: &Vec<TypeDescriptor>, payload: &Vec<u8>) -> (r: Option<Vec<Value>>)
    requires
        spec_valid_ty_list(ts@),
    ensures
        match r {
            Some(vals) => spec_decode_args(ts@, payload@) == Some(val_view_list(vals@)),
            None => spec_decode_args(ts@, payload@) is None,
        },
{
    match decode_list_values(ts, payload, 0) {
        Some(p) => {
            let (vals, end) = p;
            if end == payload.len() {
                Some(vals)
            } else {
                None
            }
        },
        None => None,
    }
}

/// Encode values back to back, the wire form of return data and of
/// argument payloads.
pub fn encode_values(vals: &Vec<Value>) -> (r: Vec<u8>)
    requires
        spec_val_wf_elems(val_view_list(vals@)),
    ensures
        r@ == spec_encode_elems(val_view_list(vals@)),
{
    let mut out: Vec<u8> = Vec::new();
    encode_elems(vals, &mut out);
    proof {
        assert(Seq::<u8>::empty() + spec_encode_elems(val_view_list(vals@)) =~= spec_encode_elems(
            val_view_list(vals@),
        ));
    }
    out
}

/// A payload that decodes is exactly the encoding of what it decodes to,
/// and the values have the declared types.
pub proof fn lemma_decode_args_exact(ts: Seq<TypeDescriptor>, s: Seq<u8>)
    requires
        spec_valid_ty_list(ts),
        spec_decode_args(ts, s) is Some,
    ensures
        spec_has_type_list(spec_decode_args(ts, s)->Some_0, ts),
        s == spec_encode_elems(spec_decode_args(ts, s)->Some_0),
{
    lemma_decode_list_exact(ts, s, 0);
    let (vs, j) = spec_decode_list(ts, s, 0)->Some_0;
    assert(s.subrange(0, j as int) =~= s);
}

/// The encoding of well-typed values always decodes back to them.
pub proof fn lemma_decode_args_complete(ts: Seq<TypeDescriptor>, vs: Seq<ValS>)
    requires
        spec_valid_ty_list(ts),
        spec_has_type_list(vs, ts),
    ensures
        spec_decode_args(ts, spec_encode_elems(vs)) == Some(vs),
{
    let s = spec_encode_elems(vs);
    assert(s.subrange(0, s.len() as int) =~= s);
    lemma_encode_decode_list(ts, vs, s, 0);
}

/// An over-length payload — a full encoding with trailing bytes — never
/// decodes.
pub proof fn lemma_decode_args_overlength(
    ts: Seq<TypeDescriptor>,
    vs: Seq<ValS>,
    junk: Seq<u8>,
)
    requires
        spec_valid_ty_list(ts),
        spec_has_type_list(vs, ts),
        junk.len() > 0,
    ensures
        spec_decode_args(ts, spec_encode_elems(vs) + junk) is None,
{
    let enc = spec_encode_elems(vs);
    let s = enc + junk;
    assert(s.subrange(0, enc.len() as int) =~= enc);
    lemma_encode_decode_list(ts, vs, s, 0);
}

/// A truncated payload — a strict prefix of a full encoding — never
/// decodes.
pub proof fn lemma_decode_args_truncated(
    ts: Seq<TypeDescriptor>,
    vs: Seq<ValS>,
    p: Seq<u8>,
)
    requires
        spec_valid_ty_list(ts),
        spec_has_type_list(vs, ts),
        p.len() < spec_encode_elems(vs).len(),
        p == spec_encode_elems(vs).subrange(0, p.len() as int),
    ensures
        spec_decode_args(ts, p) is None,
{
    let enc = spec_encode_elems(vs);
    if spec_decode_args(ts, p) is Some {
        lemma_decode_list_exact(ts, p, 0);
        let (w, j) = spec_decode_list(ts, p, 0)->Some_0;
        assert(j == p.len());
        assert(p.subrange(0, j as int) =~= p);
        // p itself is the exact encoding of w ...
        assert(spec_encode_elems(w) == p);
        // ... so on the full buffer both w and vs decode from position 0 ...
        assert(enc.subrange(0, enc.len() as int) =~= enc);
        lemma_encode_decode_list(ts, vs, enc, 0);
        assert(enc.subrange(0, p.len() as int) == spec_encode_elems(w));
        lemma_encode_decode_list(ts, w, enc, 0);
        // ... and determinism forces their encodings to share a length.
        assert(false);
    }
}

/// Does `x` fit in `w` bytes?
fn fits_width(x: u128, w: IntWidth) -> (r: bool)
    ensures
        r == (x < pow256(w.spec_byte_len())),
{
    proof {
        reveal_with_fuel(pow256, 17);
    }
    match w {
        IntWidth::W8 => x < 0x100,
        IntWidth::W16 => x < 0x1_0000,
        IntWidth::W32 => x < 0x1_0000_0000,
        IntWidth::W64 => x < 0x1_0000_0000_0000_0000,
        IntWidth::W128 => true,
    }
}

/// Is `len` below the reach of the 4-byte length prefix?
fn fits_len_prefix(len: usize) -> (r: bool)
    ensures
        r == ((len as nat) < pow256(4)),
{
    proof {
        reveal_with_fuel(pow256, 5);
    }
    (len as u128) < 0x1_0000_0000
}

/// Check that `v` is a value of the type `t` describes; see
/// [`spec_has_type`].
pub fn check_has_type(v: &Value, t: &TypeDescriptor) -> (r: bool)
    ensures
        r == spec_has_type(val_view(*v), *t),
    decreases *v,
{
    match (v, t) {
        (Value::Uint(w, x), TypeDescriptor::Uint(wt)) => *w == *wt && fits_width(*x, *w),
        (Value::Int(w, x), TypeDescriptor::Int(wt)) => *w == *wt && fits_width(*x, *w),
        (Value::Bool(_), TypeDescriptor::Bool) => true,
        (Value::Address(bs), TypeDescriptor::Address) => bs.len() == 20,
        (Value::FixedBytes(bs), TypeDescriptor::FixedBytes(n)) => bs.len() == *n,
        (Value::Bytes(bs), TypeDescriptor::Bytes) => fits_len_prefix(bs.len()),
        (Value::Str(bs), TypeDescriptor::Str) => fits_len_prefix(bs.len()),
        (Value::Array(vs), TypeDescriptor::DynArray(inner)) => {
            proof {
                lemma_val_view_list(vs@);
            }
            fits_len_prefix(vs.len()) && check_has_type_elems(vs, inner)
        },
        (Value::FixedArray(vs), TypeDescriptor::FixedArray(inner, n)) => {
            proof {
                lemma_val_view_list(vs@);
            }
            vs.len() == *n && check_has_type_elems(vs, inner)
        },
        (Value::Tuple(vs), TypeDescriptor::Tuple(elems)) => check_has_type_list(vs, elems),
        _ => false,
    }
}

/// Check that every element of `vs` has the type `t` describes.
fn check_has_type_elems(vs: &Vec<Value>, t: &TypeDescriptor) -> (r: bool)
    ensures
        r == spec_has_type_elems(val_view_list(vs@), *t),
    decreases vs@,
{
    let ghost views = val_view_list(vs@);
    proof {
        lemma_val_view_list(vs@);
        assert(views.subrange(0, views.len() as int) =~= views);
    }
    let mut i: usize = 0;
    while i < vs.len()
        invariant
            0 <= i <= vs@.len(),
            views == val_view_list(vs@),
            views.len() == vs@.len(),
            forall|j: int| 0 <= j < vs@.len() ==> views[j] == val_view(vs@[j]),
            spec_has_type_elems(views, *t) <==> spec_has_type_elems(
                views.subrange(i as int, views.len() as int),
                *t,
            ),
        decreases vs@.len() - i,
    {
        let ghost suffix = views.subrange(i as int, views.len() as int);
        proof {
            assert(suffix[0] == views[i as int]);
            assert(suffix.drop_first() =~= views.subrange(i as int + 1, views.len() as int));
        }
        if !check_has_type(&vs[i], t) {
            return false;
        }
        i = i + 1;
    }
    proof {
        assert(views.subrange(views.len() as int, views.len() as int) =~= Seq::<ValS>::empty());
    }
    true
}

/// Check that the values of `vs` have, in order, the types of `ts`.
pub fn check_has_type_list(vs: &Vec<Value>, ts: &Vec<TypeDescriptor>) -> (r: bool)
    ensures
        r == spec_has_type_list(val_view_list(vs@), ts@),
    decreases vs@,
{
    let ghost views = val_view_list(vs@);
    proof {
        lemma_val_view_list(vs@);
        assert(views.subrange(0, views.len() as int) =~= views);
        assert(ts@.subrange(0, ts@.len() as int) =~= ts@);
    }
    if vs.len() != ts.len() {
        return false;
    }
    let mut i: usize = 0;
    while i < vs.len()
        invariant
            0 <= i <= vs@.len() == ts@.len(),
            views == val_view_list(vs@),
            views.len() == vs@.len(),
            forall|j: int| 0 <= j < vs@.len() ==> views[j] == val_view(vs@[j]),
            spec_has_type_list(views, ts@) <==> spec_has_type_list(
                views.subrange(i as int, views.len() as int),
                ts@.subrange(i as int, ts@.len() as int),
            ),
        decreases vs@.len() - i,
    {
        let ghost vsuffix = views.subrange(i as int, views.len() as int);
        let ghost tsuffix = ts@.subrange(i as int, ts@.len() as int);
        proof {
            assert(vsuffix[0] == views[i as int] && tsuffix[0] == ts@[i as int]);
            assert(vsuffix.drop_first() =~= views.subrange(i as int + 1, views.len() as int));
            assert(tsuffix.drop_first() =~= ts@.subrange(i as int + 1, ts@.len() as int));
        }
        if !check_has_type(&vs[i], &ts[i]) {
            return false;
        }
        i = i + 1;
    }
    proof {
        assert(views.subrange(views.len() as int, views.len() as int) =~= Seq::<ValS>::empty());
        assert(ts@.subrange(ts@.len() as int, ts@.len() as int)
            =~= Seq::<TypeDescriptor>::empty());
    }
    true
}

} // verus!
