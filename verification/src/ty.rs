//! Type descriptors for externally callable functions and their canonical
//! names.
//!
//! Every argument or return type of a dispatchable function is described by a
//! [`TypeDescriptor`].  A descriptor renders to a canonical ASCII byte string
//! (`uint128`, `bytes32`, `uint8[4]`, `(bool,string)`, ...); the canonical
//! signature of a function is `name(T1,...,Tn)` over those names.  Canonical
//! names are pure functions of the descriptor tree, so structurally identical
//! types always render identically.

use vstd::prelude::*;

verus! {

/// Width of a fixed-width integer type, in bits.
#[derive(Clone, Copy, PartialEq, Eq, Structural, Debug)]
pub enum IntWidth {
    W8,
    W16,
    W32,
    W64,
    W128,
}

impl IntWidth {
    /// Number of bytes a value of this width occupies on the wire.
    pub open spec fn spec_byte_len(self) -> nat {
        match self {
            IntWidth::W8 => 1,
            IntWidth::W16 => 2,
            IntWidth::W32 => 4,
            IntWidth::W64 => 8,
            IntWidth::W128 => 16,
        }
    }

    /// Number of bytes a value of this width occupies on the wire.
    pub fn byte_len(self) -> (r: usize)
        ensures
            r == self.spec_byte_len(),
    {
        match self {
            IntWidth::W8 => 1,
            IntWidth::W16 => 2,
            IntWidth::W32 => 4,
            IntWidth::W64 => 8,
            IntWidth::W128 => 16,
        }
    }

    /// Decimal digits of the bit width, as ASCII bytes.
    pub open spec fn spec_bit_digits(self) -> Seq<u8> {
        match self {
            IntWidth::W8 => seq![56u8],
            IntWidth::W16 => seq![49u8, 54u8],
            IntWidth::W32 => seq![51u8, 50u8],
            IntWidth::W64 => seq![54u8, 52u8],
            IntWidth::W128 => seq![49u8, 50u8, 56u8],
        }
    }
}

/// Description of one argument or return type of a dispatchable function.
///
/// The set of variants is the closed set of types the call codec supports;
/// anything outside it is rejected at build time, before a signature can
/// reach the selector hasher.
#[derive(PartialEq, Eq, Debug)]
pub enum TypeDescriptor {
    /// Unsigned fixed-width integer, e.g. `uint64`.
    Uint(IntWidth),
    /// Signed fixed-width integer (two's complement), e.g. `int32`.
    Int(IntWidth),
    /// `bool`.
    Bool,
    /// 20-byte account address.
    Address,
    /// Fixed-size byte array `bytesN`, `1 <= N <= 32`.
    FixedBytes(usize),
    /// Dynamically sized byte sequence.
    Bytes,
    /// UTF-8 string, carried as its byte sequence.
    Str,
    /// Dynamically sized array `T[]`.
    DynArray(Box<TypeDescriptor>),
    /// Fixed-size array `T[N]`, `N >= 1`.
    FixedArray(Box<TypeDescriptor>, usize),
    /// Tuple `(T1,...,Tn)`.
    Tuple(Vec<TypeDescriptor>),
}

/// Number of bytes an address occupies on the wire.
pub open spec fn spec_address_len() -> nat {
    20
}

/// Decimal rendering of `n`, most significant digit first, as ASCII bytes.
pub open spec fn spec_dec_digits(n: nat) -> Seq<u8>
    decreases n,
{
    if n < 10 {
        seq![(48 + n) as u8]
    } else {
        spec_dec_digits(n / 10).push((48 + n % 10) as u8)
    }
}

/// A descriptor is valid when every fixed-size byte array has a size in
/// `1..=32` and every fixed-size array a length of at least 1.
pub open spec fn spec_valid_ty(t: TypeDescriptor) -> bool
    decreases t,
{
    match t {
        TypeDescriptor::Uint(_) => true,
        TypeDescriptor::Int(_) => true,
        TypeDescriptor::Bool => true,
        TypeDescriptor::Address => true,
        TypeDescriptor::FixedBytes(n) => 1 <= n <= 32,
        TypeDescriptor::Bytes => true,
        TypeDescriptor::Str => true,
        TypeDescriptor::DynArray(inner) => spec_valid_ty(*inner),
        TypeDescriptor::FixedArray(inner, n) => n >= 1 && spec_valid_ty(*inner),
        TypeDescriptor::Tuple(elems) => elems@.len() >= 1 && spec_valid_ty_list(elems@),
    }
}

/// All descriptors of the sequence are valid.
pub open spec fn spec_valid_ty_list(ts: Seq<TypeDescriptor>) -> bool
    decreases ts,
{
    if ts.len() == 0 {
        true
    } else {
        spec_valid_ty(ts[0]) && spec_valid_ty_list(ts.drop_first())
    }
}

/// Canonical ASCII name of a type descriptor.
pub open spec fn spec_canon(t: TypeDescriptor) -> Seq<u8>
    decreases t,
{
    match t {
        // "uint" ++ bits
        TypeDescriptor::Uint(w) => seq![117u8, 105u8, 110u8, 116u8] + w.spec_bit_digits(),
        // "int" ++ bits
        TypeDescriptor::Int(w) => seq![105u8, 110u8, 116u8] + w.spec_bit_digits(),
        // "bool"
        TypeDescriptor::Bool => seq![98u8, 111u8, 111u8, 108u8],
        // "address"
        TypeDescriptor::Address => seq![97u8, 100u8, 100u8, 114u8, 101u8, 115u8, 115u8],
        // "bytes" ++ digits of n
        TypeDescriptor::FixedBytes(n) => seq![98u8, 121u8, 116u8, 101u8, 115u8]
            + spec_dec_digits(n as nat),
        // "bytes"
        TypeDescriptor::Bytes => seq![98u8, 121u8, 116u8, 101u8, 115u8],
        // "string"
        TypeDescriptor::Str => seq![115u8, 116u8, 114u8, 105u8, 110u8, 103u8],
        // name of T ++ "[]"
        TypeDescriptor::DynArray(inner) => spec_canon(*inner) + seq![91u8, 93u8],
        // name of T ++ "[" ++ digits of n ++ "]"
        TypeDescriptor::FixedArray(inner, n) => spec_canon(*inner) + seq![91u8]
            + spec_dec_digits(n as nat) + seq![93u8],
        // "(" ++ comma-joined element names ++ ")"
        TypeDescriptor::Tuple(elems) => seq![40u8] + spec_canon_list(elems@) + seq![41u8],
    }
}

/// Canonical names of a descriptor sequence, joined with `,`.
pub open spec fn spec_canon_list(ts: Seq<TypeDescriptor>) -> Seq<u8>
    decreases ts,
{
    if ts.len() == 0 {
        Seq::empty()
    } else if ts.len() == 1 {
        spec_canon(ts[0])
    } else {
        spec_canon(ts[0]).push(44u8) + spec_canon_list(ts.drop_first())
    }
}

/// Canonical signature of a function: `name(T1,...,Tn)`.
pub open spec fn spec_canon_sig(name: Seq<u8>, params: Seq<TypeDescriptor>) -> Seq<u8> {
    name.push(40u8) + spec_canon_list(params) + seq![41u8]
}

/// A function or field name is a nonempty ASCII identifier: letters, digits
/// and `_`, not starting with a digit.
pub open spec fn spec_ident_byte(b: u8) -> bool {
    (97 <= b <= 122) || (65 <= b <= 90) || (48 <= b <= 57) || b == 95
}

/// See [`spec_ident_byte`].
pub open spec fn spec_valid_name(name: Seq<u8>) -> bool {
    &&& name.len() >= 1
    &&& !(48 <= name[0] <= 57)
    &&& forall|i: int| 0 <= i < name.len() ==> spec_ident_byte(name[i])
}

/// Render `n` in decimal, most significant digit first.
pub fn dec_digits(n: usize) -> (r: Vec<u8>)
    ensures
        r@ == spec_dec_digits(n as nat),
    decreases n,
{
    if n < 10 {
        let mut r: Vec<u8> = Vec::new();
        r.push(48 + (n as u8));
        r
    } else {
        let mut r = dec_digits(n / 10);
        r.push(48 + ((n % 10) as u8));
        r
    }
}

/// Check that a descriptor is valid; see [`spec_valid_ty`].
pub fn check_valid_ty(t: &TypeDescriptor) -> (r: bool)
    ensures
        r == spec_valid_ty(*t),
    decreases *t,
{
    match t {
        TypeDescriptor::Uint(_) => true,
        TypeDescriptor::Int(_) => true,
        TypeDescriptor::Bool => true,
        TypeDescriptor::Address => true,
        TypeDescriptor::FixedBytes(n) => 1 <= *n && *n <= 32,
        TypeDescriptor::Bytes => true,
        TypeDescriptor::Str => true,
        TypeDescriptor::DynArray(inner) => check_valid_ty(inner),
        TypeDescriptor::FixedArray(inner, n) => *n >= 1 && check_valid_ty(inner),
        TypeDescriptor::Tuple(elems) => elems.len() >= 1 && check_valid_ty_list(elems),
    }
}

/// Check that every descriptor of the list is valid.
pub fn check_valid_ty_list(ts: &Vec<TypeDescriptor>) -> (r: bool)
    ensures
        r == spec_valid_ty_list(ts@),
    decreases ts@,
{
    let mut i: usize = 0;
    proof {
        assert(ts@.subrange(0, ts@.len() as int) =~= ts@);
    }
    while i < ts.len()
        invariant
            0 <= i <= ts.len(),
            spec_valid_ty_list(ts@) <==> spec_valid_ty_list(ts@.subrange(i as int, ts@.len() as int)),
        decreases ts@.len() - i,
    {
        proof {
            lemma_valid_ty_list_step(ts@, i as int);
        }
        if !check_valid_ty(&ts[i]) {
            proof {
                assert(!spec_valid_ty_list(ts@.subrange(i as int, ts@.len() as int)));
            }
            return false;
        }
        i = i + 1;
    }
    proof {
        assert(ts@.subrange(ts@.len() as int, ts@.len() as int) =~= Seq::<TypeDescriptor>::empty());
    }
    true
}

/// Unfolds one step of [`spec_valid_ty_list`] on a suffix of `ts`.
proof fn lemma_valid_ty_list_step(ts: Seq<TypeDescriptor>, i: int)
    requires
        0 <= i < ts.len(),
    ensures
        spec_valid_ty_list(ts.subrange(i, ts.len() as int)) <==> (spec_valid_ty(ts[i])
            && spec_valid_ty_list(ts.subrange(i + 1, ts.len() as int))),
{
    let suffix = ts.subrange(i, ts.len() as int);
    assert(suffix[0] == ts[i]);
    assert(suffix.drop_first() =~= ts.subrange(i + 1, ts.len() as int));
}

/// Render the canonical name of a descriptor; see [`spec_canon`].
pub fn canonical_name(t: &TypeDescriptor) -> (r: Vec<u8>)
    ensures
        r@ == spec_canon(*t),
    decreases *t,
{
    match t {
        TypeDescriptor::Uint(w) => {
            let mut r: Vec<u8> = Vec::new();
            r.push(117);
            r.push(105);
            r.push(110);
            r.push(116);
            push_bit_digits(&mut r, *w);
            r
        },
        TypeDescriptor::Int(w) => {
            let mut r: Vec<u8> = Vec::new();
            r.push(105);
            r.push(110);
            r.push(116);
            push_bit_digits(&mut r, *w);
            r
        },
        TypeDescriptor::Bool => {
            let mut r: Vec<u8> = Vec::new();
            r.push(98);
            r.push(111);
            r.push(111);
            r.push(108);
            r
        },
        TypeDescriptor::Address => {
            let mut r: Vec<u8> = Vec::new();
            r.push(97);
            r.push(100);
            r.push(100);
            r.push(114);
            r.push(101);
            r.push(115);
            r.push(115);
            r
        },
        TypeDescriptor::FixedBytes(n) => {
            let mut r: Vec<u8> = Vec::new();
            r.push(98);
            r.push(121);
            r.push(116);
            r.push(101);
            r.push(115);
            let mut d = dec_digits(*n);
            r.append(&mut d);
            r
        },
        TypeDescriptor::Bytes => {
            let mut r: Vec<u8> = Vec::new();
            r.push(98);
            r.push(121);
            r.push(116);
            r.push(101);
            r.push(115);
            r
        },
        TypeDescriptor::Str => {
            let mut r: Vec<u8> = Vec::new();
            r.push(115);
            r.push(116);
            r.push(114);
            r.push(105);
            r.push(110);
            r.push(103);
            r
        },
        TypeDescriptor::DynArray(inner) => {
            let mut r = canonical_name(inner);
            r.push(91);
            r.push(93);
            r
        },
        TypeDescriptor::FixedArray(inner, n) => {
            let mut r = canonical_name(inner);
            r.push(91);
            let mut d = dec_digits(*n);
            r.append(&mut d);
            r.push(93);
            r
        },
        TypeDescriptor::Tuple(elems) => {
            let mut r: Vec<u8> = Vec::new();
            r.push(40);
            let mut body = canonical_name_list(elems);
            r.append(&mut body);
            r.push(41);
            r
        },
    }
}

/// The canonical names of `s1 ++ s2` are the names of `s1`, a comma, and
/// the names of `s2`, when both parts are nonempty.
pub proof fn lemma_canon_list_concat(s1: Seq<TypeDescriptor>, s2: Seq<TypeDescriptor>)
    requires
        s1.len() >= 1,
        s2.len() >= 1,
    ensures
        spec_canon_list(s1 + s2) == spec_canon_list(s1).push(44u8) + spec_canon_list(s2),
    decreases s1,
{
    let s = s1 + s2;
    assert(s[0] == s1[0]);
    if s1.len() == 1 {
        assert(s.drop_first() =~= s2);
        assert(spec_canon_list(s1) == spec_canon(s1[0]));
        assert(spec_canon_list(s) == spec_canon(s[0]).push(44u8) + spec_canon_list(s2));
    } else {
        assert(s.drop_first() =~= s1.drop_first() + s2);
        lemma_canon_list_concat(s1.drop_first(), s2);
        assert(spec_canon_list(s) == spec_canon(s[0]).push(44u8) + spec_canon_list(
            s1.drop_first() + s2,
        ));
        assert(spec_canon_list(s1).push(44u8) + spec_canon_list(s2) =~= spec_canon(s1[0]).push(
            44u8,
        ) + (spec_canon_list(s1.drop_first()).push(44u8) + spec_canon_list(s2)));
    }
}

/// Appending one descriptor extends the joined canonical names by a comma
/// (if anything came before) and the descriptor's own name.
proof fn lemma_canon_list_snoc(s: Seq<TypeDescriptor>, i: int)
    requires
        0 <= i < s.len(),
    ensures
        spec_canon_list(s.subrange(0, i + 1)) == if i == 0 {
            spec_canon(s[0])
        } else {
            spec_canon_list(s.subrange(0, i)).push(44u8) + spec_canon(s[i])
        },
{
    let head = s.subrange(0, i);
    let one = s.subrange(i, i + 1);
    assert(one.len() == 1 && one[0] == s[i]);
    assert(spec_canon_list(one) == spec_canon(s[i]));
    if i == 0 {
        assert(s.subrange(0, 1) =~= one);
    } else {
        assert(s.subrange(0, i + 1) =~= head + one);
        lemma_canon_list_concat(head, one);
    }
}

/// Render the comma-joined canonical names of `ts`.
fn canonical_name_list(ts: &Vec<TypeDescriptor>) -> (r: Vec<u8>)
    ensures
        r@ == spec_canon_list(ts@),
    decreases ts@,
{
    let mut r: Vec<u8> = Vec::new();
    let mut i: usize = 0;
    while i < ts.len()
        invariant
            0 <= i <= ts@.len(),
            r@ == spec_canon_list(ts@.subrange(0, i as int)),
        decreases ts@.len() - i,
    {
        if i > 0 {
            r.push(44);
        }
        let mut name = canonical_name(&ts[i]);
        r.append(&mut name);
        proof {
            lemma_canon_list_snoc(ts@, i as int);
        }
        i = i + 1;
    }
    proof {
        assert(ts@.subrange(0, ts@.len() as int) =~= ts@);
    }
    r
}

/// Append the decimal bit-width digits of `w`.
fn push_bit_digits(r: &mut Vec<u8>, w: IntWidth)
    ensures
        final(r)@ == old(r)@ + w.spec_bit_digits(),
{
    match w {
        IntWidth::W8 => {
            r.push(56);
        },
        IntWidth::W16 => {
            r.push(49);
            r.push(54);
        },
        IntWidth::W32 => {
            r.push(51);
            r.push(50);
        },
        IntWidth::W64 => {
            r.push(54);
            r.push(52);
        },
        IntWidth::W128 => {
            r.push(49);
            r.push(50);
            r.push(56);
        },
    }
}

/// Render the canonical signature `name(T1,...,Tn)`; see [`spec_canon_sig`].
pub fn canonical_signature(name: &Vec<u8>, params: &Vec<TypeDescriptor>) -> (r: Vec<u8>)
    ensures
        r@ == spec_canon_sig(name@, params@),
{
    let mut r = name.clone();
    r.push(40);
    let mut body = canonical_name_list(params);
    r.append(&mut body);
    r.push(41);
    proof {
        assert(r@ =~= spec_canon_sig(name@, params@));
    }
    r
}

/// Check that a name is a valid identifier; see [`spec_valid_name`].
pub fn check_valid_name(name: &Vec<u8>) -> (r: bool)
    ensures
        r == spec_valid_name(name@),
{
    if name.len() == 0 {
        return false;
    }
    if 48 <= name[0] && name[0] <= 57 {
        return false;
    }
    let mut i: usize = 0;
    while i < name.len()
        invariant
            0 <= i <= name@.len(),
            name@.len() >= 1,
            !(48 <= name@[0] <= 57),
            forall|j: int| 0 <= j < i ==> spec_ident_byte(name@[j]),
        decreases name@.len() - i,
    {
        let b = name[i];
        let ok = (97 <= b && b <= 122) || (65 <= b && b <= 90) || (48 <= b && b <= 57) || b == 95;
        if !ok {
            return false;
        }
        i = i + 1;
    }
    true
}

/// Canonicalization is structural: equal descriptor trees always render to
/// the same canonical name, whatever the declarations they came from.
pub proof fn lemma_canon_structural(t1: TypeDescriptor, t2: TypeDescriptor)
    requires
        t1 == t2,
    ensures
        spec_canon(t1) == spec_canon(t2),
{
}

/// Structural equality of descriptor trees: same variant, same widths and
/// sizes, structurally equal children.
pub open spec fn spec_ty_eq(t1: TypeDescriptor, t2: TypeDescriptor) -> bool
    decreases t1,
{
    match (t1, t2) {
        (TypeDescriptor::Uint(w1), TypeDescriptor::Uint(w2)) => w1 == w2,
        (TypeDescriptor::Int(w1), TypeDescriptor::Int(w2)) => w1 == w2,
        (TypeDescriptor::Bool, TypeDescriptor::Bool) => true,
        (TypeDescriptor::Address, TypeDescriptor::Address) => true,
        (TypeDescriptor::FixedBytes(n1), TypeDescriptor::FixedBytes(n2)) => n1 == n2,
        (TypeDescriptor::Bytes, TypeDescriptor::Bytes) => true,
        (TypeDescriptor::Str, TypeDescriptor::Str) => true,
        (TypeDescriptor::DynArray(a), TypeDescriptor::DynArray(b)) => spec_ty_eq(*a, *b),
        (TypeDescriptor::FixedArray(a, n1), TypeDescriptor::FixedArray(b, n2)) => n1 == n2
            && spec_ty_eq(*a, *b),
        (TypeDescriptor::Tuple(l1), TypeDescriptor::Tuple(l2)) => spec_ty_eq_list(l1@, l2@),
        _ => false,
    }
}

/// Pointwise structural equality of descriptor sequences.
pub open spec fn spec_ty_eq_list(l1: Seq<TypeDescriptor>, l2: Seq<TypeDescriptor>) -> bool
    decreases l1,
{
    if l1.len() != l2.len() {
        false
    } else if l1.len() == 0 {
        true
    } else {
        spec_ty_eq(l1[0], l2[0]) && spec_ty_eq_list(l1.drop_first(), l2.drop_first())
    }
}

/// Structurally equal trees render to the same canonical name.
pub proof fn lemma_ty_eq_canon(t1: TypeDescriptor, t2: TypeDescriptor)
    requires
        spec_ty_eq(t1, t2),
    ensures
        spec_canon(t1) == spec_canon(t2),
    decreases t1,
{
    match (t1, t2) {
        (TypeDescriptor::DynArray(a), TypeDescriptor::DynArray(b)) => {
            lemma_ty_eq_canon(*a, *b);
        },
        (TypeDescriptor::FixedArray(a, _), TypeDescriptor::FixedArray(b, _)) => {
            lemma_ty_eq_canon(*a, *b);
        },
        (TypeDescriptor::Tuple(l1), TypeDescriptor::Tuple(l2)) => {
            lemma_ty_eq_canon_list(l1@, l2@);
        },
        _ => {},
    }
}

/// Structurally equal sequences render to the same joined names.
proof fn lemma_ty_eq_canon_list(l1: Seq<TypeDescriptor>, l2: Seq<TypeDescriptor>)
    requires
        spec_ty_eq_list(l1, l2),
    ensures
        spec_canon_list(l1) == spec_canon_list(l2),
    decreases l1,
{
    if l1.len() > 0 {
        lemma_ty_eq_canon(l1[0], l2[0]);
        lemma_ty_eq_canon_list(l1.drop_first(), l2.drop_first());
    }
}

/// Every byte of a decimal rendering is an ASCII digit.
proof fn lemma_dec_digits_are_digits(n: nat)
    ensures
        spec_dec_digits(n).len() >= 1,
        forall|k: int|
            0 <= k < spec_dec_digits(n).len() ==> 48 <= #[trigger] spec_dec_digits(n)[k] <= 57,
    decreases n,
{
    if n >= 10 {
        lemma_dec_digits_are_digits(n / 10);
    }
}

/// Decimal renderings are injective.
proof fn lemma_dec_digits_injective(n1: nat, n2: nat)
    requires
        spec_dec_digits(n1) == spec_dec_digits(n2),
    ensures
        n1 == n2,
    decreases n1,
{
    lemma_dec_digits_are_digits(n1);
    lemma_dec_digits_are_digits(n2);
    let d1 = spec_dec_digits(n1);
    let d2 = spec_dec_digits(n2);
    if n1 < 10 && n2 < 10 {
        assert(d1[0] == d2[0]);
    } else if n1 >= 10 && n2 >= 10 {
        assert(d1.last() == d2.last());
        assert(d1.drop_last() =~= spec_dec_digits(n1 / 10));
        assert(d2.drop_last() =~= spec_dec_digits(n2 / 10));
        lemma_dec_digits_injective(n1 / 10, n2 / 10);
        assert(n1 % 10 == n2 % 10);
        assert(n1 == 10 * (n1 / 10) + n1 % 10);
    } else if n1 < 10 {
        assert(spec_dec_digits(n2 / 10).len() >= 1);
        assert(d2.len() >= 2 && d1.len() == 1);
    } else {
        assert(spec_dec_digits(n1 / 10).len() >= 1);
        assert(d1.len() >= 2 && d2.len() == 1);
    }
}

/// The bit-width digits determine the width.
proof fn lemma_bit_digits_injective(w1: IntWidth, w2: IntWidth)
    requires
        w1.spec_bit_digits() == w2.spec_bit_digits(),
    ensures
        w1 == w2,
{
    if w1 != w2 {
        assert(w1.spec_bit_digits()[0] == w2.spec_bit_digits()[0]
            && w1.spec_bit_digits().len() == w2.spec_bit_digits().len());
        assert(w1.spec_bit_digits().len() > 1 ==> w1.spec_bit_digits()[1]
            == w2.spec_bit_digits()[1]);
        assert(false);
    }
}

/// Parenthesis balance of a byte string: `(` counts one up, `)` one down.
pub open spec fn spec_pdelta(s: Seq<u8>) -> int
    decreases s,
{
    if s.len() == 0 {
        0
    } else {
        spec_pdelta(s.drop_last()) + if s.last() == 40 {
            1int
        } else if s.last() == 41 {
            -1int
        } else {
            0int
        }
    }
}

/// Balance distributes over concatenation.
proof fn lemma_pdelta_concat(a: Seq<u8>, b: Seq<u8>)
    ensures
        spec_pdelta(a + b) == spec_pdelta(a) + spec_pdelta(b),
    decreases b,
{
    if b.len() == 0 {
        assert(a + b =~= a);
    } else {
        assert((a + b).drop_last() =~= a + b.drop_last());
        assert((a + b).last() == b.last());
        lemma_pdelta_concat(a, b.drop_last());
    }
}

/// No byte of `s` is a comma.
pub open spec fn spec_no_comma(s: Seq<u8>) -> bool {
    forall|k: int| 0 <= k < s.len() ==> #[trigger] s[k] != 44
}

/// Every comma of `s` sits at parenthesis depth at least `d`.
pub open spec fn spec_commas_deep(s: Seq<u8>, d: int) -> bool {
    forall|k: int|
        0 <= k < s.len() && #[trigger] s[k] == 44 ==> spec_pdelta(s.subrange(0, k)) >= d
}

/// Depth bounds carry through concatenation: commas of `a` keep their
/// depth, commas of `b` are shifted by the balance of `a`.
proof fn lemma_commas_deep_concat(a: Seq<u8>, b: Seq<u8>, da: int, db: int, d: int)
    requires
        spec_commas_deep(a, da),
        spec_commas_deep(b, db),
        d <= da,
        d <= spec_pdelta(a) + db,
    ensures
        spec_commas_deep(a + b, d),
{
    let s = a + b;
    assert forall|k: int|
        0 <= k < s.len() && #[trigger] s[k] == 44 implies spec_pdelta(s.subrange(0, k))
        >= d by {
        if k < a.len() {
            assert(a[k] == 44);
            assert(s.subrange(0, k) =~= a.subrange(0, k));
        } else {
            let k2 = k - a.len();
            assert(b[k2] == 44);
            assert(s.subrange(0, k) =~= a + b.subrange(0, k2));
            lemma_pdelta_concat(a, b.subrange(0, k2));
        }
    }
}

/// A string without commas is comma-deep at any depth.
proof fn lemma_no_comma_deep(s: Seq<u8>, d: int)
    requires
        spec_no_comma(s),
    ensures
        spec_commas_deep(s, d),
{
}

/// No byte of `s` is a parenthesis or a comma.
pub open spec fn spec_plain(s: Seq<u8>) -> bool {
    forall|k: int|
        0 <= k < s.len() ==> #[trigger] s[k] != 40 && s[k] != 41 && s[k] != 44
}

/// A plain string is balanced.
proof fn lemma_plain_pdelta(s: Seq<u8>)
    requires
        spec_plain(s),
    ensures
        spec_pdelta(s) == 0,
    decreases s,
{
    if s.len() > 0 {
        assert(forall|k: int|
            0 <= k < s.len() - 1 ==> #[trigger] s.drop_last()[k] == s[k]);
        lemma_plain_pdelta(s.drop_last());
        assert(s.last() == s[s.len() - 1]);
    }
}

/// Plainness is closed under concatenation.
proof fn lemma_plain_concat(a: Seq<u8>, b: Seq<u8>)
    requires
        spec_plain(a),
        spec_plain(b),
    ensures
        spec_plain(a + b),
{
    assert forall|k: int|
        0 <= k < (a + b).len() implies #[trigger] (a + b)[k] != 40 && (a + b)[k] != 41 && (a
        + b)[k] != 44 by {
        if k < a.len() {
            assert((a + b)[k] == a[k]);
        } else {
            assert((a + b)[k] == b[k - a.len()]);
        }
    }
}

/// Decimal digits are plain bytes.
proof fn lemma_dec_digits_plain(n: nat)
    ensures
        spec_plain(spec_dec_digits(n)),
{
    lemma_dec_digits_are_digits(n);
}

/// The canonical name of a primitive descriptor, the bit digits of a
/// width, and the array markers are plain bytes.
proof fn lemma_bit_digits_plain(w: IntWidth)
    ensures
        spec_plain(w.spec_bit_digits()),
{
    match w {
        IntWidth::W8 => {
            let s = seq![56u8];
            assert forall|k: int|
                0 <= k < s.len() implies #[trigger] s[k] != 40 && s[k] != 41 && s[k] != 44 by {
                assert(s[0] == 56);
            }
        },
        IntWidth::W16 => {
            let s = seq![49u8, 54u8];
            assert forall|k: int|
                0 <= k < s.len() implies #[trigger] s[k] != 40 && s[k] != 41 && s[k] != 44 by {
                if k == 0 {
                    assert(s[0] == 49);
                } else {
                    assert(s[1] == 54);
                }
            }
        },
        IntWidth::W32 => {
            let s = seq![51u8, 50u8];
            assert forall|k: int|
                0 <= k < s.len() implies #[trigger] s[k] != 40 && s[k] != 41 && s[k] != 44 by {
                if k == 0 {
                    assert(s[0] == 51);
                } else {
                    assert(s[1] == 50);
                }
            }
        },
        IntWidth::W64 => {
            let s = seq![54u8, 52u8];
            assert forall|k: int|
                0 <= k < s.len() implies #[trigger] s[k] != 40 && s[k] != 41 && s[k] != 44 by {
                if k == 0 {
                    assert(s[0] == 54);
                } else {
                    assert(s[1] == 52);
                }
            }
        },
        IntWidth::W128 => {
            let s = seq![49u8, 50u8, 56u8];
            assert forall|k: int|
                0 <= k < s.len() implies #[trigger] s[k] != 40 && s[k] != 41 && s[k] != 44 by {
                if k == 0 {
                    assert(s[0] == 49);
                } else if k == 1 {
                    assert(s[1] == 50);
                } else {
                    assert(s[2] == 56);
                }
            }
        },
    }
}

/// Canonical names are balanced and keep every comma inside at least one
/// pair of parentheses.
proof fn lemma_canon_scan(t: TypeDescriptor)
    ensures
        spec_pdelta(spec_canon(t)) == 0,
        spec_commas_deep(spec_canon(t), 1),
    decreases t, 0nat,
{
    match t {
        TypeDescriptor::Uint(w) => {
            lemma_bit_digits_plain(w);
            lemma_prefix_plain_uint();
            lemma_plain_concat(seq![117u8, 105u8, 110u8, 116u8], w.spec_bit_digits());
            lemma_plain_pdelta(spec_canon(t));
        },
        TypeDescriptor::Int(w) => {
            lemma_bit_digits_plain(w);
            lemma_prefix_plain_int();
            lemma_plain_concat(seq![105u8, 110u8, 116u8], w.spec_bit_digits());
            lemma_plain_pdelta(spec_canon(t));
        },
        TypeDescriptor::Bool => {
            lemma_prefix_plain_bool();
            lemma_plain_pdelta(spec_canon(t));
        },
        TypeDescriptor::Address => {
            lemma_prefix_plain_address();
            lemma_plain_pdelta(spec_canon(t));
        },
        TypeDescriptor::FixedBytes(n) => {
            lemma_prefix_plain_bytes();
            lemma_dec_digits_plain(n as nat);
            lemma_plain_concat(
                seq![98u8, 121u8, 116u8, 101u8, 115u8],
                spec_dec_digits(n as nat),
            );
            lemma_plain_pdelta(spec_canon(t));
        },
        TypeDescriptor::Bytes => {
            lemma_prefix_plain_bytes();
            lemma_plain_pdelta(spec_canon(t));
        },
        TypeDescriptor::Str => {
            lemma_prefix_plain_string();
            lemma_plain_pdelta(spec_canon(t));
        },
        TypeDescriptor::DynArray(inner) => {
            lemma_canon_scan(*inner);
            lemma_markers_plain();
            lemma_pdelta_concat(spec_canon(*inner), seq![91u8, 93u8]);
            lemma_plain_pdelta(seq![91u8, 93u8]);
            lemma_no_comma_deep(seq![91u8, 93u8], 1);
            lemma_commas_deep_concat(spec_canon(*inner), seq![91u8, 93u8], 1, 1, 1);
        },
        TypeDescriptor::FixedArray(inner, n) => {
            lemma_canon_scan(*inner);
            lemma_markers_plain();
            lemma_dec_digits_plain(n as nat);
            let tail = seq![91u8] + spec_dec_digits(n as nat) + seq![93u8];
            lemma_plain_concat(seq![91u8], spec_dec_digits(n as nat));
            lemma_plain_concat(seq![91u8] + spec_dec_digits(n as nat), seq![93u8]);
            lemma_plain_pdelta(tail);
            lemma_no_comma_deep(tail, 1);
            assert(spec_canon(t) =~= spec_canon(*inner) + tail);
            lemma_pdelta_concat(spec_canon(*inner), tail);
            lemma_commas_deep_concat(spec_canon(*inner), tail, 1, 1, 1);
        },
        TypeDescriptor::Tuple(elems) => {
            lemma_canon_list_scan(elems@);
            let body = spec_canon_list(elems@);
            let open = seq![40u8];
            let close = seq![41u8];
            assert(spec_pdelta(open) == 1) by {
                assert(spec_pdelta(Seq::<u8>::empty()) == 0);
                assert(open.drop_last() =~= Seq::<u8>::empty());
                assert(open.last() == 40);
            };
            assert(spec_pdelta(close) == -1) by {
                assert(spec_pdelta(Seq::<u8>::empty()) == 0);
                assert(close.drop_last() =~= Seq::<u8>::empty());
                assert(close.last() == 41);
            };
            lemma_pdelta_concat(open, body);
            lemma_pdelta_concat(open + body, close);
            assert(spec_canon(t) =~= open + body + close);
            assert(open[0] == 40);
            lemma_no_comma_deep(open, 1);
            lemma_commas_deep_concat(open, body, 1, 0, 1);
            lemma_no_comma_deep(close, 0);
            lemma_commas_deep_concat(open + body, close, 1, 0, 1);
        },
    }
}

/// Joined canonical names are balanced; their separating commas sit at
/// depth zero, every other comma deeper.
proof fn lemma_canon_list_scan(ts: Seq<TypeDescriptor>)
    ensures
        spec_pdelta(spec_canon_list(ts)) == 0,
        spec_commas_deep(spec_canon_list(ts), 0),
    decreases ts, 0nat,
{
    if ts.len() == 0 {
    } else if ts.len() == 1 {
        lemma_canon_scan(ts[0]);
    } else {
        lemma_canon_scan(ts[0]);
        lemma_canon_list_scan(ts.drop_first());
        let head = spec_canon(ts[0]);
        let sep = head.push(44u8);
        let rest = spec_canon_list(ts.drop_first());
        assert(sep =~= head + seq![44u8]);
        assert(spec_pdelta(seq![44u8]) == 0) by {
            assert(spec_pdelta(Seq::<u8>::empty()) == 0);
            assert(seq![44u8].drop_last() =~= Seq::<u8>::empty());
            assert(seq![44u8].last() == 44);
        };
        lemma_pdelta_concat(head, seq![44u8]);
        lemma_pdelta_concat(sep, rest);
        assert forall|k: int|
            0 <= k < sep.len() && #[trigger] sep[k] == 44 implies spec_pdelta(
            sep.subrange(0, k),
        ) >= 0 by {
            if k < head.len() {
                assert(sep.subrange(0, k) =~= head.subrange(0, k));
            } else {
                assert(sep.subrange(0, k) =~= head);
            }
        }
        lemma_commas_deep_concat(sep, rest, 0, 0, 0);
    }
}

/// The bytes of `"uint"` are plain.
proof fn lemma_prefix_plain_uint()
    ensures
        spec_plain(seq![117u8, 105u8, 110u8, 116u8]),
{
    let s = seq![117u8, 105u8, 110u8, 116u8];
    assert forall|k: int|
        0 <= k < s.len() implies #[trigger] s[k] != 40 && s[k] != 41 && s[k] != 44 by {
        if k == 0 {
            assert(s[0] == 117);
        } else if k == 1 {
            assert(s[1] == 105);
        } else if k == 2 {
            assert(s[2] == 110);
        } else {
            assert(s[3] == 116);
        }
    }
}

/// The bytes of `"int"` are plain.
proof fn lemma_prefix_plain_int()
    ensures
        spec_plain(seq![105u8, 110u8, 116u8]),
{
    let s = seq![105u8, 110u8, 116u8];
    assert forall|k: int|
        0 <= k < s.len() implies #[trigger] s[k] != 40 && s[k] != 41 && s[k] != 44 by {
        if k == 0 {
            assert(s[0] == 105);
        } else if k == 1 {
            assert(s[1] == 110);
        } else {
            assert(s[2] == 116);
        }
    }
}

/// The bytes of `"bool"` are plain.
proof fn lemma_prefix_plain_bool()
    ensures
        spec_plain(seq![98u8, 111u8, 111u8, 108u8]),
{
    let s = seq![98u8, 111u8, 111u8, 108u8];
    assert forall|k: int|
        0 <= k < s.len() implies #[trigger] s[k] != 40 && s[k] != 41 && s[k] != 44 by {
        if k == 0 {
            assert(s[0] == 98);
        } else if k == 1 {
            assert(s[1] == 111);
        } else if k == 2 {
            assert(s[2] == 111);
        } else {
            assert(s[3] == 108);
        }
    }
}

/// The bytes of `"address"` are plain.
proof fn lemma_prefix_plain_address()
    ensures
        spec_plain(seq![97u8, 100u8, 100u8, 114u8, 101u8, 115u8, 115u8]),
{
    let s = seq![97u8, 100u8, 100u8, 114u8, 101u8, 115u8, 115u8];
    assert forall|k: int|
        0 <= k < s.len() implies #[trigger] s[k] != 40 && s[k] != 41 && s[k] != 44 by {
        if k == 0 {
            assert(s[0] == 97);
        } else if k == 1 {
            assert(s[1] == 100);
        } else if k == 2 {
            assert(s[2] == 100);
        } else if k == 3 {
            assert(s[3] == 114);
        } else if k == 4 {
            assert(s[4] == 101);
        } else if k == 5 {
            assert(s[5] == 115);
        } else {
            assert(s[6] == 115);
        }
    }
}

/// The bytes of `"bytes"` are plain.
proof fn lemma_prefix_plain_bytes()
    ensures
        spec_plain(seq![98u8, 121u8, 116u8, 101u8, 115u8]),
{
    let s = seq![98u8, 121u8, 116u8, 101u8, 115u8];
    assert forall|k: int|
        0 <= k < s.len() implies #[trigger] s[k] != 40 && s[k] != 41 && s[k] != 44 by {
        if k == 0 {
            assert(s[0] == 98);
        } else if k == 1 {
            assert(s[1] == 121);
        } else if k == 2 {
            assert(s[2] == 116);
        } else if k == 3 {
            assert(s[3] == 101);
        } else {
            assert(s[4] == 115);
        }
    }
}

/// The bytes of `"string"` are plain.
proof fn lemma_prefix_plain_string()
    ensures
        spec_plain(seq![115u8, 116u8, 114u8, 105u8, 110u8, 103u8]),
{
    let s = seq![115u8, 116u8, 114u8, 105u8, 110u8, 103u8];
    assert forall|k: int|
        0 <= k < s.len() implies #[trigger] s[k] != 40 && s[k] != 41 && s[k] != 44 by {
        if k == 0 {
            assert(s[0] == 115);
        } else if k == 1 {
            assert(s[1] == 116);
        } else if k == 2 {
            assert(s[2] == 114);
        } else if k == 3 {
            assert(s[3] == 105);
        } else if k == 4 {
            assert(s[4] == 110);
        } else {
            assert(s[5] == 103);
        }
    }
}

/// The array marker bytes `[` and `]` are plain.
proof fn lemma_markers_plain()
    ensures
        spec_plain(seq![91u8, 93u8]),
        spec_plain(seq![91u8]),
        spec_plain(seq![93u8]),
{
    let s = seq![91u8, 93u8];
    assert forall|k: int|
        0 <= k < s.len() implies #[trigger] s[k] != 40 && s[k] != 41 && s[k] != 44 by {
        if k == 0 {
            assert(s[0] == 91);
        } else {
            assert(s[1] == 93);
        }
    }
    let s1 = seq![91u8];
    assert forall|k: int|
        0 <= k < s1.len() implies #[trigger] s1[k] != 40 && s1[k] != 41 && s1[k] != 44 by {
        assert(s1[0] == 91);
    }
    let s2 = seq![93u8];
    assert forall|k: int|
        0 <= k < s2.len() implies #[trigger] s2[k] != 40 && s2[k] != 41 && s2[k] != 44 by {
        assert(s2[0] == 93);
    }
}

/// Splitting a concatenation at a known boundary.
proof fn lemma_concat_cancel(a: Seq<u8>, b: Seq<u8>, x: Seq<u8>, y: Seq<u8>)
    requires
        a + x == b + y,
        a.len() == b.len(),
    ensures
        a == b,
        x == y,
{
    let s = a + x;
    assert(a =~= s.subrange(0, a.len() as int));
    assert(b =~= s.subrange(0, b.len() as int));
    assert(x =~= s.subrange(a.len() as int, s.len() as int));
    assert(y =~= s.subrange(b.len() as int, s.len() as int));
}

/// The last byte of a canonical name classifies its head constructor:
/// `]` for arrays, `)` for tuples, a letter or digit for primitives.
proof fn lemma_canon_last(t: TypeDescriptor)
    ensures
        spec_canon(t).len() >= 1,
        (t is DynArray || t is FixedArray) <==> spec_canon(t).last() == 93,
        (t is Tuple) <==> spec_canon(t).last() == 41,
{
    let c = spec_canon(t);
    match t {
        TypeDescriptor::Uint(w) => {
            assert(c.last() == w.spec_bit_digits().last());
            assert(48 <= c.last() <= 57) by {
                match w {
                    IntWidth::W8 => assert(w.spec_bit_digits().last() == 56),
                    IntWidth::W16 => assert(w.spec_bit_digits().last() == 54),
                    IntWidth::W32 => assert(w.spec_bit_digits().last() == 50),
                    IntWidth::W64 => assert(w.spec_bit_digits().last() == 52),
                    IntWidth::W128 => assert(w.spec_bit_digits().last() == 56),
                }
            };
        },
        TypeDescriptor::Int(w) => {
            assert(c.last() == w.spec_bit_digits().last());
            assert(48 <= c.last() <= 57) by {
                match w {
                    IntWidth::W8 => assert(w.spec_bit_digits().last() == 56),
                    IntWidth::W16 => assert(w.spec_bit_digits().last() == 54),
                    IntWidth::W32 => assert(w.spec_bit_digits().last() == 50),
                    IntWidth::W64 => assert(w.spec_bit_digits().last() == 52),
                    IntWidth::W128 => assert(w.spec_bit_digits().last() == 56),
                }
            };
        },
        TypeDescriptor::Bool => {
            assert(c.last() == 108);
        },
        TypeDescriptor::Address => {
            assert(c.last() == 115);
        },
        TypeDescriptor::FixedBytes(n) => {
            lemma_dec_digits_are_digits(n as nat);
            assert(c.last() == spec_dec_digits(n as nat).last());
        },
        TypeDescriptor::Bytes => {
            assert(c.last() == 115);
        },
        TypeDescriptor::Str => {
            assert(c.last() == 103);
        },
        TypeDescriptor::DynArray(inner) => {
            assert(c.last() == seq![91u8, 93u8][1]);
        },
        TypeDescriptor::FixedArray(inner, n) => {
            assert(c.last() == 93);
        },
        TypeDescriptor::Tuple(elems) => {
            assert(c.last() == 41);
        },
    }
}

/// Canonicalization is injective on valid descriptors: two trees with one
/// canonical name are structurally equal.  Together with
/// [`lemma_ty_eq_canon`], structurally distinct valid trees never share a
/// canonical name.
pub proof fn lemma_canon_injective(t1: TypeDescriptor, t2: TypeDescriptor)
    requires
        spec_valid_ty(t1),
        spec_valid_ty(t2),
        spec_canon(t1) == spec_canon(t2),
    ensures
        spec_ty_eq(t1, t2),
    decreases t1, 1nat,
{
    let c = spec_canon(t1);
    lemma_canon_last(t1);
    lemma_canon_last(t2);
    match (t1, t2) {
        (TypeDescriptor::Uint(w1), TypeDescriptor::Uint(w2)) => {
            lemma_concat_cancel(
                seq![117u8, 105u8, 110u8, 116u8],
                seq![117u8, 105u8, 110u8, 116u8],
                w1.spec_bit_digits(),
                w2.spec_bit_digits(),
            );
            lemma_bit_digits_injective(w1, w2);
        },
        (TypeDescriptor::Int(w1), TypeDescriptor::Int(w2)) => {
            lemma_concat_cancel(
                seq![105u8, 110u8, 116u8],
                seq![105u8, 110u8, 116u8],
                w1.spec_bit_digits(),
                w2.spec_bit_digits(),
            );
            lemma_bit_digits_injective(w1, w2);
        },
        (TypeDescriptor::FixedBytes(n1), TypeDescriptor::FixedBytes(n2)) => {
            lemma_concat_cancel(
                seq![98u8, 121u8, 116u8, 101u8, 115u8],
                seq![98u8, 121u8, 116u8, 101u8, 115u8],
                spec_dec_digits(n1 as nat),
                spec_dec_digits(n2 as nat),
            );
            lemma_dec_digits_injective(n1 as nat, n2 as nat);
        },
        (TypeDescriptor::DynArray(a), TypeDescriptor::DynArray(b)) => {
            lemma_concat_cancel(
                spec_canon(*a),
                spec_canon(*b),
                seq![91u8, 93u8],
                seq![91u8, 93u8],
            );
            lemma_canon_injective(*a, *b);
        },
        (TypeDescriptor::DynArray(a), TypeDescriptor::FixedArray(b, n)) => {
            lemma_array_shapes_differ(*a, *b, n);
        },
        (TypeDescriptor::FixedArray(a, n), TypeDescriptor::DynArray(b)) => {
            lemma_array_shapes_differ(*b, *a, n);
        },
        (TypeDescriptor::FixedArray(a, n1), TypeDescriptor::FixedArray(b, n2)) => {
            let d1 = spec_dec_digits(n1 as nat);
            let d2 = spec_dec_digits(n2 as nat);
            lemma_dec_digits_are_digits(n1 as nat);
            lemma_dec_digits_are_digits(n2 as nat);
            let ca = spec_canon(*a);
            let cb = spec_canon(*b);
            assert(c =~= ca + (seq![91u8] + d1 + seq![93u8]));
            assert(c =~= cb + (seq![91u8] + d2 + seq![93u8]));
            if d1.len() < d2.len() {
                let k = ca.len() as int;
                assert(c[k] == (seq![91u8] + d1 + seq![93u8])[0]);
                assert(c[k] == 91);
                // The same position lies inside the other rendering's
                // digit run.
                assert(k == cb.len() + 1 + (d2.len() - d1.len() - 1));
                assert(c[k] == d2[d2.len() - d1.len() - 1]);
                assert(false);
            } else if d2.len() < d1.len() {
                let k = cb.len() as int;
                assert(c[k] == (seq![91u8] + d2 + seq![93u8])[0]);
                assert(c[k] == 91);
                assert(k == ca.len() + 1 + (d1.len() - d2.len() - 1));
                assert(c[k] == d1[d1.len() - d2.len() - 1]);
                assert(false);
            } else {
                lemma_concat_cancel(ca, cb, seq![91u8] + d1 + seq![93u8], seq![91u8] + d2
                    + seq![93u8]);
                lemma_canon_injective(*a, *b);
                assert(d1 =~= (seq![91u8] + d1 + seq![93u8]).subrange(1, 1 + d1.len() as int));
                assert(d2 =~= (seq![91u8] + d2 + seq![93u8]).subrange(1, 1 + d2.len() as int));
                lemma_dec_digits_injective(n1 as nat, n2 as nat);
            }
        },
        (TypeDescriptor::Tuple(l1), TypeDescriptor::Tuple(l2)) => {
            let b1 = spec_canon_list(l1@);
            let b2 = spec_canon_list(l2@);
            assert(c =~= seq![40u8] + (b1 + seq![41u8]));
            assert(c =~= seq![40u8] + (b2 + seq![41u8]));
            lemma_concat_cancel(seq![40u8], seq![40u8], b1 + seq![41u8], b2 + seq![41u8]);
            lemma_concat_cancel(b1, b2, seq![41u8], seq![41u8]);
            lemma_canon_list_injective(l1@, l2@);
        },
        _ => {
            // Mismatched head constructors: the last byte already
            // separates arrays, tuples and primitives; among primitives
            // the leading bytes do.
            if !spec_ty_eq(t1, t2) {
                if !(t1 is DynArray || t1 is FixedArray || t1 is Tuple) && !(t2 is DynArray
                    || t2 is FixedArray || t2 is Tuple) {
                    lemma_prim_names_differ(t1, t2);
                }
                assert(false);
            }
        },
    }
}

/// A dynamic and a fixed-size array never share a canonical name: two
/// positions from the end one has `[`, the other a digit.
proof fn lemma_array_shapes_differ(a: TypeDescriptor, b: TypeDescriptor, n: usize)
    ensures
        spec_canon(TypeDescriptor::DynArray(Box::new(a))) != spec_canon(
            TypeDescriptor::FixedArray(Box::new(b), n),
        ),
{
    if spec_canon(TypeDescriptor::DynArray(Box::new(a))) != spec_canon(
        TypeDescriptor::FixedArray(Box::new(b), n),
    ) {
        return;
    }
    let d = spec_dec_digits(n as nat);
    lemma_dec_digits_are_digits(n as nat);
    let ca = spec_canon(a);
    let cb = spec_canon(b);
    let c = spec_canon(TypeDescriptor::DynArray(Box::new(a)));
    assert(c =~= ca + seq![91u8, 93u8]);
    assert(c =~= cb + (seq![91u8] + d + seq![93u8]));
    let k = c.len() - 2;
    assert(c[k] == seq![91u8, 93u8][0]);
    assert(c[k] == 91);
    assert(k == cb.len() + 1 + (d.len() - 1));
    assert(c[k] == d[d.len() - 1]);
    assert(false);
}

/// Two primitive descriptors of different kinds render to different
/// names: the names differ in length or in one of their first bytes.
proof fn lemma_prim_names_differ(t1: TypeDescriptor, t2: TypeDescriptor)
    requires
        !(t1 is DynArray || t1 is FixedArray || t1 is Tuple),
        !(t2 is DynArray || t2 is FixedArray || t2 is Tuple),
        !spec_ty_eq(t1, t2),
    ensures
        spec_canon(t1) != spec_canon(t2),
{
    if spec_canon(t1) != spec_canon(t2) {
        return;
    }
    let c = spec_canon(t1);
    match t1 {
        TypeDescriptor::Uint(w) => {
            assert(c[0] == 117);
        },
        TypeDescriptor::Int(w) => {
            assert(c[0] == 105);
        },
        TypeDescriptor::Bool => {
            assert(c[0] == 98 && c[1] == 111 && c.len() == 4);
        },
        TypeDescriptor::Address => {
            assert(c[0] == 97);
        },
        TypeDescriptor::FixedBytes(n) => {
            lemma_dec_digits_are_digits(n as nat);
            assert(c[0] == 98 && c[1] == 121 && c.len() >= 6);
        },
        TypeDescriptor::Bytes => {
            assert(c[0] == 98 && c[1] == 121 && c.len() == 5);
        },
        TypeDescriptor::Str => {
            assert(c[0] == 115 && c.len() == 6);
        },
        _ => {},
    }
    match t2 {
        TypeDescriptor::Uint(w) => {
            assert(c[0] == 117);
            match t1 {
                TypeDescriptor::Uint(w1) => {
                    lemma_concat_cancel(
                        seq![117u8, 105u8, 110u8, 116u8],
                        seq![117u8, 105u8, 110u8, 116u8],
                        w1.spec_bit_digits(),
                        w.spec_bit_digits(),
                    );
                    lemma_bit_digits_injective(w1, w);
                },
                _ => {},
            }
        },
        TypeDescriptor::Int(w) => {
            assert(c[0] == 105);
            match t1 {
                TypeDescriptor::Int(w1) => {
                    lemma_concat_cancel(
                        seq![105u8, 110u8, 116u8],
                        seq![105u8, 110u8, 116u8],
                        w1.spec_bit_digits(),
                        w.spec_bit_digits(),
                    );
                    lemma_bit_digits_injective(w1, w);
                },
                _ => {},
            }
        },
        TypeDescriptor::Bool => {
            assert(c[0] == 98 && c[1] == 111 && c.len() == 4);
        },
        TypeDescriptor::Address => {
            assert(c[0] == 97);
        },
        TypeDescriptor::FixedBytes(n) => {
            lemma_dec_digits_are_digits(n as nat);
            assert(c[0] == 98 && c[1] == 121 && c.len() >= 6);
            match t1 {
                TypeDescriptor::FixedBytes(n1) => {
                    lemma_concat_cancel(
                        seq![98u8, 121u8, 116u8, 101u8, 115u8],
                        seq![98u8, 121u8, 116u8, 101u8, 115u8],
                        spec_dec_digits(n1 as nat),
                        spec_dec_digits(n as nat),
                    );
                    lemma_dec_digits_injective(n1 as nat, n as nat);
                },
                _ => {},
            }
        },
        TypeDescriptor::Bytes => {
            assert(c[0] == 98 && c[1] == 121 && c.len() == 5);
        },
        TypeDescriptor::Str => {
            assert(c[0] == 115 && c.len() == 6);
        },
        _ => {},
    }
    assert(false);
}

/// Joined canonical names are injective on valid descriptor sequences.
proof fn lemma_canon_list_injective(l1: Seq<TypeDescriptor>, l2: Seq<TypeDescriptor>)
    requires
        spec_valid_ty_list(l1),
        spec_valid_ty_list(l2),
        spec_canon_list(l1) == spec_canon_list(l2),
    ensures
        spec_ty_eq_list(l1, l2),
    decreases l1, 2nat,
{
    let s = spec_canon_list(l1);
    if l1.len() == 0 && l2.len() == 0 {
    } else if l1.len() == 0 || l2.len() == 0 {
        let other = if l1.len() == 0 {
            l2
        } else {
            l1
        };
        let emptier = if l1.len() == 0 {
            l1
        } else {
            l2
        };
        lemma_canon_last(other[0]);
        assert(spec_canon_list(other).len() >= 1) by {
            if other.len() >= 2 {
                assert(spec_canon_list(other) == spec_canon(other[0]).push(44u8)
                    + spec_canon_list(other.drop_first()));
            }
        };
        assert(spec_canon_list(emptier).len() == 0);
        assert(false);
    } else if l1.len() == 1 && l2.len() == 1 {
        lemma_canon_injective(l1[0], l2[0]);
        assert(l1.drop_first().len() == 0 && l2.drop_first().len() == 0);
        assert(spec_ty_eq_list(l1.drop_first(), l2.drop_first()));
    } else if l1.len() == 1 {
        // One side is a single name, the other has a top-level comma at
        // the end of its first name: that comma would sit at depth zero
        // inside the single name, which the scan facts refuse.
        lemma_one_vs_many(l1[0], l2);
    } else if l2.len() == 1 {
        lemma_one_vs_many(l2[0], l1);
    } else {
        let h1 = spec_canon(l1[0]);
        let h2 = spec_canon(l2[0]);
        let r1 = spec_canon_list(l1.drop_first());
        let r2 = spec_canon_list(l2.drop_first());
        assert(s =~= h1 + (seq![44u8] + r1));
        assert(s =~= h2 + (seq![44u8] + r2));
        lemma_canon_scan(l1[0]);
        lemma_canon_scan(l2[0]);
        if h1.len() < h2.len() {
            assert(s[h1.len() as int] == (seq![44u8] + r1)[0]);
            assert(s[h1.len() as int] == 44);
            assert(h2 =~= s.subrange(0, h2.len() as int));
            assert(h2[h1.len() as int] == 44);
            assert(h2.subrange(0, h1.len() as int) =~= s.subrange(0, h1.len() as int));
            assert(h2.subrange(0, h1.len() as int) =~= h1);
            assert(spec_pdelta(h2.subrange(0, h1.len() as int)) == 0);
            assert(spec_pdelta(h2.subrange(0, h1.len() as int)) >= 1);
            assert(false);
        } else if h2.len() < h1.len() {
            assert(s[h2.len() as int] == (seq![44u8] + r2)[0]);
            assert(s[h2.len() as int] == 44);
            assert(h1 =~= s.subrange(0, h1.len() as int));
            assert(h1[h2.len() as int] == 44);
            assert(h1.subrange(0, h2.len() as int) =~= s.subrange(0, h2.len() as int));
            assert(h1.subrange(0, h2.len() as int) =~= h2);
            assert(spec_pdelta(h1.subrange(0, h2.len() as int)) == 0);
            assert(spec_pdelta(h1.subrange(0, h2.len() as int)) >= 1);
            assert(false);
        } else {
            lemma_concat_cancel(h1, h2, seq![44u8] + r1, seq![44u8] + r2);
            lemma_canon_injective(l1[0], l2[0]);
            lemma_concat_cancel(seq![44u8], seq![44u8], r1, r2);
            lemma_canon_list_injective(l1.drop_first(), l2.drop_first());
            assert(l1.len() == l2.len());
            assert(spec_ty_eq_list(l1, l2));
        }
    }
}

/// A single canonical name never equals a comma-joined list of two or
/// more.
proof fn lemma_one_vs_many(h: TypeDescriptor, many: Seq<TypeDescriptor>)
    requires
        spec_valid_ty(h),
        spec_valid_ty_list(many),
        many.len() >= 2,
    ensures
        spec_canon(h) != spec_canon_list(many),
{
    if spec_canon(h) != spec_canon_list(many) {
        return;
    }
    let s = spec_canon(h);
    let h2 = spec_canon(many[0]);
    let rest = spec_canon_list(many.drop_first());
    assert(s =~= h2 + (seq![44u8] + rest));
    assert(s[h2.len() as int] == (seq![44u8] + rest)[0]);
    assert(s[h2.len() as int] == 44);
    lemma_canon_scan(h);
    lemma_canon_scan(many[0]);
    assert(s.subrange(0, h2.len() as int) =~= h2);
    assert(spec_pdelta(s.subrange(0, h2.len() as int)) == 0);
    assert(spec_pdelta(s.subrange(0, h2.len() as int)) >= 1);
    assert(false);
}

/// Canonical signatures are injective: a signature determines the
/// function's name and the structure of its parameter list.  Two
/// functions with distinct names or structurally distinct parameters
/// never share the string that feeds the selector hash.
pub proof fn lemma_canon_sig_injective(
    n1: Seq<u8>,
    p1: Seq<TypeDescriptor>,
    n2: Seq<u8>,
    p2: Seq<TypeDescriptor>,
)
    requires
        spec_valid_name(n1),
        spec_valid_name(n2),
        spec_valid_ty_list(p1),
        spec_valid_ty_list(p2),
        spec_canon_sig(n1, p1) == spec_canon_sig(n2, p2),
    ensures
        n1 == n2,
        spec_ty_eq_list(p1, p2),
{
    let s = spec_canon_sig(n1, p1);
    assert(s =~= n1 + (seq![40u8] + spec_canon_list(p1) + seq![41u8]));
    assert(s =~= n2 + (seq![40u8] + spec_canon_list(p2) + seq![41u8]));
    if n1.len() < n2.len() {
        assert(s[n1.len() as int] == (seq![40u8] + spec_canon_list(p1) + seq![41u8])[0]);
        assert(s[n1.len() as int] == 40);
        assert(s[n1.len() as int] == n2[n1.len() as int]);
        assert(spec_ident_byte(n2[n1.len() as int]));
        assert(false);
    } else if n2.len() < n1.len() {
        assert(s[n2.len() as int] == (seq![40u8] + spec_canon_list(p2) + seq![41u8])[0]);
        assert(s[n2.len() as int] == 40);
        assert(s[n2.len() as int] == n1[n2.len() as int]);
        assert(spec_ident_byte(n1[n2.len() as int]));
        assert(false);
    } else {
        lemma_concat_cancel(
            n1,
            n2,
            seq![40u8] + spec_canon_list(p1) + seq![41u8],
            seq![40u8] + spec_canon_list(p2) + seq![41u8],
        );
        let w1 = seq![40u8] + spec_canon_list(p1) + seq![41u8];
        let w2 = seq![40u8] + spec_canon_list(p2) + seq![41u8];
        assert(spec_canon_list(p1) =~= w1.subrange(1, w1.len() - 1));
        assert(spec_canon_list(p2) =~= w2.subrange(1, w2.len() - 1));
        lemma_canon_list_injective(p1, p2);
    }
}

} // verus!
