//! Build-time construction of the dispatch table.
//!
//! A contract declaration — ordered storage fields and ordered function
//! declarations, exactly one of them the constructor — is assembled into a
//! [`DispatchTable`]: one entry per declared external function, in
//! declaration order, followed by one synthesized read-only getter per
//! public field not shadowed by a declared function of the same name.
//! Every entry's selectors are derived through the canonicalizer and
//! hasher, and the whole surface is checked for selector collisions, per
//! algorithm, before a table is handed out.  The constructor is kept out
//! of the table's routable entries (it is invoked once, out of band) but
//! its declaration is validated like any other.

use vstd::prelude::*;
use crate::ty::{
    spec_valid_ty, spec_valid_ty_list, spec_valid_name, spec_canon_sig, TypeDescriptor,
    canonical_signature, check_valid_name, check_valid_ty, check_valid_ty_list,
};
use crate::hash::{spec_selector, HashAlgorithm, hash_selector};

verus! {

/// A declared function: name, ordered parameter types, return types
/// (empty for none, several for a tuple), mutability of its receiver, and
/// whether it is the constructor.
pub struct FnDecl {
    /// ASCII identifier.
    pub name: Vec<u8>,
    /// Ordered parameter type descriptors.
    pub params: Vec<TypeDescriptor>,
    /// Return type descriptors; empty when nothing is returned.
    pub ret: Vec<TypeDescriptor>,
    /// True for an exclusive (mutating) receiver.
    pub is_mut: bool,
    /// True for the constructor.
    pub is_constructor: bool,
}

/// A declared storage field.
pub struct FieldDecl {
    /// ASCII identifier.
    pub name: Vec<u8>,
    /// The field's type.
    pub ty: TypeDescriptor,
    /// Public fields get synthesized getters.
    pub is_public: bool,
}

/// A whole contract declaration.
pub struct ContractDecl {
    /// Ordered storage fields.
    pub fields: Vec<FieldDecl>,
    /// Ordered function declarations, exactly one marked constructor.
    pub functions: Vec<FnDecl>,
}

/// One routable entry of the dispatch table.
pub struct DispatchEntry {
    /// The function's name.
    pub name: Vec<u8>,
    /// Ordered parameter type descriptors.
    pub params: Vec<TypeDescriptor>,
    /// Return type descriptors; empty when nothing is returned.
    pub ret: Vec<TypeDescriptor>,
    /// True for a mutating entry.
    pub is_mut: bool,
    /// True for a synthesized getter.
    pub is_getter: bool,
    /// Selector under Keccak-256.
    pub keccak_selector: u32,
    /// Selector under SM3.
    pub sm3_selector: u32,
}

impl DispatchEntry {
    /// The entry's selector under `algo`.
    pub open spec fn spec_selector_of(self, algo: HashAlgorithm) -> u32 {
        match algo {
            HashAlgorithm::Keccak256 => self.keccak_selector,
            HashAlgorithm::Sm3 => self.sm3_selector,
        }
    }

    /// The entry's selector under `algo`.
    pub fn selector_of(&self, algo: HashAlgorithm) -> (r: u32)
        ensures
            r == self.spec_selector_of(algo),
    {
        match algo {
            HashAlgorithm::Keccak256 => self.keccak_selector,
            HashAlgorithm::Sm3 => self.sm3_selector,
        }
    }

    /// The entry's canonical signature.
    pub open spec fn spec_sig(self) -> Seq<u8> {
        spec_canon_sig(self.name@, self.params@)
    }

    /// Well-formed: valid name and types, and each stored selector is the
    /// hash of the canonical signature under its algorithm.
    pub open spec fn spec_wf(self) -> bool {
        &&& spec_valid_name(self.name@)
        &&& spec_valid_ty_list(self.params@)
        &&& spec_valid_ty_list(self.ret@)
        &&& self.keccak_selector == spec_selector(self.spec_sig(), HashAlgorithm::Keccak256)
        &&& self.sm3_selector == spec_selector(self.spec_sig(), HashAlgorithm::Sm3)
    }
}

/// The constructor's declaration, kept beside the routable entries.
pub struct ConstructorEntry {
    /// The constructor's name.
    pub name: Vec<u8>,
    /// Ordered parameter type descriptors.
    pub params: Vec<TypeDescriptor>,
}

/// The immutable dispatch table: the constructor plus the routable
/// entries, one per external function and synthesized getter.
pub struct DispatchTable {
    /// The constructor.
    pub constructor: ConstructorEntry,
    /// Routable entries, in build order; lookup is by selector, never by
    /// position.
    pub entries: Vec<DispatchEntry>,
}

/// All selectors of `es` under `algo` are pairwise distinct.
pub open spec fn spec_distinct_selectors(es: Seq<DispatchEntry>, algo: HashAlgorithm) -> bool {
    forall|i: int, j: int|
        0 <= i < j < es.len() ==> es[i].spec_selector_of(algo) != es[j].spec_selector_of(algo)
}

impl DispatchTable {
    /// Well-formed: valid constructor declaration, well-formed entries,
    /// and per-algorithm pairwise distinct selectors.
    pub open spec fn spec_wf(self) -> bool {
        &&& spec_valid_ty_list(self.constructor.params@)
        &&& forall|i: int| 0 <= i < self.entries@.len() ==> (#[trigger] self.entries@[i]).spec_wf()
        &&& spec_distinct_selectors(self.entries@, HashAlgorithm::Keccak256)
        &&& spec_distinct_selectors(self.entries@, HashAlgorithm::Sm3)
    }
}

/// Why a contract cannot be built.  All of these are fatal build-time
/// conditions; none can be observed at call time.
#[derive(Debug)]
pub enum BuildError {
    /// No function is marked as the constructor.
    MissingConstructor,
    /// More than one function is marked as the constructor.
    MultipleConstructors,
    /// A name is not a valid identifier, or a type descriptor is
    /// malformed.
    InvalidDeclaration,
    /// Two distinct surface functions share a selector under an
    /// algorithm.
    SelectorCollision {
        /// Name of the first colliding function.
        first: Vec<u8>,
        /// Name of the second colliding function.
        second: Vec<u8>,
        /// The shared selector value.
        selector: u32,
        /// The algorithm under which they collide.
        algorithm: HashAlgorithm,
    },
}

/// How many functions of `s` are marked constructor.
pub open spec fn spec_num_constructors(s: Seq<FnDecl>) -> int
    decreases s,
{
    if s.len() == 0 {
        0
    } else {
        spec_num_constructors(s.drop_last()) + if s.last().is_constructor {
            1int
        } else {
            0int
        }
    }
}

/// The external (non-constructor) functions of `s`, in order.
pub open spec fn spec_externals(s: Seq<FnDecl>) -> Seq<FnDecl>
    decreases s,
{
    if s.len() == 0 {
        Seq::empty()
    } else if s.last().is_constructor {
        spec_externals(s.drop_last())
    } else {
        spec_externals(s.drop_last()).push(s.last())
    }
}

/// Some function of `s` is named `nm`.
pub open spec fn spec_any_fn_named(s: Seq<FnDecl>, nm: Seq<u8>) -> bool {
    exists|i: int| 0 <= i < s.len() && s[i].name@ == nm
}

/// The public fields of `fields` not shadowed by a function of `fns`, in
/// order: these get synthesized getters.
pub open spec fn spec_getter_fields(fields: Seq<FieldDecl>, fns: Seq<FnDecl>) -> Seq<FieldDecl>
    decreases fields,
{
    if fields.len() == 0 {
        Seq::empty()
    } else {
        let init = spec_getter_fields(fields.drop_last(), fns);
        if fields.last().is_public && !spec_any_fn_named(fns, fields.last().name@) {
            init.push(fields.last())
        } else {
            init
        }
    }
}

/// A function declaration is valid: identifier name, valid parameter and
/// return types.
pub open spec fn spec_fn_valid(f: FnDecl) -> bool {
    spec_valid_name(f.name@) && spec_valid_ty_list(f.params@) && spec_valid_ty_list(f.ret@)
}

/// A field declaration is valid: identifier name, valid type.
pub open spec fn spec_field_valid(fd: FieldDecl) -> bool {
    spec_valid_name(fd.name@) && spec_valid_ty(fd.ty)
}

/// Every declaration of the contract is valid.
pub open spec fn spec_decl_valid(decl: ContractDecl) -> bool {
    &&& forall|i: int|
        0 <= i < decl.functions@.len() ==> spec_fn_valid(#[trigger] decl.functions@[i])
    &&& forall|i: int| 0 <= i < decl.fields@.len() ==> spec_field_valid(#[trigger] decl.fields@[i])
}

/// How many functions the contract's external surface has: declared
/// externals plus synthesized getters.
pub open spec fn spec_surface_len(decl: ContractDecl) -> int {
    spec_externals(decl.functions@).len() + spec_getter_fields(
        decl.fields@,
        decl.functions@,
    ).len() as int
}

/// The name of surface function `k`: externals first, then getters.
pub open spec fn spec_surface_name(decl: ContractDecl, k: int) -> Seq<u8> {
    let exts = spec_externals(decl.functions@);
    if k < exts.len() {
        exts[k].name@
    } else {
        spec_getter_fields(decl.fields@, decl.functions@)[k - exts.len()].name@
    }
}

/// The canonical signature of surface function `k`: a getter takes no
/// parameters.
pub open spec fn spec_surface_sig(decl: ContractDecl, k: int) -> Seq<u8> {
    let exts = spec_externals(decl.functions@);
    if k < exts.len() {
        spec_canon_sig(exts[k].name@, exts[k].params@)
    } else {
        spec_canon_sig(spec_surface_name(decl, k), Seq::empty())
    }
}

/// No two distinct surface functions share a selector under any
/// configured algorithm.
pub open spec fn spec_collision_free(decl: ContractDecl) -> bool {
    forall|i: int, j: int, algo: HashAlgorithm|
        0 <= i < j < spec_surface_len(decl) ==> #[trigger] spec_selector(
            spec_surface_sig(decl, i),
            algo,
        ) != #[trigger] spec_selector(spec_surface_sig(decl, j), algo)
}

/// The table entry `e` carries external function `f`.
pub open spec fn spec_entry_from_fn(e: DispatchEntry, f: FnDecl) -> bool {
    &&& e.name@ == f.name@
    &&& e.params@ == f.params@
    &&& e.ret@ == f.ret@
    &&& e.is_mut == f.is_mut
    &&& !e.is_getter
}

/// The table entry `e` is the synthesized getter of field `fd`.
pub open spec fn spec_entry_from_field(e: DispatchEntry, fd: FieldDecl) -> bool {
    &&& e.name@ == fd.name@
    &&& e.params@.len() == 0
    &&& e.ret@ =~= seq![fd.ty]
    &&& !e.is_mut
    &&& e.is_getter
}

/// Compare two byte strings.
pub fn bytes_eq(a: &Vec<u8>, b: &Vec<u8>) -> (r: bool)
    ensures
        r == (a@ == b@),
{
    if a.len() != b.len() {
        proof {
            assert(a@.len() != b@.len());
        }
        return false;
    }
    let mut i: usize = 0;
    while i < a.len()
        invariant
            0 <= i <= a@.len(),
            a@.len() == b@.len(),
            forall|j: int| 0 <= j < i ==> a@[j] == b@[j],
        decreases a@.len() - i,
    {
        if a[i] != b[i] {
            return false;
        }
        i = i + 1;
    }
    proof {
        assert(a@ =~= b@);
    }
    true
}

/// Copy a byte string.
pub fn clone_bytes(s: &Vec<u8>) -> (r: Vec<u8>)
    ensures
        r@ == s@,
{
    let mut r: Vec<u8> = Vec::new();
    let mut i: usize = 0;
    while i < s.len()
        invariant
            0 <= i <= s@.len(),
            r@ == s@.subrange(0, i as int),
        decreases s@.len() - i,
    {
        r.push(s[i]);
        proof {
            assert(s@.subrange(0, i as int + 1) =~= s@.subrange(0, i as int).push(s@[i as int]));
        }
        i = i + 1;
    }
    proof {
        assert(s@.subrange(0, s@.len() as int) =~= s@);
    }
    r
}

/// Find a pair of distinct entries sharing a selector under `algo`.
fn find_collision(entries: &Vec<DispatchEntry>, algo: HashAlgorithm) -> (r: Option<(usize, usize)>)
    ensures
        match r {
            Some(p) => p.0 < p.1 < entries@.len() && entries@[p.0 as int].spec_selector_of(algo)
                == entries@[p.1 as int].spec_selector_of(algo),
            None => spec_distinct_selectors(entries@, algo),
        },
{
    let n = entries.len();
    let mut i: usize = 0;
    while i < n
        invariant
            0 <= i <= n == entries@.len(),
            forall|a: int, b: int|
                0 <= a < b < entries@.len() && a < i ==> entries@[a].spec_selector_of(algo)
                    != entries@[b].spec_selector_of(algo),
        decreases n - i,
    {
        let si = entries[i].selector_of(algo);
        let mut j: usize = i + 1;
        while j < n
            invariant
                0 <= i < j <= n == entries@.len(),
                si == entries@[i as int].spec_selector_of(algo),
                forall|b: int|
                    i < b < j ==> entries@[i as int].spec_selector_of(algo)
                        != entries@[b].spec_selector_of(algo),
            decreases n - j,
        {
            if entries[j].selector_of(algo) == si {
                return Some((i, j));
            }
            j = j + 1;
        }
        i = i + 1;
    }
    None
}

/// A sequence without constructors counts zero of them.
proof fn lemma_no_ctor_count(s: Seq<FnDecl>)
    requires
        forall|j: int| 0 <= j < s.len() ==> !(#[trigger] s[j]).is_constructor,
    ensures
        spec_num_constructors(s) == 0,
    decreases s,
{
    if s.len() > 0 {
        lemma_no_ctor_count(s.drop_last());
    }
}

/// Two distinct constructors force a count of at least two.
proof fn lemma_ctor_pair_count(s: Seq<FnDecl>, i: int, j: int)
    requires
        0 <= i < j < s.len(),
        s[i].is_constructor,
        s[j].is_constructor,
    ensures
        spec_num_constructors(s) >= 2,
    decreases s,
{
    lemma_ctor_count_at_least(s, i);
    if j == s.len() - 1 {
        lemma_ctor_count_at_least(s.drop_last(), i);
    } else {
        lemma_ctor_pair_count(s.drop_last(), i, j);
    }
}

/// One constructor forces a count of at least one.
proof fn lemma_ctor_count_at_least(s: Seq<FnDecl>, i: int)
    requires
        0 <= i < s.len(),
        s[i].is_constructor,
    ensures
        spec_num_constructors(s) >= 1,
    decreases s,
{
    if i < s.len() - 1 {
        lemma_ctor_count_at_least(s.drop_last(), i);
    } else {
        lemma_ctor_count_nonneg(s.drop_last());
    }
}

/// Constructor counts are never negative.
proof fn lemma_ctor_count_nonneg(s: Seq<FnDecl>)
    ensures
        spec_num_constructors(s) >= 0,
    decreases s,
{
    if s.len() > 0 {
        lemma_ctor_count_nonneg(s.drop_last());
    }
}

/// A function name occurs among the declarations exactly when it occurs
/// among the externals or is the constructor's own name, provided the
/// constructor is unique.
proof fn lemma_fn_names_split(s: Seq<FnDecl>, ci: int, nm: Seq<u8>)
    requires
        0 <= ci < s.len(),
        s[ci].is_constructor,
        forall|j: int| 0 <= j < s.len() && (#[trigger] s[j]).is_constructor ==> j == ci,
    ensures
        spec_any_fn_named(s, nm) <==> ((exists|i: int|
            0 <= i < spec_externals(s).len() && (#[trigger] spec_externals(s)[i]).name@ == nm)
            || s[ci].name@ == nm),
    decreases s,
{
    let exts = spec_externals(s);
    lemma_externals_index(s);
    if spec_any_fn_named(s, nm) {
        let w = choose|i: int| 0 <= i < s.len() && s[i].name@ == nm;
        if w == ci {
        } else {
            assert(!s[w].is_constructor);
            let k = choose|k: int|
                0 <= k < exts.len() && exts[k] == s[w] && 0 <= k;
            assert(exts[k].name@ == nm);
        }
    }
    if exists|i: int| 0 <= i < exts.len() && (#[trigger] exts[i]).name@ == nm {
        let k = choose|i: int| 0 <= i < exts.len() && exts[i].name@ == nm;
        let w = choose|w: int| 0 <= w < s.len() && s[w] == exts[k];
        assert(s[w].name@ == nm);
    }
    if s[ci].name@ == nm {
        assert(spec_any_fn_named(s, nm));
    }
}

/// Every external is a declared function, and every non-constructor
/// declaration appears among the externals.
proof fn lemma_externals_index(s: Seq<FnDecl>)
    ensures
        forall|k: int|
            0 <= k < spec_externals(s).len() ==> exists|w: int|
                0 <= w < s.len() && s[w] == #[trigger] spec_externals(s)[k]
                    && !s[w].is_constructor,
        forall|w: int|
            0 <= w < s.len() && !(#[trigger] s[w]).is_constructor ==> exists|k: int|
                0 <= k < spec_externals(s).len() && spec_externals(s)[k] == s[w],
    decreases s,
{
    if s.len() > 0 {
        let init = s.drop_last();
        lemma_externals_index(init);
        assert(forall|w: int| 0 <= w < init.len() ==> init[w] == s[w]);
        let exts = spec_externals(s);
        let einit = spec_externals(init);
        if s.last().is_constructor {
            assert(exts == einit);
            assert forall|w: int|
                0 <= w < s.len() && !(#[trigger] s[w]).is_constructor implies exists|k: int|
                0 <= k < exts.len() && exts[k] == s[w] by {
                assert(w < s.len() - 1);
                let k = choose|k: int| 0 <= k < einit.len() && einit[k] == init[w];
                assert(exts[k] == s[w]);
            }
        } else {
            assert(exts == einit.push(s.last()));
            assert forall|k: int|
                0 <= k < exts.len() implies exists|w: int|
                0 <= w < s.len() && s[w] == #[trigger] exts[k] && !s[w].is_constructor by {
                if k < einit.len() {
                    assert(exts[k] == einit[k]);
                    let w = choose|w: int|
                        0 <= w < init.len() && init[w] == einit[k] && !init[w].is_constructor;
                    assert(s[w] == exts[k] && !s[w].is_constructor);
                } else {
                    assert(exts[k] == s[s.len() - 1]);
                }
            }
            assert forall|w: int|
                0 <= w < s.len() && !(#[trigger] s[w]).is_constructor implies exists|k: int|
                0 <= k < exts.len() && exts[k] == s[w] by {
                if w < s.len() - 1 {
                    let k = choose|k: int| 0 <= k < einit.len() && einit[k] == init[w];
                    assert(exts[k] == s[w]);
                } else {
                    assert(exts[exts.len() - 1] == s[w]);
                }
            }
        }
    }
}

/// Does any of the first `upto` entries carry the name `nm`?
fn entries_have_name(entries: &Vec<DispatchEntry>, upto: usize, nm: &Vec<u8>) -> (r: bool)
    requires
        upto <= entries@.len(),
    ensures
        r == exists|i: int| 0 <= i < upto && (#[trigger] entries@[i]).name@ == nm@,
{
    let mut i: usize = 0;
    while i < upto
        invariant
            0 <= i <= upto <= entries@.len(),
            forall|j: int| 0 <= j < i ==> (#[trigger] entries@[j]).name@ != nm@,
        decreases upto - i,
    {
        if bytes_eq(&entries[i].name, nm) {
            return true;
        }
        i = i + 1;
    }
    false
}

/// Build the dispatch table of a contract declaration.
///
/// On success the table holds, in order, one well-formed entry per
/// declared external function and one synthesized read-only getter per
/// unshadowed public field, with per-algorithm distinct selectors; the
/// constructor is validated and kept beside them.  Each failure case is
/// exact: no constructor, more than one, an invalid declaration, or a
/// selector collision between two named surface functions.
pub fn build_dispatch_table(decl: ContractDecl) -> (r: Result<DispatchTable, BuildError>)
    ensures
        match r {
            Ok(table) => {
                &&& spec_num_constructors(decl.functions@) == 1
                &&& spec_decl_valid(decl)
                &&& spec_collision_free(decl)
                &&& table.spec_wf()
                &&& forall|ci: int|
                    0 <= ci < decl.functions@.len() && (#[trigger] decl.functions@[ci]).is_constructor
                        ==> table.constructor.name@ == decl.functions@[ci].name@
                            && table.constructor.params@ == decl.functions@[ci].params@
                &&& table.entries@.len() == spec_surface_len(decl)
                &&& forall|i: int|
                    0 <= i < spec_externals(decl.functions@).len() ==> spec_entry_from_fn(
                        #[trigger] table.entries@[i],
                        spec_externals(decl.functions@)[i],
                    )
                &&& forall|g: int|
                    0 <= g < spec_getter_fields(decl.fields@, decl.functions@).len()
                        ==> spec_entry_from_field(
                        #[trigger] table.entries@[spec_externals(decl.functions@).len() + g],
                        spec_getter_fields(decl.fields@, decl.functions@)[g],
                    )
            },
            Err(e) => match e {
                BuildError::MissingConstructor => spec_num_constructors(decl.functions@) == 0,
                BuildError::MultipleConstructors => spec_num_constructors(decl.functions@) >= 2,
                BuildError::InvalidDeclaration => spec_num_constructors(decl.functions@) == 1
                    && !spec_decl_valid(decl),
                BuildError::SelectorCollision { first, second, selector, algorithm } => {
                    &&& spec_num_constructors(decl.functions@) == 1
                    &&& spec_decl_valid(decl)
                    &&& exists|i: int, j: int|
                        #![auto]
                        0 <= i < j < spec_surface_len(decl) && spec_selector(
                            spec_surface_sig(decl, i),
                            algorithm,
                        ) == selector && spec_selector(spec_surface_sig(decl, j), algorithm)
                            == selector && first@ == spec_surface_name(decl, i) && second@
                            == spec_surface_name(decl, j)
                },
            },
        },
{
    let ghost gdecl = decl;
    let ContractDecl { fields, functions } = decl;
    let ghost gfns = functions@;
    let ghost gfields = fields@;
    proof {
        assert(gdecl.functions@ == gfns);
        assert(gdecl.fields@ == gfields);
    }
    let n = functions.len();

    // Exactly one constructor.
    let mut cnt: usize = 0;
    let mut i: usize = 0;
    proof {
        assert(gfns.subrange(0, 0) =~= Seq::<FnDecl>::empty());
    }
    while i < n
        invariant
            0 <= i <= n == gfns.len(),
            functions@ == gfns,
            cnt <= i,
            cnt == spec_num_constructors(gfns.subrange(0, i as int)),
        decreases n - i,
    {
        let ghost pre = gfns.subrange(0, i as int);
        if functions[i].is_constructor {
            cnt = cnt + 1;
        }
        i = i + 1;
        proof {
            let post = gfns.subrange(0, i as int);
            assert(post.drop_last() =~= pre);
            assert(post.last() == gfns[i - 1]);
        }
    }
    proof {
        assert(gfns.subrange(0, n as int) =~= gfns);
    }
    if cnt == 0 {
        return Err(BuildError::MissingConstructor);
    }
    if cnt >= 2 {
        return Err(BuildError::MultipleConstructors);
    }

    // Every declaration is valid.
    let mut i: usize = 0;
    while i < n
        invariant
            0 <= i <= n == gfns.len(),
            functions@ == gfns,
            gdecl == decl,
            gdecl.functions@ == gfns,
            spec_num_constructors(gfns) == 1,
            forall|j: int| 0 <= j < i ==> spec_fn_valid(#[trigger] gfns[j]),
        decreases n - i,
    {
        let f = &functions[i];
        if !(check_valid_name(&f.name) && check_valid_ty_list(&f.params) && check_valid_ty_list(
            &f.ret,
        )) {
            proof {
                assert(!spec_fn_valid(gdecl.functions@[i as int]));
            }
            return Err(BuildError::InvalidDeclaration);
        }
        i = i + 1;
    }
    let m = fields.len();
    let mut i: usize = 0;
    while i < m
        invariant
            0 <= i <= m == gfields.len(),
            fields@ == gfields,
            gdecl == decl,
            gdecl.fields@ == gfields,
            gdecl.functions@ == gfns,
            spec_num_constructors(gfns) == 1,
            forall|j: int| 0 <= j < i ==> spec_field_valid(#[trigger] gfields[j]),
        decreases m - i,
    {
        let fd = &fields[i];
        if !(check_valid_name(&fd.name) && check_valid_ty(&fd.ty)) {
            proof {
                assert(!spec_field_valid(gdecl.fields@[i as int]));
            }
            return Err(BuildError::InvalidDeclaration);
        }
        i = i + 1;
    }
    assert(spec_decl_valid(gdecl));

    // One entry per external function, in declaration order; the
    // constructor is put aside.
    let mut work = functions;
    let mut entries: Vec<DispatchEntry> = Vec::new();
    let mut ctor: Option<ConstructorEntry> = None;
    let mut k: usize = 0;
    proof {
        assert(gfns.subrange(0, 0) =~= Seq::<FnDecl>::empty());
        assert(work@ == gfns.subrange(0, n as int));
    }
    while k < n
        invariant
            0 <= k <= n == gfns.len(),
            work@ == gfns.subrange(k as int, n as int),
            spec_num_constructors(gfns) == 1,
            forall|j: int| 0 <= j < gfns.len() ==> spec_fn_valid(#[trigger] gfns[j]),
            entries@.len() == spec_externals(gfns.subrange(0, k as int)).len(),
            forall|x: int|
                0 <= x < entries@.len() ==> spec_entry_from_fn(
                    #[trigger] entries@[x],
                    spec_externals(gfns.subrange(0, k as int))[x],
                ) && entries@[x].spec_wf(),
            ctor is Some ==> exists|ci: int|
                0 <= ci < k && (#[trigger] gfns[ci]).is_constructor && ctor->0.name@
                    == gfns[ci].name@ && ctor->0.params@ == gfns[ci].params@,
            ctor is None ==> forall|j: int| 0 <= j < k ==> !(#[trigger] gfns[j]).is_constructor,
        decreases n - k,
    {
        let ghost pre = gfns.subrange(0, k as int);
        let f = work.remove(0);
        proof {
            assert(gfns.subrange(k as int, n as int)[0] == gfns[k as int]);
            assert(gfns.subrange(k as int, n as int).remove(0) =~= gfns.subrange(
                k as int + 1,
                n as int,
            ));
        }
        if f.is_constructor {
            proof {
                if ctor is Some {
                    let ci = choose|ci: int|
                        0 <= ci < k && (#[trigger] gfns[ci]).is_constructor;
                    lemma_ctor_pair_count(gfns, ci, k as int);
                }
            }
            ctor = Some(ConstructorEntry { name: f.name, params: f.params });
        } else {
            let sig = canonical_signature(&f.name, &f.params);
            let ks = hash_selector(&sig, HashAlgorithm::Keccak256);
            let ss = hash_selector(&sig, HashAlgorithm::Sm3);
            entries.push(
                DispatchEntry {
                    name: f.name,
                    params: f.params,
                    ret: f.ret,
                    is_mut: f.is_mut,
                    is_getter: false,
                    keccak_selector: ks,
                    sm3_selector: ss,
                },
            );
        }
        k = k + 1;
        proof {
            let post = gfns.subrange(0, k as int);
            assert(post.drop_last() =~= pre);
            assert(post.last() == gfns[k - 1]);
            assert forall|x: int|
                0 <= x < entries@.len() implies spec_entry_from_fn(
                #[trigger] entries@[x],
                spec_externals(post)[x],
            ) && entries@[x].spec_wf() by {
                if x < spec_externals(pre).len() {
                    assert(spec_externals(post)[x] == spec_externals(pre)[x]);
                }
            }
        }
    }
    proof {
        assert(gfns.subrange(0, n as int) =~= gfns);
    }
    let ce = match ctor {
        Some(ce) => ce,
        None => {
            proof {
                lemma_no_ctor_count(gfns);
            }
            return Err(BuildError::MissingConstructor);
        },
    };
    let ghost gci = choose|ci: int|
        0 <= ci < gfns.len() && (#[trigger] gfns[ci]).is_constructor && ce.name@
            == gfns[ci].name@ && ce.params@ == gfns[ci].params@;
    proof {
        assert forall|j: int|
            0 <= j < gfns.len() && (#[trigger] gfns[j]).is_constructor implies j == gci by {
            if j < gci {
                lemma_ctor_pair_count(gfns, j, gci);
            } else if j > gci {
                lemma_ctor_pair_count(gfns, gci, j);
            }
        }
    }
    let n_ext = entries.len();
    let ghost gexts = spec_externals(gfns);

    // One synthesized getter per unshadowed public field, in field order.
    let mut fwork = fields;
    let mut k2: usize = 0;
    proof {
        assert(gfields.subrange(0, 0) =~= Seq::<FieldDecl>::empty());
        assert(fwork@ == gfields.subrange(0, m as int));
    }
    while k2 < m
        invariant
            0 <= k2 <= m == gfields.len(),
            fwork@ == gfields.subrange(k2 as int, m as int),
            spec_num_constructors(gfns) == 1,
            forall|j: int| 0 <= j < gfns.len() ==> spec_fn_valid(#[trigger] gfns[j]),
            forall|j: int| 0 <= j < gfields.len() ==> spec_field_valid(#[trigger] gfields[j]),
            0 <= gci < gfns.len() && gfns[gci as int].is_constructor,
            forall|j: int|
                0 <= j < gfns.len() && (#[trigger] gfns[j]).is_constructor ==> j == gci,
            ce.name@ == gfns[gci as int].name@,
            n_ext == gexts.len() && gexts == spec_externals(gfns),
            entries@.len() == n_ext + spec_getter_fields(
                gfields.subrange(0, k2 as int),
                gfns,
            ).len(),
            forall|x: int|
                0 <= x < n_ext ==> spec_entry_from_fn(#[trigger] entries@[x], gexts[x])
                    && entries@[x].spec_wf(),
            forall|g: int|
                0 <= g < entries@.len() - n_ext ==> spec_entry_from_field(
                    #[trigger] entries@[n_ext + g],
                    spec_getter_fields(gfields.subrange(0, k2 as int), gfns)[g],
                ) && entries@[n_ext + g].spec_wf(),
        decreases m - k2,
    {
        let ghost pre = gfields.subrange(0, k2 as int);
        let fd = fwork.remove(0);
        proof {
            assert(gfields.subrange(k2 as int, m as int)[0] == gfields[k2 as int]);
            assert(gfields.subrange(k2 as int, m as int).remove(0) =~= gfields.subrange(
                k2 as int + 1,
                m as int,
            ));
        }
        if fd.is_public {
            let shadowed = entries_have_name(&entries, n_ext, &fd.name) || bytes_eq(
                &fd.name,
                &ce.name,
            );
            proof {
                lemma_fn_names_split(gfns, gci, fd.name@);
                lemma_externals_index(gfns);
                if exists|i: int| 0 <= i < n_ext && (#[trigger] entries@[i]).name@ == fd.name@ {
                    let w = choose|i: int|
                        0 <= i < n_ext && (#[trigger] entries@[i]).name@ == fd.name@;
                    assert(gexts[w].name@ == fd.name@);
                }
                if exists|i: int|
                    0 <= i < gexts.len() && (#[trigger] gexts[i]).name@ == fd.name@ {
                    let w = choose|i: int|
                        0 <= i < gexts.len() && (#[trigger] gexts[i]).name@ == fd.name@;
                    assert(entries@[w].name@ == fd.name@);
                }
                assert(shadowed == spec_any_fn_named(gfns, fd.name@));
            }
            if !shadowed {
                let empty_params: Vec<TypeDescriptor> = Vec::new();
                let sig = canonical_signature(&fd.name, &empty_params);
                let ks = hash_selector(&sig, HashAlgorithm::Keccak256);
                let ss = hash_selector(&sig, HashAlgorithm::Sm3);
                let mut ret: Vec<TypeDescriptor> = Vec::new();
                ret.push(fd.ty);
                proof {
                    assert(empty_params@ =~= Seq::<TypeDescriptor>::empty());
                    assert(spec_valid_ty_list(empty_params@));
                    assert(ret@.drop_first() =~= Seq::<TypeDescriptor>::empty());
                    assert(spec_valid_ty_list(ret@.drop_first()));
                    assert(spec_field_valid(gfields[k2 as int]));
                }
                entries.push(
                    DispatchEntry {
                        name: fd.name,
                        params: empty_params,
                        ret,
                        is_mut: false,
                        is_getter: true,
                        keccak_selector: ks,
                        sm3_selector: ss,
                    },
                );
            }
        }
        k2 = k2 + 1;
        proof {
            let post = gfields.subrange(0, k2 as int);
            assert(post.drop_last() =~= pre);
            assert(post.last() == gfields[k2 - 1]);
            assert forall|g: int|
                0 <= g < entries@.len() - n_ext implies spec_entry_from_field(
                #[trigger] entries@[n_ext + g],
                spec_getter_fields(post, gfns)[g],
            ) && entries@[n_ext + g].spec_wf() by {
                if g < spec_getter_fields(pre, gfns).len() {
                    assert(spec_getter_fields(post, gfns)[g] == spec_getter_fields(pre, gfns)[g]);
                }
            }
        }
    }
    proof {
        assert(gfields.subrange(0, m as int) =~= gfields);
    }

    // The whole surface carries distinct selectors, per algorithm.
    proof {
        assert forall|x: int|
            0 <= x < entries@.len() implies spec_surface_sig(gdecl, x)
            == entries@[x].spec_sig() && spec_surface_name(gdecl, x) == entries@[x].name@
            && (#[trigger] entries@[x]).spec_wf() by {
            if x >= n_ext {
                let g = x - n_ext;
                assert(spec_entry_from_field(
                    entries@[n_ext + g],
                    spec_getter_fields(gfields, gfns)[g],
                ) && entries@[n_ext + g].spec_wf());
                assert(entries@[x].params@ =~= Seq::<TypeDescriptor>::empty());
            } else {
                assert(spec_entry_from_fn(entries@[x], gexts[x]) && entries@[x].spec_wf());
            }
        }
        assert(spec_surface_len(gdecl) == entries@.len());
    }
    if let Some(p) = find_collision(&entries, HashAlgorithm::Keccak256) {
        let (a, b) = p;
        proof {
            assert(entries@[a as int].spec_wf() && entries@[b as int].spec_wf());
            assert(spec_selector(spec_surface_sig(gdecl, a as int), HashAlgorithm::Keccak256)
                == entries@[a as int].keccak_selector);
            assert(spec_selector(spec_surface_sig(gdecl, b as int), HashAlgorithm::Keccak256)
                == entries@[a as int].keccak_selector);
        }
        return Err(
            BuildError::SelectorCollision {
                first: clone_bytes(&entries[a].name),
                second: clone_bytes(&entries[b].name),
                selector: entries[a].selector_of(HashAlgorithm::Keccak256),
                algorithm: HashAlgorithm::Keccak256,
            },
        );
    }
    if let Some(p) = find_collision(&entries, HashAlgorithm::Sm3) {
        let (a, b) = p;
        proof {
            assert(entries@[a as int].spec_wf() && entries@[b as int].spec_wf());
            assert(spec_selector(spec_surface_sig(gdecl, a as int), HashAlgorithm::Sm3)
                == entries@[a as int].sm3_selector);
            assert(spec_selector(spec_surface_sig(gdecl, b as int), HashAlgorithm::Sm3)
                == entries@[a as int].sm3_selector);
        }
        return Err(
            BuildError::SelectorCollision {
                first: clone_bytes(&entries[a].name),
                second: clone_bytes(&entries[b].name),
                selector: entries[a].selector_of(HashAlgorithm::Sm3),
                algorithm: HashAlgorithm::Sm3,
            },
        );
    }
    proof {
        assert forall|i: int, j: int, algo: HashAlgorithm|
            0 <= i < j < spec_surface_len(gdecl) implies #[trigger] spec_selector(
            spec_surface_sig(gdecl, i),
            algo,
        ) != #[trigger] spec_selector(spec_surface_sig(gdecl, j), algo) by {
            assert(entries@[i].spec_wf() && entries@[j].spec_wf());
            assert(spec_surface_sig(gdecl, i) == entries@[i].spec_sig());
            assert(spec_surface_sig(gdecl, j) == entries@[j].spec_sig());
            if algo == HashAlgorithm::Keccak256 {
                assert(entries@[i].spec_selector_of(HashAlgorithm::Keccak256) != entries@[
                    j
                ].spec_selector_of(HashAlgorithm::Keccak256));
            } else {
                assert(entries@[i].spec_selector_of(HashAlgorithm::Sm3) != entries@[
                    j
                ].spec_selector_of(HashAlgorithm::Sm3));
            }
        }
    }
    Ok(DispatchTable { constructor: ce, entries })
}

/// Collision soundness: in a table the builder accepted, any two
/// distinct entries carry distinct selectors under each algorithm — every
/// collision among the declared surface, hand-written or synthesized, is
/// caught at build time.
pub proof fn lemma_collision_soundness(
    table: DispatchTable,
    i: int,
    j: int,
    algo: HashAlgorithm,
)
    requires
        table.spec_wf(),
        0 <= i < table.entries@.len(),
        0 <= j < table.entries@.len(),
        i != j,
    ensures
        table.entries@[i].spec_selector_of(algo) != table.entries@[j].spec_selector_of(algo),
{
}

} // verus!
