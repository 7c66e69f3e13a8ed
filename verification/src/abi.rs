//! ABI description generation.
//!
//! An external tool that wants to call a deployed contract needs, for each
//! routable function, its name, canonical signature and selectors.  The
//! generator reads them off a built dispatch table; the selector values it
//! reports are exactly those the dispatcher routes by, so any tool can
//! reproduce them from the canonical signature alone.

use vstd::prelude::*;
use crate::table::{clone_bytes, DispatchTable};
use crate::ty::canonical_signature;

verus! {

/// The published description of one routable function.
pub struct FnAbi {
    /// The function's name.
    pub name: Vec<u8>,
    /// Its canonical signature, the hashing input.
    pub signature: Vec<u8>,
    /// True for a non-mutating (read-only) function.
    pub constant: bool,
    /// Selector under Keccak-256.
    pub keccak_selector: u32,
    /// Selector under SM3.
    pub sm3_selector: u32,
}

/// The published description of a contract's callable surface.
pub struct ContractAbi {
    /// The constructor's name.
    pub constructor_name: Vec<u8>,
    /// One description per routable entry, in table order.
    pub functions: Vec<FnAbi>,
}

/// Generates the ABI description of a built dispatch table.
pub struct ABIGen {}

impl ABIGen {
    /// Describe every routable entry of `table`, in order, with its name,
    /// canonical signature, mutability and both selectors.
    pub fn generate_abi(table: &DispatchTable) -> (r: ContractAbi)
        ensures
            r.constructor_name@ == table.constructor.name@,
            r.functions@.len() == table.entries@.len(),
            forall|i: int|
                0 <= i < table.entries@.len() ==> {
                    let f = #[trigger] r.functions@[i];
                    let e = table.entries@[i];
                    &&& f.name@ == e.name@
                    &&& f.signature@ == e.spec_sig()
                    &&& f.constant == !e.is_mut
                    &&& f.keccak_selector == e.keccak_selector
                    &&& f.sm3_selector == e.sm3_selector
                },
    {
        let mut functions: Vec<FnAbi> = Vec::new();
        let mut i: usize = 0;
        while i < table.entries.len()
            invariant
                0 <= i <= table.entries@.len(),
                functions@.len() == i,
                forall|j: int|
                    0 <= j < i ==> {
                        let f = #[trigger] functions@[j];
                        let e = table.entries@[j];
                        &&& f.name@ == e.name@
                        &&& f.signature@ == e.spec_sig()
                        &&& f.constant == !e.is_mut
                        &&& f.keccak_selector == e.keccak_selector
                        &&& f.sm3_selector == e.sm3_selector
                    },
            decreases table.entries@.len() - i,
        {
            let e = &table.entries[i];
            let signature = canonical_signature(&e.name, &e.params);
            functions.push(
                FnAbi {
                    name: clone_bytes(&e.name),
                    signature,
                    constant: !e.is_mut,
                    keccak_selector: e.keccak_selector,
                    sm3_selector: e.sm3_selector,
                },
            );
            i = i + 1;
        }
        ContractAbi { constructor_name: clone_bytes(&table.constructor.name), functions }
    }
}

} // verus!
