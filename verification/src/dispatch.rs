//! The runtime call dispatcher.
//!
//! One invocation is a single pass: split the raw call data into selector
//! and payload, look the selector up in the dispatch table, decode the
//! payload into the entry's declared argument types, refuse a mutating
//! entry in a read-only context, invoke the bound function at most once,
//! and encode its outcome.  Every failure before the invocation ends the
//! call with a revert payload carrying the reason; the bound function is
//! then never run.

use vstd::prelude::*;
use crate::ty::TypeDescriptor;
use crate::codec::{
    spec_decode_args, spec_encode_elems, spec_has_type_list, val_view_list, Value, ValS,
    check_has_type_list, decode_args, encode_values, lemma_decode_args_exact,
    lemma_has_type_list_wf,
};
use crate::hash::{spec_selector_word, HashAlgorithm, selector_word};
use crate::table::{DispatchEntry, DispatchTable};

verus! {

/// Why a single call failed before its function body could run.
#[derive(Clone, Copy, PartialEq, Eq, Structural, Debug)]
pub enum DispatchError {
    /// The call data is shorter than the 4-byte selector.
    MalformedCallData,
    /// No entry of the table carries the selector.
    UnknownSelector,
    /// The argument payload is not exactly an encoding of the entry's
    /// parameter types.
    ArgumentDecodeError,
    /// A mutating entry was invoked in a read-only context.
    MutabilityViolation,
}

/// The outcome of one dispatched call, as handed to the hosting runtime.
#[derive(PartialEq, Eq, Debug)]
pub enum DispatchResult {
    /// The call succeeded; the bytes are the encoded return values
    /// (empty when the function returns nothing).
    Success(Vec<u8>),
    /// The call reverted; the bytes carry the reason.
    Revert(Vec<u8>),
}

/// Parsed call data: the 4-byte selector and the argument payload.
pub struct CallData {
    /// The routing selector, most significant byte first on the wire.
    pub selector: u32,
    /// The argument payload, everything after the selector.
    pub payload: Vec<u8>,
}

/// What a bound function reports back to the dispatcher.
#[derive(PartialEq, Eq, Debug)]
pub enum CallOutcome {
    /// A normal return carrying the return values.
    Return(Vec<Value>),
    /// A business-level revert with an encoded reason.
    Revert(Vec<u8>),
}

/// The contract's bound functions, implemented by the hosting code: the
/// dispatcher routes a decoded call to `call_entry` with the index of the
/// routed table entry and its decoded arguments.
pub trait ContractLogic {
    /// Run the body of entry `entry_index` on `args`.
    fn call_entry(&mut self, entry_index: usize, args: Vec<Value>) -> CallOutcome;
}

/// The selector carried by raw call data: its first four bytes, most
/// significant first.
pub open spec fn spec_calldata_selector(data: Seq<u8>) -> u32 {
    spec_selector_word(data[0], data[1], data[2], data[3])
}

/// The revert reason `"malformed call data"`, as bytes.
pub open spec fn spec_msg_malformed_call_data() -> Seq<u8> {
    seq![109u8, 97u8, 108u8, 102u8, 111u8, 114u8, 109u8, 101u8, 100u8, 32u8, 99u8, 97u8, 108u8, 108u8, 32u8, 100u8, 97u8, 116u8, 97u8]
}

/// Build the revert reason `"malformed call data"`.
pub fn msg_malformed_call_data() -> (r: Vec<u8>)
    ensures
        r@ == spec_msg_malformed_call_data(),
{
    let mut r: Vec<u8> = Vec::new();
    r.push(109);
    r.push(97);
    r.push(108);
    r.push(102);
    r.push(111);
    r.push(114);
    r.push(109);
    r.push(101);
    r.push(100);
    r.push(32);
    r.push(99);
    r.push(97);
    r.push(108);
    r.push(108);
    r.push(32);
    r.push(100);
    r.push(97);
    r.push(116);
    r.push(97);
    proof {
        assert(r@ =~= spec_msg_malformed_call_data());
    }
    r
}

/// The revert reason `"unknown selector"`, as bytes.
pub open spec fn spec_msg_unknown_selector() -> Seq<u8> {
    seq![117u8, 110u8, 107u8, 110u8, 111u8, 119u8, 110u8, 32u8, 115u8, 101u8, 108u8, 101u8, 99u8, 116u8, 111u8, 114u8]
}

/// Build the revert reason `"unknown selector"`.
pub fn msg_unknown_selector() -> (r: Vec<u8>)
    ensures
        r@ == spec_msg_unknown_selector(),
{
    let mut r: Vec<u8> = Vec::new();
    r.push(117);
    r.push(110);
    r.push(107);
    r.push(110);
    r.push(111);
    r.push(119);
    r.push(110);
    r.push(32);
    r.push(115);
    r.push(101);
    r.push(108);
    r.push(101);
    r.push(99);
    r.push(116);
    r.push(111);
    r.push(114);
    proof {
        assert(r@ =~= spec_msg_unknown_selector());
    }
    r
}

/// The revert reason `"argument decode error"`, as bytes.
pub open spec fn spec_msg_argument_decode_error() -> Seq<u8> {
    seq![97u8, 114u8, 103u8, 117u8, 109u8, 101u8, 110u8, 116u8, 32u8, 100u8, 101u8, 99u8, 111u8, 100u8, 101u8, 32u8, 101u8, 114u8, 114u8, 111u8, 114u8]
}

/// Build the revert reason `"argument decode error"`.
pub fn msg_argument_decode_error() -> (r: Vec<u8>)
    ensures
        r@ == spec_msg_argument_decode_error(),
{
    let mut r: Vec<u8> = Vec::new();
    r.push(97);
    r.push(114);
    r.push(103);
    r.push(117);
    r.push(109);
    r.push(101);
    r.push(110);
    r.push(116);
    r.push(32);
    r.push(100);
    r.push(101);
    r.push(99);
    r.push(111);
    r.push(100);
    r.push(101);
    r.push(32);
    r.push(101);
    r.push(114);
    r.push(114);
    r.push(111);
    r.push(114);
    proof {
        assert(r@ =~= spec_msg_argument_decode_error());
    }
    r
}

/// The revert reason `"mutability violation"`, as bytes.
pub open spec fn spec_msg_mutability_violation() -> Seq<u8> {
    seq![109u8, 117u8, 116u8, 97u8, 98u8, 105u8, 108u8, 105u8, 116u8, 121u8, 32u8, 118u8, 105u8, 111u8, 108u8, 97u8, 116u8, 105u8, 111u8, 110u8]
}

/// Build the revert reason `"mutability violation"`.
pub fn msg_mutability_violation() -> (r: Vec<u8>)
    ensures
        r@ == spec_msg_mutability_violation(),
{
    let mut r: Vec<u8> = Vec::new();
    r.push(109);
    r.push(117);
    r.push(116);
    r.push(97);
    r.push(98);
    r.push(105);
    r.push(108);
    r.push(105);
    r.push(116);
    r.push(121);
    r.push(32);
    r.push(118);
    r.push(105);
    r.push(111);
    r.push(108);
    r.push(97);
    r.push(116);
    r.push(105);
    r.push(111);
    r.push(110);
    proof {
        assert(r@ =~= spec_msg_mutability_violation());
    }
    r
}

/// The revert reason `"invalid return value"`, as bytes.
pub open spec fn spec_msg_invalid_return_value() -> Seq<u8> {
    seq![105u8, 110u8, 118u8, 97u8, 108u8, 105u8, 100u8, 32u8, 114u8, 101u8, 116u8, 117u8, 114u8, 110u8, 32u8, 118u8, 97u8, 108u8, 117u8, 101u8]
}

/// Build the revert reason `"invalid return value"`.
pub fn msg_invalid_return_value() -> (r: Vec<u8>)
    ensures
        r@ == spec_msg_invalid_return_value(),
{
    let mut r: Vec<u8> = Vec::new();
    r.push(105);
    r.push(110);
    r.push(118);
    r.push(97);
    r.push(108);
    r.push(105);
    r.push(100);
    r.push(32);
    r.push(114);
    r.push(101);
    r.push(116);
    r.push(117);
    r.push(114);
    r.push(110);
    r.push(32);
    r.push(118);
    r.push(97);
    r.push(108);
    r.push(117);
    r.push(101);
    proof {
        assert(r@ =~= spec_msg_invalid_return_value());
    }
    r
}

/// The revert reason for a dispatch failure.
pub open spec fn spec_error_message(e: DispatchError) -> Seq<u8> {
    match e {
        DispatchError::MalformedCallData => spec_msg_malformed_call_data(),
        DispatchError::UnknownSelector => spec_msg_unknown_selector(),
        DispatchError::ArgumentDecodeError => spec_msg_argument_decode_error(),
        DispatchError::MutabilityViolation => spec_msg_mutability_violation(),
    }
}

/// Build the revert reason for a dispatch failure.
pub fn error_message(e: DispatchError) -> (r: Vec<u8>)
    ensures
        r@ == spec_error_message(e),
{
    match e {
        DispatchError::MalformedCallData => msg_malformed_call_data(),
        DispatchError::UnknownSelector => msg_unknown_selector(),
        DispatchError::ArgumentDecodeError => msg_argument_decode_error(),
        DispatchError::MutabilityViolation => msg_mutability_violation(),
    }
}

/// Split raw call data into selector and payload; shorter than four bytes
/// is malformed.
pub fn parse_call_data(data: &Vec<u8>) -> (r: Result<CallData, DispatchError>)
    ensures
        match r {
            Ok(cd) => data@.len() >= 4 && cd.selector == spec_calldata_selector(data@)
                && cd.payload@ == data@.subrange(4, data@.len() as int),
            Err(e) => data@.len() < 4 && e == DispatchError::MalformedCallData,
        },
{
    if data.len() < 4 {
        return Err(DispatchError::MalformedCallData);
    }
    let selector = selector_word(data[0], data[1], data[2], data[3]);
    let mut payload: Vec<u8> = Vec::new();
    let mut i: usize = 4;
    while i < data.len()
        invariant
            4 <= i <= data@.len(),
            payload@ == data@.subrange(4, i as int),
        decreases data@.len() - i,
    {
        payload.push(data[i]);
        proof {
            assert(data@.subrange(4, i as int + 1) =~= data@.subrange(4, i as int).push(
                data@[i as int],
            ));
        }
        i = i + 1;
    }
    Ok(CallData { selector, payload })
}

/// The first entry whose selector under `algo` is `sel`.
pub open spec fn spec_find_entry(
    es: Seq<DispatchEntry>,
    sel: u32,
    algo: HashAlgorithm,
) -> Option<int>
    decreases es,
{
    if es.len() == 0 {
        None
    } else if es[0].spec_selector_of(algo) == sel {
        Some(0)
    } else {
        match spec_find_entry(es.drop_first(), sel, algo) {
            Some(i) => Some(i + 1),
            None => None,
        }
    }
}

/// What [`spec_find_entry`] yields: the first match, or nothing when no
/// entry matches.
pub proof fn lemma_find_entry_props(es: Seq<DispatchEntry>, sel: u32, algo: HashAlgorithm)
    ensures
        match spec_find_entry(es, sel, algo) {
            Some(i) => 0 <= i < es.len() && es[i].spec_selector_of(algo) == sel && forall|j: int|
                0 <= j < i ==> (#[trigger] es[j]).spec_selector_of(algo) != sel,
            None => forall|j: int|
                0 <= j < es.len() ==> (#[trigger] es[j]).spec_selector_of(algo) != sel,
        },
    decreases es,
{
    if es.len() > 0 && es[0].spec_selector_of(algo) != sel {
        lemma_find_entry_props(es.drop_first(), sel, algo);
        assert(forall|j: int|
            1 <= j < es.len() ==> #[trigger] es[j] == es.drop_first()[j - 1]);
    }
}

/// Find the entry whose selector under `algo` is `sel`.
pub fn find_entry(entries: &Vec<DispatchEntry>, sel: u32, algo: HashAlgorithm) -> (r: Option<
    usize,
>)
    ensures
        match r {
            Some(i) => spec_find_entry(entries@, sel, algo) == Some(i as int) && i
                < entries@.len() && entries@[i as int].spec_selector_of(algo) == sel,
            None => spec_find_entry(entries@, sel, algo) is None,
        },
{
    let mut i: usize = 0;
    while i < entries.len()
        invariant
            0 <= i <= entries@.len(),
            forall|j: int|
                0 <= j < i ==> (#[trigger] entries@[j]).spec_selector_of(algo) != sel,
        decreases entries@.len() - i,
    {
        if entries[i].selector_of(algo) == sel {
            proof {
                lemma_find_entry_props(entries@, sel, algo);
                match spec_find_entry(entries@, sel, algo) {
                    Some(k) => {
                        if k < i as int {
                            assert(entries@[k].spec_selector_of(algo) != sel);
                        }
                        if k > i as int {
                            assert(entries@[i as int].spec_selector_of(algo) != sel);
                        }
                    },
                    None => {
                        assert(entries@[i as int].spec_selector_of(algo) != sel);
                    },
                }
            }
            return Some(i);
        }
        i = i + 1;
    }
    proof {
        lemma_find_entry_props(entries@, sel, algo);
    }
    None
}

/// What routing, decoding and the mutability gate decide for one call,
/// before any function body runs: the routed entry index and its decoded
/// arguments, or the exact failure.
pub open spec fn spec_prepare(
    table: DispatchTable,
    data: Seq<u8>,
    read_only: bool,
    algo: HashAlgorithm,
) -> Result<(int, Seq<ValS>), DispatchError> {
    if data.len() < 4 {
        Err(DispatchError::MalformedCallData)
    } else {
        match spec_find_entry(table.entries@, spec_calldata_selector(data), algo) {
            None => Err(DispatchError::UnknownSelector),
            Some(k) => {
                let entry = table.entries@[k];
                match spec_decode_args(entry.params@, data.subrange(4, data.len() as int)) {
                    None => Err(DispatchError::ArgumentDecodeError),
                    Some(args) => if read_only && entry.is_mut {
                        Err(DispatchError::MutabilityViolation)
                    } else {
                        Ok((k, args))
                    },
                }
            },
        }
    }
}

/// Route and decode one call; see [`spec_prepare`].  On success the
/// returned index is the routed entry and the values are its arguments,
/// in declared order; the entry's body has not been run.
pub fn prepare_call(
    table: &DispatchTable,
    data: &Vec<u8>,
    read_only: bool,
    algo: HashAlgorithm,
) -> (r: Result<(usize, Vec<Value>), DispatchError>)
    requires
        table.spec_wf(),
    ensures
        match r {
            Ok(p) => spec_prepare(*table, data@, read_only, algo) == Ok::<
                (int, Seq<ValS>),
                DispatchError,
            >((p.0 as int, val_view_list(p.1@))) && p.0 < table.entries@.len(),
            Err(e) => spec_prepare(*table, data@, read_only, algo) == Err::<
                (int, Seq<ValS>),
                DispatchError,
            >(e),
        },
{
    let cd = match parse_call_data(data) {
        Ok(cd) => cd,
        Err(e) => {
            return Err(e);
        },
    };
    let k = match find_entry(&table.entries, cd.selector, algo) {
        Some(k) => k,
        None => {
            return Err(DispatchError::UnknownSelector);
        },
    };
    let entry = &table.entries[k];
    proof {
        assert(table.entries@[k as int].spec_wf());
    }
    let args = match decode_args(&entry.params, &cd.payload) {
        Some(args) => args,
        None => {
            return Err(DispatchError::ArgumentDecodeError);
        },
    };
    if read_only && entry.is_mut {
        return Err(DispatchError::MutabilityViolation);
    }
    Ok((k, args))
}

/// Encode the outcome of an invoked entry: a normal return becomes the
/// encoded return values (checked against the declared return types), a
/// business-level revert keeps its reason bytes.
pub fn finish_call(ret: &Vec<TypeDescriptor>, outcome: CallOutcome) -> (r: DispatchResult)
    ensures
        match outcome {
            CallOutcome::Return(vals) => {
                if spec_has_type_list(val_view_list(vals@), ret@) {
                    r matches DispatchResult::Success(bytes) && bytes@ == spec_encode_elems(
                        val_view_list(vals@),
                    )
                } else {
                    r matches DispatchResult::Revert(bytes) && bytes@
                        == spec_msg_invalid_return_value()
                }
            },
            CallOutcome::Revert(reason) => r matches DispatchResult::Revert(bytes) && bytes@
                == reason@,
        },
{
    match outcome {
        CallOutcome::Return(vals) => {
            if check_has_type_list(&vals, ret) {
                proof {
                    lemma_has_type_list_wf(val_view_list(vals@), ret@);
                }
                DispatchResult::Success(encode_values(&vals))
            } else {
                DispatchResult::Revert(msg_invalid_return_value())
            }
        },
        CallOutcome::Revert(reason) => DispatchResult::Revert(reason),
    }
}

/// A contract's dispatch engine: the immutable table and the hash
/// algorithm of the deployment target's call-data convention.
pub struct Dispatch {
    /// The dispatch table built for the contract.
    pub table: DispatchTable,
    /// Which algorithm routes incoming selectors.
    pub algo: HashAlgorithm,
}

impl Dispatch {
    /// Wrap a built table for a deployment target.
    pub fn new(table: DispatchTable, algo: HashAlgorithm) -> (r: Dispatch)
        ensures
            r.table == table,
            r.algo == algo,
    {
        Dispatch { table, algo }
    }

    /// Handle one call: route, decode, gate on mutability, invoke the
    /// bound function at most once, and encode the outcome.  On any
    /// failure before the invocation the result is a revert carrying the
    /// exact reason and the bound function is never run.
    pub fn run<L: ContractLogic>(
        &self,
        logic: &mut L,
        data: &Vec<u8>,
        read_only: bool,
    ) -> (r: DispatchResult)
        requires
            self.table.spec_wf(),
        ensures
            match spec_prepare(self.table, data@, read_only, self.algo) {
                Err(e) => r matches DispatchResult::Revert(bytes) && bytes@
                    == spec_error_message(e),
                Ok(p) => r matches DispatchResult::Success(bytes) ==> exists|vals: Seq<ValS>|
                    spec_has_type_list(vals, self.table.entries@[p.0].ret@) && bytes@
                        == spec_encode_elems(vals),
            },
    {
        match prepare_call(&self.table, data, read_only, self.algo) {
            Err(e) => DispatchResult::Revert(error_message(e)),
            Ok(p) => {
                let (k, args) = p;
                let outcome = logic.call_entry(k, args);
                finish_call(&self.table.entries[k].ret, outcome)
            },
        }
    }
}

/// Routing correctness: in a well-formed table, call data whose selector
/// equals entry `k`'s selector always routes to entry `k` and no other.
pub proof fn lemma_routing_correct(
    table: DispatchTable,
    data: Seq<u8>,
    read_only: bool,
    algo: HashAlgorithm,
    k: int,
)
    requires
        table.spec_wf(),
        0 <= k < table.entries@.len(),
        data.len() >= 4,
        spec_calldata_selector(data) == table.entries@[k].spec_selector_of(algo),
    ensures
        spec_find_entry(table.entries@, spec_calldata_selector(data), algo) == Some(k),
        spec_prepare(table, data, read_only, algo) matches Ok(p) ==> p.0 == k,
        spec_prepare(table, data, read_only, algo) matches Err(e) ==> e
            != DispatchError::UnknownSelector && e != DispatchError::MalformedCallData,
{
    let sel = spec_calldata_selector(data);
    lemma_find_entry_props(table.entries@, sel, algo);
    match spec_find_entry(table.entries@, sel, algo) {
        Some(i) => {
            if i < k {
                assert(table.entries@[i].spec_selector_of(algo) != table.entries@[
                    k
                ].spec_selector_of(algo));
            }
            if i > k {
                assert(table.entries@[k].spec_selector_of(algo) != sel);
            }
        },
        None => {
            assert(table.entries@[k].spec_selector_of(algo) != sel);
        },
    }
}

/// Mutability enforcement: a mutating entry reached in a read-only
/// context is refused with `MutabilityViolation`; the dispatcher never
/// hands such a call to the bound function.
pub proof fn lemma_mutability_enforced(
    table: DispatchTable,
    data: Seq<u8>,
    algo: HashAlgorithm,
)
    requires
        table.spec_wf(),
        spec_prepare(table, data, false, algo) matches Ok(p)
            && table.entries@[p.0].is_mut,
    ensures
        spec_prepare(table, data, true, algo) == Err::<(int, Seq<ValS>), DispatchError>(
            DispatchError::MutabilityViolation,
        ),
{
}

/// Decode a deployment payload against the constructor's declared
/// parameters.  The constructor is routed out of band — once, at
/// deployment, with the same payload convention but no selector lookup —
/// and its body, like any entry's, must not run on a payload that is not
/// exactly an encoding of its parameter types.
pub fn prepare_deploy(table: &DispatchTable, payload: &Vec<u8>) -> (r: Result<
    Vec<Value>,
    DispatchError,
>)
    requires
        table.spec_wf(),
    ensures
        match r {
            Ok(vals) => spec_decode_args(table.constructor.params@, payload@) == Some(
                val_view_list(vals@),
            ),
            Err(e) => spec_decode_args(table.constructor.params@, payload@) is None && e
                == DispatchError::ArgumentDecodeError,
        },
{
    match decode_args(&table.constructor.params, payload) {
        Some(vals) => Ok(vals),
        None => Err(DispatchError::ArgumentDecodeError),
    }
}

} // verus!
