//! Table building, routing, and the runtime dispatch protocol.

use liquid_dispatch::abi::ABIGen;
use liquid_dispatch::codec::{decode_args, encode_values, Value};
use liquid_dispatch::dispatch::{
    parse_call_data, prepare_call, prepare_deploy, CallOutcome, ContractLogic, Dispatch,
    DispatchError, DispatchResult,
};
use liquid_dispatch::hash::{selector_for, HashAlgorithm};
use liquid_dispatch::table::{
    build_dispatch_table, BuildError, ContractDecl, DispatchTable, FieldDecl, FnDecl,
};
use liquid_dispatch::ty::{IntWidth, TypeDescriptor};

fn u128_ty() -> TypeDescriptor {
    TypeDescriptor::Uint(IntWidth::W128)
}

/// The example contract: a stored `value: u128`, constructor `new(u128)`,
/// mutating `inc_by(u128)`, read-only `get() -> u128`.  The hand-written
/// accessor stands in for the field's getter, so the field is declared
/// private and the surface has exactly two routable entries.
fn counter_decl() -> ContractDecl {
    ContractDecl {
        fields: vec![FieldDecl { name: b"value".to_vec(), ty: u128_ty(), is_public: false }],
        functions: vec![
            FnDecl {
                name: b"new".to_vec(),
                params: vec![u128_ty()],
                ret: vec![],
                is_mut: true,
                is_constructor: true,
            },
            FnDecl {
                name: b"inc_by".to_vec(),
                params: vec![u128_ty()],
                ret: vec![],
                is_mut: true,
                is_constructor: false,
            },
            FnDecl {
                name: b"get".to_vec(),
                params: vec![],
                ret: vec![u128_ty()],
                is_mut: false,
                is_constructor: false,
            },
        ],
    }
}

struct Counter {
    value: u128,
}

impl ContractLogic for Counter {
    fn call_entry(&mut self, entry_index: usize, args: Vec<Value>) -> CallOutcome {
        match entry_index {
            0 => {
                // inc_by(u128)
                if let Value::Uint(IntWidth::W128, x) = args[0] {
                    self.value = self.value.wrapping_add(x);
                    CallOutcome::Return(vec![])
                } else {
                    CallOutcome::Revert(b"bad argument".to_vec())
                }
            },
            1 => CallOutcome::Return(vec![Value::Uint(IntWidth::W128, self.value)]),
            _ => CallOutcome::Revert(b"no such entry".to_vec()),
        }
    }
}

fn call_bytes(selector: u32, payload: &[u8]) -> Vec<u8> {
    let mut data = selector.to_be_bytes().to_vec();
    data.extend_from_slice(payload);
    data
}

fn counter_table() -> DispatchTable {
    build_dispatch_table(counter_decl()).expect("the example contract builds")
}

#[test]
fn example_contract_builds_with_two_entries() {
    let table = counter_table();
    assert_eq!(table.entries.len(), 2);
    assert_eq!(table.entries[0].name, b"inc_by".to_vec());
    assert!(table.entries[0].is_mut);
    assert_eq!(table.entries[1].name, b"get".to_vec());
    assert!(!table.entries[1].is_mut);
    assert_eq!(table.constructor.name, b"new".to_vec());
    assert_eq!(table.constructor.params, vec![u128_ty()]);
    // Selectors come from the shared canonicalizer/hasher pipeline.
    assert_eq!(
        table.entries[0].keccak_selector,
        selector_for(&b"inc_by".to_vec(), &vec![u128_ty()], HashAlgorithm::Keccak256)
    );
    assert_eq!(
        table.entries[1].sm3_selector,
        selector_for(&b"get".to_vec(), &vec![], HashAlgorithm::Sm3)
    );
}

#[test]
fn example_scenario_get_and_inc_by() {
    let table = counter_table();
    let get_sel = table.entries[1].keccak_selector;
    let inc_sel = table.entries[0].keccak_selector;
    let d = Dispatch::new(table, HashAlgorithm::Keccak256);
    let mut counter = Counter { value: 7 };

    // get() with an empty payload returns the current value, encoded.
    let r = d.run(&mut counter, &call_bytes(get_sel, &[]), true);
    assert_eq!(
        r,
        DispatchResult::Success(encode_values(&vec![Value::Uint(IntWidth::W128, 7)]))
    );

    // inc_by(5) with a 16-byte encoded u128 payload mutates and returns
    // no bytes.
    let payload = encode_values(&vec![Value::Uint(IntWidth::W128, 5)]);
    assert_eq!(payload.len(), 16);
    let r = d.run(&mut counter, &call_bytes(inc_sel, &payload), false);
    assert_eq!(r, DispatchResult::Success(vec![]));
    assert_eq!(counter.value, 12);

    // The next get() sees the new value.
    let r = d.run(&mut counter, &call_bytes(get_sel, &[]), true);
    assert_eq!(
        r,
        DispatchResult::Success(encode_values(&vec![Value::Uint(IntWidth::W128, 12)]))
    );
}

#[test]
fn unknown_selector_reverts() {
    let table = counter_table();
    let known: Vec<u32> = table.entries.iter().map(|e| e.keccak_selector).collect();
    let d = Dispatch::new(table, HashAlgorithm::Keccak256);
    let mut counter = Counter { value: 0 };
    let mut bogus: u32 = 0x01020304;
    while known.contains(&bogus) {
        bogus = bogus.wrapping_add(1);
    }
    let r = d.run(&mut counter, &call_bytes(bogus, &[]), false);
    assert_eq!(r, DispatchResult::Revert(b"unknown selector".to_vec()));
    assert_eq!(counter.value, 0);
}

#[test]
fn malformed_call_data_reverts() {
    let d = Dispatch::new(counter_table(), HashAlgorithm::Keccak256);
    let mut counter = Counter { value: 3 };
    let r = d.run(&mut counter, &vec![1, 2, 3], false);
    assert_eq!(r, DispatchResult::Revert(b"malformed call data".to_vec()));
    assert_eq!(counter.value, 3);
}

#[test]
fn short_and_long_payloads_revert_with_decode_error() {
    let table = counter_table();
    let inc_sel = table.entries[0].keccak_selector;
    let d = Dispatch::new(table, HashAlgorithm::Keccak256);
    let mut counter = Counter { value: 1 };
    // 15 bytes: truncated.
    let r = d.run(&mut counter, &call_bytes(inc_sel, &[0u8; 15]), false);
    assert_eq!(r, DispatchResult::Revert(b"argument decode error".to_vec()));
    // 17 bytes: over-length.
    let r = d.run(&mut counter, &call_bytes(inc_sel, &[0u8; 17]), false);
    assert_eq!(r, DispatchResult::Revert(b"argument decode error".to_vec()));
    // The body never ran.
    assert_eq!(counter.value, 1);
}

/// A logic that must never be invoked: it panics on any call.
struct MustNotRun;

impl ContractLogic for MustNotRun {
    fn call_entry(&mut self, _entry_index: usize, _args: Vec<Value>) -> CallOutcome {
        panic!("the dispatcher invoked a body it had to refuse");
    }
}

#[test]
fn mutating_entry_in_read_only_context_reverts_without_running() {
    let table = counter_table();
    let inc_sel = table.entries[0].keccak_selector;
    let d = Dispatch::new(table, HashAlgorithm::Keccak256);
    let payload = encode_values(&vec![Value::Uint(IntWidth::W128, 5)]);
    let mut logic = MustNotRun;
    let r = d.run(&mut logic, &call_bytes(inc_sel, &payload), true);
    assert_eq!(r, DispatchResult::Revert(b"mutability violation".to_vec()));
    // A read-only entry still runs in a read-only context.
    let mut counter = Counter { value: 9 };
    let get_sel = d.table.entries[1].keccak_selector;
    let r = d.run(&mut counter, &call_bytes(get_sel, &[]), true);
    assert_eq!(
        r,
        DispatchResult::Success(encode_values(&vec![Value::Uint(IntWidth::W128, 9)]))
    );
}

#[test]
fn routing_reaches_every_entry_and_no_other() {
    // Five functions with distinct selectors: each call data routes to its
    // own entry, under either algorithm.
    let names: Vec<&[u8]> = vec![b"alpha", b"bravo", b"charlie", b"delta", b"echo"];
    let mut functions = vec![FnDecl {
        name: b"init".to_vec(),
        params: vec![],
        ret: vec![],
        is_mut: true,
        is_constructor: true,
    }];
    for n in &names {
        functions.push(FnDecl {
            name: n.to_vec(),
            params: vec![],
            ret: vec![],
            is_mut: false,
            is_constructor: false,
        });
    }
    let table =
        build_dispatch_table(ContractDecl { fields: vec![], functions }).expect("builds");
    for algo in [HashAlgorithm::Keccak256, HashAlgorithm::Sm3] {
        for (k, n) in names.iter().enumerate() {
            let sel = selector_for(&n.to_vec(), &vec![], algo);
            let (idx, args) =
                prepare_call(&table, &call_bytes(sel, &[]), false, algo).expect("routes");
            assert_eq!(idx, k);
            assert!(args.is_empty());
        }
    }
}

#[test]
fn public_field_gets_a_getter_unless_shadowed_by_name() {
    let decl = ContractDecl {
        fields: vec![
            FieldDecl { name: b"total".to_vec(), ty: u128_ty(), is_public: true },
            FieldDecl { name: b"hidden".to_vec(), ty: TypeDescriptor::Bool, is_public: false },
            FieldDecl { name: b"get".to_vec(), ty: TypeDescriptor::Bool, is_public: true },
        ],
        functions: counter_decl().functions,
    };
    let table = build_dispatch_table(decl).expect("builds");
    // inc_by, get, and one getter for `total`; `hidden` is private and
    // `get` is shadowed by the declared function of the same name.
    assert_eq!(table.entries.len(), 3);
    let getter = &table.entries[2];
    assert_eq!(getter.name, b"total".to_vec());
    assert!(getter.is_getter);
    assert!(!getter.is_mut);
    assert!(getter.params.is_empty());
    assert_eq!(getter.ret, vec![u128_ty()]);
    // The getter is an ordinary entry: its selector derives from
    // `total()` and it routes like any function.
    assert_eq!(
        getter.keccak_selector,
        selector_for(&b"total".to_vec(), &vec![], HashAlgorithm::Keccak256)
    );
}

#[test]
fn missing_constructor_is_a_build_error() {
    let mut decl = counter_decl();
    decl.functions.remove(0);
    assert!(matches!(
        build_dispatch_table(decl),
        Err(BuildError::MissingConstructor)
    ));
}

#[test]
fn multiple_constructors_are_a_build_error() {
    let mut decl = counter_decl();
    let mut donor = counter_decl().functions;
    let mut second = donor.remove(0);
    second.name = b"again".to_vec();
    decl.functions.push(second);
    assert!(matches!(
        build_dispatch_table(decl),
        Err(BuildError::MultipleConstructors)
    ));
}

#[test]
fn invalid_declaration_is_a_build_error() {
    let mut decl = counter_decl();
    decl.functions[1].params = vec![TypeDescriptor::FixedBytes(0)];
    assert!(matches!(
        build_dispatch_table(decl),
        Err(BuildError::InvalidDeclaration)
    ));
    let mut decl = counter_decl();
    decl.fields[0].name = b"9bad".to_vec();
    assert!(matches!(
        build_dispatch_table(decl),
        Err(BuildError::InvalidDeclaration)
    ));
}

#[test]
fn selector_collision_is_a_build_error() {
    // Two distinct declarations with one canonical signature collide
    // under every algorithm; the error names both and the selector.
    let mut decl = counter_decl();
    decl.functions.push(FnDecl {
        name: b"get".to_vec(),
        params: vec![],
        ret: vec![u128_ty()],
        is_mut: false,
        is_constructor: false,
    });
    match build_dispatch_table(decl) {
        Err(BuildError::SelectorCollision { first, second, selector, algorithm }) => {
            assert_eq!(first, b"get".to_vec());
            assert_eq!(second, b"get".to_vec());
            assert_eq!(algorithm, HashAlgorithm::Keccak256);
            assert_eq!(
                selector,
                selector_for(&b"get".to_vec(), &vec![], HashAlgorithm::Keccak256)
            );
        },
        other => panic!("expected a selector collision, got {:?}", other.is_ok()),
    }
}

#[test]
fn parse_call_data_splits_selector_and_payload() {
    let cd = parse_call_data(&vec![0xaa, 0xbb, 0xcc, 0xdd, 1, 2]).expect("parses");
    assert_eq!(cd.selector, 0xaabbccdd);
    assert_eq!(cd.payload, vec![1, 2]);
    let cd = parse_call_data(&vec![0, 0, 0, 9]).expect("parses");
    assert_eq!(cd.selector, 9);
    assert!(cd.payload.is_empty());
    assert!(matches!(
        parse_call_data(&vec![1, 2, 3]),
        Err(DispatchError::MalformedCallData)
    ));
}

#[test]
fn business_level_revert_passes_reason_through() {
    struct AlwaysRevert;
    impl ContractLogic for AlwaysRevert {
        fn call_entry(&mut self, _i: usize, _a: Vec<Value>) -> CallOutcome {
            CallOutcome::Revert(b"insufficient balance".to_vec())
        }
    }
    let table = counter_table();
    let get_sel = table.entries[1].keccak_selector;
    let d = Dispatch::new(table, HashAlgorithm::Keccak256);
    let mut logic = AlwaysRevert;
    let r = d.run(&mut logic, &call_bytes(get_sel, &[]), false);
    assert_eq!(r, DispatchResult::Revert(b"insufficient balance".to_vec()));
}

#[test]
fn ill_typed_return_values_revert() {
    struct WrongReturn;
    impl ContractLogic for WrongReturn {
        fn call_entry(&mut self, _i: usize, _a: Vec<Value>) -> CallOutcome {
            CallOutcome::Return(vec![Value::Bool(true)])
        }
    }
    let table = counter_table();
    let get_sel = table.entries[1].keccak_selector;
    let d = Dispatch::new(table, HashAlgorithm::Keccak256);
    let mut logic = WrongReturn;
    let r = d.run(&mut logic, &call_bytes(get_sel, &[]), false);
    assert_eq!(r, DispatchResult::Revert(b"invalid return value".to_vec()));
}

#[test]
fn abi_generation_reports_the_routable_surface() {
    let table = counter_table();
    let abi = ABIGen::generate_abi(&table);
    assert_eq!(abi.constructor_name, b"new".to_vec());
    assert_eq!(abi.functions.len(), 2);
    assert_eq!(abi.functions[0].name, b"inc_by".to_vec());
    assert_eq!(abi.functions[0].signature, b"inc_by(uint128)".to_vec());
    assert!(!abi.functions[0].constant);
    assert_eq!(abi.functions[0].keccak_selector, table.entries[0].keccak_selector);
    assert_eq!(abi.functions[1].name, b"get".to_vec());
    assert_eq!(abi.functions[1].signature, b"get()".to_vec());
    assert!(abi.functions[1].constant);
    assert_eq!(abi.functions[1].sm3_selector, table.entries[1].sm3_selector);
}

#[test]
fn decoded_arguments_arrive_in_declared_order() {
    let mut decl = counter_decl();
    decl.functions.push(FnDecl {
        name: b"pair".to_vec(),
        params: vec![TypeDescriptor::Bool, TypeDescriptor::Uint(IntWidth::W8)],
        ret: vec![],
        is_mut: false,
        is_constructor: false,
    });
    let table = build_dispatch_table(decl).expect("builds");
    let sel = table.entries[2].keccak_selector;
    let payload = encode_values(&vec![Value::Bool(true), Value::Uint(IntWidth::W8, 200)]);
    let (idx, args) =
        prepare_call(&table, &call_bytes(sel, &payload), false, HashAlgorithm::Keccak256)
            .expect("routes and decodes");
    assert_eq!(idx, 2);
    assert_eq!(args, vec![Value::Bool(true), Value::Uint(IntWidth::W8, 200)]);
    // And the same payload round-trips through the table's parameter list.
    assert_eq!(
        decode_args(&table.entries[2].params, &payload),
        Some(vec![Value::Bool(true), Value::Uint(IntWidth::W8, 200)])
    );
}

#[test]
fn synthesized_getter_routes_like_any_entry() {
    struct Ledger {
        total: u128,
    }
    impl ContractLogic for Ledger {
        fn call_entry(&mut self, entry_index: usize, _args: Vec<Value>) -> CallOutcome {
            match entry_index {
                2 => CallOutcome::Return(vec![Value::Uint(IntWidth::W128, self.total)]),
                _ => CallOutcome::Revert(b"unexpected entry".to_vec()),
            }
        }
    }
    let decl = ContractDecl {
        fields: vec![FieldDecl { name: b"total".to_vec(), ty: u128_ty(), is_public: true }],
        functions: counter_decl().functions,
    };
    let table = build_dispatch_table(decl).expect("builds");
    let getter_sel = table.entries[2].keccak_selector;
    let d = Dispatch::new(table, HashAlgorithm::Keccak256);
    let mut ledger = Ledger { total: 77 };
    // The getter is read-only, so it runs even in a read-only context.
    let r = d.run(&mut ledger, &call_bytes(getter_sel, &[]), true);
    assert_eq!(
        r,
        DispatchResult::Success(encode_values(&vec![Value::Uint(IntWidth::W128, 77)]))
    );
    // A getter takes no arguments: any payload is a decode error.
    let r = d.run(&mut ledger, &call_bytes(getter_sel, &[1]), true);
    assert_eq!(r, DispatchResult::Revert(b"argument decode error".to_vec()));
}

#[test]
fn deployment_decodes_constructor_arguments_strictly() {
    let table = counter_table();
    let payload = encode_values(&vec![Value::Uint(IntWidth::W128, 99)]);
    let vals = prepare_deploy(&table, &payload).expect("decodes");
    assert_eq!(vals, vec![Value::Uint(IntWidth::W128, 99)]);
    assert!(matches!(
        prepare_deploy(&table, &vec![0u8; 15]),
        Err(DispatchError::ArgumentDecodeError)
    ));
    assert!(matches!(
        prepare_deploy(&table, &vec![0u8; 17]),
        Err(DispatchError::ArgumentDecodeError)
    ));
}
