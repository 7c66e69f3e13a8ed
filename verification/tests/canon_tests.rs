//! Canonical names, signatures and selectors.

use liquid_dispatch::hash::{hash_selector, selector_for, HashAlgorithm};
use liquid_dispatch::ty::{
    canonical_name, canonical_signature, check_valid_name, check_valid_ty, dec_digits, IntWidth,
    TypeDescriptor,
};

fn canon(t: &TypeDescriptor) -> Vec<u8> {
    canonical_name(t)
}

#[test]
fn primitive_canonical_names() {
    assert_eq!(canon(&TypeDescriptor::Uint(IntWidth::W8)), b"uint8".to_vec());
    assert_eq!(canon(&TypeDescriptor::Uint(IntWidth::W32)), b"uint32".to_vec());
    assert_eq!(canon(&TypeDescriptor::Uint(IntWidth::W128)), b"uint128".to_vec());
    assert_eq!(canon(&TypeDescriptor::Int(IntWidth::W64)), b"int64".to_vec());
    assert_eq!(canon(&TypeDescriptor::Bool), b"bool".to_vec());
    assert_eq!(canon(&TypeDescriptor::Address), b"address".to_vec());
    assert_eq!(canon(&TypeDescriptor::FixedBytes(3)), b"bytes3".to_vec());
    assert_eq!(canon(&TypeDescriptor::FixedBytes(32)), b"bytes32".to_vec());
    assert_eq!(canon(&TypeDescriptor::Bytes), b"bytes".to_vec());
    assert_eq!(canon(&TypeDescriptor::Str), b"string".to_vec());
}

#[test]
fn composite_canonical_names() {
    let dyn_arr = TypeDescriptor::DynArray(Box::new(TypeDescriptor::Uint(IntWidth::W16)));
    assert_eq!(canon(&dyn_arr), b"uint16[]".to_vec());
    let fixed = TypeDescriptor::FixedArray(Box::new(TypeDescriptor::FixedBytes(3)), 2);
    assert_eq!(canon(&fixed), b"bytes3[2]".to_vec());
    let nested = TypeDescriptor::DynArray(Box::new(fixed));
    assert_eq!(canon(&nested), b"bytes3[2][]".to_vec());
    let tuple = TypeDescriptor::Tuple(vec![
        TypeDescriptor::Bool,
        TypeDescriptor::Str,
        TypeDescriptor::DynArray(Box::new(TypeDescriptor::Uint(IntWidth::W8))),
    ]);
    assert_eq!(canon(&tuple), b"(bool,string,uint8[])".to_vec());
}

#[test]
fn canonicalization_is_deterministic() {
    // Two structurally identical trees built independently render byte for
    // byte identically.
    let a = TypeDescriptor::Tuple(vec![
        TypeDescriptor::Uint(IntWidth::W128),
        TypeDescriptor::DynArray(Box::new(TypeDescriptor::Address)),
    ]);
    let b = TypeDescriptor::Tuple(vec![
        TypeDescriptor::Uint(IntWidth::W128),
        TypeDescriptor::DynArray(Box::new(TypeDescriptor::Address)),
    ]);
    assert_eq!(canon(&a), canon(&b));
    assert_eq!(canon(&a), b"(uint128,address[])".to_vec());
}

#[test]
fn structurally_distinct_trees_render_differently() {
    let trees = vec![
        TypeDescriptor::Uint(IntWidth::W8),
        TypeDescriptor::Uint(IntWidth::W128),
        TypeDescriptor::Int(IntWidth::W8),
        TypeDescriptor::Bool,
        TypeDescriptor::Address,
        TypeDescriptor::FixedBytes(1),
        TypeDescriptor::FixedBytes(12),
        TypeDescriptor::Bytes,
        TypeDescriptor::Str,
        TypeDescriptor::DynArray(Box::new(TypeDescriptor::Uint(IntWidth::W8))),
        TypeDescriptor::FixedArray(Box::new(TypeDescriptor::Uint(IntWidth::W8)), 2),
        TypeDescriptor::FixedArray(Box::new(TypeDescriptor::Uint(IntWidth::W8)), 23),
        TypeDescriptor::Tuple(vec![TypeDescriptor::Uint(IntWidth::W8)]),
        TypeDescriptor::Tuple(vec![
            TypeDescriptor::Uint(IntWidth::W8),
            TypeDescriptor::Uint(IntWidth::W8),
        ]),
    ];
    for i in 0..trees.len() {
        for j in 0..trees.len() {
            if i != j {
                assert_ne!(canon(&trees[i]), canon(&trees[j]));
            }
        }
    }
}

#[test]
fn zero_parameter_signature() {
    let sig = canonical_signature(&b"get".to_vec(), &vec![]);
    assert_eq!(sig, b"get()".to_vec());
}

#[test]
fn multi_parameter_signature() {
    let sig = canonical_signature(
        &b"baz".to_vec(),
        &vec![TypeDescriptor::Uint(IntWidth::W32), TypeDescriptor::Bool],
    );
    assert_eq!(sig, b"baz(uint32,bool)".to_vec());
}

#[test]
fn keccak_selector_known_values() {
    // Known Keccak-256 selector values for canonical signatures.
    let s = selector_for(
        &b"baz".to_vec(),
        &vec![TypeDescriptor::Uint(IntWidth::W32), TypeDescriptor::Bool],
        HashAlgorithm::Keccak256,
    );
    assert_eq!(s, 0xcdcd77c0);
    let s2 = selector_for(
        &b"bar".to_vec(),
        &vec![TypeDescriptor::FixedArray(
            Box::new(TypeDescriptor::FixedBytes(3)),
            2,
        )],
        HashAlgorithm::Keccak256,
    );
    assert_eq!(s2, 0xfce353f6);
}

#[test]
fn digest_selector_known_values() {
    // First four bytes of keccak256("") and keccak256("abc").
    assert_eq!(hash_selector(&b"".to_vec(), HashAlgorithm::Keccak256), 0xc5d24601);
    assert_eq!(hash_selector(&b"abc".to_vec(), HashAlgorithm::Keccak256), 0x4e03657a);
    // First four bytes of sm3("abc"), from the GM/T 0004-2012 test vector.
    assert_eq!(hash_selector(&b"abc".to_vec(), HashAlgorithm::Sm3), 0x66c7f0f4);
}

#[test]
fn selector_hashing_is_deterministic() {
    let sig = b"transfer(address,uint128)".to_vec();
    for _ in 0..3 {
        assert_eq!(
            hash_selector(&sig, HashAlgorithm::Keccak256),
            hash_selector(&sig, HashAlgorithm::Keccak256)
        );
        assert_eq!(
            hash_selector(&sig, HashAlgorithm::Sm3),
            hash_selector(&sig, HashAlgorithm::Sm3)
        );
    }
    // The two algorithms are genuinely different functions.
    assert_ne!(
        hash_selector(&sig, HashAlgorithm::Keccak256),
        hash_selector(&sig, HashAlgorithm::Sm3)
    );
}

#[test]
fn validity_of_descriptors_and_names() {
    assert!(check_valid_ty(&TypeDescriptor::FixedBytes(1)));
    assert!(check_valid_ty(&TypeDescriptor::FixedBytes(32)));
    assert!(!check_valid_ty(&TypeDescriptor::FixedBytes(0)));
    assert!(!check_valid_ty(&TypeDescriptor::FixedBytes(33)));
    assert!(!check_valid_ty(&TypeDescriptor::FixedArray(
        Box::new(TypeDescriptor::Bool),
        0
    )));
    assert!(!check_valid_ty(&TypeDescriptor::Tuple(vec![])));
    assert!(check_valid_ty(&TypeDescriptor::Tuple(vec![TypeDescriptor::Bool])));
    assert!(check_valid_name(&b"inc_by".to_vec()));
    assert!(check_valid_name(&b"_x9".to_vec()));
    assert!(!check_valid_name(&b"".to_vec()));
    assert!(!check_valid_name(&b"9lives".to_vec()));
    assert!(!check_valid_name(&b"with space".to_vec()));
}

#[test]
fn decimal_rendering() {
    assert_eq!(dec_digits(0), b"0".to_vec());
    assert_eq!(dec_digits(7), b"7".to_vec());
    assert_eq!(dec_digits(32), b"32".to_vec());
    assert_eq!(dec_digits(1280), b"1280".to_vec());
}
